//! Paths as text.
//!
//! A path is a string whose components are separated by `/`. Its final
//! component names the file, unless that component is empty, `.` or `..`. A
//! file name splits at its last dot into stem and extension; a name with no
//! dot, or whose only dot comes first, has no extension and is its own stem.
//!
//! Scene files are told by their extension, compared without regard to ASCII
//! case, and each converted mesh is written under the stem of the scene file
//! it came from.

use vstd::prelude::*;
use vstd::string::*;

verus! {

/// The index of the last `c` in `s`, or -1 where `s` holds none.
pub open spec fn last_index_of(s: Seq<char>, c: char) -> int
    decreases s.len(),
{
    if s.len() == 0 {
        -1
    } else if s.last() == c {
        s.len() - 1
    } else {
        last_index_of(s.drop_last(), c)
    }
}

/// The final component of `path`: what follows its last `/`.
pub open spec fn file_name_of(path: Seq<char>) -> Seq<char> {
    path.subrange(last_index_of(path, '/') + 1, path.len() as int)
}

/// Whether a final component names a file.
pub open spec fn is_file_name(name: Seq<char>) -> bool {
    &&& name.len() > 0
    &&& !(name.len() == 1 && name[0] == '.')
    &&& !(name.len() == 2 && name[0] == '.' && name[1] == '.')
}

/// The part of a file name before its last dot, or the whole name where it
/// has no extension.
pub open spec fn stem_of_name(name: Seq<char>) -> Seq<char> {
    let dot = last_index_of(name, '.');
    if dot <= 0 {
        name
    } else {
        name.subrange(0, dot)
    }
}

/// The part of a file name after its last dot, where that dot is not the
/// name's first character.
pub open spec fn extension_of_name(name: Seq<char>) -> Option<Seq<char>> {
    let dot = last_index_of(name, '.');
    if dot <= 0 {
        None
    } else {
        Some(name.subrange(dot + 1, name.len() as int))
    }
}

/// The stem of the file that `path` names, if it names one.
pub open spec fn file_stem_of(path: Seq<char>) -> Option<Seq<char>> {
    if is_file_name(file_name_of(path)) {
        Some(stem_of_name(file_name_of(path)))
    } else {
        None
    }
}

/// The extension of the file that `path` names, if it names one and the name
/// has an extension.
pub open spec fn extension_of(path: Seq<char>) -> Option<Seq<char>> {
    if is_file_name(file_name_of(path)) {
        extension_of_name(file_name_of(path))
    } else {
        None
    }
}

/// `c` in lower case if it is an ASCII capital, else `c`.
pub open spec fn ascii_lower(c: char) -> char {
    if 'A' <= c && c <= 'Z' {
        ((c as u8) + 32) as char
    } else {
        c
    }
}

/// Whether two texts are equal but for the case of their ASCII letters.
pub open spec fn same_ignoring_case(a: Seq<char>, b: Seq<char>) -> bool {
    &&& a.len() == b.len()
    &&& forall|i: int| 0 <= i < a.len() ==> ascii_lower(#[trigger] a[i]) == ascii_lower(b[i])
}

/// The texts of a list of strings.
pub open spec fn texts(list: Seq<String>) -> Seq<Seq<char>> {
    list.map_values(|s: String| s@)
}

/// The text of an optional string.
pub open spec fn text(s: Option<String>) -> Option<Seq<char>> {
    match s {
        Some(s) => Some(s@),
        None => None,
    }
}

/// Whether `extension` is on the allow-list, case aside.
pub open spec fn on_list(extension: Seq<char>, allowed: Seq<Seq<char>>) -> bool {
    exists|k: int| 0 <= k < allowed.len() && same_ignoring_case(extension, #[trigger] allowed[k])
}

/// Whether `path` names a file whose extension is on the allow-list.
pub open spec fn is_candidate(path: Seq<char>, allowed: Seq<Seq<char>>) -> bool {
    match extension_of(path) {
        Some(extension) => on_list(extension, allowed),
        None => false,
    }
}

/// `name` placed in directory `dir`. An empty `dir` stands for the current
/// directory, and a `dir` that ends in `/` gets no second one.
pub open spec fn join_of(dir: Seq<char>, name: Seq<char>) -> Seq<char> {
    if dir.len() == 0 || dir.last() == '/' {
        dir + name
    } else {
        dir + seq!['/'] + name
    }
}

/// Where the mesh converted from `source_path` is written:
/// `<output_dir>/<stem>.<artifact_extension>`, with the stem of the source
/// file. Two sources with one stem share a destination.
pub open spec fn destination_of(
    output_dir: Seq<char>,
    source_path: Seq<char>,
    artifact_extension: Seq<char>,
) -> Option<Seq<char>> {
    match file_stem_of(source_path) {
        Some(stem) => Some(join_of(output_dir, stem + seq!['.'] + artifact_extension)),
        None => None,
    }
}

/// What `last_index_of` finds: the greatest index that holds `c`.
pub proof fn lemma_last_index_of(s: Seq<char>, c: char)
    ensures
        -1 <= last_index_of(s, c) < s.len(),
        last_index_of(s, c) >= 0 ==> s[last_index_of(s, c)] == c,
        forall|j: int| last_index_of(s, c) < j < s.len() ==> s[j] != c,
    decreases s.len(),
{
    if s.len() > 0 && s.last() != c {
        let front = s.drop_last();
        lemma_last_index_of(front, c);
        assert forall|j: int| last_index_of(s, c) < j < s.len() implies s[j] != c by {
            if j < front.len() {
                assert(front[j] == s[j]);
            }
        }
    }
}

/// `last_index_of` is the only index that holds `c` with none after it.
pub proof fn lemma_last_index_of_unique(s: Seq<char>, c: char, i: int)
    requires
        -1 <= i < s.len(),
        i >= 0 ==> s[i] == c,
        forall|j: int| i < j < s.len() ==> s[j] != c,
    ensures
        last_index_of(s, c) == i,
{
    lemma_last_index_of(s, c);
}

/// A file name never holds a separator.
pub proof fn lemma_file_name_has_no_separator(path: Seq<char>)
    ensures
        forall|j: int| 0 <= j < file_name_of(path).len() ==> file_name_of(path)[j] != '/',
{
    lemma_last_index_of(path, '/');
}

/// A path with an extension names a file, so it has a stem, and with it a
/// destination.
pub proof fn lemma_candidate_has_destination(
    path: Seq<char>,
    allowed: Seq<Seq<char>>,
    output_dir: Seq<char>,
    artifact_extension: Seq<char>,
)
    requires
        is_candidate(path, allowed),
    ensures
        file_stem_of(path) is Some,
        destination_of(output_dir, path, artifact_extension) is Some,
{
}

/// Paths that end in the same file name have the same destination.
pub proof fn lemma_same_name_same_destination(
    a: Seq<char>,
    b: Seq<char>,
    output_dir: Seq<char>,
    artifact_extension: Seq<char>,
)
    requires
        file_name_of(a) == file_name_of(b),
    ensures
        destination_of(output_dir, a, artifact_extension) == destination_of(
            output_dir,
            b,
            artifact_extension,
        ),
{
}

/// The index of the last `c` among the first `len` characters of `s`.
fn find_last(s: &str, c: char, len: usize) -> (r: Option<usize>)
    requires
        len == s@.len(),
    ensures
        match r {
            Some(i) => last_index_of(s@, c) == i && i < len,
            None => last_index_of(s@, c) == -1,
        },
{
    let mut i: usize = len;
    while i > 0
        invariant
            i <= len,
            len == s@.len(),
            forall|j: int| i <= j < len ==> s@[j] != c,
        decreases i,
    {
        i = i - 1;
        if s.get_char(i) == c {
            proof {
                lemma_last_index_of_unique(s@, c, i as int);
            }
            return Some(i);
        }
    }
    proof {
        lemma_last_index_of_unique(s@, c, -1);
    }
    None
}

/// The final component of `path`, whether or not it names a file.
fn final_component(path: &str) -> (name: &str)
    ensures
        name@ == file_name_of(path@),
{
    let len = path.unicode_len();
    let start: usize = match find_last(path, '/', len) {
        Some(i) => i + 1,
        None => 0,
    };
    path.substring_char(start, len)
}

/// Whether `name`, of `len` characters, names a file.
fn names_file(name: &str, len: usize) -> (r: bool)
    requires
        len == name@.len(),
    ensures
        r == is_file_name(name@),
{
    if len == 0 {
        false
    } else if len == 1 {
        name.get_char(0) != '.'
    } else if len == 2 {
        !(name.get_char(0) == '.' && name.get_char(1) == '.')
    } else {
        true
    }
}

/// The final component of `path`, where it names a file.
pub fn file_name(path: &str) -> (r: Option<String>)
    ensures
        text(r) == (if is_file_name(file_name_of(path@)) {
            Some(file_name_of(path@))
        } else {
            None
        }),
{
    let name = final_component(path);
    let len = name.unicode_len();
    if names_file(name, len) {
        Some(String::from_str(name))
    } else {
        None
    }
}

/// The stem of the file that `path` names, where it names one.
pub fn file_stem(path: &str) -> (r: Option<String>)
    ensures
        text(r) == file_stem_of(path@),
{
    let name = final_component(path);
    let len = name.unicode_len();
    if !names_file(name, len) {
        return None;
    }
    match find_last(name, '.', len) {
        Some(dot) => {
            if dot > 0 {
                Some(String::from_str(name.substring_char(0, dot)))
            } else {
                Some(String::from_str(name))
            }
        },
        None => Some(String::from_str(name)),
    }
}

/// The extension of the file that `path` names, where it names one and the
/// name has an extension. The dot is not part of it.
pub fn extension(path: &str) -> (r: Option<String>)
    ensures
        text(r) == extension_of(path@),
{
    let name = final_component(path);
    let len = name.unicode_len();
    if !names_file(name, len) {
        return None;
    }
    match find_last(name, '.', len) {
        Some(dot) => {
            if dot > 0 {
                Some(String::from_str(name.substring_char(dot + 1, len)))
            } else {
                None
            }
        },
        None => None,
    }
}

/// `c` in lower case if it is an ASCII capital, else `c`.
pub fn to_ascii_lower(c: char) -> (r: char)
    ensures
        r == ascii_lower(c),
{
    if 'A' <= c && c <= 'Z' {
        ((c as u8) + 32) as char
    } else {
        c
    }
}

/// Whether `a` and `b` are equal but for the case of their ASCII letters.
pub fn eq_ignoring_case(a: &str, b: &str) -> (r: bool)
    ensures
        r == same_ignoring_case(a@, b@),
{
    let len = a.unicode_len();
    if len != b.unicode_len() {
        return false;
    }
    let mut i: usize = 0;
    while i < len
        invariant
            i <= len,
            len == a@.len(),
            len == b@.len(),
            forall|j: int| 0 <= j < i ==> ascii_lower(#[trigger] a@[j]) == ascii_lower(b@[j]),
        decreases len - i,
    {
        if to_ascii_lower(a.get_char(i)) != to_ascii_lower(b.get_char(i)) {
            return false;
        }
        i = i + 1;
    }
    true
}

/// Whether `path` names a file whose extension is on the allow-list, case
/// aside.
pub fn has_allowed_extension(path: &str, allowed: &Vec<String>) -> (r: bool)
    ensures
        r == is_candidate(path@, texts(allowed@)),
{
    let found = match extension(path) {
        Some(found) => found,
        None => {
            return false;
        },
    };
    let mut k: usize = 0;
    while k < allowed.len()
        invariant
            k <= allowed.len(),
            extension_of(path@) == Some(found@),
            forall|j: int| 0 <= j < k ==> !same_ignoring_case(found@, #[trigger] texts(allowed@)[j]),
        decreases allowed.len() - k,
    {
        if eq_ignoring_case(found.as_str(), allowed[k].as_str()) {
            assert(same_ignoring_case(found@, texts(allowed@)[k as int]));
            return true;
        }
        k = k + 1;
    }
    false
}

/// `name` placed in directory `dir`.
pub fn join(dir: &str, name: &str) -> (r: String)
    ensures
        r@ == join_of(dir@, name@),
{
    let len = dir.unicode_len();
    let mut out = String::from_str(dir);
    if len > 0 && dir.get_char(len - 1) != '/' {
        proof {
            reveal_strlit("/");
        }
        out.append("/");
        assert("/"@ =~= seq!['/']);
    }
    out.append(name);
    out
}

/// Where the mesh converted from `source_path` is written, where that path
/// names a file.
pub fn destination(output_dir: &str, source_path: &str, artifact_extension: &str) -> (r: Option<
    String,
>)
    ensures
        text(r) == destination_of(output_dir@, source_path@, artifact_extension@),
{
    match file_stem(source_path) {
        Some(stem) => {
            let mut name = stem;
            proof {
                reveal_strlit(".");
            }
            name.append(".");
            assert("."@ =~= seq!['.']);
            name.append(artifact_extension);
            Some(join(output_dir, name.as_str()))
        },
        None => None,
    }
}

} // verus!
