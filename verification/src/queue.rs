//! The queue of scene files whose load is pending, and the record of those
//! that are done.
//!
//! Every discovered scene file enters the queue once, with the ticket of its
//! load. On each tick the caller says which tickets report ready; the entries
//! of those leave the queue and their paths join the processed record. An
//! entry whose load never becomes ready stays pending for good.

use crate::path::file_stem_of;
use vstd::prelude::*;

verus! {

/// A scene file whose load has been requested.
#[derive(Clone, Debug, PartialEq, Eq)]
pub struct PendingEntry<T> {
    /// Where the scene file lies.
    pub source_path: String,
    /// The handle of the load in progress.
    pub ticket: T,
}

/// A pending entry as contracts see it.
pub struct EntryView<T> {
    pub path: Seq<char>,
    pub ticket: T,
}

impl<T> View for PendingEntry<T> {
    type V = EntryView<T>;

    open spec fn view(&self) -> EntryView<T> {
        EntryView { path: self.source_path@, ticket: self.ticket }
    }
}

/// The pending entries in discovery order, and the paths of the processed
/// files in the order in which they were recorded.
pub struct LoadQueue<T> {
    pending: Vec<PendingEntry<T>>,
    processed: Vec<String>,
}

/// A queue as contracts see it.
pub struct QueueView<T> {
    pub pending: Seq<EntryView<T>>,
    pub processed: Seq<Seq<char>>,
}

impl<T> QueueView<T> {
    /// Every pending path names a file, so that its artifact has a name.
    pub open spec fn names_files(self) -> bool {
        forall|i: int|
            0 <= i < self.pending.len() ==> file_stem_of((#[trigger] self.pending[i]).path) is Some
    }
}

impl<T> View for LoadQueue<T> {
    type V = QueueView<T>;

    closed spec fn view(&self) -> QueueView<T> {
        QueueView {
            pending: self.pending@.map_values(|e: PendingEntry<T>| e@),
            processed: self.processed@.map_values(|p: String| p@),
        }
    }
}

/// Whether the ticket of the entry at `i` reports ready. An entry that
/// `ready` does not reach is not ready.
pub open spec fn is_ready(ready: Seq<bool>, i: int) -> bool {
    0 <= i < ready.len() && ready[i]
}

/// The entries from index `from` on that stay pending, in queue order.
pub open spec fn kept_from<E>(entries: Seq<E>, ready: Seq<bool>, from: int) -> Seq<E>
    decreases entries.len() - from,
{
    if from < 0 || from >= entries.len() {
        Seq::empty()
    } else if is_ready(ready, from) {
        kept_from(entries, ready, from + 1)
    } else {
        seq![entries[from]] + kept_from(entries, ready, from + 1)
    }
}

/// The entries from index `from` on that leave the queue, in queue order.
pub open spec fn retired_from<E>(entries: Seq<E>, ready: Seq<bool>, from: int) -> Seq<E>
    decreases entries.len() - from,
{
    if from < 0 || from >= entries.len() {
        Seq::empty()
    } else if is_ready(ready, from) {
        seq![entries[from]] + retired_from(entries, ready, from + 1)
    } else {
        retired_from(entries, ready, from + 1)
    }
}

/// The entries that stay pending: those not ready, in queue order.
pub open spec fn kept<E>(entries: Seq<E>, ready: Seq<bool>) -> Seq<E> {
    kept_from(entries, ready, 0)
}

/// The entries that leave the queue: those ready, in queue order.
pub open spec fn retired<E>(entries: Seq<E>, ready: Seq<bool>) -> Seq<E> {
    retired_from(entries, ready, 0)
}

/// The paths of a sequence of entries.
pub open spec fn paths_of<T>(entries: Seq<EntryView<T>>) -> Seq<Seq<char>> {
    entries.map_values(|e: EntryView<T>| e.path)
}

/// How many of the entries before index `i` are not ready.
pub open spec fn waiting_before(ready: Seq<bool>, i: int) -> nat
    decreases i,
{
    if i <= 0 {
        0
    } else if is_ready(ready, i - 1) {
        waiting_before(ready, i - 1)
    } else {
        waiting_before(ready, i - 1) + 1
    }
}

/// How many of the entries before index `i` are ready.
pub open spec fn ready_before(ready: Seq<bool>, i: int) -> int {
    i - waiting_before(ready, i)
}

/// The entry at `i` is not ready and is the `k`-th of those.
pub open spec fn stays_at(ready: Seq<bool>, len: nat, i: int, k: int) -> bool {
    0 <= i < len && !is_ready(ready, i) && waiting_before(ready, i) == k
}

/// The entry at `i` is ready and is the `k`-th of those.
pub open spec fn leaves_at(ready: Seq<bool>, len: nat, i: int, k: int) -> bool {
    0 <= i < len && is_ready(ready, i) && ready_before(ready, i) == k
}

/// The entry that stands at `k` after the tick was in the queue before it
/// and was not ready.
pub open spec fn stayed<E>(entries: Seq<E>, ready: Seq<bool>, k: int) -> bool {
    exists|i: int| #[trigger]
        stays_at(ready, entries.len(), i, k) && entries[i] == kept(entries, ready)[k]
}

/// The `k`-th entry to leave on the tick was in the queue before it and was
/// ready.
pub open spec fn left<E>(entries: Seq<E>, ready: Seq<bool>, k: int) -> bool {
    exists|i: int| #[trigger]
        leaves_at(ready, entries.len(), i, k) && entries[i] == retired(entries, ready)[k]
}

impl<T> LoadQueue<T> {
    /// A queue with nothing pending and nothing processed.
    pub fn new() -> (queue: LoadQueue<T>)
        ensures
            queue@.pending.len() == 0,
            queue@.processed.len() == 0,
            queue@.names_files(),
    {
        LoadQueue { pending: Vec::new(), processed: Vec::new() }
    }

    /// Puts a discovered scene file at the end of the queue. A path that
    /// names no file is refused, and the queue stays as it is.
    pub fn enqueue(&mut self, source_path: String, ticket: T) -> (accepted: bool)
        requires
            old(self)@.names_files(),
        ensures
            accepted == (file_stem_of(source_path@) is Some),
            accepted ==> final(self)@.pending == old(self)@.pending.push(
                EntryView { path: source_path@, ticket },
            ),
            !accepted ==> final(self)@.pending == old(self)@.pending,
            final(self)@.processed == old(self)@.processed,
            final(self)@.names_files(),
    {
        let names_file = crate::path::file_stem(source_path.as_str()).is_some();
        if names_file {
            self.pending.push(PendingEntry { source_path, ticket });
            assert(self@.pending =~= old(self)@.pending.push(
                EntryView { path: source_path@, ticket },
            ));
        }
        names_file
    }

    /// The number of pending entries.
    pub fn pending_len(&self) -> (n: usize)
        ensures
            n == self@.pending.len(),
    {
        self.pending.len()
    }

    /// Whether nothing is pending.
    pub fn is_drained(&self) -> (r: bool)
        ensures
            r == (self@.pending.len() == 0),
    {
        self.pending.len() == 0
    }

    /// The pending entry at `index`, counted in discovery order.
    pub fn entry(&self, index: usize) -> (r: Option<&PendingEntry<T>>)
        ensures
            r is Some == (index < self@.pending.len()),
            r matches Some(e) ==> e@ == self@.pending[index as int],
    {
        if index < self.pending.len() {
            Some(&self.pending[index])
        } else {
            None
        }
    }

    /// The number of processed files.
    pub fn processed_len(&self) -> (n: usize)
        ensures
            n == self@.processed.len(),
    {
        self.processed.len()
    }

    /// The path of the processed file at `index`, counted in the order of
    /// recording.
    pub fn processed_path(&self, index: usize) -> (r: Option<&String>)
        ensures
            r is Some == (index < self@.processed.len()),
            r matches Some(p) ==> p@ == self@.processed[index as int],
    {
        if index < self.processed.len() {
            Some(&self.processed[index])
        } else {
            None
        }
    }

    /// Removes the entries whose ticket reports ready and records their
    /// paths as processed. `ready[i]` speaks of the entry at `i`. The entries
    /// that stay keep their order. The paths of those that leave are
    /// recorded from the back of the queue to its front, after what was
    /// recorded before. Returns how many entries left.
    pub fn retire(&mut self, ready: &Vec<bool>) -> (count: usize)
        requires
            old(self)@.names_files(),
        ensures
            final(self)@.pending == kept(old(self)@.pending, ready@),
            final(self)@.processed == old(self)@.processed + paths_of(
                retired(old(self)@.pending, ready@),
            ).reverse(),
            count == retired(old(self)@.pending, ready@).len(),
            final(self)@.names_files(),
    {
        let ghost before = self@;
        let mut count: usize = 0;
        let total = self.pending.len();
        let mut i: usize = total;
        proof {
            assert(self@.pending =~= before.pending.take(i as int) + kept_from(
                before.pending,
                ready@,
                i as int,
            ));
            assert(self@.processed =~= before.processed + paths_of(
                retired_from(before.pending, ready@, i as int),
            ).reverse());
        }
        while i > 0
            invariant
                i <= total == before.pending.len(),
                before.names_files(),
                self@.names_files(),
                self@.pending == before.pending.take(i as int) + kept_from(
                    before.pending,
                    ready@,
                    i as int,
                ),
                self@.processed == before.processed + paths_of(
                    retired_from(before.pending, ready@, i as int),
                ).reverse(),
                count == retired_from(before.pending, ready@, i as int).len(),
                count <= total - i,
            decreases i,
        {
            i = i - 1;
            assert(self.pending@.len() == self@.pending.len());
            let ghost tail_kept = kept_from(before.pending, ready@, i + 1);
            let ghost tail_retired = retired_from(before.pending, ready@, i + 1);
            if i < ready.len() && ready[i] {
                let ghost pre = self@.pending;
                let ghost pre_processed = self@.processed;
                assert(pre[i as int] == before.pending[i as int]);
                let entry = self.pending.remove(i);
                self.processed.push(entry.source_path);
                count = count + 1;
                proof {
                    assert(entry@ == pre[i as int]);
                    assert(self@.pending =~= pre.remove(i as int));
                    assert(pre.remove(i as int) =~= before.pending.take(i as int) + tail_kept);
                    assert(self@.processed =~= pre_processed.push(entry.source_path@));
                    assert(retired_from(before.pending, ready@, i as int) == seq![
                        before.pending[i as int],
                    ] + tail_retired);
                    assert(paths_of(seq![before.pending[i as int]] + tail_retired).reverse()
                        =~= paths_of(tail_retired).reverse().push(entry.source_path@));
                    assert(self@.processed =~= before.processed + paths_of(
                        retired_from(before.pending, ready@, i as int),
                    ).reverse());
                }
            } else {
                proof {
                    assert(self@.pending =~= before.pending.take(i as int) + (seq![
                        before.pending[i as int],
                    ] + tail_kept));
                }
            }
        }
        proof {
            assert(before.pending.take(0) + kept(before.pending, ready@) =~= kept(
                before.pending,
                ready@,
            ));
        }
        count
    }
}

/// Both counts grow with the index, and together they make it up.
pub proof fn lemma_counts_grow(ready: Seq<bool>, i: int, j: int)
    requires
        0 <= i <= j,
    ensures
        waiting_before(ready, i) <= waiting_before(ready, j),
        ready_before(ready, i) <= ready_before(ready, j),
        0 <= ready_before(ready, i),
        waiting_before(ready, i) <= i,
    decreases j,
{
    if i < j {
        lemma_counts_grow(ready, i, j - 1);
    } else if i > 0 {
        lemma_counts_grow(ready, i - 1, i - 1);
    }
}

proof fn lemma_kept_from<E>(entries: Seq<E>, ready: Seq<bool>, from: int)
    requires
        0 <= from <= entries.len(),
    ensures
        kept_from(entries, ready, from).len() == waiting_before(ready, entries.len() as int)
            - waiting_before(ready, from),
        forall|i: int|
            from <= i < entries.len() && !is_ready(ready, i) ==> {
                let k = #[trigger] waiting_before(ready, i) - waiting_before(ready, from);
                0 <= k < kept_from(entries, ready, from).len() && kept_from(entries, ready, from)[k]
                    == entries[i]
            },
    decreases entries.len() - from,
{
    let len = entries.len() as int;
    if from < len {
        lemma_kept_from(entries, ready, from + 1);
        let here = kept_from(entries, ready, from);
        let rest = kept_from(entries, ready, from + 1);
        let base = waiting_before(ready, from);
        assert forall|i: int| from <= i < len && !is_ready(ready, i) implies {
            let k = #[trigger] waiting_before(ready, i) - base;
            0 <= k < here.len() && here[k] == entries[i]
        } by {
            if i > from {
                lemma_counts_grow(ready, from + 1, i);
                let k1 = waiting_before(ready, i) - waiting_before(ready, from + 1);
                assert(rest[k1] == entries[i]);
            }
        }
    }
}

proof fn lemma_retired_from<E>(entries: Seq<E>, ready: Seq<bool>, from: int)
    requires
        0 <= from <= entries.len(),
    ensures
        retired_from(entries, ready, from).len() == ready_before(ready, entries.len() as int)
            - ready_before(ready, from),
        forall|i: int|
            from <= i < entries.len() && is_ready(ready, i) ==> {
                let k = #[trigger] ready_before(ready, i) - ready_before(ready, from);
                0 <= k < retired_from(entries, ready, from).len() && retired_from(
                    entries,
                    ready,
                    from,
                )[k] == entries[i]
            },
    decreases entries.len() - from,
{
    let len = entries.len() as int;
    if from < len {
        lemma_retired_from(entries, ready, from + 1);
        let here = retired_from(entries, ready, from);
        let rest = retired_from(entries, ready, from + 1);
        let base = ready_before(ready, from);
        assert forall|i: int| from <= i < len && is_ready(ready, i) implies {
            let k = #[trigger] ready_before(ready, i) - base;
            0 <= k < here.len() && here[k] == entries[i]
        } by {
            if i > from {
                lemma_counts_grow(ready, from + 1, i);
                let k1 = ready_before(ready, i) - ready_before(ready, from + 1);
                assert(rest[k1] == entries[i]);
            }
        }
    }
}

/// The index in the queue of the entry that stands at `k` among those kept
/// from `from` on.
proof fn lemma_kept_source<E>(entries: Seq<E>, ready: Seq<bool>, from: int, k: int) -> (i: int)
    requires
        0 <= from <= entries.len(),
        0 <= k < kept_from(entries, ready, from).len(),
    ensures
        from <= i < entries.len(),
        !is_ready(ready, i),
        waiting_before(ready, i) == k + waiting_before(ready, from),
        entries[i] == kept_from(entries, ready, from)[k],
    decreases entries.len() - from,
{
    if is_ready(ready, from) {
        lemma_kept_source(entries, ready, from + 1, k)
    } else if k == 0 {
        from
    } else {
        lemma_kept_source(entries, ready, from + 1, k - 1)
    }
}

/// The index in the queue of the entry that stands at `k` among those
/// retired from `from` on.
proof fn lemma_retired_source<E>(entries: Seq<E>, ready: Seq<bool>, from: int, k: int) -> (i: int)
    requires
        0 <= from <= entries.len(),
        0 <= k < retired_from(entries, ready, from).len(),
    ensures
        from <= i < entries.len(),
        is_ready(ready, i),
        ready_before(ready, i) == k + ready_before(ready, from),
        entries[i] == retired_from(entries, ready, from)[k],
    decreases entries.len() - from,
{
    if !is_ready(ready, from) {
        lemma_retired_source(entries, ready, from + 1, k)
    } else if k == 0 {
        from
    } else {
        lemma_retired_source(entries, ready, from + 1, k - 1)
    }
}

/// An entry leaves the queue if and only if its ticket reports ready.
///
/// The entries that are not ready stay, each at the place that its rank
/// among them gives, and nothing else is in the queue afterwards. The
/// entries that are ready leave, and nothing else leaves. Every entry does
/// one or the other.
pub proof fn lemma_retired_iff_ready<E>(entries: Seq<E>, ready: Seq<bool>)
    ensures
        kept(entries, ready).len() + retired(entries, ready).len() == entries.len(),
        kept(entries, ready).len() == waiting_before(ready, entries.len() as int),
        forall|i: int|
            0 <= i < entries.len() && !is_ready(ready, i) ==> {
                let k = #[trigger] waiting_before(ready, i);
                k < kept(entries, ready).len() && kept(entries, ready)[k as int] == entries[i]
            },
        forall|i: int|
            0 <= i < entries.len() && is_ready(ready, i) ==> {
                let k = #[trigger] ready_before(ready, i);
                0 <= k < retired(entries, ready).len() && retired(entries, ready)[k] == entries[i]
            },
        forall|k: int| 0 <= k < kept(entries, ready).len() ==> #[trigger] stayed(entries, ready, k),
        forall|k: int| 0 <= k < retired(entries, ready).len() ==> #[trigger] left(entries, ready, k),
{
    lemma_kept_from(entries, ready, 0);
    lemma_retired_from(entries, ready, 0);
    assert forall|i: int| 0 <= i < entries.len() && !is_ready(ready, i) implies {
        let k = #[trigger] waiting_before(ready, i);
        k < kept(entries, ready).len() && kept(entries, ready)[k as int] == entries[i]
    } by {
        let k = waiting_before(ready, i) - waiting_before(ready, 0);
        assert(kept_from(entries, ready, 0)[k] == entries[i]);
    }
    assert forall|i: int| 0 <= i < entries.len() && is_ready(ready, i) implies {
        let k = #[trigger] ready_before(ready, i);
        0 <= k < retired(entries, ready).len() && retired(entries, ready)[k] == entries[i]
    } by {
        let k = ready_before(ready, i) - ready_before(ready, 0);
        assert(retired_from(entries, ready, 0)[k] == entries[i]);
    }
    assert forall|k: int| 0 <= k < kept(entries, ready).len() implies #[trigger] stayed(
        entries,
        ready,
        k,
    ) by {
        let i = lemma_kept_source(entries, ready, 0, k);
        assert(stays_at(ready, entries.len(), i, k));
    }
    assert forall|k: int| 0 <= k < retired(entries, ready).len() implies #[trigger] left(
        entries,
        ready,
        k,
    ) by {
        let i = lemma_retired_source(entries, ready, 0, k);
        assert(leaves_at(ready, entries.len(), i, k));
    }
}

/// A tick on which every pending ticket reports ready empties the queue.
pub proof fn lemma_all_ready_drains<E>(entries: Seq<E>, ready: Seq<bool>)
    requires
        forall|i: int| 0 <= i < entries.len() ==> is_ready(ready, i),
    ensures
        kept(entries, ready).len() == 0,
        retired(entries, ready) == entries,
{
    lemma_retired_iff_ready(entries, ready);
    if kept(entries, ready).len() > 0 {
        assert(stayed(entries, ready, 0));
        let i = choose|i: int| #[trigger]
            stays_at(ready, entries.len(), i, 0) && entries[i] == kept(entries, ready)[0];
        assert(is_ready(ready, i));
    }
    assert forall|i: int| 0 <= i < entries.len() implies retired(entries, ready)[i]
        == entries[i] by {
        lemma_nothing_waits(ready, i);
        assert(ready_before(ready, i) == i);
    }
    assert(retired(entries, ready) =~= entries);
}

proof fn lemma_nothing_waits(ready: Seq<bool>, i: int)
    requires
        forall|j: int| 0 <= j < i ==> is_ready(ready, j),
    ensures
        waiting_before(ready, i) == 0,
    decreases i,
{
    if i > 0 {
        lemma_nothing_waits(ready, i - 1);
    }
}

/// A tick on which no pending ticket reports ready leaves the queue as it
/// is, and a tick on which one does makes the queue shorter.
pub proof fn lemma_retire_progress<E>(entries: Seq<E>, ready: Seq<bool>)
    ensures
        kept(entries, ready).len() <= entries.len(),
        (exists|i: int| 0 <= i < entries.len() && is_ready(ready, i)) <==> kept(
            entries,
            ready,
        ).len() < entries.len(),
        (forall|i: int| 0 <= i < entries.len() ==> !is_ready(ready, i)) ==> kept(entries, ready)
            == entries,
{
    lemma_retired_iff_ready(entries, ready);
    if exists|i: int| 0 <= i < entries.len() && is_ready(ready, i) {
        let i = choose|i: int| 0 <= i < entries.len() && is_ready(ready, i);
        assert(0 <= ready_before(ready, i) < retired(entries, ready).len());
    }
    if kept(entries, ready).len() < entries.len() {
        assert(left(entries, ready, 0));
        let i = choose|i: int| #[trigger]
            leaves_at(ready, entries.len(), i, 0) && entries[i] == retired(entries, ready)[0];
        assert(0 <= i < entries.len() && is_ready(ready, i));
    }
    if forall|i: int| 0 <= i < entries.len() ==> !is_ready(ready, i) {
        assert forall|i: int| 0 <= i < entries.len() implies kept(entries, ready)[i]
            == entries[i] by {
            lemma_all_wait(ready, i);
            assert(kept(entries, ready)[waiting_before(ready, i) as int] == entries[i]);
        }
        lemma_all_wait(ready, entries.len() as int);
        assert(kept(entries, ready) =~= entries);
    }
}

proof fn lemma_all_wait(ready: Seq<bool>, i: int)
    requires
        0 <= i,
        forall|j: int| 0 <= j < i ==> !is_ready(ready, j),
    ensures
        waiting_before(ready, i) == i,
    decreases i,
{
    if i > 0 {
        lemma_all_wait(ready, i - 1);
    }
}

} // verus!
