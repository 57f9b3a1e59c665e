use meshlet_pipeline::path::{
    destination, eq_ignoring_case, extension, file_name, file_stem, has_allowed_extension, join,
    to_ascii_lower,
};

fn allow_list() -> Vec<String> {
    vec![String::from("gltf"), String::from("glb")]
}

#[test]
fn file_name_is_what_follows_the_last_separator() {
    assert_eq!(file_name("models/x/mesh.glb"), Some(String::from("mesh.glb")));
    assert_eq!(file_name("mesh.glb"), Some(String::from("mesh.glb")));
    assert_eq!(file_name("/abs/dir/scene.gltf"), Some(String::from("scene.gltf")));
}

#[test]
fn paths_that_name_no_file_have_no_file_name() {
    assert_eq!(file_name(""), None);
    assert_eq!(file_name("models/"), None);
    assert_eq!(file_name("models/."), None);
    assert_eq!(file_name("models/.."), None);
    assert_eq!(file_name(".."), None);
    assert_eq!(file_stem("models/.."), None);
    assert_eq!(extension("models/"), None);
}

#[test]
fn stem_and_extension_split_at_the_last_dot() {
    assert_eq!(file_stem("models/monke.glb"), Some(String::from("monke")));
    assert_eq!(extension("models/monke.glb"), Some(String::from("glb")));
    assert_eq!(file_stem("a.b.c"), Some(String::from("a.b")));
    assert_eq!(extension("a.b.c"), Some(String::from("c")));
    assert_eq!(file_stem("dir.d/readme"), Some(String::from("readme")));
    assert_eq!(extension("dir.d/readme"), None);
}

#[test]
fn a_leading_dot_starts_no_extension() {
    assert_eq!(file_stem(".hidden"), Some(String::from(".hidden")));
    assert_eq!(extension(".hidden"), None);
    assert_eq!(file_stem(".hidden.glb"), Some(String::from(".hidden")));
    assert_eq!(extension(".hidden.glb"), Some(String::from("glb")));
}

#[test]
fn a_trailing_dot_gives_an_empty_extension() {
    assert_eq!(file_stem("mesh."), Some(String::from("mesh")));
    assert_eq!(extension("mesh."), Some(String::new()));
    assert_eq!(file_stem("..."), Some(String::from("..")));
    assert_eq!(extension("..."), Some(String::new()));
}

#[test]
fn ascii_capitals_are_lowered_and_nothing_else() {
    assert_eq!(to_ascii_lower('G'), 'g');
    assert_eq!(to_ascii_lower('A'), 'a');
    assert_eq!(to_ascii_lower('Z'), 'z');
    assert_eq!(to_ascii_lower('g'), 'g');
    assert_eq!(to_ascii_lower('@'), '@');
    assert_eq!(to_ascii_lower('['), '[');
    assert_eq!(to_ascii_lower('É'), 'É');
    assert_eq!(to_ascii_lower('1'), '1');
}

#[test]
fn comparison_ignores_ascii_case_only() {
    assert!(eq_ignoring_case("GLTF", "gltf"));
    assert!(eq_ignoring_case("GlB", "gLb"));
    assert!(eq_ignoring_case("", ""));
    assert!(!eq_ignoring_case("glb", "gltf"));
    assert!(!eq_ignoring_case("glb", "glc"));
    assert!(!eq_ignoring_case("É", "é"));
}

#[test]
fn scene_files_are_told_by_extension_whatever_the_case() {
    let allowed = allow_list();
    assert!(has_allowed_extension("models/a.glb", &allowed));
    assert!(has_allowed_extension("models/b.gltf", &allowed));
    assert!(has_allowed_extension("models/C.GLB", &allowed));
    assert!(has_allowed_extension("models/d.GlTf", &allowed));
    assert!(has_allowed_extension("x/y/z/deep.glb", &allowed));
}

#[test]
fn other_files_are_not_scene_files() {
    let allowed = allow_list();
    assert!(!has_allowed_extension("models/a.png", &allowed));
    assert!(!has_allowed_extension("models/glb", &allowed));
    assert!(!has_allowed_extension("models/.glb", &allowed));
    assert!(!has_allowed_extension("models/a.glb/", &allowed));
    assert!(!has_allowed_extension("models/a.glb.bak", &allowed));
    assert!(!has_allowed_extension("models.glb/readme", &allowed));
    assert!(!has_allowed_extension("", &allowed));
    assert!(!has_allowed_extension("a.glb", &Vec::new()));
}

#[test]
fn join_adds_one_separator_where_one_is_needed() {
    assert_eq!(join("assets/meshlets", "a.meshlet"), "assets/meshlets/a.meshlet");
    assert_eq!(join("assets/meshlets/", "a.meshlet"), "assets/meshlets/a.meshlet");
    assert_eq!(join("", "a.meshlet"), "a.meshlet");
    assert_eq!(join("/", "a.meshlet"), "/a.meshlet");
}

#[test]
fn destination_is_output_dir_stem_and_artifact_extension() {
    assert_eq!(
        destination("assets/meshlets", "assets/models/monke.glb", "meshlet"),
        Some(String::from("assets/meshlets/monke.meshlet"))
    );
    assert_eq!(
        destination("out/", "in/scene.v2.gltf", "meshlet"),
        Some(String::from("out/scene.v2.meshlet"))
    );
    assert_eq!(destination("out", "in/noext", "bin"), Some(String::from("out/noext.bin")));
    assert_eq!(destination("out", "in/", "meshlet"), None);
}

#[test]
fn files_that_share_a_stem_share_a_destination() {
    let x = destination("assets/meshlets", "models/x/mesh.glb", "meshlet");
    let y = destination("assets/meshlets", "models/y/mesh.glb", "meshlet");
    let z = destination("assets/meshlets", "models/y/mesh.gltf", "meshlet");
    assert_eq!(x, Some(String::from("assets/meshlets/mesh.meshlet")));
    assert_eq!(x, y);
    assert_eq!(x, z);
}
