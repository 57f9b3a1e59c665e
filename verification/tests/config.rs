use meshlet_pipeline::config::{Config, SIMPLIFICATION_LEVEL};

fn config() -> Config {
    Config::new(String::from("assets/models"), String::from("assets/meshlets"))
}

#[test]
fn the_usual_set_up() {
    let config = config();
    assert_eq!(config.input_dir, "assets/models");
    assert_eq!(config.output_dir, "assets/meshlets");
    assert_eq!(config.extensions, vec![String::from("gltf"), String::from("glb")]);
    assert_eq!(config.artifact_extension, "meshlet");
    assert_eq!(SIMPLIFICATION_LEVEL, 1);
}

#[test]
fn config_accepts_scene_files_only() {
    let config = config();
    assert!(config.accepts("assets/models/monke.glb"));
    assert!(config.accepts("assets/models/birch.GLTF"));
    assert!(!config.accepts("assets/models/monke.meshlet"));
    assert!(!config.accepts("assets/models/texture.png"));
    assert!(!config.accepts("assets/models/"));
}

#[test]
fn config_names_the_artifact_after_the_source_stem() {
    let config = config();
    assert_eq!(
        config.destination("assets/models/monke.glb"),
        Some(String::from("assets/meshlets/monke.meshlet"))
    );
    assert_eq!(config.destination("assets/models/.."), None);
}

#[test]
fn a_configured_allow_list_is_honoured() {
    let mut config = config();
    config.extensions = vec![String::from("OBJ")];
    config.artifact_extension = String::from("bin");
    assert!(config.accepts("a/b.obj"));
    assert!(!config.accepts("a/b.glb"));
    assert_eq!(config.destination("a/b.obj"), Some(String::from("assets/meshlets/b.bin")));
}
