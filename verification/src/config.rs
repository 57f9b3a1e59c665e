//! What the pipeline is set up with.

use crate::path::{destination_of, is_candidate, text, texts};
use vstd::prelude::*;
use vstd::string::*;

verus! {

/// The level of detail that the codec is asked for. It is the same for
/// every mesh.
pub const SIMPLIFICATION_LEVEL: u8 = 1;

/// The directories that the pipeline reads and writes, and the file
/// extensions that it goes by.
#[derive(Clone, Debug, PartialEq, Eq)]
pub struct Config {
    /// The root of the tree that is scanned for scene files.
    pub input_dir: String,
    /// The directory that the converted meshes are written to.
    pub output_dir: String,
    /// The extensions of scene files, without the dot. Case does not count.
    pub extensions: Vec<String>,
    /// The extension of a converted mesh, without the dot.
    pub artifact_extension: String,
}

impl Config {
    /// The usual set-up: scene files end in `gltf` or `glb`, converted
    /// meshes in `meshlet`.
    pub fn new(input_dir: String, output_dir: String) -> (config: Config)
        ensures
            config.input_dir == input_dir,
            config.output_dir == output_dir,
            texts(config.extensions@) == seq!["gltf"@, "glb"@],
            config.artifact_extension@ == "meshlet"@,
    {
        let mut extensions: Vec<String> = Vec::new();
        extensions.push(String::from_str("gltf"));
        extensions.push(String::from_str("glb"));
        assert(texts(extensions@) =~= seq!["gltf"@, "glb"@]);
        Config {
            input_dir,
            output_dir,
            extensions,
            artifact_extension: String::from_str("meshlet"),
        }
    }

    /// Whether `path` names a scene file.
    pub fn accepts(&self, path: &str) -> (r: bool)
        ensures
            r == is_candidate(path@, texts(self.extensions@)),
    {
        crate::path::has_allowed_extension(path, &self.extensions)
    }

    /// Where the mesh converted from `source_path` is written, where that
    /// path names a file.
    pub fn destination(&self, source_path: &str) -> (r: Option<String>)
        ensures
            text(r) == destination_of(self.output_dir@, source_path@, self.artifact_extension@),
    {
        crate::path::destination(
            self.output_dir.as_str(),
            source_path,
            self.artifact_extension.as_str(),
        )
    }
}

} // verus!
