//! Bookkeeping for a batch pipeline that turns scene files into meshlet
//! meshes.
//!
//! The pipeline scans a directory tree for scene files and requests the load
//! of each. From then on it ticks: on every tick it asks which loads are
//! ready, extracts the meshes of the scenes that are, strips them for the
//! codec, converts them, and starts one background write for every mesh that
//! was converted. It ends when nothing is pending and no write is in flight.
//!
//! This crate holds the decisions of that pipeline and proves them. The
//! caller does what touches the world: it walks the directory, talks to the
//! asset loader, runs the codec, writes the files and leaves the process.
//!
//! - [`path`] tells scene files by their extension and names the artifact of
//!   each.
//! - [`queue`] holds the pending loads and the record of the processed files.
//! - [`scene`] lists the primitives of a loaded scene in declared order.
//! - [`mesh`] strips a mesh of the attributes that the codec does not take.
//! - [`plan`] lists the conversions of a tick and settles each on the
//!   codec's verdict.
//! - [`counter`] counts the write units in flight.
//! - [`supervisor`] says when the pipeline is done.
//! - [`config`] holds the directories and extensions that the pipeline goes
//!   by.

pub mod config;
pub mod counter;
pub mod mesh;
pub mod path;
pub mod plan;
pub mod queue;
pub mod scene;
pub mod supervisor;
