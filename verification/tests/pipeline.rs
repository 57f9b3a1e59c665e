use meshlet_pipeline::config::Config;
use meshlet_pipeline::counter::InFlight;
use meshlet_pipeline::plan::{plan, ready_flags, settle, Dispatch};
use meshlet_pipeline::queue::LoadQueue;
use meshlet_pipeline::scene::{MeshOutline, SceneOutline};
use meshlet_pipeline::supervisor::{advance, should_exit, Phase};

fn one_primitive() -> SceneOutline {
    SceneOutline { meshes: vec![MeshOutline { primitives: Some(vec![true]) }] }
}

fn scan(config: &Config, found: &[&str]) -> LoadQueue<usize> {
    let mut queue = LoadQueue::new();
    for (ticket, path) in found.iter().enumerate() {
        if config.accepts(path) {
            assert!(queue.enqueue(String::from(*path), ticket));
        }
    }
    queue
}

struct Tick {
    written: Vec<String>,
    failures: Vec<String>,
}

fn tick(
    config: &Config,
    queue: &mut LoadQueue<usize>,
    counter: &mut InFlight,
    loads: Vec<Option<SceneOutline>>,
    codec_takes: &dyn Fn(&str) -> bool,
) -> Tick {
    let jobs = plan(queue, &loads, &config.output_dir, &config.artifact_extension);
    let mut written = Vec::new();
    let mut failures = Vec::new();
    for job in jobs {
        let source = queue.entry(job.entry).unwrap().source_path.clone();
        match settle(job, codec_takes(&source), counter) {
            Dispatch::Write { destination } => written.push(destination),
            Dispatch::Rejected { entry } => {
                failures.push(queue.entry(entry).unwrap().source_path.clone())
            }
        }
    }
    queue.retire(&ready_flags(&loads));
    Tick { written, failures }
}

#[test]
fn one_file_converts_and_one_fails_in_the_codec() {
    let config = Config::new(String::from("in"), String::from("out"));
    let mut queue = scan(&config, &["in/a.glb", "in/b.gltf", "in/readme.txt"]);
    let mut counter = InFlight::new();
    assert_eq!(queue.pending_len(), 2);

    let loads = vec![Some(one_primitive()), Some(one_primitive())];
    let result = tick(&config, &mut queue, &mut counter, loads, &|source| source == "in/a.glb");

    assert_eq!(result.written, vec![String::from("out/a.meshlet")]);
    assert_eq!(result.failures, vec![String::from("in/b.gltf")]);
    assert!(queue.is_drained());
    assert_eq!(queue.processed_len(), 2);

    assert_eq!(counter.get(), 1);
    assert!(!should_exit(&queue, &counter));
    assert_eq!(advance(Phase::Draining, queue.pending_len(), counter.get()), Phase::Draining);

    assert!(counter.end());
    assert!(should_exit(&queue, &counter));
    assert_eq!(advance(Phase::Draining, queue.pending_len(), counter.get()), Phase::Done);
}

#[test]
fn an_empty_input_directory_ends_at_once() {
    let config = Config::new(String::from("in"), String::from("out"));
    let mut queue = scan(&config, &[]);
    let mut counter = InFlight::new();

    let result = tick(&config, &mut queue, &mut counter, Vec::new(), &|_| true);

    assert!(result.written.is_empty());
    assert!(result.failures.is_empty());
    assert_eq!(counter.get(), 0);
    assert!(should_exit(&queue, &counter));
    assert_eq!(advance(Phase::Scanning, queue.pending_len(), counter.get()), Phase::Done);
}

#[test]
fn two_files_with_one_stem_write_to_one_destination() {
    let config = Config::new(String::from("models"), String::from("meshlets"));
    let mut queue = scan(&config, &["models/x/mesh.glb", "models/y/mesh.glb"]);
    let mut counter = InFlight::new();

    let loads = vec![Some(one_primitive()), Some(one_primitive())];
    let result = tick(&config, &mut queue, &mut counter, loads, &|_| true);

    assert_eq!(
        result.written,
        vec![String::from("meshlets/mesh.meshlet"), String::from("meshlets/mesh.meshlet")]
    );
    assert_eq!(counter.get(), 2);
    assert!(counter.end());
    assert!(!should_exit(&queue, &counter));
    assert!(counter.end());
    assert!(should_exit(&queue, &counter));
}

#[test]
fn files_that_load_on_later_ticks_are_converted_then() {
    let config = Config::new(String::from("in"), String::from("out"));
    let mut queue = scan(&config, &["in/slow.glb", "in/fast.glb"]);
    let mut counter = InFlight::new();
    let mut phase = Phase::Scanning;

    let first = tick(&config, &mut queue, &mut counter, vec![None, None], &|_| true);
    phase = advance(phase, queue.pending_len(), counter.get());
    assert!(first.written.is_empty());
    assert_eq!(phase, Phase::Draining);

    let second = tick(&config, &mut queue, &mut counter, vec![None, Some(one_primitive())], &|_| true);
    phase = advance(phase, queue.pending_len(), counter.get());
    assert_eq!(second.written, vec![String::from("out/fast.meshlet")]);
    assert_eq!(queue.pending_len(), 1);
    assert_eq!(phase, Phase::Draining);

    assert!(counter.end());
    phase = advance(phase, queue.pending_len(), counter.get());
    assert_eq!(phase, Phase::Draining);

    let third = tick(&config, &mut queue, &mut counter, vec![Some(one_primitive())], &|_| true);
    assert_eq!(third.written, vec![String::from("out/slow.meshlet")]);
    assert!(queue.is_drained());
    assert!(!should_exit(&queue, &counter));

    assert!(counter.end());
    phase = advance(phase, queue.pending_len(), counter.get());
    assert_eq!(phase, Phase::Done);
    assert_eq!(queue.processed_path(0), Some(&String::from("in/fast.glb")));
    assert_eq!(queue.processed_path(1), Some(&String::from("in/slow.glb")));
}

#[test]
fn a_failed_write_still_lets_the_pipeline_end() {
    let config = Config::new(String::from("in"), String::from("out"));
    let mut queue = scan(&config, &["in/a.glb"]);
    let mut counter = InFlight::new();
    let result = tick(&config, &mut queue, &mut counter, vec![Some(one_primitive())], &|_| true);
    assert_eq!(result.written.len(), 1);
    assert_eq!(counter.get(), 1);
    assert!(counter.end());
    assert!(should_exit(&queue, &counter));
    assert!(!counter.end());
    assert_eq!(counter.get(), 0);
}
