use dicat::catalog::group;
use dicat::chunking::chunk_sizes;
use dicat::chunking::split_evenly;
use dicat::errors::CliError;
use dicat::jobs::destination_of;
use dicat::jobs::directories_of;
use dicat::jobs::file_name_of;
use dicat::jobs::flatten;
use dicat::jobs::join_path;
use dicat::jobs::CopyJob;
use dicat::person::Person;
use dicat::progress::estimate_remaining;
use dicat::restruct::plan_restruct;
use dicat::restruct::Action;
use dicat::restruct::Engine;
use dicat::restruct::Event;
use dicat::restruct::Stage;

fn record(name: &str, id: &str, path: &str) -> (Person, String) {
    (Person { name: name.to_string(), id: id.to_string() }, path.to_string())
}

fn sample() -> Vec<(Person, String)> {
    vec![
        record("Ann", "ID-1", "scan/b/2.dcm"),
        record("Bob", "ID-2", "scan/a/9.dcm"),
        record("Ann", "ID-1", "scan/a/1.dcm"),
        record("Bob", "ID-2", "scan/a/3.dcm"),
        record("Cy", "ID-3", "scan/c/5.dcm"),
    ]
}

fn pairs(jobs: &[CopyJob]) -> Vec<(String, String)> {
    jobs.iter().map(|job| (job.source.clone(), job.id.clone())).collect()
}

fn pair(source: &str, id: &str) -> (String, String) {
    (source.to_string(), id.to_string())
}

#[test]
fn chunk_sizes_give_the_remainder_to_the_first_workers() {
    assert_eq!(chunk_sizes(10, 3), vec![4, 3, 3]);
    assert_eq!(chunk_sizes(11, 3), vec![4, 4, 3]);
    assert_eq!(chunk_sizes(12, 3), vec![4, 4, 4]);
    assert_eq!(chunk_sizes(2, 5), vec![1, 1, 0, 0, 0]);
    assert_eq!(chunk_sizes(0, 2), vec![0, 0]);
    assert_eq!(chunk_sizes(7, 1), vec![7]);
    assert_eq!(chunk_sizes(7, 0), Vec::<usize>::new());
}

#[test]
fn chunk_sizes_of_the_largest_total() {
    assert_eq!(chunk_sizes(usize::MAX, 2), vec![usize::MAX / 2 + 1, usize::MAX / 2]);
    assert_eq!(chunk_sizes(usize::MAX, 1), vec![usize::MAX]);
}

#[test]
fn chunk_sizes_are_balanced_and_add_up() {
    for total in 0..40usize {
        for workers in 1..9usize {
            let sizes = chunk_sizes(total, workers);
            assert_eq!(sizes.len(), workers);
            assert_eq!(sizes.iter().sum::<usize>(), total);
            let most = *sizes.iter().max().unwrap();
            let least = *sizes.iter().min().unwrap();
            assert!(most - least <= 1);
        }
    }
}

#[test]
fn split_evenly_keeps_the_order() {
    assert_eq!(
        split_evenly(vec![1, 2, 3, 4, 5, 6, 7], 3),
        vec![vec![1, 2, 3], vec![4, 5], vec![6, 7]]
    );
    assert_eq!(split_evenly(vec![1, 2], 4), vec![vec![1], vec![2], vec![], vec![]]);
    assert_eq!(split_evenly(Vec::<u8>::new(), 2), vec![Vec::<u8>::new(), Vec::new()]);
    assert_eq!(split_evenly(vec!['a', 'b', 'c'], 1), vec![vec!['a', 'b', 'c']]);
    assert_eq!(split_evenly(vec!['a', 'b', 'c'], 0), Vec::<Vec<char>>::new());
}

#[test]
fn flatten_lists_the_jobs_group_by_group() {
    let jobs = flatten(group(sample()));
    assert_eq!(
        pairs(&jobs),
        vec![
            pair("scan/a/1.dcm", "ID-1"),
            pair("scan/b/2.dcm", "ID-1"),
            pair("scan/a/3.dcm", "ID-2"),
            pair("scan/a/9.dcm", "ID-2"),
            pair("scan/c/5.dcm", "ID-3"),
        ]
    );
}

#[test]
fn flatten_of_an_empty_catalog_has_no_jobs() {
    assert!(flatten(group(Vec::new())).is_empty());
}

#[test]
fn file_name_is_the_last_component() {
    assert_eq!(file_name_of("scan/a/1.dcm"), Some("1.dcm".to_string()));
    assert_eq!(file_name_of("1.dcm"), Some("1.dcm".to_string()));
    assert_eq!(file_name_of("/abs/x"), Some("x".to_string()));
    assert_eq!(file_name_of("scan/a/"), Some("a".to_string()));
    assert_eq!(file_name_of("scan/a/."), Some("a".to_string()));
    assert_eq!(file_name_of("..x"), Some("..x".to_string()));
}

#[test]
fn file_name_is_missing_where_the_path_names_no_file() {
    assert_eq!(file_name_of(""), None);
    assert_eq!(file_name_of("/"), None);
    assert_eq!(file_name_of("."), None);
    assert_eq!(file_name_of(".."), None);
    assert_eq!(file_name_of("scan/.."), None);
}

#[test]
fn file_name_agrees_with_the_standard_library() {
    for path in ["a/b/c.dcm", "/", "", ".", "..", "a/..", "a/.", "a//", "/a", "./x", "x/./y/"] {
        let expected = std::path::Path::new(path)
            .file_name()
            .map(|name| name.to_string_lossy().into_owned());
        assert_eq!(file_name_of(path), expected);
    }
}

#[test]
fn join_path_puts_a_separator_between() {
    assert_eq!(join_path("out", "ID-1"), "out/ID-1");
    assert_eq!(join_path("", "x"), "/x");
    assert_eq!(join_path("out", ""), "out/");
}

#[test]
fn destination_is_root_then_id_then_file_name() {
    let job = CopyJob { source: "scan/deep/er/1.dcm".to_string(), id: "ID-1".to_string() };
    assert_eq!(destination_of("out", &job), Some("out/ID-1/1.dcm".to_string()));
    let nameless = CopyJob { source: "scan/..".to_string(), id: "ID-1".to_string() };
    assert_eq!(destination_of("out", &nameless), None);
}

#[test]
fn directories_are_one_for_each_id() {
    let catalog = group(sample());
    assert_eq!(directories_of("out", &catalog), vec!["out/ID-1", "out/ID-2", "out/ID-3"]);
}

#[test]
fn persons_with_the_same_id_share_a_directory() {
    let catalog = group(vec![
        record("Ann", "ID-1", "a"),
        record("Bob", "ID-2", "b"),
        record("Anne", "ID-1", "c"),
    ]);
    assert_eq!(catalog.len(), 3);
    assert_eq!(directories_of("out", &catalog), vec!["out/ID-1", "out/ID-2"]);
}

#[test]
fn plan_needs_a_worker() {
    assert!(matches!(plan_restruct(group(sample()), "out", 0), Err(CliError::GeneralError)));
}

#[test]
fn plan_lists_directories_and_balanced_chunks() {
    let plan = plan_restruct(group(sample()), "out", 2).unwrap();
    assert_eq!(plan.root, "out");
    assert_eq!(plan.directories, vec!["out", "out/ID-1", "out/ID-2", "out/ID-3"]);
    assert_eq!(plan.chunks.len(), 2);
    assert_eq!(
        pairs(&plan.chunks[0]),
        vec![
            pair("scan/a/1.dcm", "ID-1"),
            pair("scan/b/2.dcm", "ID-1"),
            pair("scan/a/3.dcm", "ID-2"),
        ]
    );
    assert_eq!(
        pairs(&plan.chunks[1]),
        vec![pair("scan/a/9.dcm", "ID-2"), pair("scan/c/5.dcm", "ID-3")]
    );
}

#[test]
fn plan_of_an_empty_catalog_has_only_the_root() {
    let plan = plan_restruct(group(Vec::new()), "out", 3).unwrap();
    assert_eq!(plan.directories, vec!["out"]);
    assert_eq!(plan.chunks.len(), 3);
    assert!(plan.chunks.iter().all(|chunk| chunk.is_empty()));
}

#[test]
fn every_job_of_the_plan_goes_into_a_planned_directory() {
    let plan = plan_restruct(group(sample()), "out", 3).unwrap();
    let mut count = 0;
    for chunk in &plan.chunks {
        for job in chunk {
            let target = destination_of(&plan.root, job).unwrap();
            let directory = join_path(&plan.root, &job.id);
            assert!(plan.directories.contains(&directory));
            assert!(target.starts_with(&format!("{}/", directory)));
            count += 1;
        }
    }
    assert_eq!(count, sample().len());
}

fn expect_directory(action: Action, path: &str) {
    match action {
        Action::CreateDirectory(asked) => assert_eq!(asked, path),
        other => panic!("expected a directory, got {:?}", other),
    }
}

#[test]
fn engine_runs_from_planning_to_done() {
    let engine = Engine::new();
    assert_eq!(engine.stage(), Stage::Planning);
    let (engine, action) = engine.begin(group(sample()), "out", 2);
    assert_eq!(engine.stage(), Stage::DirectoryCreation);
    expect_directory(action, "out");
    let (engine, action) = engine.handle(Event::DirectoryCreated);
    expect_directory(action, "out/ID-1");
    let (engine, action) = engine.handle(Event::DirectoryCreated);
    expect_directory(action, "out/ID-2");
    let (engine, action) = engine.handle(Event::DirectoryCreated);
    expect_directory(action, "out/ID-3");
    assert_eq!(engine.stage(), Stage::DirectoryCreation);
    let (engine, action) = engine.handle(Event::DirectoryCreated);
    assert!(matches!(action, Action::CopyChunks));
    assert_eq!(engine.stage(), Stage::Copying);
    assert_eq!(engine.plan().chunks.len(), 2);
    let (engine, action) = engine.handle(Event::ChunkFinished);
    assert!(matches!(action, Action::Wait));
    assert_eq!(engine.stage(), Stage::Copying);
    let (engine, action) = engine.handle(Event::ChunkFinished);
    match action {
        Action::Report(root) => assert_eq!(root, "out"),
        other => panic!("expected the report, got {:?}", other),
    }
    assert_eq!(engine.stage(), Stage::Done);
    let (engine, action) = engine.handle(Event::ChunkFinished);
    assert!(matches!(action, Action::Wait));
    assert_eq!(engine.stage(), Stage::Done);
}

#[test]
fn engine_fails_without_workers() {
    let (engine, action) = Engine::new().begin(group(sample()), "out", 0);
    assert_eq!(engine.stage(), Stage::Failed);
    assert!(matches!(action, Action::Abort(CliError::GeneralError)));
}

#[test]
fn engine_fails_when_a_directory_cannot_be_created() {
    let (engine, _) = Engine::new().begin(group(sample()), "out", 2);
    let (engine, action) = engine.handle(Event::DirectoryFailed);
    assert_eq!(engine.stage(), Stage::Failed);
    match action {
        Action::Abort(error) => assert_eq!(error, CliError::CreatingDirectoryError("out".to_string())),
        other => panic!("expected a failure, got {:?}", other),
    }
    let (engine, action) = engine.handle(Event::DirectoryCreated);
    assert!(matches!(action, Action::Wait));
    assert_eq!(engine.stage(), Stage::Failed);
}

#[test]
fn engine_names_the_subject_directory_that_failed() {
    let (engine, _) = Engine::new().begin(group(sample()), "out", 2);
    let (engine, _) = engine.handle(Event::DirectoryCreated);
    let (engine, _) = engine.handle(Event::DirectoryCreated);
    let (engine, action) = engine.handle(Event::DirectoryFailed);
    assert_eq!(engine.stage(), Stage::Failed);
    match action {
        Action::Abort(error) => {
            assert_eq!(error, CliError::CreatingDirectoryError("out/ID-2".to_string()))
        }
        other => panic!("expected a failure, got {:?}", other),
    }
}

#[test]
fn engine_waits_for_all_chunks_and_reports_the_first_copy_failure() {
    let (mut engine, _) = Engine::new().begin(group(sample()), "out", 3);
    for _ in 0..4 {
        engine = engine.handle(Event::DirectoryCreated).0;
    }
    assert_eq!(engine.stage(), Stage::Copying);
    let (engine, action) = engine.handle(Event::ChunkFailed("scan/a/1.dcm".to_string()));
    assert!(matches!(action, Action::Wait));
    assert_eq!(engine.stage(), Stage::Copying);
    let (engine, action) = engine.handle(Event::ChunkFailed("scan/c/5.dcm".to_string()));
    assert!(matches!(action, Action::Wait));
    let (engine, action) = engine.handle(Event::ChunkFinished);
    assert_eq!(engine.stage(), Stage::Failed);
    match action {
        Action::Abort(error) => assert_eq!(error, CliError::CopyError("scan/a/1.dcm".to_string())),
        other => panic!("expected a failure, got {:?}", other),
    }
}

#[test]
fn engine_ignores_events_that_do_not_fit_the_stage() {
    let (engine, action) = Engine::new().handle(Event::DirectoryCreated);
    assert!(matches!(action, Action::Wait));
    assert_eq!(engine.stage(), Stage::Planning);
    let (engine, _) = engine.begin(group(sample()), "out", 1);
    let (engine, action) = engine.handle(Event::ChunkFinished);
    assert!(matches!(action, Action::Wait));
    assert_eq!(engine.stage(), Stage::DirectoryCreation);
    let (engine, action) = engine.begin(group(Vec::new()), "other", 1);
    assert!(matches!(action, Action::Wait));
    assert_eq!(engine.stage(), Stage::DirectoryCreation);
    assert_eq!(engine.plan().root, "out");
}

#[test]
fn estimate_scales_the_elapsed_time() {
    assert_eq!(estimate_remaining(1, 4, 10), Some(30));
    assert_eq!(estimate_remaining(2, 4, 10), Some(10));
    assert_eq!(estimate_remaining(3, 4, 10), Some(3));
    assert_eq!(estimate_remaining(4, 4, 10), Some(0));
    assert_eq!(estimate_remaining(5, 10, 0), Some(0));
}

#[test]
fn estimate_is_missing_without_progress_or_room() {
    assert_eq!(estimate_remaining(0, 4, 10), None);
    assert_eq!(estimate_remaining(5, 4, 10), None);
    assert_eq!(estimate_remaining(1, u64::MAX, 4), None);
    assert_eq!(estimate_remaining(1, u64::MAX, 1), Some(u64::MAX - 1));
}
