use dicat::catalog::collect_groups;
use dicat::catalog::group;
use dicat::catalog::is_allowed;
use dicat::catalog::select_matches;
use dicat::catalog::select_records;
use dicat::catalog::Catalog;
use dicat::errors::CliError;
use dicat::person::Person;
use dicat::sorted_paths::SortedPaths;

fn person(name: &str, id: &str) -> Person {
    Person { name: name.to_string(), id: id.to_string() }
}

fn record(name: &str, id: &str, path: &str) -> (Person, String) {
    (person(name, id), path.to_string())
}

fn strings(items: &[&str]) -> Vec<String> {
    items.iter().map(|s| s.to_string()).collect()
}

fn sample() -> Vec<(Person, String)> {
    vec![
        record("Ann", "ID-1", "scan/b/2.dcm"),
        record("Bob", "ID-2", "scan/a/9.dcm"),
        record("Ann", "ID-1", "scan/a/1.dcm"),
        record("Ann", "ID-1", "scan/b/1.dcm"),
        record("Bob", "ID-2", "scan/a/3.dcm"),
    ]
}

#[test]
fn empty_allow_list_admits_every_id() {
    assert!(is_allowed(&Vec::new(), "ID-1"));
    assert!(is_allowed(&Vec::new(), ""));
}

#[test]
fn allow_list_admits_exactly_its_ids() {
    let allow = strings(&["ID-1", "ID-3"]);
    assert!(is_allowed(&allow, "ID-1"));
    assert!(is_allowed(&allow, "ID-3"));
    assert!(!is_allowed(&allow, "ID-2"));
    assert!(!is_allowed(&allow, "ID-"));
    assert!(!is_allowed(&allow, "id-1"));
    assert!(!is_allowed(&allow, ""));
}

#[test]
fn select_records_keeps_the_admitted_in_order() {
    let kept = select_records(sample(), &strings(&["ID-2"]));
    assert_eq!(
        kept,
        vec![record("Bob", "ID-2", "scan/a/9.dcm"), record("Bob", "ID-2", "scan/a/3.dcm")]
    );
}

#[test]
fn select_records_with_empty_allow_list_keeps_all() {
    assert_eq!(select_records(sample(), &Vec::new()), sample());
}

#[test]
fn select_matches_fails_when_nothing_is_admitted() {
    assert_eq!(
        select_matches("scan", sample(), &strings(&["ID-9"])),
        Err(CliError::FilesDoNotExist("scan".to_string()))
    );
    assert_eq!(
        select_matches("scan", Vec::new(), &strings(&["ID-1"])),
        Err(CliError::FilesDoNotExist("scan".to_string()))
    );
    assert_eq!(
        select_matches("scan", Vec::new(), &Vec::new()),
        Err(CliError::FilesDoNotExist("scan".to_string()))
    );
}

#[test]
fn select_matches_returns_the_admitted() {
    assert_eq!(
        select_matches("scan", sample(), &strings(&["ID-1"])),
        Ok(vec![
            record("Ann", "ID-1", "scan/b/2.dcm"),
            record("Ann", "ID-1", "scan/a/1.dcm"),
            record("Ann", "ID-1", "scan/b/1.dcm"),
        ])
    );
}

#[test]
fn group_collects_and_sorts_the_paths_of_each_person() {
    let catalog = group(sample());
    assert_eq!(catalog.len(), 2);
    assert!(!catalog.is_empty());
    assert_eq!(catalog.person(0), Some(&person("Ann", "ID-1")));
    assert_eq!(catalog.person(1), Some(&person("Bob", "ID-2")));
    assert_eq!(catalog.person(2), None);
    assert!(catalog.paths(2).is_none());
    let entries = catalog.into_entries();
    let groups: Vec<(Person, Vec<String>)> =
        entries.into_iter().map(|(who, paths)| (who, paths.into_inner())).collect();
    assert_eq!(
        groups,
        vec![
            (person("Ann", "ID-1"), strings(&["scan/a/1.dcm", "scan/b/1.dcm", "scan/b/2.dcm"])),
            (person("Bob", "ID-2"), strings(&["scan/a/3.dcm", "scan/a/9.dcm"])),
        ]
    );
}

#[test]
fn group_of_nothing_is_empty() {
    let catalog = group(Vec::new());
    assert_eq!(catalog.len(), 0);
    assert!(catalog.is_empty());
}

#[test]
fn group_keeps_every_record_also_repeated_ones() {
    let pairs = vec![
        record("Ann", "ID-1", "x"),
        record("Ann", "ID-1", "x"),
        record("Bob", "ID-2", "x"),
    ];
    let catalog = group(pairs);
    assert_eq!(catalog.len(), 2);
    assert_eq!(catalog.paths(0).unwrap().len(), 2);
    assert_eq!(catalog.paths(1).unwrap().len(), 1);
    assert_eq!(catalog.paths(0).unwrap().get(0), Some(&"x".to_string()));
    assert_eq!(catalog.paths(0).unwrap().get(1), Some(&"x".to_string()));
}

#[test]
fn group_tells_persons_apart_by_name_and_id() {
    let pairs = vec![
        record("Ann", "ID-1", "a"),
        record("Ann ", "ID-1", "b"),
        record("Ann", "ID-2", "c"),
    ];
    let catalog = group(pairs);
    assert_eq!(catalog.len(), 3);
}

#[test]
fn group_does_not_depend_on_the_order_of_the_records() {
    let mut shuffled = sample();
    shuffled.reverse();
    shuffled.swap(1, 3);
    let first: Vec<(Person, Vec<String>)> =
        group(sample()).into_entries().into_iter().map(|(w, p)| (w, p.into_inner())).collect();
    let second: Vec<(Person, Vec<String>)> =
        group(shuffled).into_entries().into_iter().map(|(w, p)| (w, p.into_inner())).collect();
    assert_eq!(first.len(), second.len());
    for (who, paths) in &first {
        let other = second.iter().find(|(w, _)| w == who);
        assert_eq!(other.map(|(_, p)| p), Some(paths));
    }
}

#[test]
fn allow_list_keeps_only_the_listed_person_in_the_catalog() {
    let found = vec![
        record("Ann", "ID-1", "scan/1.dcm"),
        record("Bob", "ID-2", "scan/2.dcm"),
        record("Ann", "ID-1", "scan/3.dcm"),
    ];
    let kept = select_matches("scan", found, &strings(&["ID-1"]));
    let catalog = group(kept.unwrap());
    assert_eq!(catalog.len(), 1);
    assert_eq!(catalog.person(0), Some(&person("Ann", "ID-1")));
    assert_eq!(catalog.paths(0).unwrap().render(), "scan\n.|__1.dcm\n.|__3.dcm");
}

#[test]
fn no_valid_records_and_an_allow_list_is_reported() {
    let outcome = select_matches("empty_dir", Vec::new(), &strings(&["ID-1"]));
    assert_eq!(outcome, Err(CliError::FilesDoNotExist("empty_dir".to_string())));
}

#[test]
fn collect_groups_keeps_the_order_of_the_records() {
    assert_eq!(
        collect_groups(sample()),
        vec![
            (person("Ann", "ID-1"), strings(&["scan/b/2.dcm", "scan/a/1.dcm", "scan/b/1.dcm"])),
            (person("Bob", "ID-2"), strings(&["scan/a/9.dcm", "scan/a/3.dcm"])),
        ]
    );
    assert!(collect_groups(Vec::new()).is_empty());
}

#[test]
fn catalog_of_sorted_groups_is_the_catalog_of_the_records() {
    let sorted: Vec<(Person, SortedPaths)> = collect_groups(sample())
        .into_iter()
        .map(|(who, files)| (who, SortedPaths::new(files)))
        .collect();
    let made = Catalog::from_sorted(sorted).unwrap();
    let grouped = group(sample());
    assert_eq!(made.len(), grouped.len());
    for index in 0..made.len() {
        assert_eq!(made.person(index), grouped.person(index));
        assert_eq!(
            made.paths(index).map(|paths| paths.render()),
            grouped.paths(index).map(|paths| paths.render())
        );
    }
}

#[test]
fn catalog_refuses_two_groups_of_one_person() {
    let twice = vec![
        (person("Ann", "ID-1"), SortedPaths::new(strings(&["a"]))),
        (person("Bob", "ID-2"), SortedPaths::new(strings(&["b"]))),
        (person("Ann", "ID-1"), SortedPaths::new(strings(&["c"]))),
    ];
    assert!(Catalog::from_sorted(twice).is_none());
}

#[test]
fn catalog_refuses_a_group_without_paths() {
    let hollow = vec![
        (person("Ann", "ID-1"), SortedPaths::new(strings(&["a"]))),
        (person("Bob", "ID-2"), SortedPaths::new(Vec::new())),
    ];
    assert!(Catalog::from_sorted(hollow).is_none());
}

#[test]
fn catalog_of_no_groups_is_empty() {
    assert!(Catalog::from_sorted(Vec::new()).unwrap().is_empty());
}
