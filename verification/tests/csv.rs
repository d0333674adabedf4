use dicat::csv::render_csv;
use dicat::csv::write_record_line;
use dicat::csv::CsvWriter;
use dicat::errors::CliError;
use dicat::person::Person;

fn person(name: &str, id: &str) -> Person {
    Person { name: name.to_string(), id: id.to_string() }
}

fn record(name: &str, id: &str, path: &str) -> (Person, String) {
    (person(name, id), path.to_string())
}

fn strings(items: &[&str]) -> Vec<String> {
    items.iter().map(|s| s.to_string()).collect()
}

#[test]
fn record_line_joins_the_fields_with_commas() {
    assert_eq!(write_record_line(&person("Ann", "ID-1"), "scan/1.dcm"), "Ann,ID-1,scan/1.dcm\n");
    assert_eq!(write_record_line(&person("", ""), ""), ",,\n");
    assert_eq!(write_record_line(&person("Doe, Ann", "7"), "a b"), "Doe, Ann,7,a b\n");
}

#[test]
fn csv_lists_all_records_without_allow_list() {
    let found = vec![record("Ann", "ID-1", "scan/1.dcm"), record("Bob", "ID-2", "scan/2.dcm")];
    assert_eq!(
        render_csv("scan", &found, &Vec::new()),
        Ok("Full Name,ID,Path\nAnn,ID-1,scan/1.dcm\nBob,ID-2,scan/2.dcm\n".to_string())
    );
}

#[test]
fn csv_keeps_the_order_in_which_records_were_found() {
    let found = vec![record("Bob", "ID-2", "z"), record("Ann", "ID-1", "a")];
    assert_eq!(
        render_csv("scan", &found, &Vec::new()),
        Ok("Full Name,ID,Path\nBob,ID-2,z\nAnn,ID-1,a\n".to_string())
    );
}

#[test]
fn csv_lists_only_the_allowed_ids() {
    let found = vec![
        record("Ann", "ID-1", "scan/1.dcm"),
        record("Bob", "ID-2", "scan/2.dcm"),
        record("Ann", "ID-1", "scan/3.dcm"),
    ];
    assert_eq!(
        render_csv("scan", &found, &strings(&["ID-1"])),
        Ok("Full Name,ID,Path\nAnn,ID-1,scan/1.dcm\nAnn,ID-1,scan/3.dcm\n".to_string())
    );
}

#[test]
fn csv_without_a_match_is_an_error_and_has_no_header() {
    let found = vec![record("Bob", "ID-2", "scan/2.dcm")];
    assert_eq!(
        render_csv("scan", &found, &strings(&["ID-1"])),
        Err(CliError::FilesDoNotExist("scan".to_string()))
    );
    assert_eq!(
        render_csv("scan", &Vec::new(), &strings(&["ID-1"])),
        Err(CliError::FilesDoNotExist("scan".to_string()))
    );
    assert_eq!(
        render_csv("scan", &Vec::new(), &Vec::new()),
        Err(CliError::FilesDoNotExist("scan".to_string()))
    );
}

#[test]
fn writer_emits_the_header_with_the_first_match_only() {
    let allow = strings(&["ID-1"]);
    let mut writer = CsvWriter::new();
    assert_eq!(writer.feed(&person("Bob", "ID-2"), "b", &allow), "");
    assert_eq!(writer.finish("scan"), Err(CliError::FilesDoNotExist("scan".to_string())));
    assert_eq!(writer.feed(&person("Ann", "ID-1"), "a", &allow), "Full Name,ID,Path\nAnn,ID-1,a\n");
    assert_eq!(writer.feed(&person("Bob", "ID-2"), "b", &allow), "");
    assert_eq!(writer.feed(&person("Ann", "ID-1"), "c", &allow), "Ann,ID-1,c\n");
    assert_eq!(writer.finish("scan"), Ok(()));
}
