use dicat::person::Person;

fn person(name: &str, id: &str) -> Person {
    Person { name: name.to_string(), id: id.to_string() }
}

#[test]
fn labels_show_the_fields() {
    let who = person("Doe^John", "ID-1");
    assert_eq!(who.id_label(), "ID: ID-1");
    assert_eq!(who.name_label(), "Full Name: Doe^John");
}

#[test]
fn labels_show_a_placeholder_for_an_empty_field() {
    let nameless = person("", "ID-1");
    assert_eq!(nameless.id_label(), "ID: ID-1");
    assert_eq!(nameless.name_label(), "Full Name: [NOT LISTED]");
    let unnumbered = person("Doe^John", "");
    assert_eq!(unnumbered.id_label(), "ID: [NOT LISTED]");
    assert_eq!(unnumbered.name_label(), "Full Name: Doe^John");
}

#[test]
fn persons_are_equal_by_name_and_id() {
    assert!(person("A", "1").same_as(&person("A", "1")));
    assert!(!person("A", "1").same_as(&person("B", "1")));
    assert!(!person("A", "1").same_as(&person("A", "2")));
    assert_eq!(person("A", "1"), person("A", "1"));
    assert_ne!(person("A", "1"), person("a", "1"));
    assert_ne!(person("A", "1"), person("A", "2"));
}

#[test]
fn clone_keeps_both_fields() {
    let who = person("Doe^John", "ID-1");
    let copy = who.clone();
    assert_eq!(copy.name, "Doe^John");
    assert_eq!(copy.id, "ID-1");
}
