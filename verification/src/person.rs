//! The subject that a record belongs to.

use vstd::prelude::*;
use vstd::string::StringExecFns;

verus! {

/// A subject as a pair of texts.
pub struct PersonView {
    pub name: Seq<char>,
    pub id: Seq<char>,
}

/// The subject named in a record. Two subjects are the same only if both
/// their names and their identifiers agree.
#[derive(Debug, Eq, Hash)]
pub struct Person {
    pub name: String,
    pub id: String,
}

impl View for Person {
    type V = PersonView;

    open spec fn view(&self) -> PersonView {
        PersonView { name: self.name@, id: self.id@ }
    }
}

impl PartialEq for Person {
    fn eq(&self, other: &Person) -> (same: bool) {
        self.name == other.name && self.id == other.id
    }
}

impl vstd::std_specs::cmp::PartialEqSpecImpl for Person {
    open spec fn obeys_eq_spec() -> bool {
        true
    }

    open spec fn eq_spec(&self, other: &Person) -> bool {
        self.name@ == other.name@ && self.id@ == other.id@
    }
}

impl Clone for Person {
    fn clone(&self) -> (copy: Person)
        ensures
            copy@ == self@,
    {
        Person { name: self.name.clone(), id: self.id.clone() }
    }
}

/// What stands in place of a name or an identifier that the record left empty.
pub open spec fn not_listed() -> Seq<char> {
    "[NOT LISTED]"@
}

/// The text to show for a field of a subject.
pub open spec fn shown(field: Seq<char>) -> Seq<char> {
    if field.len() == 0 {
        not_listed()
    } else {
        field
    }
}

/// The line that names a subject's identifier.
pub open spec fn id_label_text(person: PersonView) -> Seq<char> {
    "ID: "@ + shown(person.id)
}

/// The line that names a subject.
pub open spec fn name_label_text(person: PersonView) -> Seq<char> {
    "Full Name: "@ + shown(person.name)
}

/// `prefix` followed by `field`, or by the placeholder where `field` is empty.
fn label(prefix: &str, field: &String) -> (text: String)
    ensures
        text@ == prefix@ + shown(field@),
{
    let mut text = String::from_str(prefix);
    if field.as_str().is_empty() {
        text.append("[NOT LISTED]");
    } else {
        text.append(field.as_str());
    }
    text
}

impl Person {
    /// Compares two subjects by name and identifier.
    pub fn same_as(&self, other: &Person) -> (same: bool)
        ensures
            same == (self@ == other@),
    {
        self.name == other.name && self.id == other.id
    }

    /// The line that names this subject's identifier.
    pub fn id_label(&self) -> (text: String)
        ensures
            text@ == id_label_text(self@),
    {
        label("ID: ", &self.id)
    }

    /// The line that names this subject.
    pub fn name_label(&self) -> (text: String)
        ensures
            text@ == name_label_text(self@),
    {
        label("Full Name: ", &self.name)
    }
}

} // verus!
