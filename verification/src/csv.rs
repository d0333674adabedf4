//! The flat export: one line of `name,id,path` for each record that the
//! allow-list admits, below a header that is written only once a record has
//! been found.

use vstd::prelude::*;
use vstd::string::StringExecFns;

use crate::catalog::admits;
use crate::catalog::allowed;
use crate::catalog::is_allowed;
use crate::catalog::records;
use crate::errors::CliError;
use crate::errors::CliErrorView;
use crate::grouping::RecordView;
use crate::person::Person;
use crate::text::texts;

verus! {

/// The header line.
pub open spec fn header_line() -> Seq<char> {
    "Full Name,ID,Path\n"@
}

/// The line of one record. The fields are written as they are.
pub open spec fn record_line(record: RecordView) -> Seq<char> {
    record.0.name + ","@ + record.0.id + ","@ + record.1 + "\n"@
}

/// The lines of the records, in order.
pub open spec fn record_lines(kept: Seq<RecordView>) -> Seq<char>
    decreases kept.len(),
{
    if kept.len() == 0 {
        Seq::<char>::empty()
    } else {
        record_lines(kept.drop_last()) + record_line(kept.last())
    }
}

/// The export of a list of records that holds at least one record.
pub open spec fn export_text(kept: Seq<RecordView>) -> Seq<char> {
    header_line() + record_lines(kept)
}

/// What one record adds to the export: nothing where the allow-list does not
/// admit it, else its line, after the header where it is the first.
pub open spec fn emitted_text(matched: bool, allow: Seq<Seq<char>>, record: RecordView) -> Seq<
    char,
> {
    if !allowed(allow, record.0.id) {
        Seq::<char>::empty()
    } else if matched {
        record_line(record)
    } else {
        header_line() + record_line(record)
    }
}

/// Writes the line of one record.
pub fn write_record_line(person: &Person, path: &str) -> (line: String)
    ensures
        line@ == record_line((person@, path@)),
{
    let mut line = person.name.clone();
    line.append(",");
    line.append(person.id.as_str());
    line.append(",");
    line.append(path);
    line.append("\n");
    line
}

/// Writes the export record by record, and remembers whether any record was
/// admitted.
pub struct CsvWriter {
    matched: bool,
}

impl CsvWriter {
    /// Whether a record has been admitted so far.
    pub closed spec fn has_matched(&self) -> bool {
        self.matched
    }

    /// A writer that has seen no record.
    pub fn new() -> (writer: CsvWriter)
        ensures
            !writer.has_matched(),
    {
        CsvWriter { matched: false }
    }

    /// Takes one record and returns what it adds to the export.
    pub fn feed(&mut self, person: &Person, path: &str, allow: &Vec<String>) -> (emitted: String)
        ensures
            emitted@ == emitted_text(old(self).has_matched(), texts(allow@), (person@, path@)),
            final(self).has_matched() == (old(self).has_matched() || allowed(
                texts(allow@),
                person@.id,
            )),
    {
        if !is_allowed(allow, person.id.as_str()) {
            return String::new();
        }
        let line = write_record_line(person, path);
        if self.matched {
            line
        } else {
            self.matched = true;
            let mut emitted = String::from_str("Full Name,ID,Path\n");
            emitted.append(line.as_str());
            emitted
        }
    }

    /// Ends the export of the records found below `root`: it fails where no
    /// record was admitted.
    pub fn finish(&self, root: &str) -> (outcome: Result<(), CliError>)
        ensures
            outcome is Ok <==> self.has_matched(),
            outcome matches Err(error) ==> error@ == CliErrorView::FilesDoNotExist(root@),
    {
        if self.matched {
            Ok(())
        } else {
            Err(CliError::FilesDoNotExist(String::from_str(root)))
        }
    }
}

/// Exports the records found below `root` that the allow-list admits. It
/// fails where the allow-list admits none of them.
pub fn render_csv(root: &str, found: &Vec<(Person, String)>, allow: &Vec<String>) -> (outcome:
    Result<String, CliError>)
    ensures
        outcome is Ok <==> records(found@).filter(admits(texts(allow@))).len() > 0,
        outcome matches Ok(text) ==> text@ == export_text(
            records(found@).filter(admits(texts(allow@))),
        ),
        outcome matches Err(error) ==> error@ == CliErrorView::FilesDoNotExist(root@),
{
    let mut writer = CsvWriter::new();
    let mut text = String::new();
    let mut index: usize = 0;
    let ghost test = admits(texts(allow@));
    proof {
        reveal(Seq::filter);
    }
    while index < found.len()
        invariant
            index <= found.len(),
            test == admits(texts(allow@)),
            writer.has_matched() == (records(found@).take(index as int).filter(test).len() > 0),
            text@ == (if writer.has_matched() {
                export_text(records(found@).take(index as int).filter(test))
            } else {
                Seq::<char>::empty()
            }),
        decreases found.len() - index,
    {
        let emitted = writer.feed(&found[index].0, found[index].1.as_str(), allow);
        text.append(emitted.as_str());
        proof {
            reveal(Seq::filter);
            let before = records(found@).take(index as int);
            let longer = records(found@).take(index + 1);
            assert(longer.drop_last() =~= before);
            if test(longer.last()) {
                assert(longer.filter(test).drop_last() =~= before.filter(test));
                assert(record_lines(longer.filter(test)) == record_lines(before.filter(test))
                    + record_line(longer.last()));
            }
        }
        index = index + 1;
    }
    assert(records(found@).take(found@.len() as int) =~= records(found@));
    match writer.finish(root) {
        Ok(_) => Ok(text),
        Err(error) => Err(error),
    }
}

} // verus!
