//! The copy jobs of a restructuring, and where each file goes.
//!
//! Every file of a subject is copied into the directory of that subject,
//! which stands directly below the destination root and is named by the
//! subject's identifier. The file keeps its name and loses its directories.

use vstd::prelude::*;
use vstd::string::StringExecFns;

use crate::catalog::Catalog;
use crate::components::path_components;
use crate::components::split_path_to_components;
use crate::grouping::first_occurrences;
use crate::grouping::flattened;
use crate::grouping::group_records;
use crate::grouping::GroupView;
use crate::grouping::RecordView;
use crate::text::str_eq;
use crate::text::texts;

verus! {

/// One file to copy, and the identifier of the subject that it belongs to.
#[derive(Debug)]
pub struct CopyJob {
    pub source: String,
    pub id: String,
}

/// A copy job as plain texts.
pub struct CopyJobView {
    pub source: Seq<char>,
    pub id: Seq<char>,
}

impl View for CopyJob {
    type V = CopyJobView;

    open spec fn view(&self) -> CopyJobView {
        CopyJobView { source: self.source@, id: self.id@ }
    }
}

impl Clone for CopyJob {
    fn clone(&self) -> (copy: CopyJob)
        ensures
            copy@ == self@,
    {
        CopyJob { source: self.source.clone(), id: self.id.clone() }
    }
}

/// The jobs that a list holds.
pub open spec fn job_views(jobs: Seq<CopyJob>) -> Seq<CopyJobView> {
    jobs.map_values(|job: CopyJob| job@)
}

/// The job that copies the file of a record.
pub open spec fn job_of(record: RecordView) -> CopyJobView {
    CopyJobView { source: record.1, id: record.0.id }
}

/// The jobs that copy the files of the records, in order.
pub open spec fn jobs_of(records: Seq<RecordView>) -> Seq<CopyJobView> {
    records.map_values(|record: RecordView| job_of(record))
}

/// Turns the catalog into one list of jobs: group after group, and within a
/// group path after path.
pub fn flatten(catalog: Catalog) -> (jobs: Vec<CopyJob>)
    ensures
        job_views(jobs@) == jobs_of(flattened(catalog.groups())),
{
    let ghost groups = catalog.groups();
    let entries = catalog.into_entries();
    let mut jobs: Vec<CopyJob> = Vec::new();
    for entry in outer: entries
        invariant
            groups == crate::catalog::entry_views(entries@),
            job_views(jobs@) == jobs_of(flattened(groups.take(outer.index() as int))),
    {
        let ghost position = outer.index() as int;
        let ghost done = jobs_of(flattened(groups.take(position)));
        let (person, sorted_paths) = entry;
        let paths = sorted_paths.into_inner();
        let ghost who = person@;
        for path in inner: paths
            invariant
                who == person@,
                job_views(jobs@) == done + jobs_of(
                    group_records(who, texts(paths@).take(inner.index() as int)),
                ),
        {
            let ghost earlier = jobs@;
            let job = CopyJob { source: path, id: person.id.clone() };
            jobs.push(job);
            assert(job_views(jobs@) =~= job_views(earlier).push(job@));
        }
        assert(groups.take(position + 1).drop_last() =~= groups.take(position));
    }
    assert(groups.take(groups.len() as int) =~= groups);
    jobs
}

/// `base`, the separator, and `name`.
pub open spec fn joined(base: Seq<char>, name: Seq<char>) -> Seq<char> {
    base + seq!['/'] + name
}

/// Appends `name` to the path `base`.
pub fn join_path(base: &str, name: &str) -> (path: String)
    ensures
        path@ == joined(base@, name@),
{
    proof {
        reveal_strlit("/");
    }
    let mut path = String::from_str(base);
    path.append("/");
    path.append(name);
    path
}

/// Whether a component names no file: the root, the directory itself, or its
/// parent.
pub open spec fn names_no_file(component: Seq<char>) -> bool {
    component == seq!['/'] || component == seq!['.'] || component == seq!['.', '.']
}

/// The name of the file that a path leads to: its last component, unless the
/// path has none or ends in a component that names no file.
pub open spec fn file_name(path: Seq<char>) -> Option<Seq<char>> {
    let components = path_components(path);
    if components.len() == 0 || names_no_file(components.last()) {
        None
    } else {
        Some(components.last())
    }
}

/// Finds the name of the file that a path leads to.
pub fn file_name_of(path: &str) -> (name: Option<String>)
    ensures
        name is Some <==> file_name(path@) is Some,
        name matches Some(text) ==> file_name(path@) == Some(text@),
{
    let mut components = split_path_to_components(path);
    match components.pop() {
        None => None,
        Some(last) => {
            proof {
                reveal_strlit("/");
                reveal_strlit(".");
                reveal_strlit("..");
                assert("/"@ =~= seq!['/']);
                assert("."@ =~= seq!['.']);
                assert(".."@ =~= seq!['.', '.']);
            }
            if str_eq(last.as_str(), "/") || str_eq(last.as_str(), ".") || str_eq(
                last.as_str(),
                "..",
            ) {
                None
            } else {
                Some(last)
            }
        },
    }
}

/// Where the file of a job goes below `root`, if its path leads to a file.
pub open spec fn destination(root: Seq<char>, job: CopyJobView) -> Option<Seq<char>> {
    match file_name(job.source) {
        Some(name) => Some(joined(joined(root, job.id), name)),
        None => None,
    }
}

/// Computes where the file of a job goes below `root`.
pub fn destination_of(root: &str, job: &CopyJob) -> (target: Option<String>)
    ensures
        target is Some <==> destination(root@, job@) is Some,
        target matches Some(path) ==> destination(root@, job@) == Some(path@),
{
    match file_name_of(job.source.as_str()) {
        Some(name) => {
            let directory = join_path(root, job.id.as_str());
            Some(join_path(directory.as_str(), name.as_str()))
        },
        None => None,
    }
}

/// The identifiers of the subjects of the groups, in order.
pub open spec fn group_ids(groups: Seq<GroupView>) -> Seq<Seq<char>> {
    groups.map_values(|group: GroupView| group.0.id)
}

/// The directories of the subjects below `root`: one for each identifier, in
/// the order in which the identifiers first occur. Subjects that share an
/// identifier share the directory.
pub open spec fn subject_directories(root: Seq<char>, groups: Seq<GroupView>) -> Seq<Seq<char>> {
    first_occurrences(group_ids(groups)).map_values(|id: Seq<char>| joined(root, id))
}

/// Whether one of the strings holds the text.
fn holds(items: &Vec<String>, text: &str) -> (found: bool)
    ensures
        found == texts(items@).contains(text@),
{
    let mut index: usize = 0;
    while index < items.len()
        invariant
            index <= items.len(),
            forall|i: int| 0 <= i < index ==> texts(items@)[i] != text@,
        decreases items.len() - index,
    {
        if str_eq(items[index].as_str(), text) {
            assert(texts(items@)[index as int] == text@);
            return true;
        }
        index = index + 1;
    }
    false
}

/// Lists the directories of the subjects of the catalog below `root`.
pub fn directories_of(root: &str, catalog: &Catalog) -> (directories: Vec<String>)
    ensures
        texts(directories@) == subject_directories(root@, catalog.groups()),
{
    let ghost groups = catalog.groups();
    let count: usize = catalog.len();
    let mut ids: Vec<String> = Vec::new();
    let mut directories: Vec<String> = Vec::new();
    let mut index: usize = 0;
    while index < count
        invariant
            groups == catalog.groups(),
            count == groups.len(),
            index <= count,
            texts(ids@) == first_occurrences(group_ids(groups.take(index as int))),
            texts(directories@) == texts(ids@).map_values(|id: Seq<char>| joined(root@, id)),
        decreases count - index,
    {
        if let Some(person) = catalog.person(index) {
            let id = &person.id;
            let ghost listed = texts(directories@);
            assert(group_ids(groups.take(index + 1)).drop_last() =~= group_ids(
                groups.take(index as int),
            ));
            if !holds(&ids, id.as_str()) {
                ids.push(id.clone());
                directories.push(join_path(root, id.as_str()));
                assert(texts(directories@) =~= listed.push(joined(root@, id@)));
            }
        }
        index = index + 1;
    }
    assert(groups.take(groups.len() as int) =~= groups);
    directories
}

} // verus!
