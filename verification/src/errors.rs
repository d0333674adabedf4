//! The failures that cataloguing and restructuring report.

use vstd::prelude::*;
use vstd::string::StringExecFns;

verus! {

/// A failure, with the path or the identifier that it concerns.
#[derive(Debug, PartialEq, Eq)]
pub enum CliError {
    /// The directory is missing.
    DirectoryDoesNotExist(String),
    /// The directory was searched and no record in it matched.
    FilesDoNotExist(String),
    /// The directory was searched and held no record of the given subject.
    FilesDoNotExistForPerson(String, String),
    /// The path names something other than a directory.
    NotADirectory(String),
    /// A failure without further detail.
    GeneralError,
    /// The directory could not be created.
    CreatingDirectoryError(String),
    /// The file could not be copied.
    CopyError(String),
}

/// A failure as plain texts.
pub enum CliErrorView {
    DirectoryDoesNotExist(Seq<char>),
    FilesDoNotExist(Seq<char>),
    FilesDoNotExistForPerson(Seq<char>, Seq<char>),
    NotADirectory(Seq<char>),
    GeneralError,
    CreatingDirectoryError(Seq<char>),
    CopyError(Seq<char>),
}

impl View for CliError {
    type V = CliErrorView;

    open spec fn view(&self) -> CliErrorView {
        match self {
            CliError::DirectoryDoesNotExist(path) => CliErrorView::DirectoryDoesNotExist(path@),
            CliError::FilesDoNotExist(path) => CliErrorView::FilesDoNotExist(path@),
            CliError::FilesDoNotExistForPerson(path, id) => CliErrorView::FilesDoNotExistForPerson(
                path@,
                id@,
            ),
            CliError::NotADirectory(path) => CliErrorView::NotADirectory(path@),
            CliError::GeneralError => CliErrorView::GeneralError,
            CliError::CreatingDirectoryError(path) => CliErrorView::CreatingDirectoryError(path@),
            CliError::CopyError(path) => CliErrorView::CopyError(path@),
        }
    }
}

/// The one line that describes a failure.
pub open spec fn message_text(error: CliErrorView) -> Seq<char> {
    match error {
        CliErrorView::DirectoryDoesNotExist(path) => "Directory "@ + path + " doesn't exist"@,
        CliErrorView::FilesDoNotExist(path) => "Directory "@ + path
            + " doesn't contain valid .DICOM files"@,
        CliErrorView::FilesDoNotExistForPerson(path, id) => "Directory "@ + path
            + " doesn't contain valid .DICOM files for person's ID "@ + id,
        CliErrorView::NotADirectory(path) => path + " isn't a directory"@,
        CliErrorView::GeneralError => "Something went wrong"@,
        CliErrorView::CreatingDirectoryError(path) => "Couldn't create "@ + path + " directory"@,
        CliErrorView::CopyError(path) => "Couldn't copy "@ + path,
    }
}

impl Clone for CliError {
    fn clone(&self) -> (copy: CliError)
        ensures
            copy@ == self@,
    {
        match self {
            CliError::DirectoryDoesNotExist(path) => CliError::DirectoryDoesNotExist(path.clone()),
            CliError::FilesDoNotExist(path) => CliError::FilesDoNotExist(path.clone()),
            CliError::FilesDoNotExistForPerson(path, id) => CliError::FilesDoNotExistForPerson(
                path.clone(),
                id.clone(),
            ),
            CliError::NotADirectory(path) => CliError::NotADirectory(path.clone()),
            CliError::GeneralError => CliError::GeneralError,
            CliError::CreatingDirectoryError(path) => CliError::CreatingDirectoryError(
                path.clone(),
            ),
            CliError::CopyError(path) => CliError::CopyError(path.clone()),
        }
    }
}

impl CliError {
    /// Describes the failure in one line.
    pub fn message(&self) -> (text: String)
        ensures
            text@ == message_text(self@),
    {
        match self {
            CliError::DirectoryDoesNotExist(path) => {
                let mut text = String::from_str("Directory ");
                text.append(path.as_str());
                text.append(" doesn't exist");
                text
            },
            CliError::FilesDoNotExist(path) => {
                let mut text = String::from_str("Directory ");
                text.append(path.as_str());
                text.append(" doesn't contain valid .DICOM files");
                text
            },
            CliError::FilesDoNotExistForPerson(path, id) => {
                let mut text = String::from_str("Directory ");
                text.append(path.as_str());
                text.append(" doesn't contain valid .DICOM files for person's ID ");
                text.append(id.as_str());
                text
            },
            CliError::NotADirectory(path) => {
                let mut text = path.clone();
                text.append(" isn't a directory");
                text
            },
            CliError::GeneralError => String::from_str("Something went wrong"),
            CliError::CreatingDirectoryError(path) => {
                let mut text = String::from_str("Couldn't create ");
                text.append(path.as_str());
                text.append(" directory");
                text
            },
            CliError::CopyError(path) => {
                let mut text = String::from_str("Couldn't copy ");
                text.append(path.as_str());
                text
            },
        }
    }
}

} // verus!
