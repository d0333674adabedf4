use dicat::errors::CliError;

#[test]
fn message_of_each_error() {
    assert_eq!(
        CliError::DirectoryDoesNotExist("data".to_string()).message(),
        "Directory data doesn't exist"
    );
    assert_eq!(
        CliError::FilesDoNotExist("data".to_string()).message(),
        "Directory data doesn't contain valid .DICOM files"
    );
    assert_eq!(
        CliError::FilesDoNotExistForPerson("data".to_string(), "ID-1".to_string()).message(),
        "Directory data doesn't contain valid .DICOM files for person's ID ID-1"
    );
    assert_eq!(
        CliError::NotADirectory("data/file".to_string()).message(),
        "data/file isn't a directory"
    );
    assert_eq!(CliError::GeneralError.message(), "Something went wrong");
    assert_eq!(
        CliError::CreatingDirectoryError("out/ID-1".to_string()).message(),
        "Couldn't create out/ID-1 directory"
    );
    assert_eq!(
        CliError::CopyError("data/a.dcm".to_string()).message(),
        "Couldn't copy data/a.dcm"
    );
}

#[test]
fn clone_of_an_error_is_the_same_error() {
    let errors = vec![
        CliError::DirectoryDoesNotExist("a".to_string()),
        CliError::FilesDoNotExist("b".to_string()),
        CliError::FilesDoNotExistForPerson("c".to_string(), "d".to_string()),
        CliError::NotADirectory("e".to_string()),
        CliError::GeneralError,
        CliError::CreatingDirectoryError("f".to_string()),
        CliError::CopyError("g".to_string()),
    ];
    for error in &errors {
        assert_eq!(&error.clone(), error);
    }
}
