use dottor::err::Error;
use dottor::io_checks::{assert_empty, assert_root_present, check_root_present, check_valid_dir,
    ExpectedType, IOError};

#[test]
fn error_carries_its_message() {
    assert_eq!(Error::new("plain").message(), "plain");
    assert_eq!(Error::from_string("formatted 42".to_owned()).message(), "formatted 42");
}

#[test]
fn expected_type_inverts_and_describes() {
    assert_eq!(ExpectedType::File.invert(), ExpectedType::Directory);
    assert_eq!(ExpectedType::Directory.invert(), ExpectedType::File);
    assert_eq!(ExpectedType::File.describe(), "file");
    assert_eq!(ExpectedType::Directory.describe(), "directory");
}

#[test]
fn root_presence_is_asserted() {
    assert!(assert_root_present(true).is_ok());
    let e = assert_root_present(false).unwrap_err();
    assert!(matches!(e, IOError::MissingRoot));
    assert_eq!(e.message(), "Directory doesn't contain root configuration 'dottor.toml'");
}

#[test]
fn root_presence_is_checked_for_commands() {
    assert!(check_root_present(true).is_ok());
    let e = check_root_present(false).unwrap_err();
    assert_eq!(e.message(), "Directory doesn't contain root config 'dottor.toml'.");
}

#[test]
fn emptiness_is_asserted() {
    assert!(assert_empty(true, false, "d").is_ok());
    let e = assert_empty(false, false, "d").unwrap_err();
    assert!(matches!(e, IOError::IncorrectType(ExpectedType::Directory)));
    assert_eq!(e.message(), "Path doesn't lead to a directory");
    let e = assert_empty(true, true, "filled").unwrap_err();
    match &e {
        IOError::DirectoryNotEmpty(dir) => assert_eq!(dir, "filled"),
        other => panic!("expected the directory-not-empty error, got {:?}", other),
    }
    assert_eq!(e.message(), "Directory 'filled' is not empty.");
}

#[test]
fn directory_validity_is_checked() {
    assert!(check_valid_dir(true, "d").is_ok());
    let e = check_valid_dir(false, "nope").unwrap_err();
    assert_eq!(e.message(), "'nope' is not a valid directory");
}

#[test]
fn io_error_wraps_other_messages() {
    let e = IOError::IO("disk on fire".to_owned());
    assert_eq!(e.message(), "disk on fire");
}
