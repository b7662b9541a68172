use dottor::config::{Configuration, RootConfiguration, RootSynchronization};
use dottor::structure::{contains_name, stripped_excludes, verify_structure, ScanEntry, Structure};

fn root_with_excludes(excludes: Vec<&str>) -> RootConfiguration {
    RootConfiguration {
        exclude: excludes.into_iter().map(str::to_owned).collect(),
        synchronization: RootSynchronization::default(),
    }
}

fn dir(name: &str, descriptor: Option<Configuration>) -> ScanEntry {
    ScanEntry { name: name.to_owned(), is_dir: true, descriptor }
}

fn file(name: &str) -> ScanEntry {
    ScanEntry { name: name.to_owned(), is_dir: false, descriptor: None }
}

#[test]
fn resolve_collects_config_directories() {
    let root = root_with_excludes(vec![".git/"]);
    let entries = vec![
        dir(".git", None),
        dir("vim", Some(Configuration::default())),
        dir("shell", Some(Configuration::default())),
        file("dottor.toml"),
    ];
    let s = Structure::resolve(root, entries).expect("resolution should succeed");
    assert_eq!(s.configs.len(), 2);
    assert!(s.contains(&"vim".to_owned()));
    assert!(s.contains(&"shell".to_owned()));
    assert!(!s.contains(&".git".to_owned()));
    assert!(s.get(&"vim".to_owned()).is_some());
    assert!(s.get(&"absent".to_owned()).is_none());
}

#[test]
fn excluded_directory_never_appears() {
    // a root-level exclude of "foo" bars a directory named foo, whatever it holds
    let root = root_with_excludes(vec!["foo"]);
    let entries = vec![dir("foo", Some(Configuration::default())), dir("bar", Some(
        Configuration::default(),
    ))];
    let s = Structure::resolve(root, entries).expect("resolution should succeed");
    assert!(!s.contains(&"foo".to_owned()));
    assert!(s.contains(&"bar".to_owned()));
}

#[test]
fn trailing_separator_is_stripped_from_excludes() {
    let root = root_with_excludes(vec!["foo/"]);
    let entries = vec![dir("foo", None)];
    let s = Structure::resolve(root, entries).expect("resolution should succeed");
    assert!(!s.contains(&"foo".to_owned()));
}

#[test]
fn unreadable_descriptor_aborts_resolution() {
    let root = root_with_excludes(vec![]);
    let entries = vec![dir("good", Some(Configuration::default())), dir("broken", None)];
    match Structure::resolve(root, entries) {
        Ok(_) => panic!("a missing descriptor should abort resolution"),
        Err(e) => assert_eq!(e.message(), "could not read a config descriptor"),
    }
}

#[test]
fn plain_files_are_not_configs() {
    let root = root_with_excludes(vec![]);
    let entries = vec![file("README.md"), dir("vim", Some(Configuration::default()))];
    let s = Structure::resolve(root, entries).expect("resolution should succeed");
    assert_eq!(s.configs.len(), 1);
    assert!(!s.contains(&"README.md".to_owned()));
}

#[test]
fn verify_structure_unwraps_or_reports() {
    let root = root_with_excludes(vec![]);
    let s = Structure::resolve(root, vec![]).expect("resolution should succeed");
    assert!(verify_structure(Some(s)).is_ok());
    match verify_structure(None) {
        Ok(_) => panic!("an unresolved structure should be reported"),
        Err(e) => assert_eq!(e.message(), "Structure of the dotfiles repository is invalid."),
    }
}

#[test]
fn stripped_excludes_drop_one_trailing_separator() {
    let root = root_with_excludes(vec![".git/", "scratch", "deep//"]);
    let names = stripped_excludes(&root);
    assert_eq!(names, vec![".git".to_owned(), "scratch".to_owned(), "deep/".to_owned()]);
    assert!(contains_name(&names, &".git".to_owned()));
    assert!(!contains_name(&names, &".git/".to_owned()));
}
