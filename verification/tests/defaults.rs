use dottor::config::{Configuration, Deploy, DeployTarget, LocalDependency, RootConfiguration,
    SystemDependency, CONFIG_PATH, ROOT_PATH};
use dottor::version::VersionSpecifier;

#[test]
fn descriptor_names_are_fixed() {
    assert_eq!(ROOT_PATH, "dottor.toml");
    assert_eq!(CONFIG_PATH, "dotconfig.toml");
}

#[test]
fn root_defaults_exclude_the_git_directory() {
    let root = RootConfiguration::default();
    assert_eq!(root.exclude, vec![".git/".to_owned()]);
    assert_eq!(root.synchronization.remote, "origin");
    assert_eq!(root.synchronization.branch, "main");
    assert_eq!(root.synchronization.repository, "");
}

#[test]
fn configuration_defaults_require_an_empty_target() {
    let config = Configuration::default();
    assert!(config.config.name.is_none());
    assert!(config.deploy.target_require_empty);
    assert!(config.deploy.exclude.is_empty());
    assert!(config.dependencies.local.is_empty());
    assert!(config.dependencies.system.is_empty());
}

#[test]
fn target_defaults_are_empty() {
    let deploy = Deploy::default();
    assert_eq!(deploy.windows.target, "");
    assert_eq!(deploy.linux.target, "");
    assert!(DeployTarget::default().target_require_empty.is_none());
}

#[test]
fn dependency_defaults_are_required() {
    let local = LocalDependency::default();
    assert!(local.required);
    assert_eq!(local.name, "");
    let system = SystemDependency::default();
    assert!(system.required);
    assert_eq!(system.version_args, "--version");
    assert!(matches!(system.version.specifier, VersionSpecifier::Unspecified));
    assert_eq!(system.version.major, 1);
}
