//! The configuration schema: the root descriptor of the repository and the
//! per-config descriptor, as plain in-memory values.
//!
//! Reading these from disk, and writing them back, happens outside this
//! crate; here they are data for the resolver and the two sync engines.

use vstd::prelude::*;

use crate::version::{Version, VersionSpecifier};

verus! {

/// The file name of the root descriptor, expected at the repository root.
pub const ROOT_PATH: &'static str = "dottor.toml";

/// The file name of the per-config descriptor, expected in every config
/// directory and always excluded from synchronization.
pub const CONFIG_PATH: &'static str = "dotconfig.toml";

/// The root descriptor: root-level excludes and synchronization settings.
#[derive(Debug, Clone)]
pub struct RootConfiguration {
    pub exclude: Vec<String>,
    pub synchronization: RootSynchronization,
}

/// Where and how the repository itself is synchronized.
#[derive(Debug, Clone)]
pub struct RootSynchronization {
    pub repository: String,
    pub remote: String,
    pub branch: String,
}

impl Default for RootConfiguration {
    /// The root configuration written into a fresh repository: the
    /// version-control metadata directory is excluded.
    fn default() -> (r: RootConfiguration)
        ensures
            r.exclude@.len() == 1,
            r.exclude@[0]@ == ".git/"@,
            r.synchronization.repository@ == Seq::<char>::empty(),
            r.synchronization.remote@ == "origin"@,
            r.synchronization.branch@ == "main"@,
    {
        let mut exclude: Vec<String> = Vec::new();
        exclude.push(".git/".to_owned());
        RootConfiguration { exclude, synchronization: RootSynchronization::default() }
    }
}

impl Default for RootSynchronization {
    /// An empty repository URL, the conventional remote name, and `"main"`
    /// as the branch.  A caller may replace the branch with the name its
    /// version-control configuration prefers.
    fn default() -> (r: RootSynchronization)
        ensures
            r.repository@ == Seq::<char>::empty(),
            r.remote@ == "origin"@,
            r.branch@ == "main"@,
    {
        RootSynchronization {
            repository: String::new(),
            remote: "origin".to_owned(),
            branch: "main".to_owned(),
        }
    }
}

/// A per-config descriptor.
#[derive(Debug, Clone)]
pub struct Configuration {
    pub config: Config,
    pub deploy: Deploy,
    pub dependencies: Dependencies,
}

/// General settings of a config.
#[derive(Debug, Clone)]
pub struct Config {
    pub name: Option<String>,
}

/// How a config is deployed: excludes, the empty-target policy, and one
/// target per supported platform.
#[derive(Debug, Clone)]
pub struct Deploy {
    pub exclude: Vec<String>,
    pub target_require_empty: bool,
    pub windows: DeployTarget,
    pub linux: DeployTarget,
}

/// One platform's deployment target: the path, extra excludes, and an
/// optional override of the config-level empty-target policy.
#[derive(Debug, Clone)]
pub struct DeployTarget {
    pub target: String,
    pub exclude: Vec<String>,
    pub target_require_empty: Option<bool>,
}

/// What a config depends on.
#[derive(Debug, Clone)]
pub struct Dependencies {
    pub simple: SimpleDependencies,
    pub local: Vec<LocalDependency>,
    pub system: Vec<SystemDependency>,
}

/// Dependencies named without further detail.
#[derive(Debug, Clone)]
pub struct SimpleDependencies {
    pub local: Vec<String>,
    pub system: Vec<String>,
}

/// A dependency on another config of the same repository.
#[derive(Debug, Clone)]
pub struct LocalDependency {
    pub name: String,
    pub required: bool,
}

/// A dependency on a program installed on the system, validated against a
/// version constraint.
#[derive(Debug, Clone)]
pub struct SystemDependency {
    pub name: String,
    pub required: bool,
    pub version: Version,
    pub version_args: String,
}

impl Default for Config {
    fn default() -> (r: Config)
        ensures
            r.name is None,
    {
        Config { name: Option::None }
    }
}

impl Default for Deploy {
    /// By default nothing is excluded, the target must be empty, and both
    /// platform targets are empty.
    fn default() -> (r: Deploy)
        ensures
            r.exclude@.len() == 0,
            r.target_require_empty == true,
            r.windows.target@ == Seq::<char>::empty(),
            r.windows.exclude@.len() == 0,
            r.windows.target_require_empty is None,
            r.linux.target@ == Seq::<char>::empty(),
            r.linux.exclude@.len() == 0,
            r.linux.target_require_empty is None,
    {
        Deploy {
            exclude: Vec::new(),
            target_require_empty: true,
            windows: DeployTarget::default(),
            linux: DeployTarget::default(),
        }
    }
}

impl Default for DeployTarget {
    fn default() -> (r: DeployTarget)
        ensures
            r.target@ == Seq::<char>::empty(),
            r.exclude@.len() == 0,
            r.target_require_empty is None,
    {
        DeployTarget { target: String::new(), exclude: Vec::new(), target_require_empty: Option::None }
    }
}

impl Default for Dependencies {
    fn default() -> (r: Dependencies)
        ensures
            r.simple.local@.len() == 0,
            r.simple.system@.len() == 0,
            r.local@.len() == 0,
            r.system@.len() == 0,
    {
        Dependencies {
            simple: SimpleDependencies { local: Vec::new(), system: Vec::new() },
            local: Vec::new(),
            system: Vec::new(),
        }
    }
}

impl Default for SimpleDependencies {
    fn default() -> (r: SimpleDependencies)
        ensures
            r.local@.len() == 0,
            r.system@.len() == 0,
    {
        SimpleDependencies { local: Vec::new(), system: Vec::new() }
    }
}

impl Default for Configuration {
    fn default() -> (r: Configuration)
        ensures
            r.config.name is None,
            r.deploy.exclude@.len() == 0,
            r.deploy.target_require_empty == true,
            r.dependencies.local@.len() == 0,
            r.dependencies.system@.len() == 0,
    {
        Configuration {
            config: Config::default(),
            deploy: Deploy::default(),
            dependencies: Dependencies::default(),
        }
    }
}

impl Default for LocalDependency {
    fn default() -> (r: LocalDependency)
        ensures
            r.name@ == Seq::<char>::empty(),
            r.required == true,
    {
        LocalDependency { name: String::new(), required: true }
    }
}

impl Default for SystemDependency {
    fn default() -> (r: SystemDependency)
        ensures
            r.name@ == Seq::<char>::empty(),
            r.required == true,
            r.version == (Version {
                specifier: VersionSpecifier::Unspecified,
                major: 1u32,
                minor: 0u32,
                patch: 0u32,
            }),
            r.version_args@ == "--version"@,
    {
        SystemDependency {
            name: String::new(),
            required: true,
            version: Version::new(VersionSpecifier::Unspecified, 1, 0, 0),
            version_args: "--version".to_owned(),
        }
    }
}

} // verus!
