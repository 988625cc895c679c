//! The manifest data model: the OS manifest, app manifests and driver
//! manifests, their ghost models, and the well-formedness relations that the
//! registry and the dependency editor preserve.

use vstd::prelude::*;

verus! {

/// The error taxonomy of the whole tool. Every operation either succeeds or
/// fails fast with one of these; nothing is retried.
#[derive(Clone, Copy, Debug, PartialEq, Eq, Structural)]
pub enum ConfigError {
    /// A manifest file is missing.
    NotFound,
    /// A manifest file does not parse against the expected shape.
    Malformed,
    /// `register` was asked for a name the OS manifest already lists.
    AlreadyRegistered,
    /// A dependency addition names a component the OS manifest already lists.
    AlreadyPresent,
    /// A dependency addition names a component the template catalog lacks.
    NotFoundInCatalog,
    /// A directory or file operation failed.
    IOFailure,
    /// A registered app's manifest could not be loaded at build time.
    MissingAppManifest,
}

/// Platform parameters for an AVR target.
pub struct AVRPlatformSpecificConfig {
    pub f_cpu: i32,
    pub mcu: String,
}

/// The platform the project targets, a closed sum so that further platforms
/// are a local addition.
pub enum PlatformSpecific {
    AVR(AVRPlatformSpecificConfig),
}

/// The project-wide manifest: every registered driver and app, in
/// registration order, plus the platform configuration.
pub struct OSConfig {
    pub drivers: Vec<String>,
    pub apps: Vec<String>,
    pub platform_spec: PlatformSpecific,
}

/// The manifest of one app component.
pub struct AppConfig {
    pub name: String,
    pub provides: String,
    pub requires_apps: Vec<String>,
    pub requires_drivers: Vec<String>,
}

/// The manifest of one driver component.
pub struct DriverConfig {
    pub name: String,
    pub provides: String,
    pub requires: Vec<String>,
}

/// Mathematical model of `AVRPlatformSpecificConfig`.
#[verifier::ext_equal]
pub struct AvrModel {
    pub f_cpu: i32,
    pub mcu: Seq<char>,
}

/// Mathematical model of `PlatformSpecific`.
#[verifier::ext_equal]
pub enum PlatformModel {
    AVR(AvrModel),
}

/// Mathematical model of `OSConfig`.
#[verifier::ext_equal]
pub struct OSModel {
    pub drivers: Seq<Seq<char>>,
    pub apps: Seq<Seq<char>>,
    pub platform_spec: PlatformModel,
}

/// Mathematical model of `AppConfig`.
#[verifier::ext_equal]
pub struct AppModel {
    pub name: Seq<char>,
    pub provides: Seq<char>,
    pub requires_apps: Seq<Seq<char>>,
    pub requires_drivers: Seq<Seq<char>>,
}

/// Mathematical model of `DriverConfig`.
#[verifier::ext_equal]
pub struct DriverModel {
    pub name: Seq<char>,
    pub provides: Seq<char>,
    pub requires: Seq<Seq<char>>,
}

impl View for AVRPlatformSpecificConfig {
    type V = AvrModel;

    open spec fn view(&self) -> AvrModel {
        AvrModel { f_cpu: self.f_cpu, mcu: self.mcu@ }
    }
}

impl View for PlatformSpecific {
    type V = PlatformModel;

    open spec fn view(&self) -> PlatformModel {
        match self {
            PlatformSpecific::AVR(c) => PlatformModel::AVR(c@),
        }
    }
}

impl View for OSConfig {
    type V = OSModel;

    open spec fn view(&self) -> OSModel {
        OSModel {
            drivers: self.drivers.deep_view(),
            apps: self.apps.deep_view(),
            platform_spec: self.platform_spec@,
        }
    }
}

impl View for AppConfig {
    type V = AppModel;

    open spec fn view(&self) -> AppModel {
        AppModel {
            name: self.name@,
            provides: self.provides@,
            requires_apps: self.requires_apps.deep_view(),
            requires_drivers: self.requires_drivers.deep_view(),
        }
    }
}

impl View for DriverConfig {
    type V = DriverModel;

    open spec fn view(&self) -> DriverModel {
        DriverModel {
            name: self.name@,
            provides: self.provides@,
            requires: self.requires.deep_view(),
        }
    }
}

/// Every requirement an app declares is also registered in the OS manifest:
/// the cross-reference invariant between an app manifest and the OS manifest.
pub open spec fn app_consistent_with_os(app: AppModel, os: OSModel) -> bool {
    &&& forall|i: int| 0 <= i < app.requires_apps.len() ==> os.apps.contains(#[trigger] app.requires_apps[i])
    &&& forall|i: int|
        0 <= i < app.requires_drivers.len() ==> os.drivers.contains(
            #[trigger] app.requires_drivers[i],
        )
}

/// The driver-side cross-reference invariant.
pub open spec fn driver_consistent_with_os(drv: DriverModel, os: OSModel) -> bool {
    forall|i: int| 0 <= i < drv.requires.len() ==> os.drivers.contains(#[trigger] drv.requires[i])
}

impl AVRPlatformSpecificConfig {
    /// The zero-valued platform configuration.
    pub fn empty() -> (r: AVRPlatformSpecificConfig)
        ensures
            r@.f_cpu == 0,
            r@.mcu.len() == 0,
    {
        AVRPlatformSpecificConfig { f_cpu: 0, mcu: String::new() }
    }
}

impl OSConfig {
    /// A fresh project manifest: nothing registered, zero-valued AVR platform.
    pub fn empty() -> (r: OSConfig)
        ensures
            r@.drivers.len() == 0,
            r@.apps.len() == 0,
            r@.platform_spec matches PlatformModel::AVR(a) && a.f_cpu == 0 && a.mcu.len() == 0,
    {
        OSConfig {
            drivers: Vec::new(),
            apps: Vec::new(),
            platform_spec: PlatformSpecific::AVR(AVRPlatformSpecificConfig::empty()),
        }
    }
}

impl AppConfig {
    /// An app manifest with every field empty.
    pub fn empty() -> (r: AppConfig)
        ensures
            r@.name.len() == 0,
            r@.provides.len() == 0,
            r@.requires_apps.len() == 0,
            r@.requires_drivers.len() == 0,
    {
        AppConfig {
            name: String::new(),
            provides: String::new(),
            requires_apps: Vec::new(),
            requires_drivers: Vec::new(),
        }
    }
}

impl AppConfig {
    /// Replaces the entry point this app exposes to the build.
    pub fn set_provides(&mut self, value: &str)
        ensures
            final(self)@ == (AppModel { provides: value@, ..old(self)@ }),
    {
        self.provides = String::from_str(value);
        proof {
            assert(self@ =~= (AppModel { provides: value@, ..old(self)@ }));
        }
    }
}

impl DriverConfig {
    /// A driver manifest with every field empty.
    pub fn empty() -> (r: DriverConfig)
        ensures
            r@.name.len() == 0,
            r@.provides.len() == 0,
            r@.requires.len() == 0,
    {
        DriverConfig { name: String::new(), provides: String::new(), requires: Vec::new() }
    }
}

} // verus!
