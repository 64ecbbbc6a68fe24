//! What the engine reads of a profile: its install stage, the game it holds and its
//! Java settings.
use vstd::prelude::*;

verus! {

/// How far the materialization of a profile has come.
#[derive(Debug, Clone, Copy, PartialEq, Eq, Structural)]
pub enum ProfileInstallStage {
    /// Nothing of the game is on disk yet.
    NotInstalled,
    /// The game is being downloaded and prepared.
    Installing,
    /// The files of a pack are being written or removed.
    PackInstalling,
    /// The profile can be started.
    Installed,
}

impl ProfileInstallStage {
    /// Whether an install is under way.
    pub open spec fn busy(self) -> bool {
        self == ProfileInstallStage::Installing || self == ProfileInstallStage::PackInstalling
    }

    /// Whether an install is under way.
    pub fn is_busy(self) -> (b: bool)
        ensures
            b == self.busy(),
    {
        self == ProfileInstallStage::Installing || self == ProfileInstallStage::PackInstalling
    }

    /// The stage at which the install of the game starts, whatever came before.
    pub fn begin_install(self) -> (next: Self)
        ensures
            next == ProfileInstallStage::Installing,
    {
        ProfileInstallStage::Installing
    }

    /// The stage at which the files of a pack are written or removed. Removal enters
    /// it and never leaves it.
    pub fn begin_pack_change(self) -> (next: Self)
        ensures
            next == ProfileInstallStage::PackInstalling,
    {
        ProfileInstallStage::PackInstalling
    }

    /// The stage after an install has ended: installed where it succeeded, and as it
    /// was where it failed.
    pub fn finish_install(self, succeeded: bool) -> (next: Self)
        ensures
            next == (if succeeded {
                ProfileInstallStage::Installed
            } else {
                self
            }),
    {
        if succeeded {
            ProfileInstallStage::Installed
        } else {
            self
        }
    }
}

/// A Java installation.
#[derive(Debug, Clone, PartialEq, Eq)]
pub struct JavaVersion {
    pub path: String,
    pub version: String,
    pub architecture: String,
}

impl JavaVersion {
    /// A copy of the installation's description.
    pub fn duplicate(&self) -> (r: JavaVersion)
        ensures
            r == *self,
    {
        JavaVersion {
            path: self.path.clone(),
            version: self.version.clone(),
            architecture: self.architecture.clone(),
        }
    }
}

/// The Java settings of one profile.
#[derive(Debug, Clone, PartialEq, Eq)]
pub struct JavaSettings {
    /// The installation to use in place of the one that fits the game version.
    pub override_version: Option<JavaVersion>,
}

/// A version of a mod loader.
#[derive(Debug, Clone, PartialEq, Eq)]
pub struct LoaderVersion {
    pub id: String,
}

/// What a profile says of the game it holds.
#[derive(Debug, Clone, PartialEq, Eq)]
pub struct ProfileMetadata {
    pub name: String,
    pub game_version: String,
    pub loader_version: Option<LoaderVersion>,
}

/// A profile, as far as installing and launching read it.
#[derive(Debug, Clone, PartialEq, Eq)]
pub struct Profile {
    /// The profile's identifier: its path below the profiles directory.
    pub path: String,
    pub install_stage: ProfileInstallStage,
    pub metadata: ProfileMetadata,
    pub java: Option<JavaSettings>,
}

} // verus!
