//! The failures that installing and launching can end in.
use crate::ident::{hyphenated_form, hyphenated_text};
use crate::text::{join2, join3};
use vstd::prelude::*;

verus! {

/// What is wrong with the pack archive that was handed in.
#[derive(Debug, Clone, PartialEq, Eq)]
pub enum InputFault {
    /// The archive cannot be read.
    MalformedArchive,
    /// The archive holds no manifest.
    MissingManifest,
    /// The pack is for another game.
    UnsupportedGame,
}

/// Why the launcher refuses to install or to start the game.
#[derive(Debug, Clone, PartialEq, Eq)]
pub enum LaunchFault {
    /// No Java installation fits the game version.
    MissingJava,
    /// The Java installation at `path` does not work.
    InvalidJava { path: String },
    /// The game version is not among the known ones.
    InvalidGameVersion { version: String },
    /// The coordinates `artifact` of a library cannot be read.
    InvalidLibrary { artifact: String },
    /// The archive `jar` of a processor names no main class.
    ProcessorMainClassMissing { jar: String },
    /// A processor could not be started.
    ProcessorNotRun { cause: String },
    /// A processor ended with a failure; `stderr` is what it wrote to its error stream.
    ProcessorFailed { stderr: String },
    /// The profile already has a running process, `id`.
    AlreadyRunning { profile: String, id: u128 },
    /// The profile is being installed.
    StillInstalling,
}

/// A failure of the install or launch of an instance.
#[derive(Debug, Clone, PartialEq, Eq)]
pub enum Error {
    /// The input is unusable.
    Input(InputFault),
    /// No mirror delivered the content that was asked for.
    FetchExhausted,
    /// An archive entry is corrupt.
    Integrity(String),
    /// The manifest cannot be decoded.
    Schema(String),
    /// The launcher refuses.
    Launcher(LaunchFault),
    /// The file system failed at `path`.
    Io { path: String, cause: String },
}

impl InputFault {
    /// The message for the user.
    pub open spec fn text(self) -> Seq<char> {
        match self {
            InputFault::MalformedArchive => "Failed to read input modpack zip"@,
            InputFault::MissingManifest => "No pack manifest found in mrpack"@,
            InputFault::UnsupportedGame => "Pack does not support Minecraft"@,
        }
    }

    /// The message for the user.
    pub fn message(&self) -> (s: String)
        ensures
            s@ == self.text(),
    {
        match self {
            InputFault::MalformedArchive => "Failed to read input modpack zip".to_owned(),
            InputFault::MissingManifest => "No pack manifest found in mrpack".to_owned(),
            InputFault::UnsupportedGame => "Pack does not support Minecraft".to_owned(),
        }
    }
}

impl LaunchFault {
    /// The message for the user.
    pub open spec fn text(self) -> Seq<char> {
        match self {
            LaunchFault::MissingJava => "Missing correct java installation"@,
            LaunchFault::InvalidJava { path } => "Java path invalid or non-functional: "@ + path@,
            LaunchFault::InvalidGameVersion { version } => "Invalid game version: "@ + version@,
            LaunchFault::InvalidLibrary { artifact } => {
                "Invalid library coordinates: "@ + artifact@
            },
            LaunchFault::ProcessorMainClassMissing { jar } => {
                "Could not find processor main class for "@ + jar@
            },
            LaunchFault::ProcessorNotRun { cause } => "Error running processor: "@ + cause@,
            LaunchFault::ProcessorFailed { stderr } => "Processor error: "@ + stderr@,
            LaunchFault::AlreadyRunning { profile, id } => {
                "Profile "@ + profile@ + " is already running at UUID: "@ + hyphenated_text(id)
            },
            LaunchFault::StillInstalling => "Profile is still installing"@,
        }
    }

    /// The message for the user.
    pub fn message(&self) -> (s: String)
        ensures
            s@ == self.text(),
    {
        match self {
            LaunchFault::MissingJava => "Missing correct java installation".to_owned(),
            LaunchFault::InvalidJava { path } => {
                join2("Java path invalid or non-functional: ", path.as_str())
            },
            LaunchFault::InvalidGameVersion { version } => {
                join2("Invalid game version: ", version.as_str())
            },
            LaunchFault::InvalidLibrary { artifact } => {
                join2("Invalid library coordinates: ", artifact.as_str())
            },
            LaunchFault::ProcessorMainClassMissing { jar } => {
                join2("Could not find processor main class for ", jar.as_str())
            },
            LaunchFault::ProcessorNotRun { cause } => {
                join2("Error running processor: ", cause.as_str())
            },
            LaunchFault::ProcessorFailed { stderr } => join2("Processor error: ", stderr.as_str()),
            LaunchFault::AlreadyRunning { profile, id } => {
                let mut s = join3("Profile ", profile.as_str(), " is already running at UUID: ");
                let written = hyphenated_form(*id);
                s.append(written.as_str());
                s
            },
            LaunchFault::StillInstalling => "Profile is still installing".to_owned(),
        }
    }
}

impl Error {
    /// The launcher's reason, where this is a refusal of the launcher.
    pub open spec fn launch_fault(self) -> LaunchFault {
        self->Launcher_0
    }

    /// Whether this is the refusal of the library coordinates `artifact`.
    pub open spec fn is_invalid_library(self, artifact: Seq<char>) -> bool {
        self matches Error::Launcher(LaunchFault::InvalidLibrary { artifact: a }) && a@
            == artifact
    }

    /// Whether this is the refusal of the game version `version`.
    pub open spec fn is_invalid_version(self, version: Seq<char>) -> bool {
        self matches Error::Launcher(LaunchFault::InvalidGameVersion { version: v }) && v@
            == version
    }

    /// The message for the user.
    pub open spec fn text(self) -> Seq<char> {
        match self {
            Error::Input(fault) => fault.text(),
            Error::FetchExhausted => "Failed to fetch from every mirror"@,
            Error::Integrity(cause) => cause@,
            Error::Schema(cause) => cause@,
            Error::Launcher(fault) => fault.text(),
            Error::Io { path, cause } => cause@ + ", path: "@ + path@,
        }
    }

    /// The message for the user.
    pub fn message(&self) -> (s: String)
        ensures
            s@ == self.text(),
    {
        match self {
            Error::Input(fault) => fault.message(),
            Error::FetchExhausted => "Failed to fetch from every mirror".to_owned(),
            Error::Integrity(cause) => cause.clone(),
            Error::Schema(cause) => cause.clone(),
            Error::Launcher(fault) => fault.message(),
            Error::Io { path, cause } => join3(cause.as_str(), ", path: ", path.as_str()),
        }
    }
}

} // verus!
