//! Deciding how the game of a profile is installed and how it is started.
use crate::censor::{censor_table_here, is_censor_table, Credentials};
use crate::error::{Error, LaunchFault};
use crate::options::{merge_options, merged_all};
use crate::profile::{JavaVersion, LoaderVersion, Profile, ProfileInstallStage};
use crate::registry::ProcessRegistry;
use crate::text::{chars_of, copy_texts, join3, same_text, split, string_of};
use crate::textmap::TextMap;
use vstd::prelude::*;

verus! {

/// The name of the game's options file in the root directory of the instance.
pub const OPTIONS_FILE_NAME: &'static str = "options.txt";

/// The name of the file that takes what a game process writes. It lies in a
/// directory of its own for each launch, named after the time of the launch, in the
/// directory of the profile's logs.
pub const LOG_FILE_NAME: &'static str = "stdout.log";

/// The share of the progress that running the processors takes, of 100 units.
pub const PROCESSOR_WEIGHT: u32 = 30;

/// The key of the Java 8 installation among the global Java installations.
pub const JAVA_8_KEY: &'static str = "JAVA_8";

/// The key of the Java 17 installation.
pub const JAVA_17_KEY: &'static str = "JAVA_17";

/// The key of the installation of Java 18 or later.
pub const JAVA_18PLUS_KEY: &'static str = "JAVA_18PLUS";

/// What a rule does where its condition holds.
#[derive(Debug, Clone, Copy, PartialEq, Eq, Structural)]
pub enum RuleAction {
    Allow,
    Disallow,
}

/// A condition on the operating system. Whether it holds is for the platform to say.
#[derive(Debug, Clone, PartialEq, Eq)]
pub struct OsRule {
    pub name: Option<String>,
    pub version: Option<String>,
    pub arch: Option<String>,
}

/// A condition on the features that the launcher has switched on.
#[derive(Debug, Clone, Copy, PartialEq, Eq)]
pub struct FeatureRule {
    pub is_demo_user: Option<bool>,
    pub has_custom_resolution: Option<bool>,
    pub has_quick_plays_support: Option<bool>,
    pub is_quick_play_singleplayer: Option<bool>,
    pub is_quick_play_multiplayer: Option<bool>,
    pub is_quick_play_realms: Option<bool>,
}

/// A rule that decides whether a file is fetched or an argument is used.
#[derive(Debug, Clone, PartialEq, Eq)]
pub struct Rule {
    pub action: RuleAction,
    pub os: Option<OsRule>,
    pub features: Option<FeatureRule>,
}

/// Whether a condition on features holds: the rule asks for a custom resolution, or
/// it asks for the demo mode or one of the quick-play features to be off.
pub open spec fn features_hold(f: FeatureRule) -> bool {
    ||| f.is_demo_user == Some(false)
    ||| f.has_custom_resolution == Some(true)
    ||| f.has_quick_plays_support == Some(false)
    ||| f.is_quick_play_multiplayer == Some(false)
    ||| f.is_quick_play_realms == Some(false)
    ||| f.is_quick_play_singleplayer == Some(false)
}

/// Whether the condition of a rule holds. A condition on the operating system comes
/// before one on features; a rule without condition never holds.
pub open spec fn condition_holds(rule: Rule, os_rule_holds: bool) -> bool {
    if rule.os is Some {
        os_rule_holds
    } else if rule.features is Some {
        features_hold(rule.features->0)
    } else {
        false
    }
}

/// Whether a rule lets its subject pass.
pub open spec fn rule_passes(rule: Rule, os_rule_holds: bool) -> bool {
    match rule.action {
        RuleAction::Allow => condition_holds(rule, os_rule_holds),
        RuleAction::Disallow => !condition_holds(rule, os_rule_holds),
    }
}

fn features_hold_now(f: &FeatureRule) -> (b: bool)
    ensures
        b == features_hold(*f),
{
    !f.is_demo_user.unwrap_or(true) || f.has_custom_resolution.unwrap_or(false)
        || !f.has_quick_plays_support.unwrap_or(true) || !f.is_quick_play_multiplayer.unwrap_or(
        true,
    ) || !f.is_quick_play_realms.unwrap_or(true) || !f.is_quick_play_singleplayer.unwrap_or(true)
}

/// Whether `rule` lets its subject pass. `os_rule_holds` is the platform's answer to
/// the rule's condition on the operating system; it is read only where the rule has
/// such a condition.
pub fn parse_rule(rule: &Rule, os_rule_holds: bool) -> (passes: bool)
    ensures
        passes == rule_passes(*rule, os_rule_holds),
{
    let res = match &rule.os {
        Some(_) => os_rule_holds,
        None => match &rule.features {
            Some(features) => features_hold_now(features),
            None => false,
        },
    };
    match rule.action {
        RuleAction::Allow => res,
        RuleAction::Disallow => !res,
    }
}

/// The kind of a game version.
#[derive(Debug, Clone, Copy, PartialEq, Eq, Structural)]
pub enum VersionType {
    Release,
    Snapshot,
    OldAlpha,
    OldBeta,
}

/// A game version that the metadata knows.
#[derive(Debug, Clone, PartialEq, Eq)]
pub struct GameVersion {
    pub id: String,
    pub kind: VersionType,
}

/// A value of a processor variable, one for each side.
#[derive(Debug, Clone, PartialEq, Eq)]
pub struct SidedDataEntry {
    pub client: String,
    pub server: String,
}

/// A program that is run once after the game's files have been fetched.
#[derive(Debug, Clone, PartialEq, Eq)]
pub struct Processor {
    /// The library that holds the processor.
    pub jar: String,
    /// The libraries that the processor needs on its class path.
    pub classpath: Vec<String>,
    /// The arguments, with variables in them.
    pub args: Vec<String>,
    /// The sides that the processor is for; all sides where this is absent.
    pub sides: Option<Vec<String>>,
}

/// What installing and launching read of the description of a game version.
pub struct VersionInfo {
    pub id: String,
    pub main_class: String,
    /// The major version of the Java that the game asks for.
    pub java_major: Option<u32>,
    pub data: Option<TextMap<SidedDataEntry>>,
    pub processors: Option<Vec<Processor>>,
}

/// The Java installation for a game that asks for Java `major`: Java 8 serves up to
/// 15, Java 17 up to 17, and Java 18 or later serves every game. The first of these
/// that is installed is taken.
pub open spec fn java_for_major(globals: Map<Seq<char>, JavaVersion>, major: u32) -> Option<
    JavaVersion,
> {
    if major <= 15 && globals.contains_key(JAVA_8_KEY@) {
        Some(globals[JAVA_8_KEY@])
    } else if major <= 17 && globals.contains_key(JAVA_17_KEY@) {
        Some(globals[JAVA_17_KEY@])
    } else if globals.contains_key(JAVA_18PLUS_KEY@) {
        Some(globals[JAVA_18PLUS_KEY@])
    } else {
        None
    }
}

/// The major Java version that a game asks for; 8 where it does not say.
pub open spec fn wanted_major(java_major: Option<u32>) -> u32 {
    match java_major {
        Some(major) => major,
        None => 8,
    }
}

/// The Java installation that a profile runs its game with: the one that the profile
/// sets, else the one that fits the game.
pub open spec fn java_choice(
    profile: Profile,
    java_major: Option<u32>,
    globals: Map<Seq<char>, JavaVersion>,
) -> Option<JavaVersion> {
    if profile.java is Some && profile.java->0.override_version is Some {
        profile.java->0.override_version
    } else {
        java_for_major(globals, wanted_major(java_major))
    }
}

/// The Java installation that `profile` runs the game described by `version_info`
/// with, if there is one.
pub fn get_java_version_from_profile<'a>(
    profile: &'a Profile,
    version_info: &VersionInfo,
    java_globals: &'a TextMap<JavaVersion>,
) -> (r: Option<&'a JavaVersion>)
    ensures
        match r {
            Some(java) => java_choice(*profile, version_info.java_major, java_globals@) == Some(
                *java,
            ),
            None => java_choice(*profile, version_info.java_major, java_globals@) is None,
        },
{
    match &profile.java {
        Some(settings) => match &settings.override_version {
            Some(java) => {
                return Some(java);
            },
            None => {},
        },
        None => {},
    }
    let major = match version_info.java_major {
        Some(major) => major,
        None => 8,
    };
    if major <= 15 {
        match java_globals.get(JAVA_8_KEY) {
            Some(java) => {
                return Some(java);
            },
            None => {},
        }
    }
    if major <= 17 {
        match java_globals.get(JAVA_17_KEY) {
            Some(java) => {
                return Some(java);
            },
            None => {},
        }
    }
    java_globals.get(JAVA_18PLUS_KEY)
}

/// Whether `versions[i]` is the first version with the identifier `id`.
pub open spec fn is_first_version(versions: Seq<GameVersion>, id: Seq<char>, i: int) -> bool {
    &&& 0 <= i < versions.len()
    &&& versions[i].id@ == id
    &&& forall|j: int| 0 <= j < i ==> (#[trigger] versions[j]).id@ != id
}

/// Whether some version has the identifier `id`.
pub open spec fn knows_version(versions: Seq<GameVersion>, id: Seq<char>) -> bool {
    exists|i: int| 0 <= i < versions.len() && (#[trigger] versions[i]).id@ == id
}

/// The place of the game version `game_version` among the known versions.
pub fn find_version(versions: &Vec<GameVersion>, game_version: &str) -> (r: Result<usize, Error>)
    ensures
        match r {
            Ok(i) => is_first_version(versions@, game_version@, i as int),
            Err(e) => !knows_version(versions@, game_version@) && e.is_invalid_version(
                game_version@,
            ),
        },
{
    let mut i: usize = 0;
    while i < versions.len()
        invariant
            i <= versions.len(),
            forall|j: int| 0 <= j < i ==> (#[trigger] versions[j]).id@ != game_version@,
        decreases versions.len() - i,
    {
        if same_text(versions[i].id.as_str(), game_version) {
            return Ok(i);
        }
        i += 1;
    }
    Err(Error::Launcher(LaunchFault::InvalidGameVersion { version: game_version.to_owned() }))
}

/// The name under which the game's archive is kept: the version, and behind a hyphen
/// the loader's version where the profile has a loader.
pub open spec fn jar_name(version_id: Seq<char>, loader: Option<LoaderVersion>) -> Seq<char> {
    match loader {
        Some(l) => version_id + "-"@ + l.id@,
        None => version_id,
    }
}

/// The name under which the game's archive is kept.
pub fn version_jar(version_id: &str, loader: &Option<LoaderVersion>) -> (name: String)
    ensures
        name@ == jar_name(version_id@, *loader),
{
    match loader {
        Some(l) => join3(version_id, "-", l.id.as_str()),
        None => version_id.to_owned(),
    }
}

/// Why a profile's game can be neither installed nor started, if anything stands in
/// the way: the game version is unknown, no Java installation fits, or the one that
/// fits was tried and does not work. `checked_java` is what the trial of the chosen
/// installation gave.
pub open spec fn resolution_fault(
    profile: Profile,
    versions: Seq<GameVersion>,
    java_major: Option<u32>,
    globals: Map<Seq<char>, JavaVersion>,
    checked_java: Option<JavaVersion>,
) -> Option<LaunchFault> {
    if !knows_version(versions, profile.metadata.game_version@) {
        Some(LaunchFault::InvalidGameVersion { version: profile.metadata.game_version })
    } else if java_choice(profile, java_major, globals) is None {
        Some(LaunchFault::MissingJava)
    } else if checked_java is None {
        Some(LaunchFault::InvalidJava { path: java_choice(profile, java_major, globals)->0.path })
    } else {
        None
    }
}

/// The game version and the Java installation of a profile.
pub struct Resolved {
    /// The place of the game version among the known versions.
    pub version: usize,
    /// The name under which the game's archive is kept.
    pub version_jar: String,
    /// The Java installation, as its trial described it.
    pub java: JavaVersion,
}

/// Finds the game version of the profile and settles its Java installation.
pub fn resolve(
    profile: &Profile,
    versions: &Vec<GameVersion>,
    version_info: &VersionInfo,
    java_globals: &TextMap<JavaVersion>,
    checked_java: Option<JavaVersion>,
) -> (r: Result<Resolved, Error>)
    ensures
        match r {
            Ok(found) => {
                &&& resolution_fault(
                    *profile,
                    versions@,
                    version_info.java_major,
                    java_globals@,
                    checked_java,
                ) is None
                &&& is_first_version(
                    versions@,
                    profile.metadata.game_version@,
                    found.version as int,
                )
                &&& found.version_jar@ == jar_name(
                    versions[found.version as int].id@,
                    profile.metadata.loader_version,
                )
                &&& checked_java == Some(found.java)
            },
            Err(e) => resolution_fault(
                *profile,
                versions@,
                version_info.java_major,
                java_globals@,
                checked_java,
            ) == Some(e.launch_fault()) && e is Launcher,
        },
{
    let version = match find_version(versions, profile.metadata.game_version.as_str()) {
        Ok(i) => i,
        Err(_) => {
            return Err(
                Error::Launcher(
                    LaunchFault::InvalidGameVersion {
                        version: profile.metadata.game_version.clone(),
                    },
                ),
            );
        },
    };
    assert(knows_version(versions@, profile.metadata.game_version@));
    let name = version_jar(versions[version].id.as_str(), &profile.metadata.loader_version);
    let chosen = match get_java_version_from_profile(profile, version_info, java_globals) {
        Some(java) => java,
        None => {
            return Err(Error::Launcher(LaunchFault::MissingJava));
        },
    };
    match checked_java {
        Some(java) => Ok(Resolved { version, version_jar: name, java }),
        None => Err(Error::Launcher(LaunchFault::InvalidJava { path: chosen.path.clone() })),
    }
}

/// The places that the variables of a processor stand for.
#[derive(Debug, Clone, PartialEq, Eq)]
pub struct InstallPaths {
    /// The game's archive.
    pub client_jar: String,
    /// The root directory of the instance.
    pub instance_root: String,
    /// The directory of the libraries.
    pub libraries_dir: String,
}

/// The variables of a processor, each with its text on the client and on the server.
pub open spec fn sided(m: Map<Seq<char>, SidedDataEntry>) -> Map<
    Seq<char>,
    (Seq<char>, Seq<char>),
> {
    m.map_values(|e: SidedDataEntry| (e.client@, e.server@))
}

/// To put an entry into a map is to put its two texts into the map of texts.
proof fn lemma_sided_insert(m: Map<Seq<char>, SidedDataEntry>, k: Seq<char>, e: SidedDataEntry)
    ensures
        sided(m.insert(k, e)) == sided(m).insert(k, (e.client@, e.server@)),
{
    assert(sided(m.insert(k, e)) =~= sided(m).insert(k, (e.client@, e.server@)));
}

/// The variables of a version together with the five that every client install
/// sets: the side, the game's archive, the game version, the instance root and the
/// directory of the libraries. On the server side each of the five is empty.
pub open spec fn processor_variables(
    data: Map<Seq<char>, (Seq<char>, Seq<char>)>,
    paths: InstallPaths,
    game_version: Seq<char>,
) -> Map<Seq<char>, (Seq<char>, Seq<char>)> {
    data.insert("SIDE"@, ("client"@, ""@)).insert(
        "MINECRAFT_JAR"@,
        (paths.client_jar@, ""@),
    ).insert("MINECRAFT_VERSION"@, (game_version, ""@)).insert(
        "ROOT"@,
        (paths.instance_root@, ""@),
    ).insert("LIBRARY_DIR"@, (paths.libraries_dir@, ""@))
}

fn client_entry(client: &str) -> (e: SidedDataEntry)
    ensures
        e.client@ == client@,
        e.server@ == ""@,
{
    SidedDataEntry { client: client.to_owned(), server: "".to_owned() }
}

/// Sets the five variables of a client install.
pub fn add_processor_variables(
    data: &mut TextMap<SidedDataEntry>,
    paths: &InstallPaths,
    game_version: &str,
)
    ensures
        sided(final(data)@) == processor_variables(sided(old(data)@), *paths, game_version@),
{
    let ghost m0 = data@;
    let e1 = client_entry("client");
    data.insert("SIDE".to_owned(), e1);
    let ghost m1 = data@;
    let e2 = client_entry(paths.client_jar.as_str());
    data.insert("MINECRAFT_JAR".to_owned(), e2);
    let ghost m2 = data@;
    let e3 = client_entry(game_version);
    data.insert("MINECRAFT_VERSION".to_owned(), e3);
    let ghost m3 = data@;
    let e4 = client_entry(paths.instance_root.as_str());
    data.insert("ROOT".to_owned(), e4);
    let ghost m4 = data@;
    let e5 = client_entry(paths.libraries_dir.as_str());
    data.insert("LIBRARY_DIR".to_owned(), e5);
    proof {
        lemma_sided_insert(m0, "SIDE"@, e1);
        lemma_sided_insert(m1, "MINECRAFT_JAR"@, e2);
        lemma_sided_insert(m2, "MINECRAFT_VERSION"@, e3);
        lemma_sided_insert(m3, "ROOT"@, e4);
        lemma_sided_insert(m4, "LIBRARY_DIR"@, e5);
    }
}

/// Whether a list of sides names the client.
pub open spec fn names_client(sides: Seq<String>) -> bool {
    exists|i: int| 0 <= i < sides.len() && (#[trigger] sides[i])@ == "client"@
}

/// Whether a processor is run when a client is installed: it names no sides, or the
/// client is among them.
pub open spec fn runs_on_client(p: Processor) -> bool {
    p.sides matches Some(sides) ==> names_client(sides@)
}

/// Whether a processor is run when a client is installed.
pub fn processor_runs_on_client(p: &Processor) -> (b: bool)
    ensures
        b == runs_on_client(*p),
{
    match &p.sides {
        None => true,
        Some(sides) => {
            let mut i: usize = 0;
            while i < sides.len()
                invariant
                    i <= sides.len(),
                    p.sides == Some(*sides),
                    forall|j: int| 0 <= j < i ==> (#[trigger] sides[j])@ != "client"@,
                decreases sides.len() - i,
            {
                if same_text(sides[i].as_str(), "client") {
                    assert((sides@[i as int])@ == "client"@);
                    return true;
                }
                i += 1;
            }
            false
        },
    }
}

/// The class path of a processor: its libraries, and its own library last.
pub open spec fn class_path_of(p: Processor) -> Seq<String> {
    p.classpath@.push(p.jar)
}

/// The places of the first `n` processors that are run on a client, in their order.
pub open spec fn client_runs(processors: Seq<Processor>, n: int) -> Seq<int>
    decreases n,
{
    if n <= 0 {
        Seq::<int>::empty()
    } else if runs_on_client(processors[n - 1]) {
        client_runs(processors, n - 1).push(n - 1)
    } else {
        client_runs(processors, n - 1)
    }
}

/// One processor to run.
#[derive(Debug, Clone, PartialEq, Eq)]
pub struct ProcessorRun {
    /// The place of the processor among the processors of the version.
    pub index: usize,
    /// The libraries on its class path.
    pub classpath: Vec<String>,
}

/// Whether `runs` are the runs of the processors that a client install runs: one for
/// each such processor, in the processors' order, each with the processor's class path.
pub open spec fn are_client_runs(runs: Seq<ProcessorRun>, processors: Seq<Processor>) -> bool {
    let due = client_runs(processors, processors.len() as int);
    &&& runs.len() == due.len()
    &&& forall|k: int|
        0 <= k < runs.len() ==> (#[trigger] runs[k]).index == due[k] && runs[k].classpath@
            == class_path_of(processors[due[k]])
}

/// The runs of the processors that a client install runs.
pub fn plan_processor_runs(processors: &Vec<Processor>) -> (runs: Vec<ProcessorRun>)
    ensures
        are_client_runs(runs@, processors@),
        forall|k: int| 0 <= k < runs.len() ==> (#[trigger] runs[k]).index < processors.len(),
{
    let mut runs: Vec<ProcessorRun> = Vec::new();
    let mut i: usize = 0;
    while i < processors.len()
        invariant
            i <= processors.len(),
            runs.len() == client_runs(processors@, i as int).len(),
            forall|k: int|
                0 <= k < runs.len() ==> (#[trigger] runs[k]).index == client_runs(
                    processors@,
                    i as int,
                )[k] && runs[k].index < i && runs[k].classpath@ == class_path_of(
                    processors[runs[k].index as int],
                ),
        decreases processors.len() - i,
    {
        let p = &processors[i];
        if processor_runs_on_client(p) {
            let mut classpath = copy_texts(&p.classpath);
            classpath.push(p.jar.clone());
            runs.push(ProcessorRun { index: i, classpath });
        }
        i += 1;
    }
    runs
}

/// A package name with each dot turned into a slash.
pub open spec fn slashed(package: Seq<char>) -> Seq<char> {
    Seq::new(
        package.len(),
        |i: int|
            if package[i] == '.' {
                '/'
            } else {
                package[i]
            },
    )
}

/// The extension that the pieces of a text around `@` name: the second piece, and
/// `jar` where there is none.
pub open spec fn extension(pieces: Seq<Seq<char>>) -> Seq<char> {
    if pieces.len() > 1 {
        pieces[1]
    } else {
        "jar"@
    }
}

/// The file of a library below the directory of the libraries: the directories of
/// its package, its name and its version, and in them the file named after name,
/// version and, where there is one, classifier.
pub open spec fn library_file(
    package: Seq<char>,
    name: Seq<char>,
    version: Seq<char>,
    classifier: Option<Seq<char>>,
    extension: Seq<char>,
) -> Seq<char> {
    let stem = slashed(package) + "/"@ + name + "/"@ + version + "/"@ + name + "-"@ + version;
    match classifier {
        Some(c) => stem + "-"@ + c + "."@ + extension,
        None => stem + "."@ + extension,
    }
}

/// The path of a library below the directory of the libraries, for coordinates that
/// can be read. Coordinates are parts with a colon between them: package, name and
/// version, and after these a classifier. The last part that is read may name an
/// extension behind an `@`. Coordinates of fewer than three parts cannot be read.
pub open spec fn artifact_path(artifact: Seq<char>) -> Option<Seq<char>> {
    let parts = split(artifact, ':');
    if parts.len() == 3 {
        let last = split(parts[2], '@');
        Some(library_file(parts[0], parts[1], last[0], None, extension(last)))
    } else if parts.len() > 3 {
        let last = split(parts[3], '@');
        Some(library_file(parts[0], parts[1], parts[2], Some(last[0]), extension(last)))
    } else {
        None
    }
}

/// Calls `daedalus::get_path_from_artifact`, which reads the coordinates of a library
/// and spells the path of its file, or fails where the coordinates lack a part; the
/// failure is handed on as an absent path. The contract states what the source of
/// that function computes.
#[verifier::external_body]
pub(crate) fn path_from_artifact(artifact: &str) -> (r: Option<String>)
    ensures
        match r {
            Some(path) => artifact_path(artifact@) == Some(path@),
            None => artifact_path(artifact@) is None,
        },
{
    daedalus::get_path_from_artifact(artifact).ok()
}

/// Whether `artifacts[i]` is the first coordinates that cannot be read.
pub open spec fn is_first_unreadable(artifacts: Seq<String>, i: int) -> bool {
    &&& 0 <= i < artifacts.len()
    &&& artifact_path(artifacts[i]@) is None
    &&& forall|j: int| 0 <= j < i ==> artifact_path((#[trigger] artifacts[j])@) is Some
}

/// The paths of the libraries of a class path below the directory of the libraries,
/// in the order of the class path. Where some coordinates cannot be read, the first
/// of them is refused.
pub fn library_paths(artifacts: &Vec<String>) -> (r: Result<Vec<String>, Error>)
    ensures
        match r {
            Ok(paths) => paths.len() == artifacts.len() && forall|i: int|
                0 <= i < paths.len() ==> artifact_path(artifacts[i]@) == Some(
                    (#[trigger] paths[i])@,
                ),
            Err(e) => exists|i: int|
                is_first_unreadable(artifacts@, i) && e == Error::Launcher(
                    LaunchFault::InvalidLibrary { artifact: #[trigger] artifacts[i] },
                ),
        },
{
    let mut paths: Vec<String> = Vec::new();
    let mut i: usize = 0;
    while i < artifacts.len()
        invariant
            i <= artifacts.len(),
            paths.len() == i,
            forall|j: int|
                0 <= j < i ==> artifact_path(artifacts[j]@) == Some((#[trigger] paths[j])@),
        decreases artifacts.len() - i,
    {
        match path_from_artifact(artifacts[i].as_str()) {
            Some(path) => {
                paths.push(path);
            },
            None => {
                assert(is_first_unreadable(artifacts@, i as int)) by {
                    assert forall|j: int| 0 <= j < i implies artifact_path(
                        (#[trigger] artifacts[j])@,
                    ) is Some by {
                        assert(artifact_path(artifacts[j]@) == Some(paths[j]@));
                    }
                }
                return Err(
                    Error::Launcher(
                        LaunchFault::InvalidLibrary { artifact: artifacts[i].clone() },
                    ),
                );
            },
        }
        i += 1;
    }
    Ok(paths)
}

/// Whether a text stands between the two brackets `left` and `right`.
pub open spec fn enclosed(text: Seq<char>, left: char, right: char) -> bool {
    text.len() >= 2 && text[0] == left && text.last() == right
}

/// A text without its first and its last character.
pub open spec fn inner(text: Seq<char>) -> Seq<char> {
    text.subrange(1, text.len() - 1)
}

/// What an argument of a processor comes to.
pub enum Filled {
    /// A text that is handed to the processor as it is.
    Text(Seq<char>),
    /// A library: its path below the directory of the libraries.
    Library(Seq<char>),
    /// Nothing: the argument is left out.
    Nothing,
    /// The coordinates of a library that cannot be read.
    Unreadable(Seq<char>),
}

/// What a text comes to: coordinates in square brackets stand for the library's
/// file, and any other text for itself.
pub open spec fn filled_text(text: Seq<char>) -> Filled {
    if enclosed(text, '[', ']') {
        match artifact_path(inner(text)) {
            Some(path) => Filled::Library(path),
            None => Filled::Unreadable(inner(text)),
        }
    } else {
        Filled::Text(text)
    }
}

/// What an argument comes to, given the variables with their texts on the client: a
/// name in braces stands for the text of that variable, and is left out where there
/// is no such variable; any other argument stands for itself.
pub open spec fn filled(argument: Seq<char>, variables: Map<Seq<char>, (Seq<char>, Seq<char>)>)
    -> Filled {
    if enclosed(argument, '{', '}') {
        if variables.contains_key(inner(argument)) {
            filled_text(variables[inner(argument)].0)
        } else {
            Filled::Nothing
        }
    } else {
        filled_text(argument)
    }
}

/// One argument for a processor.
#[derive(Debug, Clone, PartialEq, Eq)]
pub enum ProcessorArgument {
    /// A text that is handed to the processor as it is.
    Text(String),
    /// A library: its path below the directory of the libraries.
    Library(String),
}

impl ProcessorArgument {
    /// What the argument stands for.
    pub open spec fn filled(self) -> Filled {
        match self {
            ProcessorArgument::Text(text) => Filled::Text(text@),
            ProcessorArgument::Library(path) => Filled::Library(path@),
        }
    }
}

fn is_enclosed(text: &Vec<char>, left: char, right: char) -> (b: bool)
    ensures
        b == enclosed(text@, left, right),
{
    text.len() >= 2 && text[0] == left && text[text.len() - 1] == right
}

fn fill_text(text: &Vec<char>) -> (r: Result<ProcessorArgument, Error>)
    ensures
        match r {
            Ok(argument) => argument.filled() == filled_text(text@),
            Err(e) => filled_text(text@) is Unreadable && e.is_invalid_library(
                filled_text(text@)->Unreadable_0,
            ),
        },
{
    if is_enclosed(text, '[', ']') {
        let coordinates = string_of(text, 1, text.len() - 1);
        match path_from_artifact(coordinates.as_str()) {
            Some(path) => Ok(ProcessorArgument::Library(path)),
            None => Err(Error::Launcher(LaunchFault::InvalidLibrary { artifact: coordinates })),
        }
    } else {
        let same = string_of(text, 0, text.len());
        assert(text@.subrange(0, text.len() as int) == text@);
        Ok(ProcessorArgument::Text(same))
    }
}

/// Fills the variable of one argument of a processor in.
pub fn fill_argument(argument: &str, data: &TextMap<SidedDataEntry>) -> (r: Result<
    Option<ProcessorArgument>,
    Error,
>)
    ensures
        match r {
            Ok(Some(value)) => value.filled() == filled(argument@, sided(data@)),
            Ok(None) => filled(argument@, sided(data@)) is Nothing,
            Err(e) => filled(argument@, sided(data@)) is Unreadable && e.is_invalid_library(
                filled(argument@, sided(data@))->Unreadable_0,
            ),
        },
{
    let chars = chars_of(argument);
    if is_enclosed(&chars, '{', '}') {
        let name = string_of(&chars, 1, chars.len() - 1);
        match data.get(name.as_str()) {
            Some(entry) => {
                let value = chars_of(entry.client.as_str());
                match fill_text(&value) {
                    Ok(filled) => Ok(Some(filled)),
                    Err(e) => Err(e),
                }
            },
            None => Ok(None),
        }
    } else {
        match fill_text(&chars) {
            Ok(filled) => Ok(Some(filled)),
            Err(e) => Err(e),
        }
    }
}

/// What the first `n` arguments of a processor come to, in their order, without
/// those that are left out; nothing where one of them names a library whose
/// coordinates cannot be read.
pub open spec fn filled_all(
    arguments: Seq<String>,
    variables: Map<Seq<char>, (Seq<char>, Seq<char>)>,
    n: int,
) -> Option<Seq<Filled>>
    decreases n,
{
    if n <= 0 {
        Some(Seq::<Filled>::empty())
    } else {
        match filled_all(arguments, variables, n - 1) {
            None => None,
            Some(before) => match filled(arguments[n - 1]@, variables) {
                Filled::Unreadable(_) => None,
                Filled::Nothing => Some(before),
                value => Some(before.push(value)),
            },
        }
    }
}

/// What a list of arguments stands for.
pub open spec fn all_filled(values: Seq<ProcessorArgument>) -> Seq<Filled> {
    Seq::new(values.len(), |i: int| values[i].filled())
}

/// The coordinates that the first of the first `n` arguments to name an unreadable
/// library names, if there is such an argument.
pub open spec fn first_unreadable(
    arguments: Seq<String>,
    variables: Map<Seq<char>, (Seq<char>, Seq<char>)>,
    n: int,
) -> Option<Seq<char>>
    decreases n,
{
    if n <= 0 {
        None
    } else {
        match first_unreadable(arguments, variables, n - 1) {
            Some(coordinates) => Some(coordinates),
            None => match filled(arguments[n - 1]@, variables) {
                Filled::Unreadable(coordinates) => Some(coordinates),
                _ => None,
            },
        }
    }
}

/// The arguments of a processor with their variables filled in. Where an argument
/// names a library whose coordinates cannot be read, the first such coordinates are
/// refused.
pub fn processor_arguments(arguments: &Vec<String>, data: &TextMap<SidedDataEntry>) -> (r:
    Result<Vec<ProcessorArgument>, Error>)
    ensures
        match r {
            Ok(values) => {
                &&& first_unreadable(arguments@, sided(data@), arguments.len() as int) is None
                &&& filled_all(arguments@, sided(data@), arguments.len() as int) == Some(
                    all_filled(values@),
                )
            },
            Err(e) => {
                &&& first_unreadable(arguments@, sided(data@), arguments.len() as int) is Some
                &&& e.is_invalid_library(
                    first_unreadable(arguments@, sided(data@), arguments.len() as int)->0,
                )
            },
        },
{
    let mut values: Vec<ProcessorArgument> = Vec::new();
    let mut i: usize = 0;
    assert(all_filled(values@) == Seq::<Filled>::empty());
    while i < arguments.len()
        invariant
            i <= arguments.len(),
            first_unreadable(arguments@, sided(data@), i as int) is None,
            filled_all(arguments@, sided(data@), i as int) == Some(all_filled(values@)),
        decreases arguments.len() - i,
    {
        let ghost before = all_filled(values@);
        match fill_argument(arguments[i].as_str(), data) {
            Ok(Some(value)) => {
                values.push(value);
                assert(all_filled(values@) == before.push(value.filled()));
            },
            Ok(None) => {},
            Err(e) => {
                proof {
                    lemma_unreadable_stays(
                        arguments@,
                        sided(data@),
                        i as int + 1,
                        arguments.len() as int,
                    );
                }
                return Err(e);
            },
        }
        i += 1;
    }
    Ok(values)
}

/// The first unreadable coordinates among some arguments are the first among more.
proof fn lemma_unreadable_stays(
    arguments: Seq<String>,
    variables: Map<Seq<char>, (Seq<char>, Seq<char>)>,
    k: int,
    n: int,
)
    requires
        0 <= k <= n,
        first_unreadable(arguments, variables, k) is Some,
    ensures
        first_unreadable(arguments, variables, n) == first_unreadable(arguments, variables, k),
    decreases n - k,
{
    if k < n {
        lemma_unreadable_stays(arguments, variables, k, n - 1);
    }
}

/// What the install of a profile's game does once the game's files are fetched.
pub struct MinecraftInstall {
    /// The stage that the profile is in while its game is installed. It is set
    /// before anything is fetched, and a step that fails leaves it there.
    pub stage: ProfileInstallStage,
    /// The stage that the profile is put into once every step has succeeded.
    pub stage_after: ProfileInstallStage,
    /// The game version and the Java installation.
    pub resolved: Resolved,
    /// Whether the version has processors and variables for them.
    pub has_processors: bool,
    /// The processors to run, in this order.
    pub runs: Vec<ProcessorRun>,
    /// The number of processors of the version, run or not: each run moves the
    /// progress by `PROCESSOR_WEIGHT` divided by this number.
    pub processor_count: usize,
}

/// Whether a version has processors and variables for them; only then are processors
/// run.
pub open spec fn has_processors(version_info: VersionInfo) -> bool {
    version_info.processors is Some && version_info.data is Some
}

/// Plans the install of the game of `profile`, and puts the profile into the stage
/// of an install, where it stays whatever comes of the plan. The install is refused
/// where the game version is unknown or no working Java installation is found. Else
/// the variables of the version's processors are completed in `version_info`, and
/// the processors to run on a client are listed.
pub fn install_minecraft(
    profile: &mut Profile,
    versions: &Vec<GameVersion>,
    version_info: &mut VersionInfo,
    java_globals: &TextMap<JavaVersion>,
    checked_java: Option<JavaVersion>,
    paths: &InstallPaths,
) -> (r: Result<MinecraftInstall, Error>)
    ensures
        final(profile).install_stage == ProfileInstallStage::Installing,
        final(profile).path == old(profile).path,
        final(profile).metadata == old(profile).metadata,
        final(profile).java == old(profile).java,
        final(version_info).id == old(version_info).id,
        final(version_info).main_class == old(version_info).main_class,
        final(version_info).java_major == old(version_info).java_major,
        final(version_info).processors == old(version_info).processors,
        match r {
            Err(e) => {
                &&& e is Launcher
                &&& resolution_fault(
                    *old(profile),
                    versions@,
                    old(version_info).java_major,
                    java_globals@,
                    checked_java,
                ) == Some(e.launch_fault())
                &&& final(version_info).data == old(version_info).data
            },
            Ok(plan) => {
                &&& resolution_fault(
                    *old(profile),
                    versions@,
                    old(version_info).java_major,
                    java_globals@,
                    checked_java,
                ) is None
                &&& plan.stage == ProfileInstallStage::Installing
                &&& plan.stage_after == ProfileInstallStage::Installed
                &&& is_first_version(
                    versions@,
                    old(profile).metadata.game_version@,
                    plan.resolved.version as int,
                )
                &&& plan.resolved.version_jar@ == jar_name(
                    versions[plan.resolved.version as int].id@,
                    old(profile).metadata.loader_version,
                )
                &&& checked_java == Some(plan.resolved.java)
                &&& plan.has_processors == has_processors(*old(version_info))
                &&& if has_processors(*old(version_info)) {
                    &&& final(version_info).data is Some
                    &&& sided(final(version_info).data->0@) == processor_variables(
                        sided(old(version_info).data->0@),
                        *paths,
                        old(profile).metadata.game_version@,
                    )
                    &&& are_client_runs(plan.runs@, old(version_info).processors->0@)
                    &&& plan.processor_count == old(version_info).processors->0.len()
                } else {
                    &&& final(version_info).data == old(version_info).data
                    &&& plan.runs.len() == 0
                    &&& plan.processor_count == 0
                }
            },
        },
{
    let stage = profile.install_stage.begin_install();
    profile.install_stage = stage;
    assert(resolution_fault(
        *profile,
        versions@,
        version_info.java_major,
        java_globals@,
        checked_java,
    ) == resolution_fault(
        *old(profile),
        versions@,
        version_info.java_major,
        java_globals@,
        checked_java,
    ));
    let resolved = match resolve(profile, versions, version_info, java_globals, checked_java) {
        Ok(found) => found,
        Err(e) => {
            return Err(e);
        },
    };
    let mut runs: Vec<ProcessorRun> = Vec::new();
    let mut processor_count: usize = 0;
    let mut has_processors = false;
    let data = version_info.data.take();
    match data {
        Some(mut variables) => {
            match &version_info.processors {
                Some(processors) => {
                    add_processor_variables(
                        &mut variables,
                        paths,
                        profile.metadata.game_version.as_str(),
                    );
                    runs = plan_processor_runs(processors);
                    processor_count = processors.len();
                    has_processors = true;
                },
                None => {},
            }
            version_info.data = Some(variables);
        },
        None => {},
    }
    Ok(
        MinecraftInstall {
            stage,
            stage_after: stage.finish_install(true),
            resolved,
            has_processors,
            runs,
            processor_count,
        },
    )
}

/// Closes the install of the game of a profile. Where every step has succeeded, the
/// profile is installed; where a step has failed, the profile stays in the stage
/// that it is in, and the failure is handed on as it is.
pub fn conclude_install(profile: &mut Profile, outcome: Result<(), Error>) -> (r: Result<
    (),
    Error,
>)
    ensures
        r == outcome,
        final(profile).install_stage == (if outcome is Ok {
            ProfileInstallStage::Installed
        } else {
            old(profile).install_stage
        }),
        final(profile).path == old(profile).path,
        final(profile).metadata == old(profile).metadata,
        final(profile).java == old(profile).java,
{
    let stage = profile.install_stage.finish_install(outcome.is_ok());
    profile.install_stage = stage;
    outcome
}

/// The main class of a processor, as its archive names it. An archive that names
/// none is refused.
pub fn processor_main_class(main_class: Option<String>, jar: &str) -> (r: Result<String, Error>)
    ensures
        match r {
            Ok(class) => main_class == Some(class),
            Err(e) => main_class is None && e is Launcher && e.launch_fault()
                is ProcessorMainClassMissing && e.launch_fault()->ProcessorMainClassMissing_jar@
                == jar@,
        },
{
    match main_class {
        Some(class) => Ok(class),
        None => Err(
            Error::Launcher(LaunchFault::ProcessorMainClassMissing { jar: jar.to_owned() }),
        ),
    }
}

/// What follows from the end of a processor: nothing where it succeeded; where it
/// failed, the install fails with what the processor wrote to its error stream.
pub fn processor_outcome(succeeded: bool, stderr: String) -> (r: Result<(), Error>)
    ensures
        succeeded ==> r is Ok,
        !succeeded ==> r == Err::<(), Error>(
            Error::Launcher(LaunchFault::ProcessorFailed { stderr }),
        ),
{
    if succeeded {
        Ok(())
    } else {
        Err(Error::Launcher(LaunchFault::ProcessorFailed { stderr }))
    }
}

/// Whether the game of a profile has to be installed before it is started. A profile
/// that is being installed is refused.
pub fn launch_gate(stage: ProfileInstallStage) -> (r: Result<bool, Error>)
    ensures
        stage.busy() ==> r == Err::<bool, Error>(Error::Launcher(LaunchFault::StillInstalling)),
        !stage.busy() ==> r == Ok::<bool, Error>(stage != ProfileInstallStage::Installed),
{
    if stage.is_busy() {
        Err(Error::Launcher(LaunchFault::StillInstalling))
    } else {
        Ok(stage != ProfileInstallStage::Installed)
    }
}

/// The program that is started: the wrapper where one is set, else Java.
pub open spec fn launch_program(wrapper: Option<String>, java: JavaVersion) -> String {
    match wrapper {
        Some(hook) => hook,
        None => java.path,
    }
}

/// The arguments of the program: Java itself where a wrapper is started, then the
/// arguments for Java, the main class and the arguments for the game.
pub open spec fn launch_arguments(
    wrapper: Option<String>,
    java: JavaVersion,
    jvm_arguments: Seq<String>,
    main_class: String,
    game_arguments: Seq<String>,
) -> Seq<String> {
    (if wrapper is Some {
        seq![java.path]
    } else {
        Seq::<String>::empty()
    }) + jvm_arguments + seq![main_class] + game_arguments
}

/// Whether a profile may be started as far as the profile and the running processes
/// tell: it is not being installed, and no process runs it.
pub open spec fn admitted(profile: Profile, running: Map<u128, Seq<char>>) -> bool {
    &&& !profile.install_stage.busy()
    &&& !exists|id: u128| running.contains_key(id) && #[trigger] running[id] == profile.path@
}

/// Whether `fault` is the reason for which a profile is not admitted: the profile is
/// being installed; else a process, which the fault names, already runs the profile.
pub open spec fn admission_refused(
    profile: Profile,
    running: Map<u128, Seq<char>>,
    fault: LaunchFault,
) -> bool {
    if profile.install_stage.busy() {
        fault == LaunchFault::StillInstalling
    } else {
        &&& fault is AlreadyRunning
        &&& fault->AlreadyRunning_profile == profile.path
        &&& running.contains_key(fault->AlreadyRunning_id)
        &&& running[fault->AlreadyRunning_id] == profile.path@
    }
}

/// Whether `fault` is the reason for which the start of a profile's game is refused:
/// the profile is being installed; else a process, which the fault names, already
/// runs the profile; else the game version or Java is not found.
pub open spec fn launch_refused(
    profile: Profile,
    versions: Seq<GameVersion>,
    java_major: Option<u32>,
    globals: Map<Seq<char>, JavaVersion>,
    checked_java: Option<JavaVersion>,
    running: Map<u128, Seq<char>>,
    fault: LaunchFault,
) -> bool {
    if !admitted(profile, running) {
        admission_refused(profile, running, fault)
    } else {
        Some(fault) == resolution_fault(profile, versions, java_major, globals, checked_java)
    }
}

/// Admits a profile to a start, before anything is resolved or read for it. A
/// profile that is being installed is refused, and so is one that a process already
/// runs. Where the profile is admitted, the answer says whether its game has to be
/// installed first.
pub fn launch_admission(profile: &Profile, registry: &ProcessRegistry) -> (r: Result<bool, Error>)
    ensures
        match r {
            Ok(install_first) => admitted(*profile, registry@) && install_first == (
            profile.install_stage != ProfileInstallStage::Installed),
            Err(e) => !admitted(*profile, registry@) && e is Launcher && admission_refused(
                *profile,
                registry@,
                e.launch_fault(),
            ),
        },
{
    if profile.install_stage.is_busy() {
        return Err(Error::Launcher(LaunchFault::StillInstalling));
    }
    match registry.running(profile.path.as_str()) {
        Some(id) => Err(
            Error::Launcher(LaunchFault::AlreadyRunning { profile: profile.path.clone(), id }),
        ),
        None => Ok(profile.install_stage != ProfileInstallStage::Installed),
    }
}

/// What starting the game of a profile takes.
pub struct LaunchPlan {
    /// Whether the game has to be installed first. Where it has, the install is run
    /// to its end before anything else of this plan is done; where the install
    /// fails, its failure is the outcome of the launch and nothing is started.
    pub install_first: bool,
    /// The game version and the Java installation.
    pub resolved: Resolved,
    /// The program to start, in the root directory of the instance.
    pub program: String,
    /// Its arguments.
    pub arguments: Vec<String>,
    /// The new text of the game's options file.
    pub options_text: String,
    /// The secrets to strike out of the log.
    pub censor: TextMap<String>,
}

fn append_texts(to: &mut Vec<String>, from: &Vec<String>)
    ensures
        final(to)@ == old(to)@ + from@,
{
    let mut i: usize = 0;
    while i < from.len()
        invariant
            i <= from.len(),
            to@ == old(to)@ + from@.take(i as int),
        decreases from.len() - i,
    {
        to.push(from[i].clone());
        assert(from@.take(i + 1) == from@.take(i as int).push(from@[i as int]));
        i += 1;
    }
    assert(from@.take(from.len() as int) == from@);
}

/// Plans the start of the game of `profile`.
///
/// The start is refused while the profile is being installed, where a process
/// already runs the profile, where the game version is unknown, and where no working
/// Java installation is found, in this order. Else the plan says whether the game
/// is installed first, names the program and its arguments, holds the text of the
/// options file with `mc_set_options` merged into `options_text`, and the table of
/// secrets for the log.
///
/// `checked_java` is what the trial of the chosen Java installation gave;
/// `jvm_arguments` and `game_arguments` are the argument lists as they were built for
/// that installation and this version.
#[allow(clippy::too_many_arguments)]
pub fn launch_minecraft(
    mc_set_options: &Vec<(String, String)>,
    wrapper: &Option<String>,
    credentials: &Credentials,
    profile: &Profile,
    versions: &Vec<GameVersion>,
    version_info: &VersionInfo,
    java_globals: &TextMap<JavaVersion>,
    checked_java: Option<JavaVersion>,
    jvm_arguments: &Vec<String>,
    game_arguments: &Vec<String>,
    options_text: &str,
    registry: &ProcessRegistry,
) -> (r: Result<LaunchPlan, Error>)
    ensures
        match r {
            Err(e) => e is Launcher && launch_refused(
                *profile,
                versions@,
                version_info.java_major,
                java_globals@,
                checked_java,
                registry@,
                e.launch_fault(),
            ),
            Ok(plan) => {
                &&& !profile.install_stage.busy()
                &&& resolution_fault(
                    *profile,
                    versions@,
                    version_info.java_major,
                    java_globals@,
                    checked_java,
                ) is None
                &&& !registry.runs(profile.path@)
                &&& plan.install_first == (profile.install_stage
                    != ProfileInstallStage::Installed)
                &&& is_first_version(
                    versions@,
                    profile.metadata.game_version@,
                    plan.resolved.version as int,
                )
                &&& plan.resolved.version_jar@ == jar_name(
                    versions[plan.resolved.version as int].id@,
                    profile.metadata.loader_version,
                )
                &&& checked_java == Some(plan.resolved.java)
                &&& plan.program == launch_program(*wrapper, plan.resolved.java)
                &&& plan.arguments@ == launch_arguments(
                    *wrapper,
                    plan.resolved.java,
                    jvm_arguments@,
                    version_info.main_class,
                    game_arguments@,
                )
                &&& plan.options_text@ == merged_all(
                    options_text@,
                    mc_set_options@,
                    mc_set_options.len() as int,
                )
                &&& exists|os_user: Seq<char>|
                    is_censor_table(plan.censor, os_user, *credentials)
            },
        },
{
    let install_first = match launch_admission(profile, registry) {
        Ok(due) => due,
        Err(e) => {
            return Err(e);
        },
    };
    let resolved = match resolve(profile, versions, version_info, java_globals, checked_java) {
        Ok(found) => found,
        Err(e) => {
            return Err(e);
        },
    };
    let mut arguments: Vec<String> = Vec::new();
    let program = match wrapper {
        Some(hook) => {
            arguments.push(resolved.java.path.clone());
            hook.clone()
        },
        None => resolved.java.path.clone(),
    };
    append_texts(&mut arguments, jvm_arguments);
    arguments.push(version_info.main_class.clone());
    append_texts(&mut arguments, game_arguments);
    let merged = merge_options(options_text, mc_set_options);
    let censor = censor_table_here(credentials);
    let plan = LaunchPlan {
        install_first,
        resolved,
        program,
        arguments,
        options_text: merged,
        censor,
    };
    proof {
        let os_user = choose|os_user: Seq<char>| is_censor_table(censor, os_user, *credentials);
        assert(is_censor_table(plan.censor, os_user, *credentials));
    }
    Ok(plan)
}

} // verus!
