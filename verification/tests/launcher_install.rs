use theseus::error::{Error, LaunchFault};
use theseus::launcher::{
    add_processor_variables, conclude_install, fill_argument, install_minecraft, library_paths,
    plan_processor_runs, processor_arguments, processor_main_class, processor_outcome, resolve,
    ProcessorArgument, PROCESSOR_WEIGHT,
    GameVersion, InstallPaths, Processor, ProcessorRun, SidedDataEntry, VersionInfo, VersionType,
    JAVA_17_KEY,
};
use theseus::profile::{
    JavaVersion, LoaderVersion, Profile, ProfileInstallStage, ProfileMetadata,
};
use theseus::textmap::TextMap;

fn java(path: &str) -> JavaVersion {
    JavaVersion {
        path: path.to_string(),
        version: "17.0.1".to_string(),
        architecture: "x86_64".to_string(),
    }
}

fn profile(game_version: &str, loader: Option<&str>) -> Profile {
    Profile {
        path: "alpha".to_string(),
        install_stage: ProfileInstallStage::NotInstalled,
        metadata: ProfileMetadata {
            name: "Alpha".to_string(),
            game_version: game_version.to_string(),
            loader_version: loader.map(|id| LoaderVersion { id: id.to_string() }),
        },
        java: None,
    }
}

fn versions() -> Vec<GameVersion> {
    vec![
        GameVersion { id: "1.19.4".to_string(), kind: VersionType::Release },
        GameVersion { id: "1.20.1".to_string(), kind: VersionType::Release },
    ]
}

fn globals() -> TextMap<JavaVersion> {
    let mut map = TextMap::new();
    map.insert(JAVA_17_KEY.to_string(), java("/java/17"));
    map
}

fn paths() -> InstallPaths {
    InstallPaths {
        client_jar: "/meta/versions/1.20.1-47/1.20.1-47.jar".to_string(),
        instance_root: "/profiles/alpha".to_string(),
        libraries_dir: "/meta/libraries".to_string(),
    }
}

fn processor(jar: &str, classpath: &[&str], sides: Option<&[&str]>) -> Processor {
    Processor {
        jar: jar.to_string(),
        classpath: classpath.iter().map(|s| s.to_string()).collect(),
        args: vec!["--task".to_string(), "{SIDE}".to_string()],
        sides: sides.map(|s| s.iter().map(|x| x.to_string()).collect()),
    }
}

fn info(data: bool, processors: Option<Vec<Processor>>) -> VersionInfo {
    let data = if data {
        let mut map = TextMap::new();
        map.insert(
            "MAPPINGS".to_string(),
            SidedDataEntry { client: "[a:b:1@txt]".to_string(), server: "[a:b:2@txt]".to_string() },
        );
        map.insert(
            "SIDE".to_string(),
            SidedDataEntry { client: "old".to_string(), server: "old".to_string() },
        );
        Some(map)
    } else {
        None
    };
    VersionInfo {
        id: "1.20.1".to_string(),
        main_class: "Main".to_string(),
        java_major: Some(17),
        data,
        processors,
    }
}

#[test]
fn an_unknown_game_version_is_refused_first() {
    let r = resolve(&profile("9.9", None), &versions(), &info(false, None), &TextMap::new(), None);
    assert_eq!(
        r.err(),
        Some(Error::Launcher(LaunchFault::InvalidGameVersion { version: "9.9".to_string() }))
    );
}

#[test]
fn a_missing_java_is_refused() {
    let r = resolve(
        &profile("1.20.1", None),
        &versions(),
        &info(false, None),
        &TextMap::new(),
        Some(java("/java/17")),
    );
    assert_eq!(r.err(), Some(Error::Launcher(LaunchFault::MissingJava)));
}

#[test]
fn a_java_that_does_not_work_is_refused() {
    let r = resolve(&profile("1.20.1", None), &versions(), &info(false, None), &globals(), None);
    assert_eq!(
        r.err(),
        Some(Error::Launcher(LaunchFault::InvalidJava { path: "/java/17".to_string() }))
    );
}

#[test]
fn resolves_version_and_java() {
    let found = resolve(
        &profile("1.20.1", Some("47")),
        &versions(),
        &info(false, None),
        &globals(),
        Some(java("/checked/java")),
    )
    .ok()
    .unwrap();
    assert_eq!(found.version, 1);
    assert_eq!(found.version_jar, "1.20.1-47");
    assert_eq!(found.java, java("/checked/java"));
}

#[test]
fn the_five_variables_are_set_for_the_client() {
    let mut data: TextMap<SidedDataEntry> = TextMap::new();
    data.insert(
        "ROOT".to_string(),
        SidedDataEntry { client: "x".to_string(), server: "y".to_string() },
    );
    add_processor_variables(&mut data, &paths(), "1.20.1");
    let entry = |client: &str| SidedDataEntry { client: client.to_string(), server: String::new() };
    assert_eq!(data.len(), 5);
    assert_eq!(data.get("SIDE"), Some(&entry("client")));
    assert_eq!(data.get("MINECRAFT_JAR"), Some(&entry("/meta/versions/1.20.1-47/1.20.1-47.jar")));
    assert_eq!(data.get("MINECRAFT_VERSION"), Some(&entry("1.20.1")));
    assert_eq!(data.get("ROOT"), Some(&entry("/profiles/alpha")));
    assert_eq!(data.get("LIBRARY_DIR"), Some(&entry("/meta/libraries")));
}

#[test]
fn plans_the_client_processors_in_order() {
    let processors = vec![
        processor("p:one:1", &["l:a:1", "l:b:1"], None),
        processor("p:two:1", &[], Some(&["server"])),
        processor("p:three:1", &["l:c:1"], Some(&["client", "server"])),
    ];
    let names = |list: &[&str]| list.iter().map(|s| s.to_string()).collect::<Vec<String>>();
    assert_eq!(
        plan_processor_runs(&processors),
        vec![
            ProcessorRun { index: 0, classpath: names(&["l:a:1", "l:b:1", "p:one:1"]) },
            ProcessorRun { index: 2, classpath: names(&["l:c:1", "p:three:1"]) },
        ]
    );
    assert_eq!(plan_processor_runs(&Vec::new()), Vec::new());
}

#[test]
fn plans_an_install_with_processors() {
    let processors =
        vec![processor("p:one:1", &["l:a:1"], None), processor("p:two:1", &[], Some(&["server"]))];
    let mut version_info = info(true, Some(processors.clone()));
    let plan = install_minecraft(
        &mut profile("1.20.1", Some("47")),
        &versions(),
        &mut version_info,
        &globals(),
        Some(java("/checked/java")),
        &paths(),
    )
    .ok()
    .unwrap();
    assert_eq!(plan.resolved.version, 1);
    assert_eq!(plan.resolved.version_jar, "1.20.1-47");
    assert_eq!(plan.resolved.java.path, "/checked/java");
    assert!(plan.has_processors);
    assert_eq!(plan.processor_count, 2);
    assert_eq!(plan.runs.len(), 1);
    assert_eq!(plan.runs[0].index, 0);
    assert_eq!(plan.runs[0].classpath, vec!["l:a:1".to_string(), "p:one:1".to_string()]);
    let data = version_info.data.as_ref().unwrap();
    assert_eq!(data.len(), 6);
    assert_eq!(data.get("SIDE").unwrap().client, "client");
    assert_eq!(data.get("SIDE").unwrap().server, "");
    assert_eq!(data.get("MAPPINGS").unwrap().client, "[a:b:1@txt]");
    assert_eq!(version_info.processors, Some(processors));
}

#[test]
fn no_processor_runs_without_variables() {
    let mut version_info = info(false, Some(vec![processor("p:one:1", &[], None)]));
    let plan = install_minecraft(
        &mut profile("1.20.1", None),
        &versions(),
        &mut version_info,
        &globals(),
        Some(java("/checked/java")),
        &paths(),
    )
    .ok()
    .unwrap();
    assert!(!plan.has_processors);
    assert!(plan.runs.is_empty());
    assert_eq!(plan.processor_count, 0);
    assert!(version_info.data.is_none());
}

#[test]
fn variables_without_processors_stay_as_they_are() {
    let mut version_info = info(true, None);
    let plan = install_minecraft(
        &mut profile("1.20.1", None),
        &versions(),
        &mut version_info,
        &globals(),
        Some(java("/checked/java")),
        &paths(),
    )
    .ok()
    .unwrap();
    assert!(plan.runs.is_empty());
    let data = version_info.data.as_ref().unwrap();
    assert_eq!(data.len(), 2);
    assert_eq!(data.get("SIDE").unwrap().client, "old");
}

#[test]
fn a_refused_install_leaves_the_version_as_it_is() {
    let mut version_info = info(true, Some(vec![processor("p:one:1", &[], None)]));
    let r = install_minecraft(
        &mut profile("1.20.1", None),
        &versions(),
        &mut version_info,
        &globals(),
        None,
        &paths(),
    );
    assert_eq!(
        r.err(),
        Some(Error::Launcher(LaunchFault::InvalidJava { path: "/java/17".to_string() }))
    );
    assert_eq!(version_info.data.as_ref().unwrap().len(), 2);
}

#[test]
fn a_failed_processor_fails_the_install_with_its_error_stream() {
    assert_eq!(processor_outcome(true, "ignored".to_string()), Ok(()));
    assert_eq!(
        processor_outcome(false, "boom".to_string()),
        Err(Error::Launcher(LaunchFault::ProcessorFailed { stderr: "boom".to_string() }))
    );
}

#[test]
fn the_stage_follows_the_install() {
    let stage = ProfileInstallStage::NotInstalled;
    assert!(!stage.is_busy());
    let during = stage.begin_install();
    assert_eq!(during, ProfileInstallStage::Installing);
    assert!(during.is_busy());
    assert_eq!(during.finish_install(true), ProfileInstallStage::Installed);
    assert_eq!(during.finish_install(false), ProfileInstallStage::Installing);
    assert_eq!(
        ProfileInstallStage::Installed.begin_pack_change(),
        ProfileInstallStage::PackInstalling
    );
    assert!(ProfileInstallStage::PackInstalling.is_busy());
    assert!(!ProfileInstallStage::Installed.is_busy());
}

#[test]
fn libraries_are_found_by_their_coordinates() {
    let names = |list: &[&str]| list.iter().map(|s| s.to_string()).collect::<Vec<String>>();
    assert_eq!(
        library_paths(&names(&[
            "net.minecraftforge:forge:1.20.1-47.1.0",
            "de.oceanlabs.mcp:mcp_config:1.20.1@zip",
            "net.minecraft:client:1.20.1:mappings@txt",
        ])),
        Ok(names(&[
            "net/minecraftforge/forge/1.20.1-47.1.0/forge-1.20.1-47.1.0.jar",
            "de/oceanlabs/mcp/mcp_config/1.20.1/mcp_config-1.20.1.zip",
            "net/minecraft/client/1.20.1/client-1.20.1-mappings.txt",
        ]))
    );
    assert_eq!(library_paths(&Vec::new()), Ok(Vec::new()));
}

#[test]
fn the_first_unreadable_coordinates_are_refused() {
    let names = |list: &[&str]| list.iter().map(|s| s.to_string()).collect::<Vec<String>>();
    assert_eq!(
        library_paths(&names(&["a.b:c:1", "nocolon", "x:y"])),
        Err(Error::Launcher(LaunchFault::InvalidLibrary { artifact: "nocolon".to_string() }))
    );
    assert_eq!(
        library_paths(&names(&["x:y"])),
        Err(Error::Launcher(LaunchFault::InvalidLibrary { artifact: "x:y".to_string() }))
    );
}

fn variables() -> TextMap<SidedDataEntry> {
    let mut data: TextMap<SidedDataEntry> = TextMap::new();
    data.insert(
        "MAPPINGS".to_string(),
        SidedDataEntry {
            client: "[de.oceanlabs.mcp:mcp_config:1.20.1@zip]".to_string(),
            server: "[a:b:2@txt]".to_string(),
        },
    );
    data.insert(
        "BROKEN".to_string(),
        SidedDataEntry { client: "[nocolon]".to_string(), server: String::new() },
    );
    add_processor_variables(&mut data, &paths(), "1.20.1");
    data
}

#[test]
fn variables_in_arguments_are_filled_in() {
    let data = variables();
    let text = |s: &str| Ok(Some(ProcessorArgument::Text(s.to_string())));
    let library = |s: &str| Ok(Some(ProcessorArgument::Library(s.to_string())));
    assert_eq!(fill_argument("--task", &data), text("--task"));
    assert_eq!(fill_argument("{SIDE}", &data), text("client"));
    assert_eq!(fill_argument("{MINECRAFT_VERSION}", &data), text("1.20.1"));
    assert_eq!(fill_argument("{ROOT}", &data), text("/profiles/alpha"));
    assert_eq!(fill_argument("{LIBRARY_DIR}", &data), text("/meta/libraries"));
    assert_eq!(
        fill_argument("{MINECRAFT_JAR}", &data),
        text("/meta/versions/1.20.1-47/1.20.1-47.jar")
    );
    assert_eq!(
        fill_argument("{MAPPINGS}", &data),
        library("de/oceanlabs/mcp/mcp_config/1.20.1/mcp_config-1.20.1.zip")
    );
    assert_eq!(
        fill_argument("[net.minecraftforge:forge:1.20.1-47.1.0]", &data),
        library("net/minecraftforge/forge/1.20.1-47.1.0/forge-1.20.1-47.1.0.jar")
    );
    assert_eq!(fill_argument("{UNKNOWN}", &data), Ok(None));
    assert_eq!(fill_argument("{}", &data), Ok(None));
    assert_eq!(fill_argument("{", &data), text("{"));
    assert_eq!(fill_argument("{SIDE", &data), text("{SIDE"));
    assert_eq!(fill_argument("", &data), text(""));
    assert_eq!(
        fill_argument("[nocolon]", &data),
        Err(Error::Launcher(LaunchFault::InvalidLibrary { artifact: "nocolon".to_string() }))
    );
    assert_eq!(
        fill_argument("{BROKEN}", &data),
        Err(Error::Launcher(LaunchFault::InvalidLibrary { artifact: "nocolon".to_string() }))
    );
}

#[test]
fn the_arguments_of_a_processor_are_filled_in_order() {
    let data = variables();
    let names = |list: &[&str]| list.iter().map(|s| s.to_string()).collect::<Vec<String>>();
    assert_eq!(
        processor_arguments(&names(&["--side", "{SIDE}", "{UNKNOWN}", "--in", "{MAPPINGS}"]), &data),
        Ok(vec![
            ProcessorArgument::Text("--side".to_string()),
            ProcessorArgument::Text("client".to_string()),
            ProcessorArgument::Text("--in".to_string()),
            ProcessorArgument::Library(
                "de/oceanlabs/mcp/mcp_config/1.20.1/mcp_config-1.20.1.zip".to_string()
            ),
        ])
    );
    assert_eq!(processor_arguments(&Vec::new(), &data), Ok(Vec::new()));
    assert_eq!(
        processor_arguments(&names(&["a", "[x:y]", "{BROKEN}"]), &data),
        Err(Error::Launcher(LaunchFault::InvalidLibrary { artifact: "x:y".to_string() }))
    );
}

#[test]
fn the_processors_take_thirty_units_of_progress() {
    assert_eq!(PROCESSOR_WEIGHT, 30);
}

#[test]
fn an_install_puts_the_profile_into_the_stage_of_an_install() {
    let mut p = profile("1.20.1", None);
    let plan = install_minecraft(
        &mut p,
        &versions(),
        &mut info(false, None),
        &globals(),
        Some(java("/checked/java")),
        &paths(),
    )
    .ok()
    .unwrap();
    assert_eq!(p.install_stage, ProfileInstallStage::Installing);
    assert_eq!(plan.stage, ProfileInstallStage::Installing);
    assert_eq!(plan.stage_after, ProfileInstallStage::Installed);
    assert_eq!(p.path, "alpha");
    assert_eq!(p.metadata.game_version, "1.20.1");
}

#[test]
fn a_refused_install_leaves_the_profile_in_the_stage_of_an_install() {
    let mut p = profile("9.9", None);
    let r = install_minecraft(
        &mut p,
        &versions(),
        &mut info(false, None),
        &globals(),
        Some(java("/checked/java")),
        &paths(),
    );
    assert!(r.is_err());
    assert_eq!(p.install_stage, ProfileInstallStage::Installing);
}

#[test]
fn an_install_that_succeeded_ends_installed() {
    let mut p = profile("1.20.1", None);
    p.install_stage = ProfileInstallStage::Installing;
    assert_eq!(conclude_install(&mut p, Ok(())), Ok(()));
    assert_eq!(p.install_stage, ProfileInstallStage::Installed);
}

#[test]
fn an_install_that_failed_leaves_the_stage_as_it_is() {
    let mut p = profile("1.20.1", None);
    p.install_stage = ProfileInstallStage::Installing;
    let failure = Error::Launcher(LaunchFault::ProcessorFailed { stderr: "boom".to_string() });
    assert_eq!(conclude_install(&mut p, Err(failure.clone())), Err(failure));
    assert_eq!(p.install_stage, ProfileInstallStage::Installing);
    assert_eq!(conclude_install(&mut p, Err(Error::FetchExhausted)), Err(Error::FetchExhausted));
    assert_eq!(p.install_stage, ProfileInstallStage::Installing);
}

#[test]
fn a_processor_archive_without_main_class_is_refused() {
    assert_eq!(
        processor_main_class(Some("net.Main".to_string()), "p:one:1"),
        Ok("net.Main".to_string())
    );
    assert_eq!(
        processor_main_class(None, "p:one:1"),
        Err(Error::Launcher(LaunchFault::ProcessorMainClassMissing {
            jar: "p:one:1".to_string()
        }))
    );
}

#[test]
fn the_parts_of_coordinates_are_read_as_stated() {
    let one = |s: &str| library_paths(&vec![s.to_string()]).map(|mut paths| paths.remove(0));
    let refused = |s: &str| {
        Err(Error::Launcher(LaunchFault::InvalidLibrary { artifact: s.to_string() }))
    };
    assert_eq!(one("a.b:c:1"), Ok("a/b/c/1/c-1.jar".to_string()));
    assert_eq!(one("a.b:c:1@zip"), Ok("a/b/c/1/c-1.zip".to_string()));
    assert_eq!(one("a.b:c:1@zip@more"), Ok("a/b/c/1/c-1.zip".to_string()));
    assert_eq!(one("a.b:c:1:natives"), Ok("a/b/c/1/c-1-natives.jar".to_string()));
    assert_eq!(one("a.b:c:1:natives@zip"), Ok("a/b/c/1/c-1-natives.zip".to_string()));
    assert_eq!(one("a.b:c:1@x:natives@zip"), Ok("a/b/c/1@x/c-1@x-natives.zip".to_string()));
    assert_eq!(one("a.b:c:1:natives:extra"), Ok("a/b/c/1/c-1-natives.jar".to_string()));
    assert_eq!(one("a..b:c.d:1.2"), Ok("a//b/c.d/1.2/c.d-1.2.jar".to_string()));
    assert_eq!(one("::"), Ok("///-.jar".to_string()));
    assert_eq!(one("a:b:@"), Ok("a/b//b-.".to_string()));
    assert_eq!(one(":::"), Ok("///--.jar".to_string()));
    assert_eq!(one(""), refused(""));
    assert_eq!(one("a"), refused("a"));
    assert_eq!(one("a:b"), refused("a:b"));
    assert_eq!(one("a@zip:b"), refused("a@zip:b"));
}
