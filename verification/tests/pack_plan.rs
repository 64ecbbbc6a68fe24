use theseus::error::{Error, InputFault};
use theseus::pack::{
    adopts_icon, check_game, install_zipped_mrpack, install_zipped_mrpack_files, locate,
    locate_manifest, plan_deletion, plan_file, plan_overrides, plan_step,
    remove_all_related_files, Deletion, FileStep, FileTask, OverrideStep,
    PackEnv, PackFile, PackFileHashes, PackFormat, SideType, DOWNLOAD_WEIGHT, MANIFEST_NAME,
    OVERRIDE_WEIGHT,
};
use theseus::path::{head, is_override_entry, is_writable, strip_first_segment, Head};
use theseus::profile::ProfileInstallStage;

fn file(path: &str, client: Option<SideType>) -> PackFile {
    PackFile {
        path: path.to_string(),
        hashes: PackFileHashes { sha1: Some("abc".to_string()), sha512: None },
        env: client.map(|c| PackEnv { client: Some(c), server: None }),
        downloads: vec!["https://a.example/f".to_string()],
        file_size: 3,
    }
}

fn pack(game: &str, files: Vec<PackFile>) -> PackFormat {
    PackFormat {
        game: game.to_string(),
        format_version: 1,
        version_id: "1.0.0".to_string(),
        name: "Example".to_string(),
        summary: None,
        files,
        dependencies: Vec::new(),
    }
}

fn names(list: &[&str]) -> Vec<String> {
    list.iter().map(|s| s.to_string()).collect()
}

#[test]
fn heads_of_paths() {
    assert_eq!(head(""), Head::Nothing);
    assert_eq!(head("/etc/passwd"), Head::Root);
    assert_eq!(head(".."), Head::Parent);
    assert_eq!(head("../x"), Head::Parent);
    assert_eq!(head("."), Head::Current);
    assert_eq!(head("./mods/a.jar"), Head::Current);
    assert_eq!(head("mods/a.jar"), Head::Normal);
    assert_eq!(head("..mods/a.jar"), Head::Normal);
    assert_eq!(head("a"), Head::Normal);
}

#[test]
fn writable_paths_begin_with_a_name_or_a_dot() {
    assert!(is_writable("mods/a.jar"));
    assert!(is_writable("./a"));
    assert!(!is_writable("../a"));
    assert!(!is_writable("/a"));
    assert!(!is_writable(""));
}

#[test]
fn override_entries_are_files_below_the_two_directories() {
    assert!(is_override_entry("overrides/config/a.toml"));
    assert!(is_override_entry("client_overrides/options.txt"));
    assert!(!is_override_entry("overrides/config/"));
    assert!(!is_override_entry("overrides/"));
    assert!(!is_override_entry("overrides"));
    assert!(!is_override_entry("server_overrides/a"));
    assert!(!is_override_entry("modrinth.index.json"));
    assert!(!is_override_entry("../overrides/a"));
    assert!(!is_override_entry(""));
}

#[test]
fn the_first_segment_is_stripped() {
    assert_eq!(strip_first_segment("overrides/config/a.toml"), ("config/a.toml".to_string(), true));
    assert_eq!(strip_first_segment("overrides//a/./b"), ("a/b".to_string(), true));
    assert_eq!(strip_first_segment("overrides/."), ("".to_string(), false));
    assert_eq!(strip_first_segment("overrides/a/.."), ("a/..".to_string(), false));
    assert_eq!(strip_first_segment("single"), ("".to_string(), false));
    assert_eq!(strip_first_segment("overrides/../x"), ("../x".to_string(), false));
    assert_eq!(strip_first_segment("overrides/./../x"), ("../x".to_string(), false));
    assert_eq!(strip_first_segment("overrides/a/../x"), ("a/../x".to_string(), true));
    assert_eq!(strip_first_segment("overrides/..x"), ("..x".to_string(), true));
}

#[test]
fn unsupported_files_are_never_fetched() {
    assert_eq!(plan_step(&file("mods/a.jar", Some(SideType::Unsupported))), FileStep::Skip);
    assert_eq!(plan_step(&file("../a.jar", Some(SideType::Unsupported))), FileStep::Skip);
    assert_eq!(plan_step(&file("mods/a.jar", Some(SideType::Required))), FileStep::FetchAndWrite);
    assert_eq!(plan_step(&file("mods/a.jar", Some(SideType::Optional))), FileStep::FetchAndWrite);
    assert_eq!(plan_step(&file("mods/a.jar", None)), FileStep::FetchAndWrite);
}

#[test]
fn a_server_side_requirement_does_not_skip_a_file() {
    let mut f = file("mods/a.jar", None);
    f.env = Some(PackEnv { client: None, server: Some(SideType::Unsupported) });
    assert_eq!(plan_step(&f), FileStep::FetchAndWrite);
}

#[test]
fn traversal_paths_are_not_written() {
    assert_eq!(plan_step(&file("../outside.jar", None)), FileStep::FetchOnly);
    assert_eq!(plan_step(&file("..", None)), FileStep::FetchOnly);
    assert_eq!(plan_step(&file("/etc/passwd", None)), FileStep::FetchOnly);
    assert_eq!(plan_step(&file("", None)), FileStep::FetchOnly);
}

#[test]
fn overrides_that_climb_out_of_the_root_are_not_extracted() {
    let entries = names(&["modrinth.index.json", "overrides/../outside.txt", "overrides/in.txt"]);
    assert_eq!(
        plan_overrides(&entries),
        vec![
            OverrideStep { entry: 1, target: None },
            OverrideStep { entry: 2, target: Some("in.txt".to_string()) },
        ]
    );
}

#[test]
fn locates_the_first_entry_of_a_name() {
    let entries = names(&["a", "b", "a"]);
    assert_eq!(locate(&entries, "a"), Some(0));
    assert_eq!(locate(&entries, "b"), Some(1));
    assert_eq!(locate(&entries, "c"), None);
}

#[test]
fn a_missing_manifest_is_refused() {
    let entries = names(&["overrides/a"]);
    assert_eq!(locate_manifest(&entries), Err(Error::Input(InputFault::MissingManifest)));
    let r = install_zipped_mrpack_files(&entries, &pack("minecraft", Vec::new()));
    assert_eq!(r.err(), Some(Error::Input(InputFault::MissingManifest)));
    let r = remove_all_related_files(&entries, &pack("minecraft", Vec::new()));
    assert_eq!(r.err(), Some(Error::Input(InputFault::MissingManifest)));
}

#[test]
fn another_game_is_refused() {
    let entries = names(&[MANIFEST_NAME]);
    assert_eq!(check_game(&pack("minecraft", Vec::new())), Ok(()));
    assert_eq!(
        check_game(&pack("Minecraft", Vec::new())),
        Err(Error::Input(InputFault::UnsupportedGame))
    );
    let r = install_zipped_mrpack_files(&entries, &pack("terraria", Vec::new()));
    assert_eq!(r.err(), Some(Error::Input(InputFault::UnsupportedGame)));
    let r = remove_all_related_files(&entries, &pack("terraria", Vec::new()));
    assert_eq!(r.err(), Some(Error::Input(InputFault::UnsupportedGame)));
}

#[test]
fn the_missing_manifest_comes_before_the_game() {
    let r = install_zipped_mrpack_files(&Vec::new(), &pack("terraria", Vec::new()));
    assert_eq!(r.err(), Some(Error::Input(InputFault::MissingManifest)));
}

#[test]
fn plans_files_and_overrides() {
    let entries = names(&[
        "overrides/config/a.toml",
        "modrinth.index.json",
        "overrides/mods/",
        "client_overrides/options.txt",
        "overrides/.",
        "readme.txt",
    ]);
    let p = pack(
        "minecraft",
        vec![
            file("mods/a.jar", None),
            file("mods/b.jar", Some(SideType::Unsupported)),
            file("../c.jar", None),
        ],
    );
    let plan = install_zipped_mrpack_files(&entries, &p).ok().unwrap();
    assert_eq!(plan.manifest, 1);
    let steps: Vec<FileStep> = plan.files.iter().map(|task| task.step).collect();
    assert_eq!(steps, vec![FileStep::FetchAndWrite, FileStep::Skip, FileStep::FetchOnly]);
    assert_eq!(plan.files[0], plan_file(&p.files[0]));
    assert_eq!(
        plan.files[2],
        FileTask {
            step: FileStep::FetchOnly,
            mirrors: vec!["https://a.example/f".to_string()],
            sha1: Some("abc".to_string()),
            path: "../c.jar".to_string(),
        }
    );
    assert_eq!(
        plan.overrides,
        vec![
            OverrideStep { entry: 0, target: Some("config/a.toml".to_string()) },
            OverrideStep { entry: 3, target: Some("options.txt".to_string()) },
            OverrideStep { entry: 4, target: None },
        ]
    );
    assert_eq!(plan_overrides(&entries), plan.overrides);
}

#[test]
fn the_progress_is_shared_seventy_to_thirty() {
    assert_eq!(DOWNLOAD_WEIGHT, 70);
    assert_eq!(OVERRIDE_WEIGHT, 30);
    assert_eq!(DOWNLOAD_WEIGHT + OVERRIDE_WEIGHT, 100);
}

#[test]
fn removal_deletes_every_file_that_install_writes() {
    let entries = names(&[
        "modrinth.index.json",
        "overrides/config/a.toml",
        "client_overrides/options.txt",
        "overrides/x/..",
    ]);
    let p = pack(
        "minecraft",
        vec![file("mods/a.jar", None), file("mods/b.jar", Some(SideType::Unsupported))],
    );
    let install = install_zipped_mrpack_files(&entries, &p).ok().unwrap();
    let removal = remove_all_related_files(&entries, &p).ok().unwrap();
    assert_eq!(removal.stage, ProfileInstallStage::PackInstalling);
    assert_eq!(removal.paths, names(&["mods/a.jar", "config/a.toml", "options.txt"]));
    for task in &install.files {
        if task.step == FileStep::FetchAndWrite {
            assert!(removal.paths.contains(&task.path));
        }
    }
    for step in &install.overrides {
        if let Some(target) = &step.target {
            assert!(removal.paths.contains(target));
        }
    }
}

#[test]
fn removal_deletes_nothing_that_install_does_not_write() {
    let entries = names(&[
        "modrinth.index.json",
        "overrides/../outside.txt",
        "overrides/.",
        "overrides/in.txt",
        "notes.txt",
    ]);
    let p = pack(
        "minecraft",
        vec![
            file("../outside.jar", None),
            file("/etc/passwd", None),
            file("mods/unsupported.jar", Some(SideType::Unsupported)),
            file("mods/a.jar", None),
        ],
    );
    let removal = remove_all_related_files(&entries, &p).ok().unwrap();
    assert_eq!(removal.paths, names(&["mods/a.jar", "in.txt"]));
}

#[test]
fn removal_plans_the_same_twice() {
    let entries = names(&["modrinth.index.json", "overrides/a"]);
    let p = pack("minecraft", vec![file("mods/a.jar", None)]);
    let first = remove_all_related_files(&entries, &p);
    let second = remove_all_related_files(&entries, &p);
    assert_eq!(first, second);
    assert!(first.is_ok());
}

#[test]
fn the_icon_is_adopted_only_where_none_is_set() {
    assert!(adopts_icon(false, true));
    assert!(!adopts_icon(true, true));
    assert!(!adopts_icon(false, false));
    assert!(!adopts_icon(true, false));
}

#[test]
fn a_failed_install_takes_the_profile_with_it() {
    let end = install_zipped_mrpack(Err(Error::FetchExhausted), "p".to_string());
    assert_eq!(end.remove_profile, Some("p".to_string()));
    assert_eq!(end.result, Err(Error::FetchExhausted));
    let end = install_zipped_mrpack(Ok("p".to_string()), "p".to_string());
    assert_eq!(end.remove_profile, None);
    assert_eq!(end.result, Ok("p".to_string()));
}

#[test]
fn an_absent_file_is_passed_over() {
    assert_eq!(plan_deletion(true), Deletion::Delete);
    assert_eq!(plan_deletion(false), Deletion::PassOver);
}
