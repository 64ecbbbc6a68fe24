use theseus::launcher::{
    find_version, get_java_version_from_profile, parse_rule, processor_runs_on_client,
    version_jar, FeatureRule, GameVersion, OsRule, Processor, Rule, RuleAction, VersionInfo,
    VersionType, JAVA_17_KEY, JAVA_18PLUS_KEY, JAVA_8_KEY,
};
use theseus::error::{Error, LaunchFault};
use theseus::profile::{
    JavaSettings, JavaVersion, LoaderVersion, Profile, ProfileInstallStage, ProfileMetadata,
};
use theseus::textmap::TextMap;

fn no_features() -> FeatureRule {
    FeatureRule {
        is_demo_user: None,
        has_custom_resolution: None,
        has_quick_plays_support: None,
        is_quick_play_singleplayer: None,
        is_quick_play_multiplayer: None,
        is_quick_play_realms: None,
    }
}

fn os_rule() -> OsRule {
    OsRule { name: Some("linux".to_string()), version: None, arch: None }
}

fn java(path: &str) -> JavaVersion {
    JavaVersion {
        path: path.to_string(),
        version: "17.0.1".to_string(),
        architecture: "x86_64".to_string(),
    }
}

fn profile(java: Option<JavaSettings>) -> Profile {
    Profile {
        path: "alpha".to_string(),
        install_stage: ProfileInstallStage::Installed,
        metadata: ProfileMetadata {
            name: "Alpha".to_string(),
            game_version: "1.20.1".to_string(),
            loader_version: None,
        },
        java,
    }
}

fn info(java_major: Option<u32>) -> VersionInfo {
    VersionInfo {
        id: "1.20.1".to_string(),
        main_class: "net.minecraft.client.main.Main".to_string(),
        java_major,
        data: None,
        processors: None,
    }
}

fn globals(keys: &[&str]) -> TextMap<JavaVersion> {
    let mut map = TextMap::new();
    for key in keys {
        map.insert(key.to_string(), java(&format!("/java/{}", key)));
    }
    map
}

#[test]
fn an_os_rule_follows_the_platform() {
    let allow = Rule { action: RuleAction::Allow, os: Some(os_rule()), features: None };
    assert!(parse_rule(&allow, true));
    assert!(!parse_rule(&allow, false));
    let disallow = Rule { action: RuleAction::Disallow, os: Some(os_rule()), features: None };
    assert!(!parse_rule(&disallow, true));
    assert!(parse_rule(&disallow, false));
}

#[test]
fn an_os_rule_comes_before_a_feature_rule() {
    let mut features = no_features();
    features.has_custom_resolution = Some(true);
    let rule = Rule { action: RuleAction::Allow, os: Some(os_rule()), features: Some(features) };
    assert!(!parse_rule(&rule, false));
}

#[test]
fn a_rule_without_condition_never_holds() {
    let allow = Rule { action: RuleAction::Allow, os: None, features: None };
    assert!(!parse_rule(&allow, true));
    let disallow = Rule { action: RuleAction::Disallow, os: None, features: None };
    assert!(parse_rule(&disallow, true));
}

#[test]
fn feature_rules() {
    let rule = |f: FeatureRule| Rule { action: RuleAction::Allow, os: None, features: Some(f) };
    assert!(!parse_rule(&rule(no_features()), true));
    let mut f = no_features();
    f.has_custom_resolution = Some(true);
    assert!(parse_rule(&rule(f), false));
    let mut f = no_features();
    f.has_custom_resolution = Some(false);
    assert!(!parse_rule(&rule(f), false));
    let mut f = no_features();
    f.is_demo_user = Some(true);
    assert!(!parse_rule(&rule(f), false));
    let mut f = no_features();
    f.is_demo_user = Some(false);
    assert!(parse_rule(&rule(f), false));
    let mut f = no_features();
    f.has_quick_plays_support = Some(false);
    assert!(parse_rule(&rule(f), false));
    let mut f = no_features();
    f.is_quick_play_singleplayer = Some(false);
    assert!(parse_rule(&rule(f), false));
    let mut f = no_features();
    f.is_quick_play_multiplayer = Some(false);
    assert!(parse_rule(&rule(f), false));
    let mut f = no_features();
    f.is_quick_play_realms = Some(false);
    assert!(parse_rule(&rule(f), false));
    let mut f = no_features();
    f.is_quick_play_realms = Some(true);
    f.is_quick_play_multiplayer = Some(true);
    assert!(!parse_rule(&rule(f), false));
}

#[test]
fn the_override_of_a_profile_wins() {
    let p = profile(Some(JavaSettings { override_version: Some(java("/own/java")) }));
    let g = globals(&[JAVA_8_KEY, JAVA_17_KEY, JAVA_18PLUS_KEY]);
    assert_eq!(get_java_version_from_profile(&p, &info(Some(17)), &g), Some(&java("/own/java")));
}

#[test]
fn java_is_chosen_by_the_major_version() {
    let p = profile(None);
    let all = globals(&[JAVA_8_KEY, JAVA_17_KEY, JAVA_18PLUS_KEY]);
    let path = |major: Option<u32>, g: &TextMap<JavaVersion>| {
        get_java_version_from_profile(&p, &info(major), g).map(|j| j.path.clone())
    };
    assert_eq!(path(None, &all), Some("/java/JAVA_8".to_string()));
    assert_eq!(path(Some(0), &all), Some("/java/JAVA_8".to_string()));
    assert_eq!(path(Some(8), &all), Some("/java/JAVA_8".to_string()));
    assert_eq!(path(Some(15), &all), Some("/java/JAVA_8".to_string()));
    assert_eq!(path(Some(16), &all), Some("/java/JAVA_17".to_string()));
    assert_eq!(path(Some(17), &all), Some("/java/JAVA_17".to_string()));
    assert_eq!(path(Some(18), &all), Some("/java/JAVA_18PLUS".to_string()));
    assert_eq!(path(Some(21), &all), Some("/java/JAVA_18PLUS".to_string()));
}

#[test]
fn a_later_java_stands_in_for_a_missing_one() {
    let p = profile(Some(JavaSettings { override_version: None }));
    let path = |major: Option<u32>, g: &TextMap<JavaVersion>| {
        get_java_version_from_profile(&p, &info(major), g).map(|j| j.path.clone())
    };
    assert_eq!(path(Some(8), &globals(&[JAVA_17_KEY, JAVA_18PLUS_KEY])), Some("/java/JAVA_17".to_string()));
    assert_eq!(path(Some(8), &globals(&[JAVA_18PLUS_KEY])), Some("/java/JAVA_18PLUS".to_string()));
    assert_eq!(path(Some(17), &globals(&[JAVA_8_KEY, JAVA_18PLUS_KEY])), Some("/java/JAVA_18PLUS".to_string()));
    assert_eq!(path(Some(17), &globals(&[JAVA_8_KEY])), None);
    assert_eq!(path(Some(18), &globals(&[JAVA_8_KEY, JAVA_17_KEY])), None);
    assert_eq!(path(None, &globals(&[])), None);
}

#[test]
fn finds_the_first_version_of_an_identifier() {
    let versions = vec![
        GameVersion { id: "1.20.2".to_string(), kind: VersionType::Release },
        GameVersion { id: "1.20.1".to_string(), kind: VersionType::Release },
        GameVersion { id: "1.20.1".to_string(), kind: VersionType::Snapshot },
    ];
    assert_eq!(find_version(&versions, "1.20.1"), Ok(1));
    assert_eq!(
        find_version(&versions, "1.19"),
        Err(Error::Launcher(LaunchFault::InvalidGameVersion { version: "1.19".to_string() }))
    );
}

#[test]
fn the_archive_is_named_after_version_and_loader() {
    assert_eq!(version_jar("1.20.1", &None), "1.20.1");
    assert_eq!(
        version_jar("1.20.1", &Some(LoaderVersion { id: "47.1.0".to_string() })),
        "1.20.1-47.1.0"
    );
}

#[test]
fn processors_run_on_the_client_unless_their_sides_leave_it_out() {
    let processor = |sides: Option<Vec<&str>>| Processor {
        jar: "a:b:1".to_string(),
        classpath: Vec::new(),
        args: Vec::new(),
        sides: sides.map(|s| s.iter().map(|x| x.to_string()).collect()),
    };
    assert!(processor_runs_on_client(&processor(None)));
    assert!(processor_runs_on_client(&processor(Some(vec!["client"]))));
    assert!(processor_runs_on_client(&processor(Some(vec!["server", "client"]))));
    assert!(!processor_runs_on_client(&processor(Some(vec!["server"]))));
    assert!(!processor_runs_on_client(&processor(Some(vec![]))));
    assert!(!processor_runs_on_client(&processor(Some(vec!["Client"]))));
}
