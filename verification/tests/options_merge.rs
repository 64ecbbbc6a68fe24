use theseus::options::{merge_option, merge_options};

#[test]
fn replaces_the_line_of_an_existing_key() {
    assert_eq!(merge_option("fov:70", "fov", "100"), "fov:100");
}

#[test]
fn appends_a_line_for_a_new_key() {
    assert_eq!(merge_option("gamma:0.5", "fov", "100"), "gamma:0.5\nfov:100");
}

#[test]
fn keeps_exactly_one_line_for_the_key() {
    let merged = merge_option("a:1\nfov:70\nb:2", "fov", "100");
    assert_eq!(merged, "a:1\nfov:100\nb:2");
    assert_eq!(merged.lines().filter(|l| l.starts_with("fov:")).count(), 1);
}

#[test]
fn replaces_only_the_first_of_two_lines() {
    assert_eq!(merge_option("fov:70\nfov:80", "fov", "100"), "fov:100\nfov:80");
}

#[test]
fn an_empty_text_gets_a_line_break_and_the_line() {
    assert_eq!(merge_option("", "fov", "100"), "\nfov:100");
}

#[test]
fn a_key_is_matched_at_the_start_of_a_line_only() {
    assert_eq!(merge_option("xfov:70", "fov", "100"), "xfov:70\nfov:100");
    assert_eq!(merge_option("fovx:70", "fov", "100"), "fovx:70\nfov:100");
}

#[test]
fn a_key_with_pattern_characters_is_taken_literally() {
    assert_eq!(merge_option("a.b:1\naxb:2", "a.b", "3"), "a.b:3\naxb:2");
    assert_eq!(merge_option("axb:2", "a.b", "3"), "axb:2\na.b:3");
}

#[test]
fn a_value_with_a_dollar_sign_is_taken_literally() {
    assert_eq!(merge_option("key:old", "key", "$0 and $1"), "key:$0 and $1");
}

#[test]
fn the_last_line_break_is_kept() {
    assert_eq!(merge_option("fov:70\n", "fov", "100"), "fov:100\n");
    assert_eq!(merge_option("a:1\n", "fov", "100"), "a:1\n\nfov:100");
}

#[test]
fn merging_twice_is_merging_once() {
    let once = merge_option("a:1\nb:2", "fov", "100");
    assert_eq!(merge_option(&once, "fov", "100"), once);
}

#[test]
fn merges_pairs_in_order() {
    let pairs = vec![
        ("fov".to_string(), "100".to_string()),
        ("fov".to_string(), "90".to_string()),
        ("lang".to_string(), "en_us".to_string()),
    ];
    assert_eq!(merge_options("a:1\nfov:70\nb:2", &pairs), "a:1\nfov:90\nb:2\nlang:en_us");
}

#[test]
fn merging_no_pairs_changes_nothing() {
    assert_eq!(merge_options("a:1\n", &Vec::new()), "a:1\n");
}
