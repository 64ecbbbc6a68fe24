use regex::{NoExpand, Regex};
use theseus::options::merge_option;

fn by_pattern(text: &str, key: &str, value: &str) -> String {
    let line = Regex::new(&format!(r"(?m)^{}:.*$", regex::escape(key))).unwrap();
    if line.is_match(text) {
        line.replacen(text, 1, NoExpand(&format!("{}:{}", key, value))).to_string()
    } else {
        format!("{}\n{}:{}", text, key, value)
    }
}

#[test]
fn the_merge_agrees_with_the_line_pattern() {
    let texts = [
        "",
        "\n",
        "fov:70",
        "fov:",
        "fov",
        "a:1\nfov:70\nb:2",
        "fov:70\nfov:80",
        "xfov:1\n",
        " fov:1",
        "fov:70\r\nb:1",
        "a.b:1\naxb:2",
        "a+b:1",
        ":empty key",
        "key:välue\nκλειδί:1\n",
        "last:1\n",
        "\n\nfov:1\n\n",
    ];
    let keys = ["fov", "a.b", "a+b", "", "κλειδί", "last", "b", "fov:70"];
    let values = ["100", "", "$0 and $1", "a:b", "wert mit ü"];
    for text in texts {
        for key in keys {
            for value in values {
                assert_eq!(
                    merge_option(text, key, value),
                    by_pattern(text, key, value),
                    "text {:?}, key {:?}, value {:?}",
                    text,
                    key,
                    value
                );
            }
        }
    }
}
