use mongodb_influxdb::line_protocol::replacer::{LineEscapers, Replacer};

/// Reads escaped text back: a backslash before a special character stands
/// for that character.
fn unescape(s: &str, specials: &[char]) -> String {
    let chars: Vec<char> = s.chars().collect();
    let mut out = String::new();
    let mut i = 0;
    while i < chars.len() {
        if chars[i] == '\\' && i + 1 < chars.len() && specials.contains(&chars[i + 1]) {
            out.push(chars[i + 1]);
            i += 2;
        } else {
            out.push(chars[i]);
            i += 1;
        }
    }
    out
}

#[test]
fn escape_measurement() {
    let escapers = LineEscapers::new();

    assert_eq!(escapers.escape_measurement("a, b=c"), r"a\,\ b=c");
}

#[test]
fn escape_key() {
    let escapers = LineEscapers::new();

    assert_eq!(escapers.escape_key("a, b=c"), r"a\,\ b\=c");
}

#[test]
fn escape_string_value() {
    let escapers = LineEscapers::new();

    assert_eq!(escapers.escape_string_value(r#"a"b\c,"#), r#"a\"b\\c,"#);
}

#[test]
fn escape_roundtrip() {
    let escapers = LineEscapers::new();
    for text in ["", r"\,", r"a\\, b", "é, ü =\\\"", r#""\"#] {
        assert_eq!(
            unescape(&escapers.escape_measurement(text), &[',', ' ']),
            text
        );
        assert_eq!(unescape(&escapers.escape_key(text), &[',', '=', ' ']), text);
        assert_eq!(unescape(&escapers.escape_string_value(text), &['"', '\\']), text);
    }
}

#[test]
fn replacer_single_characters() {
    let replacer = Replacer::new(&["é", "a", "\n"], &["e", "A", "\\n"]);

    assert_eq!(replacer.replace_all("aéb\né"), "Aeb\\ne");
}

#[test]
fn replacer_longer_patterns() {
    let replacer = Replacer::new(&["ab", "bc"], &["X", "Y"]);

    assert_eq!(replacer.replace_all("abc bc"), "Xc Y");
}
