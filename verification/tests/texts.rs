use cargo_frequent::text::{
    chars_of, find_after, find_text, join, prefixed, same_text, short_path, starts_with, string_of,
    trim_chars, CharClass,
};
use cargo_frequent::text_order::{comes_before, position, sorted_set};
use cargo_frequent::AnalyzerError;

#[test]
fn character_classes_are_those_of_the_standard_library() {
    for c in '\0'..=char::MAX {
        assert_eq!(CharClass::Whitespace.contains(c), c.is_whitespace(), "{c:?}");
        assert_eq!(CharClass::NonWhitespace.contains(c), !c.is_whitespace(), "{c:?}");
        assert_eq!(CharClass::Digit.contains(c), c.is_ascii_digit(), "{c:?}");
        assert_eq!(CharClass::HexDigit.contains(c), c.is_ascii_hexdigit(), "{c:?}");
    }
}

#[test]
fn text_survives_being_taken_apart() {
    for text in ["", "a", "größe €", "a\nb"] {
        assert_eq!(string_of(&chars_of(text)), text);
    }
}

#[test]
fn white_space_is_trimmed() {
    assert_eq!(string_of(trim_chars(&chars_of(" \t a b\u{a0}\n"))), "a b");
    assert_eq!(string_of(trim_chars(&chars_of("  \n"))), "");
}

#[test]
fn first_occurrence_is_found() {
    let text = chars_of("ab dirty: dirty: x");
    assert_eq!(find_text(&text, "dirty:"), Some(3));
    assert_eq!(find_after(&text, "dirty:").map(string_of), Some(" dirty: x".to_string()));
    assert_eq!(find_text(&text, "clean"), None);
    assert_eq!(find_text(&text, ""), Some(0));
    assert_eq!(find_text(&chars_of("aab"), "ab"), Some(1));
    assert_eq!(find_text(&[], "ab"), None);
    assert!(starts_with(&text, "ab "));
    assert!(!starts_with(&text, "b"));
    assert!(!starts_with(&[], "b"));
    assert!(same_text("a", "a"));
    assert!(!same_text("a", "ab"));
}

#[test]
fn path_is_shortened_to_two_components() {
    for path in ["", "/", "a", "/a", "a/", "a/b", "/a/b", "x/a/b", "/tmp/p/src/main.rs", "a//b"] {
        let mut tail: Vec<&str> = path.rsplit('/').take(2).collect();
        tail.reverse();
        assert_eq!(short_path(path), tail.join("/"));
    }
    assert_eq!(short_path("/tmp/p/src/main.rs"), "src/main.rs");
}

#[test]
fn texts_are_joined() {
    let texts = vec!["a".to_string(), "b".to_string(), "c".to_string()];
    assert_eq!(join(&texts, ", "), "a, b, c");
    assert_eq!(join(&Vec::new(), ", "), "");
    assert_eq!(prefixed("env:", "PATH"), "env:PATH");
}

#[test]
fn order_is_that_of_the_standard_library() {
    let texts = ["", "A", "B", "a", "a-b", "a_b", "aa", "b", "é", "€", "\u{1f600}", "\u{ffff}"];
    for a in texts {
        for b in texts {
            assert_eq!(comes_before(a, b), a < b, "{a} {b}");
        }
    }
}

#[test]
fn lists_are_sorted_without_repetitions() {
    let texts: Vec<String> = ["b", "a", "b", "", "a"].iter().map(|t| t.to_string()).collect();
    let sorted = sorted_set(&texts);
    assert_eq!(sorted, vec!["", "a", "b"]);
    assert_eq!(position(&sorted, "a"), (1, true));
    assert_eq!(position(&sorted, "aa"), (2, false));
    assert_eq!(position(&sorted, "c"), (3, false));
}

#[test]
fn errors_say_what_went_wrong() {
    let text = |t: &str| t.to_string();
    assert_eq!(
        AnalyzerError::CargoTomlNotFound(text("/p/Cargo.toml")).message(),
        "Cargo.toml not found at /p/Cargo.toml"
    );
    assert_eq!(AnalyzerError::EmptyCommand.message(), "empty cargo command");
    assert_eq!(AnalyzerError::Io(text("no")).message(), "IO error: no");
    assert_eq!(AnalyzerError::Json(text("no")).message(), "JSON error: no");
    assert_eq!(
        AnalyzerError::BuildScriptOutputUnreadable(text("/p"), text("no")).message(),
        "could not read build-script output at /p: no"
    );
    assert_eq!(
        AnalyzerError::CargoMetadataFailed(text("no")).message(),
        "cargo metadata failed: no"
    );
}
