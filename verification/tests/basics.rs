use sysx::ipc::FrameError;
use sysx::names::{copy_names, lists, position, NameMap, NameSet};
use sysx::text::{
    chars_of, decimal_string, hex_byte_string, lines_of, parse_i32, parse_u64, same_text, spells,
    string_of, trim, words_of,
};
use sysx::core_bin::CompilerError;
use sysx::SysXError;

fn words(s: &str) -> Vec<String> {
    words_of(&chars_of(s)).iter().map(string_of).collect()
}

#[test]
fn sets_of_names() {
    let mut s = NameSet::new();
    assert!(s.insert("b"));
    assert!(s.insert("a"));
    assert!(!s.insert("b"));
    assert_eq!(s.len(), 2);
    assert!(s.contains("a"));
    assert!(!s.contains("c"));
    let t = s.clone();
    assert!(s.remove("b"));
    assert!(!s.remove("b"));
    assert_eq!(s.names(), &vec!["a".to_string()]);
    assert!(t.contains("b"));
}

#[test]
fn maps_from_names() {
    let mut m: NameMap<u32> = NameMap::new();
    m.insert("a", 1);
    m.insert("b", 2);
    m.insert("a", 3);
    assert_eq!(m.len(), 2);
    assert_eq!(m.get("a"), Some(&3));
    assert_eq!(m.get("c"), None);
    let n = m.clone();
    assert_eq!(m.remove("a"), Some(3));
    assert_eq!(m.remove("a"), None);
    assert!(!m.contains_key("a"));
    assert_eq!(m.names(), &vec!["b".to_string()]);
    assert_eq!(n.get("a"), Some(&3));
}

#[test]
fn lists_of_names() {
    let v = vec!["x".to_string(), "y".to_string(), "x".to_string()];
    assert_eq!(position(&v, "y"), Some(1));
    assert_eq!(position(&v, "z"), None);
    assert!(lists(&v, "x"));
    assert_eq!(copy_names(&v), v);
}

#[test]
fn numbers_as_text() {
    assert_eq!(decimal_string(0), "0");
    assert_eq!(decimal_string(u64::MAX), "18446744073709551615");
    assert_eq!(hex_byte_string(0), "0x00");
    assert_eq!(hex_byte_string(0xaf), "0xaf");
}

#[test]
fn text_as_numbers() {
    let inputs = vec![
        "0", "7", "+7", "-7", "", "+", "-", "00012", "2147483647", "2147483648", "-2147483648",
        "-2147483649", "18446744073709551615", "18446744073709551616", "1 ", " 1", "1a", "٣", "--1",
    ];
    for i in inputs {
        assert_eq!(parse_u64(&chars_of(i)), i.parse::<u64>().ok(), "{}", i);
        assert_eq!(parse_i32(&chars_of(i)), i.parse::<i32>().ok(), "{}", i);
    }
}

#[test]
fn words_and_ends() {
    let inputs = vec![
        "", " ", "a", " a b ", "a\tb\u{a0}c", "\u{2003}x\u{3000}", "a\u{200b}b", "\r\n", "é è",
    ];
    for i in inputs {
        let std: Vec<String> = i.split_whitespace().map(|w| w.to_string()).collect();
        assert_eq!(words(i), std);
        assert_eq!(string_of(&trim(&chars_of(i))), i.trim());
    }
}

#[test]
fn every_character_is_space_or_not() {
    for n in 0..=0x10ffff_u32 {
        if let Some(c) = char::from_u32(n) {
            assert_eq!(trim(&vec![c]).is_empty(), c.is_whitespace());
        }
    }
}

#[test]
fn pieces_between_line_feeds() {
    let pieces = |s: &str| -> Vec<String> {
        lines_of(&chars_of(s)).iter().map(string_of).collect()
    };
    assert_eq!(pieces(""), vec![""]);
    assert_eq!(pieces("a\n\nb\n"), vec!["a", "", "b", ""]);
}

#[test]
fn spelling() {
    assert!(spells(&chars_of("abc"), "abc"));
    assert!(!spells(&chars_of("abd"), "abc"));
    assert!(!spells(&chars_of("ab"), "abc"));
    assert!(same_text("x", "x"));
    assert!(!same_text("x", "y"));
}

#[test]
fn errors_in_words() {
    let m = || "why".to_string();
    assert_eq!(SysXError::Boot(m()).message(), "Boot failed: why");
    assert_eq!(SysXError::Dag(m()).message(), "DAG validation failed: why");
    assert_eq!(SysXError::Reactor(m()).message(), "Reactor error: why");
    assert_eq!(SysXError::Ipc(FrameError::BadMagic).message(), "IPC error: bad magic bytes");
    assert_eq!(CompilerError::Forge(m()).message(), "forge error: why");
}
