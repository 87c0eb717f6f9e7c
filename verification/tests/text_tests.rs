use dolbaeb_simulator::text::{chars_of, is_space, skip_space_from, string_of, trim, word_end};

#[test]
fn white_space_is_the_unicode_set() {
    for c in [' ', '\t', '\n', '\r', '\u{0B}', '\u{0C}', '\u{85}', '\u{A0}', '\u{2003}', '\u{3000}'] {
        assert!(is_space(c), "{:?}", c);
        assert!(c.is_whitespace());
    }
    for c in ['a', '0', '_', '\u{200B}', '\u{0}'] {
        assert!(!is_space(c), "{:?}", c);
        assert!(!c.is_whitespace());
    }
}

#[test]
fn trimming() {
    assert_eq!(trim("  hello world \t\n"), "hello world");
    assert_eq!(trim("\u{3000}x\u{A0}"), "x");
    assert_eq!(trim("   "), "");
    assert_eq!(trim(""), "");
}

#[test]
fn words() {
    let v = chars_of("  set-volume  55 ");
    let s = skip_space_from(&v, 0);
    assert_eq!(s, 2);
    let e = word_end(&v, s);
    assert_eq!(string_of(&v, s, e), "set-volume");
    let a = skip_space_from(&v, e);
    assert_eq!(string_of(&v, a, word_end(&v, a)), "55");
}
