use ghostwhisper::typer::{
    all_keys, keystroke, normalise, type_text, Step, KEY_0, KEY_1, KEY_A, KEY_APOSTROPHE,
    KEY_BACKSLASH, KEY_COMMA, KEY_DOT, KEY_ENTER, KEY_EQUAL, KEY_GRAVE, KEY_H, KEY_I,
    KEY_LEFTBRACE, KEY_LEFTSHIFT, KEY_MINUS, KEY_RIGHTBRACE, KEY_SEMICOLON, KEY_SLASH, KEY_SPACE,
    KEY_TAB, KEY_Z,
};
use evdev::KeyCode;

#[test]
fn key_codes_match_evdev() {
    let pairs = [
        (KEY_A, KeyCode::KEY_A),
        (KEY_Z, KeyCode::KEY_Z),
        (KEY_H, KeyCode::KEY_H),
        (KEY_I, KeyCode::KEY_I),
        (KEY_0, KeyCode::KEY_0),
        (KEY_1, KeyCode::KEY_1),
        (KEY_SPACE, KeyCode::KEY_SPACE),
        (KEY_ENTER, KeyCode::KEY_ENTER),
        (KEY_TAB, KeyCode::KEY_TAB),
        (KEY_LEFTSHIFT, KeyCode::KEY_LEFTSHIFT),
        (KEY_MINUS, KeyCode::KEY_MINUS),
        (KEY_EQUAL, KeyCode::KEY_EQUAL),
        (KEY_LEFTBRACE, KeyCode::KEY_LEFTBRACE),
        (KEY_RIGHTBRACE, KeyCode::KEY_RIGHTBRACE),
        (KEY_BACKSLASH, KeyCode::KEY_BACKSLASH),
        (KEY_SEMICOLON, KeyCode::KEY_SEMICOLON),
        (KEY_APOSTROPHE, KeyCode::KEY_APOSTROPHE),
        (KEY_COMMA, KeyCode::KEY_COMMA),
        (KEY_DOT, KeyCode::KEY_DOT),
        (KEY_SLASH, KeyCode::KEY_SLASH),
        (KEY_GRAVE, KeyCode::KEY_GRAVE),
    ];
    for (ours, theirs) in pairs {
        assert_eq!(ours, theirs.code());
    }
}

#[test]
fn all_keys_are_the_registered_set() {
    let expected: Vec<u16> = [
        KeyCode::KEY_A, KeyCode::KEY_B, KeyCode::KEY_C, KeyCode::KEY_D, KeyCode::KEY_E,
        KeyCode::KEY_F, KeyCode::KEY_G, KeyCode::KEY_H, KeyCode::KEY_I, KeyCode::KEY_J,
        KeyCode::KEY_K, KeyCode::KEY_L, KeyCode::KEY_M, KeyCode::KEY_N, KeyCode::KEY_O,
        KeyCode::KEY_P, KeyCode::KEY_Q, KeyCode::KEY_R, KeyCode::KEY_S, KeyCode::KEY_T,
        KeyCode::KEY_U, KeyCode::KEY_V, KeyCode::KEY_W, KeyCode::KEY_X, KeyCode::KEY_Y,
        KeyCode::KEY_Z, KeyCode::KEY_0, KeyCode::KEY_1, KeyCode::KEY_2, KeyCode::KEY_3,
        KeyCode::KEY_4, KeyCode::KEY_5, KeyCode::KEY_6, KeyCode::KEY_7, KeyCode::KEY_8,
        KeyCode::KEY_9, KeyCode::KEY_SPACE, KeyCode::KEY_ENTER, KeyCode::KEY_TAB,
        KeyCode::KEY_LEFTSHIFT, KeyCode::KEY_MINUS, KeyCode::KEY_EQUAL, KeyCode::KEY_LEFTBRACE,
        KeyCode::KEY_RIGHTBRACE, KeyCode::KEY_BACKSLASH, KeyCode::KEY_SEMICOLON,
        KeyCode::KEY_APOSTROPHE, KeyCode::KEY_COMMA, KeyCode::KEY_DOT, KeyCode::KEY_SLASH,
        KeyCode::KEY_GRAVE,
    ]
    .iter()
    .map(|k| k.code())
    .collect();
    assert_eq!(all_keys(), expected);
}

#[test]
fn keystroke_letters_and_shift() {
    assert_eq!(keystroke('a'), Some((KeyCode::KEY_A.code(), false)));
    assert_eq!(keystroke('A'), Some((KeyCode::KEY_A.code(), true)));
    assert_eq!(keystroke('q'), Some((KeyCode::KEY_Q.code(), false)));
    assert_eq!(keystroke('Z'), Some((KeyCode::KEY_Z.code(), true)));
    assert_eq!(keystroke('7'), Some((KeyCode::KEY_7.code(), false)));
    assert_eq!(keystroke('&'), Some((KeyCode::KEY_7.code(), true)));
    assert_eq!(keystroke(')'), Some((KeyCode::KEY_0.code(), true)));
    assert_eq!(keystroke('\n'), Some((KeyCode::KEY_ENTER.code(), false)));
    assert_eq!(keystroke('?'), Some((KeyCode::KEY_SLASH.code(), true)));
    assert_eq!(keystroke('~'), Some((KeyCode::KEY_GRAVE.code(), true)));
}

#[test]
fn keystroke_drops_what_us_layout_cannot_type() {
    assert_eq!(keystroke('é'), None);
    assert_eq!(keystroke('€'), None);
    assert_eq!(keystroke('\r'), None);
    assert_eq!(keystroke('\u{7f}'), None);
}

#[test]
fn keystroke_covers_printable_ascii_exactly() {
    for b in 0u8..=127 {
        let c = b as char;
        let typeable = c == '\n' || c == '\t' || (' '..='~').contains(&c);
        assert_eq!(keystroke(c).is_some(), typeable, "char {:?}", c);
    }
}

#[test]
fn keystroke_is_unambiguous() {
    let mut seen = std::collections::HashMap::new();
    for b in 0u8..=127 {
        if let Some(stroke) = keystroke(b as char) {
            assert!(seen.insert(stroke, b).is_none(), "{:?} typed twice", stroke);
        }
    }
    assert_eq!(seen.len(), 97);
}

#[test]
fn normalise_folds_typographic_punctuation() {
    assert_eq!(normalise("\u{201c}Hi\u{201d} \u{2014} it\u{2019}s\u{2026}"), "\"Hi\" - it's...");
    assert_eq!(normalise("a\u{a0}b \u{2013} c \u{2212} d \u{201a}x\u{2018} \u{201e}y"), "a b - c - d 'x' \"y");
    assert_eq!(normalise("plain ascii"), "plain ascii");
    assert_eq!(normalise("caf\u{e9}"), "caf\u{e9}");
}

#[test]
fn type_text_script_for_hi() {
    let t = type_text("Hi");
    let h = KeyCode::KEY_H.code();
    let i = KeyCode::KEY_I.code();
    let shift = KeyCode::KEY_LEFTSHIFT.code();
    assert_eq!(
        t.steps,
        vec![
            Step::Key { code: shift, value: 1 },
            Step::Key { code: h, value: 1 },
            Step::Hold,
            Step::Key { code: h, value: 0 },
            Step::Key { code: shift, value: 0 },
            Step::Gap,
            Step::Key { code: i, value: 1 },
            Step::Hold,
            Step::Key { code: i, value: 0 },
            Step::Gap,
        ]
    );
    assert_eq!(t.skipped, 0);
}

#[test]
fn type_text_counts_skipped_characters() {
    let t = type_text("na\u{ef}ve \u{2014} ok");
    assert_eq!(t.skipped, 1);
    // n, a, v, e, space, -, space, o, k: nine unshifted keystrokes of four steps each
    assert_eq!(t.steps.len(), 9 * 4);
    let empty = type_text("");
    assert!(empty.steps.is_empty());
    assert_eq!(empty.skipped, 0);
}

#[test]
fn typing_leaves_no_key_down() {
    let t = type_text("Hello, World! \u{201c}Quote\u{201d}\n");
    let mut held = std::collections::HashSet::new();
    for step in &t.steps {
        if let Step::Key { code, value } = step {
            if *value == 1 {
                held.insert(*code);
            } else {
                held.remove(code);
            }
            assert!(all_keys().contains(code));
        }
    }
    assert!(held.is_empty());
}

#[test]
fn normalising_twice_is_normalising_once() {
    for s in ["\u{201c}Hi\u{201d} \u{2014} it\u{2019}s\u{2026}", "plain", "\u{a0}\u{2212}\u{201e}"] {
        let once = normalise(s);
        assert_eq!(normalise(&once), once);
        assert!(!once.contains(['\u{2026}', '\u{2018}', '\u{2019}', '\u{201a}', '\u{201c}', '\u{201d}', '\u{201e}', '\u{2013}', '\u{2014}', '\u{2212}', '\u{a0}']));
    }
}
