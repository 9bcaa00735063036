//! What the virtual keyboard types: the US-layout keymap, the folding of
//! typographic punctuation to ASCII, and the exact script of key events that
//! typing a text produces. Key codes are those of
//! `linux/input-event-codes.h`, the numbers that `evdev::KeyCode` wraps.

use vstd::prelude::*;
use crate::text::{chars_of, push_char};

verus! {

pub const KEY_1: u16 = 2;
pub const KEY_2: u16 = 3;
pub const KEY_3: u16 = 4;
pub const KEY_4: u16 = 5;
pub const KEY_5: u16 = 6;
pub const KEY_6: u16 = 7;
pub const KEY_7: u16 = 8;
pub const KEY_8: u16 = 9;
pub const KEY_9: u16 = 10;
pub const KEY_0: u16 = 11;
pub const KEY_MINUS: u16 = 12;
pub const KEY_EQUAL: u16 = 13;
pub const KEY_TAB: u16 = 15;
pub const KEY_Q: u16 = 16;
pub const KEY_W: u16 = 17;
pub const KEY_E: u16 = 18;
pub const KEY_R: u16 = 19;
pub const KEY_T: u16 = 20;
pub const KEY_Y: u16 = 21;
pub const KEY_U: u16 = 22;
pub const KEY_I: u16 = 23;
pub const KEY_O: u16 = 24;
pub const KEY_P: u16 = 25;
pub const KEY_LEFTBRACE: u16 = 26;
pub const KEY_RIGHTBRACE: u16 = 27;
pub const KEY_ENTER: u16 = 28;
pub const KEY_A: u16 = 30;
pub const KEY_S: u16 = 31;
pub const KEY_D: u16 = 32;
pub const KEY_F: u16 = 33;
pub const KEY_G: u16 = 34;
pub const KEY_H: u16 = 35;
pub const KEY_J: u16 = 36;
pub const KEY_K: u16 = 37;
pub const KEY_L: u16 = 38;
pub const KEY_SEMICOLON: u16 = 39;
pub const KEY_APOSTROPHE: u16 = 40;
pub const KEY_GRAVE: u16 = 41;
pub const KEY_LEFTSHIFT: u16 = 42;
pub const KEY_BACKSLASH: u16 = 43;
pub const KEY_Z: u16 = 44;
pub const KEY_X: u16 = 45;
pub const KEY_C: u16 = 46;
pub const KEY_V: u16 = 47;
pub const KEY_B: u16 = 48;
pub const KEY_N: u16 = 49;
pub const KEY_M: u16 = 50;
pub const KEY_COMMA: u16 = 51;
pub const KEY_DOT: u16 = 52;
pub const KEY_SLASH: u16 = 53;
pub const KEY_SPACE: u16 = 57;

/// The key of the `i`-th letter of the alphabet.
pub open spec fn letter_key(i: int) -> u16 {
    if i == 0 { KEY_A }
    else if i == 1 { KEY_B }
    else if i == 2 { KEY_C }
    else if i == 3 { KEY_D }
    else if i == 4 { KEY_E }
    else if i == 5 { KEY_F }
    else if i == 6 { KEY_G }
    else if i == 7 { KEY_H }
    else if i == 8 { KEY_I }
    else if i == 9 { KEY_J }
    else if i == 10 { KEY_K }
    else if i == 11 { KEY_L }
    else if i == 12 { KEY_M }
    else if i == 13 { KEY_N }
    else if i == 14 { KEY_O }
    else if i == 15 { KEY_P }
    else if i == 16 { KEY_Q }
    else if i == 17 { KEY_R }
    else if i == 18 { KEY_S }
    else if i == 19 { KEY_T }
    else if i == 20 { KEY_U }
    else if i == 21 { KEY_V }
    else if i == 22 { KEY_W }
    else if i == 23 { KEY_X }
    else if i == 24 { KEY_Y }
    else { KEY_Z }
}

/// The key of the digit `i`.
pub open spec fn digit_key(i: int) -> u16 {
    if i == 0 { KEY_0 }
    else if i == 1 { KEY_1 }
    else if i == 2 { KEY_2 }
    else if i == 3 { KEY_3 }
    else if i == 4 { KEY_4 }
    else if i == 5 { KEY_5 }
    else if i == 6 { KEY_6 }
    else if i == 7 { KEY_7 }
    else if i == 8 { KEY_8 }
    else { KEY_9 }
}

/// US-layout key for a printable character that is neither a letter nor a
/// digit, and whether Shift goes with it.
pub open spec fn symbol_stroke(c: char) -> Option<(u16, bool)> {
    if c == ' ' { Some((KEY_SPACE, false)) }
    else if c == '\n' { Some((KEY_ENTER, false)) }
    else if c == '\t' { Some((KEY_TAB, false)) }
    else if c == '-' { Some((KEY_MINUS, false)) }
    else if c == '_' { Some((KEY_MINUS, true)) }
    else if c == '=' { Some((KEY_EQUAL, false)) }
    else if c == '+' { Some((KEY_EQUAL, true)) }
    else if c == '[' { Some((KEY_LEFTBRACE, false)) }
    else if c == '{' { Some((KEY_LEFTBRACE, true)) }
    else if c == ']' { Some((KEY_RIGHTBRACE, false)) }
    else if c == '}' { Some((KEY_RIGHTBRACE, true)) }
    else if c == '\\' { Some((KEY_BACKSLASH, false)) }
    else if c == '|' { Some((KEY_BACKSLASH, true)) }
    else if c == ';' { Some((KEY_SEMICOLON, false)) }
    else if c == ':' { Some((KEY_SEMICOLON, true)) }
    else if c == '\'' { Some((KEY_APOSTROPHE, false)) }
    else if c == '"' { Some((KEY_APOSTROPHE, true)) }
    else if c == ',' { Some((KEY_COMMA, false)) }
    else if c == '<' { Some((KEY_COMMA, true)) }
    else if c == '.' { Some((KEY_DOT, false)) }
    else if c == '>' { Some((KEY_DOT, true)) }
    else if c == '/' { Some((KEY_SLASH, false)) }
    else if c == '?' { Some((KEY_SLASH, true)) }
    else if c == '`' { Some((KEY_GRAVE, false)) }
    else if c == '~' { Some((KEY_GRAVE, true)) }
    else if c == '!' { Some((KEY_1, true)) }
    else if c == '@' { Some((KEY_2, true)) }
    else if c == '#' { Some((KEY_3, true)) }
    else if c == '$' { Some((KEY_4, true)) }
    else if c == '%' { Some((KEY_5, true)) }
    else if c == '^' { Some((KEY_6, true)) }
    else if c == '&' { Some((KEY_7, true)) }
    else if c == '*' { Some((KEY_8, true)) }
    else if c == '(' { Some((KEY_9, true)) }
    else if c == ')' { Some((KEY_0, true)) }
    else { None }
}

/// The US-layout key that types `c`, and whether Shift must be held;
/// `None` for a character that layout cannot produce.
pub open spec fn spec_keystroke(c: char) -> Option<(u16, bool)> {
    if 'a' <= c && c <= 'z' {
        Some((letter_key(c as int - 'a' as int), false))
    } else if 'A' <= c && c <= 'Z' {
        Some((letter_key(c as int - 'A' as int), true))
    } else if '0' <= c && c <= '9' {
        Some((digit_key(c as int - '0' as int), false))
    } else {
        symbol_stroke(c)
    }
}

fn letter(i: u32) -> (k: u16)
    requires
        i < 26,
    ensures
        k == letter_key(i as int),
{
    match i {
        0 => KEY_A,
        1 => KEY_B,
        2 => KEY_C,
        3 => KEY_D,
        4 => KEY_E,
        5 => KEY_F,
        6 => KEY_G,
        7 => KEY_H,
        8 => KEY_I,
        9 => KEY_J,
        10 => KEY_K,
        11 => KEY_L,
        12 => KEY_M,
        13 => KEY_N,
        14 => KEY_O,
        15 => KEY_P,
        16 => KEY_Q,
        17 => KEY_R,
        18 => KEY_S,
        19 => KEY_T,
        20 => KEY_U,
        21 => KEY_V,
        22 => KEY_W,
        23 => KEY_X,
        24 => KEY_Y,
        _ => KEY_Z,
    }
}

fn digit(i: u32) -> (k: u16)
    requires
        i < 10,
    ensures
        k == digit_key(i as int),
{
    match i {
        0 => KEY_0,
        1 => KEY_1,
        2 => KEY_2,
        3 => KEY_3,
        4 => KEY_4,
        5 => KEY_5,
        6 => KEY_6,
        7 => KEY_7,
        8 => KEY_8,
        _ => KEY_9,
    }
}

/// US-layout keycode for `c` and whether Shift is needed.
pub fn keystroke(c: char) -> (r: Option<(u16, bool)>)
    ensures
        r == spec_keystroke(c),
{
    if 'a' <= c && c <= 'z' {
        Some((letter((c as u32) - ('a' as u32)), false))
    } else if 'A' <= c && c <= 'Z' {
        Some((letter((c as u32) - ('A' as u32)), true))
    } else if '0' <= c && c <= '9' {
        Some((digit((c as u32) - ('0' as u32)), false))
    } else {
        let stroke = match c {
            ' ' => (KEY_SPACE, false),
            '\n' => (KEY_ENTER, false),
            '\t' => (KEY_TAB, false),
            '-' => (KEY_MINUS, false),
            '_' => (KEY_MINUS, true),
            '=' => (KEY_EQUAL, false),
            '+' => (KEY_EQUAL, true),
            '[' => (KEY_LEFTBRACE, false),
            '{' => (KEY_LEFTBRACE, true),
            ']' => (KEY_RIGHTBRACE, false),
            '}' => (KEY_RIGHTBRACE, true),
            '\\' => (KEY_BACKSLASH, false),
            '|' => (KEY_BACKSLASH, true),
            ';' => (KEY_SEMICOLON, false),
            ':' => (KEY_SEMICOLON, true),
            '\'' => (KEY_APOSTROPHE, false),
            '"' => (KEY_APOSTROPHE, true),
            ',' => (KEY_COMMA, false),
            '<' => (KEY_COMMA, true),
            '.' => (KEY_DOT, false),
            '>' => (KEY_DOT, true),
            '/' => (KEY_SLASH, false),
            '?' => (KEY_SLASH, true),
            '`' => (KEY_GRAVE, false),
            '~' => (KEY_GRAVE, true),
            '!' => (KEY_1, true),
            '@' => (KEY_2, true),
            '#' => (KEY_3, true),
            '$' => (KEY_4, true),
            '%' => (KEY_5, true),
            '^' => (KEY_6, true),
            '&' => (KEY_7, true),
            '*' => (KEY_8, true),
            '(' => (KEY_9, true),
            ')' => (KEY_0, true),
            _ => {
                return None;
            },
        };
        Some(stroke)
    }
}

/// The printable ASCII characters plus newline and tab.
pub open spec fn is_typeable(c: char) -> bool {
    c == '\n' || c == '\t' || (' ' <= c && c <= '~')
}

/// The keymap covers exactly printable ASCII, newline and tab: those
/// characters get a key, every other character is dropped.
pub proof fn law_keystroke_covers_ascii(c: char)
    ensures
        spec_keystroke(c) is Some <==> is_typeable(c),
{
}

proof fn lemma_letter_key_injective(i: int, j: int)
    requires
        0 <= i < 26,
        0 <= j < 26,
        letter_key(i) == letter_key(j),
    ensures
        i == j,
{
}

/// Different characters are typed with different key combinations, so the
/// keys pressed say exactly which characters were typed.
pub proof fn law_keystroke_unambiguous(c1: char, c2: char)
    requires
        spec_keystroke(c1) is Some,
        spec_keystroke(c1) == spec_keystroke(c2),
    ensures
        c1 == c2,
{
    if 'a' <= c1 && c1 <= 'z' && 'a' <= c2 && c2 <= 'z' {
        lemma_letter_key_injective(c1 as int - 'a' as int, c2 as int - 'a' as int);
    } else if 'A' <= c1 && c1 <= 'Z' && 'A' <= c2 && c2 <= 'Z' {
        lemma_letter_key_injective(c1 as int - 'A' as int, c2 as int - 'A' as int);
    }
}

/// The two characters printed on a key of a US keyboard that types one:
/// without Shift, then with it. Read row by row off the keyboard, by key.
pub open spec fn keycap(k: u16) -> Option<(char, char)> {
    if k == KEY_GRAVE { Some(('`', '~')) }
    else if k == KEY_1 { Some(('1', '!')) }
    else if k == KEY_2 { Some(('2', '@')) }
    else if k == KEY_3 { Some(('3', '#')) }
    else if k == KEY_4 { Some(('4', '$')) }
    else if k == KEY_5 { Some(('5', '%')) }
    else if k == KEY_6 { Some(('6', '^')) }
    else if k == KEY_7 { Some(('7', '&')) }
    else if k == KEY_8 { Some(('8', '*')) }
    else if k == KEY_9 { Some(('9', '(')) }
    else if k == KEY_0 { Some(('0', ')')) }
    else if k == KEY_MINUS { Some(('-', '_')) }
    else if k == KEY_EQUAL { Some(('=', '+')) }
    else if k == KEY_Q { Some(('q', 'Q')) }
    else if k == KEY_W { Some(('w', 'W')) }
    else if k == KEY_E { Some(('e', 'E')) }
    else if k == KEY_R { Some(('r', 'R')) }
    else if k == KEY_T { Some(('t', 'T')) }
    else if k == KEY_Y { Some(('y', 'Y')) }
    else if k == KEY_U { Some(('u', 'U')) }
    else if k == KEY_I { Some(('i', 'I')) }
    else if k == KEY_O { Some(('o', 'O')) }
    else if k == KEY_P { Some(('p', 'P')) }
    else if k == KEY_LEFTBRACE { Some(('[', '{')) }
    else if k == KEY_RIGHTBRACE { Some((']', '}')) }
    else if k == KEY_BACKSLASH { Some(('\\', '|')) }
    else if k == KEY_A { Some(('a', 'A')) }
    else if k == KEY_S { Some(('s', 'S')) }
    else if k == KEY_D { Some(('d', 'D')) }
    else if k == KEY_F { Some(('f', 'F')) }
    else if k == KEY_G { Some(('g', 'G')) }
    else if k == KEY_H { Some(('h', 'H')) }
    else if k == KEY_J { Some(('j', 'J')) }
    else if k == KEY_K { Some(('k', 'K')) }
    else if k == KEY_L { Some(('l', 'L')) }
    else if k == KEY_SEMICOLON { Some((';', ':')) }
    else if k == KEY_APOSTROPHE { Some(('\'', '"')) }
    else if k == KEY_Z { Some(('z', 'Z')) }
    else if k == KEY_X { Some(('x', 'X')) }
    else if k == KEY_C { Some(('c', 'C')) }
    else if k == KEY_V { Some(('v', 'V')) }
    else if k == KEY_B { Some(('b', 'B')) }
    else if k == KEY_N { Some(('n', 'N')) }
    else if k == KEY_M { Some(('m', 'M')) }
    else if k == KEY_COMMA { Some((',', '<')) }
    else if k == KEY_DOT { Some(('.', '>')) }
    else if k == KEY_SLASH { Some(('/', '?')) }
    else { None }
}

/// The character that pressing `k`, with Shift held or not, types on a US
/// layout: the keycap's legends, and the space, newline and tab of the
/// space bar, Enter and Tab (which the keymap presses without Shift).
pub open spec fn key_legend(k: u16, shift: bool) -> Option<char> {
    if k == KEY_SPACE {
        if shift { None } else { Some(' ') }
    } else if k == KEY_ENTER {
        if shift { None } else { Some('\n') }
    } else if k == KEY_TAB {
        if shift { None } else { Some('\t') }
    } else {
        match keycap(k) {
            Some(legends) => Some(if shift { legends.1 } else { legends.0 }),
            None => None,
        }
    }
}

/// Each character is typed with the key that carries it on a US keyboard:
/// the keymap sends `c` as key `k` (with Shift or not) exactly when that
/// key, pressed so, types `c`.
pub proof fn law_keystroke_matches_keycaps(c: char, k: u16, shift: bool)
    ensures
        spec_keystroke(c) == Some((k, shift)) <==> key_legend(k, shift) == Some(c),
{
}

/// Every key the virtual keyboard registers and may press: the letters,
/// the digits, then the remaining keys of the keymap and Shift.
pub open spec fn spec_all_keys() -> Seq<u16> {
    Seq::new(26, |i: int| letter_key(i)) + Seq::new(10, |i: int| digit_key(i)) + seq![
        KEY_SPACE,
        KEY_ENTER,
        KEY_TAB,
        KEY_LEFTSHIFT,
        KEY_MINUS,
        KEY_EQUAL,
        KEY_LEFTBRACE,
        KEY_RIGHTBRACE,
        KEY_BACKSLASH,
        KEY_SEMICOLON,
        KEY_APOSTROPHE,
        KEY_COMMA,
        KEY_DOT,
        KEY_SLASH,
        KEY_GRAVE,
    ]
}

/// Every key the virtual keyboard registers and may press.
pub fn all_keys() -> (v: Vec<u16>)
    ensures
        v@ == spec_all_keys(),
{
    let mut v: Vec<u16> = Vec::new();
    let mut i: u32 = 0;
    while i < 26
        invariant
            i <= 26,
            v@ == Seq::new(i as nat, |j: int| letter_key(j)),
        decreases 26 - i,
    {
        v.push(letter(i));
        assert(v@ == Seq::new((i + 1) as nat, |j: int| letter_key(j)));
        i = i + 1;
    }
    let mut i: u32 = 0;
    while i < 10
        invariant
            i <= 10,
            v@ == Seq::new(26, |j: int| letter_key(j)) + Seq::new(i as nat, |j: int| digit_key(j)),
        decreases 10 - i,
    {
        v.push(digit(i));
        assert(v@ == Seq::new(26, |j: int| letter_key(j)) + Seq::new(
            (i + 1) as nat,
            |j: int| digit_key(j),
        ));
        i = i + 1;
    }
    v.push(KEY_SPACE);
    v.push(KEY_ENTER);
    v.push(KEY_TAB);
    v.push(KEY_LEFTSHIFT);
    v.push(KEY_MINUS);
    v.push(KEY_EQUAL);
    v.push(KEY_LEFTBRACE);
    v.push(KEY_RIGHTBRACE);
    v.push(KEY_BACKSLASH);
    v.push(KEY_SEMICOLON);
    v.push(KEY_APOSTROPHE);
    v.push(KEY_COMMA);
    v.push(KEY_DOT);
    v.push(KEY_SLASH);
    v.push(KEY_GRAVE);
    assert(v@ == spec_all_keys());
    v
}

/// Every key that the keymap presses is registered on the device, and none
/// of them is Shift itself.
pub proof fn law_keystroke_keys_registered(c: char)
    requires
        spec_keystroke(c) is Some,
    ensures
        spec_all_keys().contains(key_of(c)),
        key_of(c) != KEY_LEFTSHIFT,
        spec_all_keys().contains(KEY_LEFTSHIFT),
{
    let k = key_of(c);
    let keys = spec_all_keys();
    assert(keys[39] == KEY_LEFTSHIFT);
    if 'a' <= c && c <= 'z' {
        assert(keys[c as int - 'a' as int] == k);
    } else if 'A' <= c && c <= 'Z' {
        assert(keys[c as int - 'A' as int] == k);
    } else if '0' <= c && c <= '9' {
        assert(keys[26 + (c as int - '0' as int)] == k);
    } else if k == KEY_SPACE {
        assert(keys[36] == k);
    } else if k == KEY_ENTER {
        assert(keys[37] == k);
    } else if k == KEY_TAB {
        assert(keys[38] == k);
    } else if k == KEY_MINUS {
        assert(keys[40] == k);
    } else if k == KEY_EQUAL {
        assert(keys[41] == k);
    } else if k == KEY_LEFTBRACE {
        assert(keys[42] == k);
    } else if k == KEY_RIGHTBRACE {
        assert(keys[43] == k);
    } else if k == KEY_BACKSLASH {
        assert(keys[44] == k);
    } else if k == KEY_SEMICOLON {
        assert(keys[45] == k);
    } else if k == KEY_APOSTROPHE {
        assert(keys[46] == k);
    } else if k == KEY_COMMA {
        assert(keys[47] == k);
    } else if k == KEY_DOT {
        assert(keys[48] == k);
    } else if k == KEY_SLASH {
        assert(keys[49] == k);
    } else if k == KEY_GRAVE {
        assert(keys[50] == k);
    } else {
        assert(keys[26 + digit_index(k)] == k);
    }
}

/// The key that types `c` (meaningful where the keymap has one).
pub open spec fn key_of(c: char) -> u16 {
    match spec_keystroke(c) {
        Some(stroke) => stroke.0,
        None => 0,
    }
}

/// The digit whose key is `k` (for the shifted digit symbols).
spec fn digit_index(k: u16) -> int {
    if k == KEY_0 { 0 } else { k - 1 }
}

/// What `c` becomes when typographic punctuation is folded to ASCII: the
/// ellipsis turns into three dots, curly quotes into straight ones, dashes
/// and the minus sign into a hyphen, a no-break space into a space.
pub open spec fn fold_char(c: char) -> Seq<char> {
    if c == '\u{2026}' {
        seq!['.', '.', '.']
    } else if c == '\u{2018}' || c == '\u{2019}' || c == '\u{201a}' {
        seq!['\'']
    } else if c == '\u{201c}' || c == '\u{201d}' || c == '\u{201e}' {
        seq!['"']
    } else if c == '\u{2013}' || c == '\u{2014}' || c == '\u{2212}' {
        seq!['-']
    } else if c == '\u{a0}' {
        seq![' ']
    } else {
        seq![c]
    }
}

/// `s` with every character folded by `fold_char`.
pub open spec fn normalised(s: Seq<char>) -> Seq<char>
    decreases s.len(),
{
    if s.len() == 0 {
        seq![]
    } else {
        normalised(s.drop_last()) + fold_char(s.last())
    }
}

/// Folds the typographic punctuation Whisper sometimes emits to ASCII.
pub fn normalise(text: &str) -> (r: String)
    ensures
        r@ == normalised(text@),
{
    let chars = chars_of(text);
    let mut r = String::new();
    let mut i: usize = 0;
    while i < chars.len()
        invariant
            i <= chars.len(),
            chars@ == text@,
            r@ == normalised(chars@.take(i as int)),
        decreases chars.len() - i,
    {
        let c = chars[i];
        assert(chars@.take(i + 1).drop_last() == chars@.take(i as int));
        if c == '\u{2026}' {
            push_char(&mut r, '.');
            push_char(&mut r, '.');
            push_char(&mut r, '.');
        } else if c == '\u{2018}' || c == '\u{2019}' || c == '\u{201a}' {
            push_char(&mut r, '\'');
        } else if c == '\u{201c}' || c == '\u{201d}' || c == '\u{201e}' {
            push_char(&mut r, '"');
        } else if c == '\u{2013}' || c == '\u{2014}' || c == '\u{2212}' {
            push_char(&mut r, '-');
        } else if c == '\u{a0}' {
            push_char(&mut r, ' ');
        } else {
            push_char(&mut r, c);
        }
        i = i + 1;
    }
    assert(chars@.take(chars.len() as int) == chars@);
    r
}

/// One thing the typer does: a key event (`value` 1 presses, 0 releases)
/// or one of the two pauses.
#[derive(Clone, Copy, PartialEq, Eq, Debug)]
pub enum Step {
    Key { code: u16, value: i32 },
    /// The key stays down this long before it is released.
    Hold,
    /// The gap after a keystroke before the next one.
    Gap,
}

/// The steps that type one keystroke: Shift down if needed, the key down,
/// the hold, the key up, Shift up, the gap.
pub open spec fn press_steps(key: u16, shift: bool) -> Seq<Step> {
    (if shift { seq![Step::Key { code: KEY_LEFTSHIFT, value: 1 }] } else { seq![] }) + seq![
        Step::Key { code: key, value: 1 },
        Step::Hold,
        Step::Key { code: key, value: 0 },
    ] + (if shift { seq![Step::Key { code: KEY_LEFTSHIFT, value: 0 }] } else { seq![] }) + seq![
        Step::Gap,
    ]
}

/// The steps that type `c`; none for a character the keymap lacks.
pub open spec fn char_steps(c: char) -> Seq<Step> {
    match spec_keystroke(c) {
        Some(stroke) => press_steps(stroke.0, stroke.1),
        None => seq![],
    }
}

/// The steps that type the characters of `s` one after another.
pub open spec fn script(s: Seq<char>) -> Seq<Step>
    decreases s.len(),
{
    if s.len() == 0 {
        seq![]
    } else {
        script(s.drop_last()) + char_steps(s.last())
    }
}

/// How many characters of `s` the keymap cannot type.
pub open spec fn untypeable(s: Seq<char>) -> nat
    decreases s.len(),
{
    if s.len() == 0 {
        0
    } else {
        untypeable(s.drop_last()) + if spec_keystroke(s.last()) is Some { 0nat } else { 1nat }
    }
}

/// What typing a text comes to: the steps to perform, in order, and how
/// many characters were skipped because the keymap cannot type them.
pub struct Typing {
    pub steps: Vec<Step>,
    pub skipped: usize,
}

fn push_press(steps: &mut Vec<Step>, key: u16, shift: bool)
    ensures
        final(steps)@ == old(steps)@ + press_steps(key, shift),
{
    if shift {
        steps.push(Step::Key { code: KEY_LEFTSHIFT, value: 1 });
    }
    steps.push(Step::Key { code: key, value: 1 });
    steps.push(Step::Hold);
    steps.push(Step::Key { code: key, value: 0 });
    if shift {
        steps.push(Step::Key { code: KEY_LEFTSHIFT, value: 0 });
    }
    steps.push(Step::Gap);
    assert(final(steps)@ == old(steps)@ + press_steps(key, shift));
}

/// Types `text` as key presses: the text is folded to ASCII, each character
/// the US keymap knows becomes a keystroke, the others are counted as
/// skipped. The device then releases every key it knows (`all_keys`).
pub fn type_text(text: &str) -> (t: Typing)
    ensures
        t.steps@ == script(normalised(text@)),
        t.skipped == untypeable(normalised(text@)),
{
    let folded = normalise(text);
    let chars = chars_of(folded.as_str());
    let mut steps: Vec<Step> = Vec::new();
    let mut skipped: usize = 0;
    let mut i: usize = 0;
    while i < chars.len()
        invariant
            i <= chars.len(),
            chars@ == normalised(text@),
            steps@ == script(chars@.take(i as int)),
            skipped == untypeable(chars@.take(i as int)),
            skipped <= i,
        decreases chars.len() - i,
    {
        assert(chars@.take(i + 1).drop_last() == chars@.take(i as int));
        match keystroke(chars[i]) {
            Some((key, shift)) => push_press(&mut steps, key, shift),
            None => {
                skipped = skipped + 1;
            },
        }
        i = i + 1;
    }
    assert(chars@.take(chars.len() as int) == chars@);
    Typing { steps, skipped }
}

/// The keys held down after `step`, given those held before it.
pub open spec fn after_step(held: Set<u16>, step: Step) -> Set<u16> {
    match step {
        Step::Key { code, value } => if value == 1 {
            held.insert(code)
        } else if value == 0 {
            held.remove(code)
        } else {
            held
        },
        _ => held,
    }
}

/// The keys held down after `steps`, starting with `held` down.
pub open spec fn held_after(held: Set<u16>, steps: Seq<Step>) -> Set<u16>
    decreases steps.len(),
{
    if steps.len() == 0 {
        held
    } else {
        after_step(held_after(held, steps.drop_last()), steps.last())
    }
}

/// The keystrokes `steps` make, starting with `held` down: one entry per
/// press of a key other than Shift, with whether Shift was down then.
pub open spec fn strokes_made(held: Set<u16>, steps: Seq<Step>) -> Seq<(u16, bool)>
    decreases steps.len(),
{
    if steps.len() == 0 {
        seq![]
    } else {
        let before = held_after(held, steps.drop_last());
        strokes_made(held, steps.drop_last()) + match steps.last() {
            Step::Key { code, value } => if value == 1 && code != KEY_LEFTSHIFT {
                seq![(code, before.contains(KEY_LEFTSHIFT))]
            } else {
                seq![]
            },
            _ => seq![],
        }
    }
}

/// The keystrokes of the characters of `s` that the keymap can type, in order.
pub open spec fn keystrokes(s: Seq<char>) -> Seq<(u16, bool)>
    decreases s.len(),
{
    if s.len() == 0 {
        seq![]
    } else {
        keystrokes(s.drop_last()) + match spec_keystroke(s.last()) {
            Some(stroke) => seq![stroke],
            None => seq![],
        }
    }
}

proof fn lemma_held_after_append(held: Set<u16>, a: Seq<Step>, b: Seq<Step>)
    ensures
        held_after(held, a + b) == held_after(held_after(held, a), b),
        strokes_made(held, a + b) == strokes_made(held, a) + strokes_made(held_after(held, a), b),
    decreases b.len(),
{
    if b.len() == 0 {
        assert(a + b == a);
    } else {
        lemma_held_after_append(held, a, b.drop_last());
        assert((a + b).drop_last() == a + b.drop_last());
        assert((a + b).last() == b.last());
    }
}

proof fn lemma_char_steps(c: char)
    ensures
        held_after(Set::empty(), char_steps(c)) == Set::<u16>::empty(),
        strokes_made(Set::empty(), char_steps(c)) == match spec_keystroke(c) {
            Some(stroke) => seq![stroke],
            None => Seq::<(u16, bool)>::empty(),
        },
{
    let e = Set::<u16>::empty();
    match spec_keystroke(c) {
        Some(stroke) => {
            law_keystroke_keys_registered(c);
            let k = stroke.0;
            let p = press_steps(k, stroke.1);
            reveal_with_fuel(held_after, 8);
            reveal_with_fuel(strokes_made, 8);
            if stroke.1 {
                assert(p.len() == 6);
                assert(p.take(1).drop_last() == p.take(0));
                assert(held_after(e, p.take(1)) == e.insert(KEY_LEFTSHIFT)) by {
                    assert(p.take(1).last() == p[0]);
                }
                assert(p.take(2).drop_last() == p.take(1));
                assert(p.take(3).drop_last() == p.take(2));
                assert(p.take(4).drop_last() == p.take(3));
                assert(p.take(5).drop_last() == p.take(4));
                assert(p.drop_last() == p.take(5));
                assert(held_after(e, p.take(2)) == e.insert(KEY_LEFTSHIFT).insert(k));
                assert(held_after(e, p.take(3)) == e.insert(KEY_LEFTSHIFT).insert(k));
                assert(held_after(e, p.take(4)) == e.insert(KEY_LEFTSHIFT));
                assert(held_after(e, p.take(5)) == e);
                assert(strokes_made(e, p.take(1)) == Seq::<(u16, bool)>::empty());
                assert(strokes_made(e, p.take(2)) == seq![(k, true)]);
                assert(strokes_made(e, p.take(3)) == seq![(k, true)]);
                assert(strokes_made(e, p.take(4)) == seq![(k, true)]);
                assert(strokes_made(e, p.take(5)) == seq![(k, true)]);
            } else {
                assert(p.len() == 4);
                assert(p.take(1).drop_last() == p.take(0));
                assert(p.take(2).drop_last() == p.take(1));
                assert(p.take(3).drop_last() == p.take(2));
                assert(p.drop_last() == p.take(3));
                assert(held_after(e, p.take(1)) == e.insert(k));
                assert(held_after(e, p.take(2)) == e.insert(k));
                assert(held_after(e, p.take(3)) == e);
                assert(strokes_made(e, p.take(1)) == seq![(k, false)]);
                assert(strokes_made(e, p.take(2)) == seq![(k, false)]);
                assert(strokes_made(e, p.take(3)) == seq![(k, false)]);
            }
        },
        None => {},
    }
}

/// Typing leaves no key held down: after the steps that type any text, the
/// set of keys down is empty again.
pub proof fn law_typing_releases_every_key(s: Seq<char>)
    ensures
        held_after(Set::empty(), script(s)) == Set::<u16>::empty(),
{
    lemma_typing(s);
}

/// The key presses that typing `s` makes are exactly the keystrokes of the
/// characters of `s` the keymap knows, in order, each with Shift down just
/// when that character needs it. With `law_keystroke_unambiguous`, the
/// window receiving them sees exactly those characters.
pub proof fn law_typing_types_the_text(s: Seq<char>)
    ensures
        strokes_made(Set::empty(), script(s)) == keystrokes(s),
{
    lemma_typing(s);
}

proof fn lemma_typing(s: Seq<char>)
    ensures
        held_after(Set::empty(), script(s)) == Set::<u16>::empty(),
        strokes_made(Set::empty(), script(s)) == keystrokes(s),
    decreases s.len(),
{
    if s.len() > 0 {
        lemma_typing(s.drop_last());
        lemma_held_after_append(Set::empty(), script(s.drop_last()), char_steps(s.last()));
        lemma_char_steps(s.last());
    }
}

/// Every key that typing presses is one the device has registered.
pub proof fn law_typing_uses_registered_keys(s: Seq<char>, i: int)
    requires
        0 <= i < script(s).len(),
        script(s)[i] is Key,
    ensures
        spec_all_keys().contains(script(s)[i]->code),
    decreases s.len(),
{
    if s.len() > 0 {
        let a = script(s.drop_last());
        let c = s.last();
        if i < a.len() {
            law_typing_uses_registered_keys(s.drop_last(), i);
        } else {
            law_keystroke_keys_registered(c);
            assert(spec_all_keys()[39] == KEY_LEFTSHIFT);
        }
    }
}

/// Text that is already ASCII passes through the folding unchanged.
pub proof fn law_normalise_keeps_ascii(s: Seq<char>)
    requires
        forall|i: int| 0 <= i < s.len() ==> (#[trigger] s[i] as u32) < 128,
    ensures
        normalised(s) == s,
    decreases s.len(),
{
    if s.len() > 0 {
        law_normalise_keeps_ascii(s.drop_last());
        assert(s.last() as u32 == s[s.len() - 1] as u32);
        assert(s.drop_last().push(s.last()) == s);
    }
}

/// Everything the folding produces from typographic punctuation can be
/// typed: only characters outside the keymap and outside the folded set
/// are ever skipped.
pub proof fn law_folded_punctuation_is_typeable(c: char, i: int)
    requires
        fold_char(c) != seq![c],
        0 <= i < fold_char(c).len(),
    ensures
        spec_keystroke(fold_char(c)[i]) is Some,
{
}

/// The typographic characters that the folding replaces.
pub open spec fn is_folded(c: char) -> bool {
    fold_char(c) != seq![c]
}

/// Folding leaves none of the characters it replaces, and text without
/// them passes through unchanged.
pub proof fn law_normalise_removes_folded(s: Seq<char>)
    ensures
        forall|i: int| 0 <= i < normalised(s).len() ==> !is_folded(#[trigger] normalised(s)[i]),
        (forall|i: int| 0 <= i < s.len() ==> !is_folded(#[trigger] s[i])) ==> normalised(s) == s,
    decreases s.len(),
{
    if s.len() > 0 {
        law_normalise_removes_folded(s.drop_last());
        let a = normalised(s.drop_last());
        let f = fold_char(s.last());
        assert forall|i: int| 0 <= i < normalised(s).len() implies !is_folded(
            #[trigger] normalised(s)[i],
        ) by {
            if i >= a.len() {
                assert(normalised(s)[i] == f[i - a.len()]);
            } else {
                assert(normalised(s)[i] == a[i]);
            }
        }
        if forall|i: int| 0 <= i < s.len() ==> !is_folded(#[trigger] s[i]) {
            assert forall|i: int| 0 <= i < s.drop_last().len() implies !is_folded(
                #[trigger] s.drop_last()[i],
            ) by {
                assert(s.drop_last()[i] == s[i]);
            }
            assert(!is_folded(s[s.len() - 1]));
            assert(s.drop_last().push(s.last()) == s);
        }
    }
}

/// Folding twice is folding once.
pub proof fn law_normalise_idempotent(s: Seq<char>)
    ensures
        normalised(normalised(s)) == normalised(s),
{
    law_normalise_removes_folded(s);
    law_normalise_removes_folded(normalised(s));
}

} // verus!
