//! Keys, their labels, and the key values that a window system reports.
use vstd::prelude::*;
use crate::text::{decimal, str_view};

verus! {

/// A key by its place on the keyboard, as Linux names it.
#[derive(Debug, PartialEq, Eq, Clone, Copy, Structural)]
pub enum Linux {
    KeyLeftCtrl,
    KeyRightCtrl,
    KeyLeftShift,
    KeyRightShift,
    KeyLeftAlt,
    KeyRightalt,
    KeyLeftMeta,
    KeyRightmeta,
    KeyA,
    KeyB,
    KeyC,
    KeyD,
    KeyE,
    KeyF,
    KeyG,
    KeyH,
    KeyI,
    KeyJ,
    KeyK,
    KeyL,
    KeyM,
    KeyN,
    KeyO,
    KeyP,
    KeyQ,
    KeyR,
    KeyS,
    KeyT,
    KeyU,
    KeyV,
    KeyW,
    KeyX,
    KeyY,
    KeyZ,
    Key0,
    Key1,
    Key2,
    Key3,
    Key4,
    Key5,
    Key6,
    Key7,
    Key8,
    Key9,
    KeyF1,
    KeyF2,
    KeyF3,
    KeyF4,
    KeyF5,
    KeyF6,
    KeyF7,
    KeyF8,
    KeyF9,
    KeyF10,
    KeyF11,
    KeyF12,
    KeyEnter,
    KeyEsc,
    KeyTab,
    KeySpace,
    KeyBackspace,
    KeyDelete,
    KeyUp,
    KeyDown,
    KeyLeft,
    KeyRight,
    KeyHome,
    KeyEnd,
    KeyPageup,
    KeyPagedown,
    KeyMinus,
    KeyEqual,
    KeyComma,
    KeyDot,
    KeySlash,
    KeyBackslash,
    KeyApostrophe,
    KeyGrave,
    KeySemicolon,
    KeyLeftbrace,
    KeyRightbrace,
    /// Any other key, by the number of its scan code.
    Other(u32),
}

/// The short label of a key that has one.
pub open spec fn key_label(key: Linux) -> Option<Seq<char>> {
    match key {
        Linux::KeyA => Some("A"@),
        Linux::KeyB => Some("B"@),
        Linux::KeyC => Some("C"@),
        Linux::KeyD => Some("D"@),
        Linux::KeyE => Some("E"@),
        Linux::KeyF => Some("F"@),
        Linux::KeyG => Some("G"@),
        Linux::KeyH => Some("H"@),
        Linux::KeyI => Some("I"@),
        Linux::KeyJ => Some("J"@),
        Linux::KeyK => Some("K"@),
        Linux::KeyL => Some("L"@),
        Linux::KeyM => Some("M"@),
        Linux::KeyN => Some("N"@),
        Linux::KeyO => Some("O"@),
        Linux::KeyP => Some("P"@),
        Linux::KeyQ => Some("Q"@),
        Linux::KeyR => Some("R"@),
        Linux::KeyS => Some("S"@),
        Linux::KeyT => Some("T"@),
        Linux::KeyU => Some("U"@),
        Linux::KeyV => Some("V"@),
        Linux::KeyW => Some("W"@),
        Linux::KeyX => Some("X"@),
        Linux::KeyY => Some("Y"@),
        Linux::KeyZ => Some("Z"@),
        Linux::Key0 => Some("0"@),
        Linux::Key1 => Some("1"@),
        Linux::Key2 => Some("2"@),
        Linux::Key3 => Some("3"@),
        Linux::Key4 => Some("4"@),
        Linux::Key5 => Some("5"@),
        Linux::Key6 => Some("6"@),
        Linux::Key7 => Some("7"@),
        Linux::Key8 => Some("8"@),
        Linux::Key9 => Some("9"@),
        Linux::KeyF1 => Some("F1"@),
        Linux::KeyF2 => Some("F2"@),
        Linux::KeyF3 => Some("F3"@),
        Linux::KeyF4 => Some("F4"@),
        Linux::KeyF5 => Some("F5"@),
        Linux::KeyF6 => Some("F6"@),
        Linux::KeyF7 => Some("F7"@),
        Linux::KeyF8 => Some("F8"@),
        Linux::KeyF9 => Some("F9"@),
        Linux::KeyF10 => Some("F10"@),
        Linux::KeyF11 => Some("F11"@),
        Linux::KeyF12 => Some("F12"@),
        Linux::KeyEnter => Some("↵"@),
        Linux::KeyEsc => Some("⎋"@),
        Linux::KeyTab => Some("⇥"@),
        Linux::KeySpace => Some("␣"@),
        Linux::KeyBackspace => Some("⌫"@),
        Linux::KeyDelete => Some("⌦"@),
        Linux::KeyUp => Some("↑"@),
        Linux::KeyDown => Some("↓"@),
        Linux::KeyLeft => Some("←"@),
        Linux::KeyRight => Some("→"@),
        Linux::KeyHome => Some("Home"@),
        Linux::KeyEnd => Some("End"@),
        Linux::KeyPageup => Some("PgUp"@),
        Linux::KeyPagedown => Some("PgDn"@),
        Linux::KeyMinus => Some("-"@),
        Linux::KeyEqual => Some("="@),
        Linux::KeyComma => Some(","@),
        Linux::KeyDot => Some("."@),
        Linux::KeySlash => Some("/"@),
        Linux::KeyBackslash => Some("\\"@),
        Linux::KeyApostrophe => Some("'"@),
        Linux::KeyGrave => Some("`"@),
        Linux::KeySemicolon => Some(";"@),
        Linux::KeyLeftbrace => Some("["@),
        Linux::KeyRightbrace => Some("]"@),
        _ => None,
    }
}

/// The key that a key value of the window system stands for. A letter means
/// its key in either case, and a symbol means the key that bears it.
pub open spec fn key_of(keyval: u32) -> Option<Linux> {
    match keyval {
        0xffe3 => Some(Linux::KeyLeftCtrl),
        0xffe4 => Some(Linux::KeyRightCtrl),
        0xffe1 => Some(Linux::KeyLeftShift),
        0xffe2 => Some(Linux::KeyRightShift),
        0xffe9 | 0xffe7 => Some(Linux::KeyLeftAlt),
        0xffea | 0xffe8 | 0xfe03 => Some(Linux::KeyRightalt),
        0xffeb | 0xffed => Some(Linux::KeyLeftMeta),
        0xffec | 0xffee => Some(Linux::KeyRightmeta),
        0x61 | 0x41 => Some(Linux::KeyA),
        0x62 | 0x42 => Some(Linux::KeyB),
        0x63 | 0x43 => Some(Linux::KeyC),
        0x64 | 0x44 => Some(Linux::KeyD),
        0x65 | 0x45 => Some(Linux::KeyE),
        0x66 | 0x46 => Some(Linux::KeyF),
        0x67 | 0x47 => Some(Linux::KeyG),
        0x68 | 0x48 => Some(Linux::KeyH),
        0x69 | 0x49 => Some(Linux::KeyI),
        0x6a | 0x4a => Some(Linux::KeyJ),
        0x6b | 0x4b => Some(Linux::KeyK),
        0x6c | 0x4c => Some(Linux::KeyL),
        0x6d | 0x4d => Some(Linux::KeyM),
        0x6e | 0x4e => Some(Linux::KeyN),
        0x6f | 0x4f => Some(Linux::KeyO),
        0x70 | 0x50 => Some(Linux::KeyP),
        0x71 | 0x51 => Some(Linux::KeyQ),
        0x72 | 0x52 => Some(Linux::KeyR),
        0x73 | 0x53 => Some(Linux::KeyS),
        0x74 | 0x54 => Some(Linux::KeyT),
        0x75 | 0x55 => Some(Linux::KeyU),
        0x76 | 0x56 => Some(Linux::KeyV),
        0x77 | 0x57 => Some(Linux::KeyW),
        0x78 | 0x58 => Some(Linux::KeyX),
        0x79 | 0x59 => Some(Linux::KeyY),
        0x7a | 0x5a => Some(Linux::KeyZ),
        0x30 => Some(Linux::Key0),
        0x31 => Some(Linux::Key1),
        0x32 => Some(Linux::Key2),
        0x33 => Some(Linux::Key3),
        0x34 => Some(Linux::Key4),
        0x35 => Some(Linux::Key5),
        0x36 => Some(Linux::Key6),
        0x37 => Some(Linux::Key7),
        0x38 => Some(Linux::Key8),
        0x39 => Some(Linux::Key9),
        0xffbe => Some(Linux::KeyF1),
        0xffbf => Some(Linux::KeyF2),
        0xffc0 => Some(Linux::KeyF3),
        0xffc1 => Some(Linux::KeyF4),
        0xffc2 => Some(Linux::KeyF5),
        0xffc3 => Some(Linux::KeyF6),
        0xffc4 => Some(Linux::KeyF7),
        0xffc5 => Some(Linux::KeyF8),
        0xffc6 => Some(Linux::KeyF9),
        0xffc7 => Some(Linux::KeyF10),
        0xffc8 => Some(Linux::KeyF11),
        0xffc9 => Some(Linux::KeyF12),
        0xff0d | 0xff8d => Some(Linux::KeyEnter),
        0xff09 | 0xfe20 => Some(Linux::KeyTab),
        0x20 => Some(Linux::KeySpace),
        0xff08 => Some(Linux::KeyBackspace),
        0xffff => Some(Linux::KeyDelete),
        0xff52 => Some(Linux::KeyUp),
        0xff54 => Some(Linux::KeyDown),
        0xff51 => Some(Linux::KeyLeft),
        0xff53 => Some(Linux::KeyRight),
        0xff50 => Some(Linux::KeyHome),
        0xff57 => Some(Linux::KeyEnd),
        0xff55 => Some(Linux::KeyPageup),
        0xff56 => Some(Linux::KeyPagedown),
        0x2d | 0x5f => Some(Linux::KeyMinus),
        0x3d | 0x2b => Some(Linux::KeyEqual),
        0x2c | 0x3c => Some(Linux::KeyComma),
        0x2e | 0x3e => Some(Linux::KeyDot),
        0x2f | 0x3f => Some(Linux::KeySlash),
        0x5c | 0x7c => Some(Linux::KeyBackslash),
        0x27 | 0x22 => Some(Linux::KeyApostrophe),
        0x60 | 0x7e => Some(Linux::KeyGrave),
        0x3b | 0x3a => Some(Linux::KeySemicolon),
        0x5b | 0x7b => Some(Linux::KeyLeftbrace),
        0x5d | 0x7d => Some(Linux::KeyRightbrace),
        _ => None,
    }
}

/// The short label of a key that has one.
pub fn short_label(key: Linux) -> (label: Option<&'static str>)
    ensures
        str_view(label) == key_label(key),
{
    match key {
        Linux::KeyA => Some("A"),
        Linux::KeyB => Some("B"),
        Linux::KeyC => Some("C"),
        Linux::KeyD => Some("D"),
        Linux::KeyE => Some("E"),
        Linux::KeyF => Some("F"),
        Linux::KeyG => Some("G"),
        Linux::KeyH => Some("H"),
        Linux::KeyI => Some("I"),
        Linux::KeyJ => Some("J"),
        Linux::KeyK => Some("K"),
        Linux::KeyL => Some("L"),
        Linux::KeyM => Some("M"),
        Linux::KeyN => Some("N"),
        Linux::KeyO => Some("O"),
        Linux::KeyP => Some("P"),
        Linux::KeyQ => Some("Q"),
        Linux::KeyR => Some("R"),
        Linux::KeyS => Some("S"),
        Linux::KeyT => Some("T"),
        Linux::KeyU => Some("U"),
        Linux::KeyV => Some("V"),
        Linux::KeyW => Some("W"),
        Linux::KeyX => Some("X"),
        Linux::KeyY => Some("Y"),
        Linux::KeyZ => Some("Z"),
        Linux::Key0 => Some("0"),
        Linux::Key1 => Some("1"),
        Linux::Key2 => Some("2"),
        Linux::Key3 => Some("3"),
        Linux::Key4 => Some("4"),
        Linux::Key5 => Some("5"),
        Linux::Key6 => Some("6"),
        Linux::Key7 => Some("7"),
        Linux::Key8 => Some("8"),
        Linux::Key9 => Some("9"),
        Linux::KeyF1 => Some("F1"),
        Linux::KeyF2 => Some("F2"),
        Linux::KeyF3 => Some("F3"),
        Linux::KeyF4 => Some("F4"),
        Linux::KeyF5 => Some("F5"),
        Linux::KeyF6 => Some("F6"),
        Linux::KeyF7 => Some("F7"),
        Linux::KeyF8 => Some("F8"),
        Linux::KeyF9 => Some("F9"),
        Linux::KeyF10 => Some("F10"),
        Linux::KeyF11 => Some("F11"),
        Linux::KeyF12 => Some("F12"),
        Linux::KeyEnter => Some("↵"),
        Linux::KeyEsc => Some("⎋"),
        Linux::KeyTab => Some("⇥"),
        Linux::KeySpace => Some("␣"),
        Linux::KeyBackspace => Some("⌫"),
        Linux::KeyDelete => Some("⌦"),
        Linux::KeyUp => Some("↑"),
        Linux::KeyDown => Some("↓"),
        Linux::KeyLeft => Some("←"),
        Linux::KeyRight => Some("→"),
        Linux::KeyHome => Some("Home"),
        Linux::KeyEnd => Some("End"),
        Linux::KeyPageup => Some("PgUp"),
        Linux::KeyPagedown => Some("PgDn"),
        Linux::KeyMinus => Some("-"),
        Linux::KeyEqual => Some("="),
        Linux::KeyComma => Some(","),
        Linux::KeyDot => Some("."),
        Linux::KeySlash => Some("/"),
        Linux::KeyBackslash => Some("\\"),
        Linux::KeyApostrophe => Some("'"),
        Linux::KeyGrave => Some("`"),
        Linux::KeySemicolon => Some(";"),
        Linux::KeyLeftbrace => Some("["),
        Linux::KeyRightbrace => Some("]"),
        _ => None,
    }
}

/// The key that a key value of the window system stands for.
pub fn keyval_to_scancode(keyval: u32) -> (key: Option<Linux>)
    ensures
        key == key_of(keyval),
{
    match keyval {
        0xffe3 => Some(Linux::KeyLeftCtrl),
        0xffe4 => Some(Linux::KeyRightCtrl),
        0xffe1 => Some(Linux::KeyLeftShift),
        0xffe2 => Some(Linux::KeyRightShift),
        0xffe9 | 0xffe7 => Some(Linux::KeyLeftAlt),
        0xffea | 0xffe8 | 0xfe03 => Some(Linux::KeyRightalt),
        0xffeb | 0xffed => Some(Linux::KeyLeftMeta),
        0xffec | 0xffee => Some(Linux::KeyRightmeta),
        0x61 | 0x41 => Some(Linux::KeyA),
        0x62 | 0x42 => Some(Linux::KeyB),
        0x63 | 0x43 => Some(Linux::KeyC),
        0x64 | 0x44 => Some(Linux::KeyD),
        0x65 | 0x45 => Some(Linux::KeyE),
        0x66 | 0x46 => Some(Linux::KeyF),
        0x67 | 0x47 => Some(Linux::KeyG),
        0x68 | 0x48 => Some(Linux::KeyH),
        0x69 | 0x49 => Some(Linux::KeyI),
        0x6a | 0x4a => Some(Linux::KeyJ),
        0x6b | 0x4b => Some(Linux::KeyK),
        0x6c | 0x4c => Some(Linux::KeyL),
        0x6d | 0x4d => Some(Linux::KeyM),
        0x6e | 0x4e => Some(Linux::KeyN),
        0x6f | 0x4f => Some(Linux::KeyO),
        0x70 | 0x50 => Some(Linux::KeyP),
        0x71 | 0x51 => Some(Linux::KeyQ),
        0x72 | 0x52 => Some(Linux::KeyR),
        0x73 | 0x53 => Some(Linux::KeyS),
        0x74 | 0x54 => Some(Linux::KeyT),
        0x75 | 0x55 => Some(Linux::KeyU),
        0x76 | 0x56 => Some(Linux::KeyV),
        0x77 | 0x57 => Some(Linux::KeyW),
        0x78 | 0x58 => Some(Linux::KeyX),
        0x79 | 0x59 => Some(Linux::KeyY),
        0x7a | 0x5a => Some(Linux::KeyZ),
        0x30 => Some(Linux::Key0),
        0x31 => Some(Linux::Key1),
        0x32 => Some(Linux::Key2),
        0x33 => Some(Linux::Key3),
        0x34 => Some(Linux::Key4),
        0x35 => Some(Linux::Key5),
        0x36 => Some(Linux::Key6),
        0x37 => Some(Linux::Key7),
        0x38 => Some(Linux::Key8),
        0x39 => Some(Linux::Key9),
        0xffbe => Some(Linux::KeyF1),
        0xffbf => Some(Linux::KeyF2),
        0xffc0 => Some(Linux::KeyF3),
        0xffc1 => Some(Linux::KeyF4),
        0xffc2 => Some(Linux::KeyF5),
        0xffc3 => Some(Linux::KeyF6),
        0xffc4 => Some(Linux::KeyF7),
        0xffc5 => Some(Linux::KeyF8),
        0xffc6 => Some(Linux::KeyF9),
        0xffc7 => Some(Linux::KeyF10),
        0xffc8 => Some(Linux::KeyF11),
        0xffc9 => Some(Linux::KeyF12),
        0xff0d | 0xff8d => Some(Linux::KeyEnter),
        0xff09 | 0xfe20 => Some(Linux::KeyTab),
        0x20 => Some(Linux::KeySpace),
        0xff08 => Some(Linux::KeyBackspace),
        0xffff => Some(Linux::KeyDelete),
        0xff52 => Some(Linux::KeyUp),
        0xff54 => Some(Linux::KeyDown),
        0xff51 => Some(Linux::KeyLeft),
        0xff53 => Some(Linux::KeyRight),
        0xff50 => Some(Linux::KeyHome),
        0xff57 => Some(Linux::KeyEnd),
        0xff55 => Some(Linux::KeyPageup),
        0xff56 => Some(Linux::KeyPagedown),
        0x2d | 0x5f => Some(Linux::KeyMinus),
        0x3d | 0x2b => Some(Linux::KeyEqual),
        0x2c | 0x3c => Some(Linux::KeyComma),
        0x2e | 0x3e => Some(Linux::KeyDot),
        0x2f | 0x3f => Some(Linux::KeySlash),
        0x5c | 0x7c => Some(Linux::KeyBackslash),
        0x27 | 0x22 => Some(Linux::KeyApostrophe),
        0x60 | 0x7e => Some(Linux::KeyGrave),
        0x3b | 0x3a => Some(Linux::KeySemicolon),
        0x5b | 0x7b => Some(Linux::KeyLeftbrace),
        0x5d | 0x7d => Some(Linux::KeyRightbrace),
        _ => None,
    }
}

/// The key is Control, Shift, Alt or Super, on either side.
pub open spec fn modifier(key: Linux) -> bool {
    rank(key) < 4
}

/// The place of a modifier in a chord: Control, Shift, Alt, Super. Any other
/// key comes last.
pub open spec fn rank(key: Linux) -> u8 {
    match key {
        Linux::KeyLeftCtrl | Linux::KeyRightCtrl => 0,
        Linux::KeyLeftShift | Linux::KeyRightShift => 1,
        Linux::KeyLeftAlt | Linux::KeyRightalt => 2,
        Linux::KeyLeftMeta | Linux::KeyRightmeta => 3,
        _ => 99,
    }
}

/// The place of a modifier in a chord.
pub fn modifier_rank(key: Linux) -> (r: u8)
    ensures
        r == rank(key),
{
    match key {
        Linux::KeyLeftCtrl | Linux::KeyRightCtrl => 0,
        Linux::KeyLeftShift | Linux::KeyRightShift => 1,
        Linux::KeyLeftAlt | Linux::KeyRightalt => 2,
        Linux::KeyLeftMeta | Linux::KeyRightmeta => 3,
        _ => 99,
    }
}

/// Whether the key is a modifier.
pub fn is_modifier(key: Linux) -> (is: bool)
    ensures
        is == modifier(key),
{
    modifier_rank(key) < 4
}

/// Upper and lower case of a letter are the same key.
pub proof fn law_letters_ignore_case(letter: u32)
    requires
        0x41 <= letter <= 0x5a,
    ensures
        key_of(letter) is Some,
        key_of(letter) == key_of((letter + 0x20) as u32),
{
}

/// The keyboard is labelled by what its keys write: the key of a letter bears
/// that letter as a capital, the key of a digit or of a sign that digit or sign.
/// So no two of them are the same key.
pub proof fn law_keys_bear_what_they_write(keyval: u32)
    ensures
        0x61 <= keyval <= 0x7a ==> labelled(keyval, (keyval - 0x20) as char),
        0x41 <= keyval <= 0x5a ==> labelled(keyval, keyval as char),
        0x30 <= keyval <= 0x39 ==> labelled(keyval, keyval as char),
        keyval == '-' as u32 || keyval == '=' as u32 || keyval == ',' as u32 || keyval == '.' as u32
            || keyval == '/' as u32 || keyval == '\\' as u32 || keyval == '\'' as u32 || keyval
            == '`' as u32 || keyval == ';' as u32 || keyval == '[' as u32 || keyval == ']' as u32
            ==> labelled(keyval, keyval as char),
{
    reveal_strlit("A");
    reveal_strlit("B");
    reveal_strlit("C");
    reveal_strlit("D");
    reveal_strlit("E");
    reveal_strlit("F");
    reveal_strlit("G");
    reveal_strlit("H");
    reveal_strlit("I");
    reveal_strlit("J");
    reveal_strlit("K");
    reveal_strlit("L");
    reveal_strlit("M");
    reveal_strlit("N");
    reveal_strlit("O");
    reveal_strlit("P");
    reveal_strlit("Q");
    reveal_strlit("R");
    reveal_strlit("S");
    reveal_strlit("T");
    reveal_strlit("U");
    reveal_strlit("V");
    reveal_strlit("W");
    reveal_strlit("X");
    reveal_strlit("Y");
    reveal_strlit("Z");
    reveal_strlit("0");
    reveal_strlit("1");
    reveal_strlit("2");
    reveal_strlit("3");
    reveal_strlit("4");
    reveal_strlit("5");
    reveal_strlit("6");
    reveal_strlit("7");
    reveal_strlit("8");
    reveal_strlit("9");
    reveal_strlit("-");
    reveal_strlit("=");
    reveal_strlit(",");
    reveal_strlit(".");
    reveal_strlit("/");
    reveal_strlit("\\");
    reveal_strlit("'");
    reveal_strlit("`");
    reveal_strlit(";");
    reveal_strlit("[");
    reveal_strlit("]");
    assert forall|key: Linux, c: char| #[trigger]
        bears(key, c) implies key_label(key) == Some(seq![c]) by {
        assert(key_label(key)->0 =~= seq![c]);
    }
    if 0x61 <= keyval <= 0x7a {
        assert(bears(key_of(keyval)->0, (keyval - 0x20) as char));
    }
    if key_of(keyval) is Some && (0x41 <= keyval <= 0x5a || 0x30 <= keyval <= 0x39 || keyval == 0x2d
        || keyval == 0x3d || keyval == 0x2c || keyval == 0x2e || keyval == 0x2f || keyval == 0x5c
        || keyval == 0x27 || keyval == 0x60 || keyval == 0x3b || keyval == 0x5b || keyval == 0x5d) {
        assert(bears(key_of(keyval)->0, keyval as char));
    }
}

/// The key value stands for a key that bears the character.
pub open spec fn labelled(keyval: u32, c: char) -> bool {
    key_of(keyval) matches Some(key) && key_label(key) == Some(seq![c])
}

/// The label of the key is the character.
spec fn bears(key: Linux, c: char) -> bool {
    key_label(key) matches Some(label) && label.len() == 1 && label[0] == c
}

/// A function key bears its number behind an F.
pub proof fn law_function_keys_are_numbered(n: u32)
    requires
        1 <= n <= 12,
    ensures
        key_of((0xffbd + n) as u32) matches Some(key) && (key_label(key) matches Some(label)
            && label == seq!['F'] + decimal(n as nat)),
{
    reveal_with_fuel(decimal, 3);
    reveal_strlit("F1");
    reveal_strlit("F2");
    reveal_strlit("F3");
    reveal_strlit("F4");
    reveal_strlit("F5");
    reveal_strlit("F6");
    reveal_strlit("F7");
    reveal_strlit("F8");
    reveal_strlit("F9");
    reveal_strlit("F10");
    reveal_strlit("F11");
    reveal_strlit("F12");
    let label = key_label(key_of((0xffbd + n) as u32)->0)->0;
    assert(label =~= seq!['F'] + decimal(n as nat));
}

/// A sign that is written with Shift means the key that bears it.
pub proof fn law_shifted_signs_mean_their_key()
    ensures
        key_of('_' as u32) == key_of('-' as u32),
        key_of('+' as u32) == key_of('=' as u32),
        key_of('<' as u32) == key_of(',' as u32),
        key_of('>' as u32) == key_of('.' as u32),
        key_of('?' as u32) == key_of('/' as u32),
        key_of('|' as u32) == key_of('\\' as u32),
        key_of('"' as u32) == key_of('\'' as u32),
        key_of('~' as u32) == key_of('`' as u32),
        key_of(':' as u32) == key_of(';' as u32),
        key_of('{' as u32) == key_of('[' as u32),
        key_of('}' as u32) == key_of(']' as u32),
{
}

/// The keys that write nothing are the ones that their values name.
pub proof fn law_named_keys()
    ensures
        key_of(0xff0d) == Some(Linux::KeyEnter),
        key_of(0xff8d) == Some(Linux::KeyEnter),
        key_of(0xff09) == Some(Linux::KeyTab),
        key_of(0xfe20) == Some(Linux::KeyTab),
        key_of(0x20) == Some(Linux::KeySpace),
        key_of(0xff08) == Some(Linux::KeyBackspace),
        key_of(0xffff) == Some(Linux::KeyDelete),
        key_of(0xff50) == Some(Linux::KeyHome),
        key_of(0xff51) == Some(Linux::KeyLeft),
        key_of(0xff52) == Some(Linux::KeyUp),
        key_of(0xff53) == Some(Linux::KeyRight),
        key_of(0xff54) == Some(Linux::KeyDown),
        key_of(0xff55) == Some(Linux::KeyPageup),
        key_of(0xff56) == Some(Linux::KeyPagedown),
        key_of(0xff57) == Some(Linux::KeyEnd),
        key_of(0xff1b) is None,
{
}

/// The modifiers are Control, Shift, Alt and Super, in this order and on either
/// side of the keyboard; no key that writes something is one.
pub proof fn law_modifiers(keyval: u32, key: Linux)
    ensures
        modifier(key) <==> key is KeyLeftCtrl || key is KeyRightCtrl || key is KeyLeftShift || key
            is KeyRightShift || key is KeyLeftAlt || key is KeyRightalt || key is KeyLeftMeta
            || key is KeyRightmeta,
        rank(Linux::KeyLeftCtrl) < rank(Linux::KeyLeftShift),
        rank(Linux::KeyLeftShift) < rank(Linux::KeyLeftAlt),
        rank(Linux::KeyLeftAlt) < rank(Linux::KeyLeftMeta),
        rank(Linux::KeyRightCtrl) == rank(Linux::KeyLeftCtrl),
        rank(Linux::KeyRightShift) == rank(Linux::KeyLeftShift),
        rank(Linux::KeyRightalt) == rank(Linux::KeyLeftAlt),
        rank(Linux::KeyRightmeta) == rank(Linux::KeyLeftMeta),
        !modifier(key) ==> rank(key) > rank(Linux::KeyLeftMeta),
        key_of(0xffe1) == Some(Linux::KeyLeftShift),
        key_of(0xffe2) == Some(Linux::KeyRightShift),
        key_of(0xffe3) == Some(Linux::KeyLeftCtrl),
        key_of(0xffe4) == Some(Linux::KeyRightCtrl),
        key_of(0xffe9) == Some(Linux::KeyLeftAlt) && key_of(0xffe7) == Some(Linux::KeyLeftAlt),
        key_of(0xffea) == Some(Linux::KeyRightalt) && key_of(0xffe8) == Some(Linux::KeyRightalt)
            && key_of(0xfe03) == Some(Linux::KeyRightalt),
        key_of(0xffeb) == Some(Linux::KeyLeftMeta) && key_of(0xffed) == Some(Linux::KeyLeftMeta),
        key_of(0xffec) == Some(Linux::KeyRightmeta) && key_of(0xffee) == Some(Linux::KeyRightmeta),
        keyval < 0xfe00 ==> (key_of(keyval) matches Some(k) ==> !modifier(k)),
{
}

} // verus!
