//! The shortcut that releases the captured input: how it is shown, and how the
//! user records a new one.
use vstd::prelude::*;
use vstd::string::{StrSliceExecFns, StringExecFns};
use crate::ip_text::{hex, push_hex};
use crate::scancode::{
    is_modifier, key_label, key_of, keyval_to_scancode, modifier, modifier_rank, rank, short_label,
    Linux,
};
use crate::text::joined;

verus! {

/// The key value of Escape.
pub const KEYVAL_ESCAPE: u32 = 0xff1b;

/// The chord that counts until another one is set: Control, Shift, Super and
/// Alt.
pub const DEFAULT_RELEASE_CHORD: [Linux; 4] = [
    Linux::KeyLeftCtrl,
    Linux::KeyLeftShift,
    Linux::KeyLeftMeta,
    Linux::KeyLeftAlt,
];

/// A character in markup.
pub open spec fn escaped_char(c: char) -> Seq<char> {
    if c == '&' {
        "&amp;"@
    } else if c == '<' {
        "&lt;"@
    } else if c == '>' {
        "&gt;"@
    } else if c == '\'' {
        "&apos;"@
    } else if c == '"' {
        "&quot;"@
    } else if is_control(c) {
        "&#x"@ + hex(c as nat) + ";"@
    } else {
        seq![c]
    }
}

/// A control character other than tab, line feed, carriage return and next
/// line.
pub open spec fn is_control(c: char) -> bool {
    let n = c as u32;
    0x1 <= n <= 0x8 || 0xb <= n <= 0xc || 0xe <= n <= 0x1f || 0x7f <= n <= 0x84 || 0x86 <= n <= 0x9f
}

/// A text in markup: every character that means something there is spelled
/// out.
pub open spec fn escaped(text: Seq<char>) -> Seq<char>
    decreases text.len(),
{
    if text.len() == 0 {
        seq![]
    } else {
        escaped(text.drop_last()) + escaped_char(text.last())
    }
}

/// A text in markup.
pub fn escape(text: &str) -> (markup: String)
    ensures
        markup@ == escaped(text@),
{
    let mut out = String::new();
    let len: usize = text.unicode_len();
    let mut i: usize = 0;
    assert(out@ =~= escaped(text@.take(0)));
    while i < len
        invariant
            i <= len == text@.len(),
            out@ == escaped(text@.take(i as int)),
        decreases len - i,
    {
        let c: char = text.get_char(i);
        let ghost then = out@;
        let n: u32 = c as u32;
        if c == '&' {
            out.append("&amp;");
        } else if c == '<' {
            out.append("&lt;");
        } else if c == '>' {
            out.append("&gt;");
        } else if c == '\'' {
            out.append("&apos;");
        } else if c == '"' {
            out.append("&quot;");
        } else if 0x1 <= n && n <= 0x8 || 0xb <= n && n <= 0xc || 0xe <= n && n <= 0x1f || 0x7f
            <= n && n <= 0x84 || 0x86 <= n && n <= 0x9f {
            out.append("&#x");
            push_hex(&mut out, n as u16);
            out.append(";");
        } else {
            out.push(c);
        }
        proof {
            assert(out@ =~= then + escaped_char(c));
            assert(text@.take(i + 1).drop_last() =~= text@.take(i as int));
            assert(text@.take(i + 1).last() == c);
        }
        i += 1;
    }
    assert(text@.take(i as int) =~= text@);
    out
}

/// The first key of the given rank, alone, or nothing.
pub open spec fn first_of_rank(keys: Seq<Linux>, r: u8) -> Seq<Linux>
    decreases keys.len(),
{
    if keys.len() == 0 {
        seq![]
    } else if rank(keys[0]) == r {
        seq![keys[0]]
    } else {
        first_of_rank(keys.skip(1), r)
    }
}

/// The keys in the order of a chord, one of each rank: the first one given.
pub open spec fn canonical(keys: Seq<Linux>) -> Seq<Linux> {
    first_of_rank(keys, 0) + first_of_rank(keys, 1) + first_of_rank(keys, 2) + first_of_rank(
        keys,
        3,
    ) + first_of_rank(keys, 99)
}

/// Appends the first key of the given rank, where there is one.
fn push_first_of_rank(out: &mut Vec<Linux>, keys: &Vec<Linux>, r: u8)
    ensures
        final(out)@ == old(out)@ + first_of_rank(keys@, r),
{
    let ghost before = out@;
    let mut i: usize = 0;
    assert(keys@.skip(0) =~= keys@);
    while i < keys.len()
        invariant
            i <= keys@.len(),
            out@ == before,
            before == old(out)@,
            first_of_rank(keys@, r) == first_of_rank(keys@.skip(i as int), r),
        decreases keys@.len() - i,
    {
        let key: Linux = keys[i];
        if modifier_rank(key) == r {
            out.push(key);
            assert(out@ =~= before + first_of_rank(keys@, r));
            return ;
        }
        assert(keys@.skip(i as int).skip(1) =~= keys@.skip(i + 1));
        i += 1;
    }
    assert(out@ =~= before + first_of_rank(keys@, r));
}

/// Orders the modifiers of a chord: Control, Shift, Alt, Super, each once.
pub fn canonicalize_mods(mods: &Vec<Linux>) -> (ordered: Vec<Linux>)
    ensures
        ordered@ == canonical(mods@),
{
    let mut ordered: Vec<Linux> = Vec::new();
    push_first_of_rank(&mut ordered, mods, 0);
    push_first_of_rank(&mut ordered, mods, 1);
    push_first_of_rank(&mut ordered, mods, 2);
    push_first_of_rank(&mut ordered, mods, 3);
    push_first_of_rank(&mut ordered, mods, 99);
    assert(ordered@ =~= canonical(mods@));
    ordered
}

/// The modifiers among the keys.
pub open spec fn modifiers_of(keys: Seq<Linux>) -> Seq<Linux>
    decreases keys.len(),
{
    if keys.len() == 0 {
        seq![]
    } else if modifier(keys.last()) {
        modifiers_of(keys.drop_last()).push(keys.last())
    } else {
        modifiers_of(keys.drop_last())
    }
}

/// The first key that is no modifier.
pub open spec fn trigger_of(keys: Seq<Linux>) -> Option<Linux>
    decreases keys.len(),
{
    if keys.len() == 0 {
        None
    } else if !modifier(keys[0]) {
        Some(keys[0])
    } else {
        trigger_of(keys.skip(1))
    }
}

/// Splits a chord into its modifiers, in order, and its trigger.
pub fn split_chord(keys: &Vec<Linux>) -> (parts: (Vec<Linux>, Option<Linux>))
    ensures
        parts.0@ == canonical(modifiers_of(keys@)),
        parts.1 == trigger_of(keys@),
{
    let mut mods: Vec<Linux> = Vec::new();
    let mut trigger: Option<Linux> = None;
    let mut i: usize = 0;
    assert(keys@.skip(0) =~= keys@);
    assert(mods@ =~= modifiers_of(keys@.take(0)));
    while i < keys.len()
        invariant
            i <= keys@.len(),
            mods@ == modifiers_of(keys@.take(i as int)),
            trigger_of(keys@) == (match trigger {
                Some(key) => Some(key),
                None => trigger_of(keys@.skip(i as int)),
            }),
        decreases keys@.len() - i,
    {
        let key: Linux = keys[i];
        proof {
            assert(keys@.take(i + 1).drop_last() =~= keys@.take(i as int));
            assert(keys@.take(i + 1).last() == key);
            assert(keys@.skip(i as int).skip(1) =~= keys@.skip(i + 1));
        }
        if is_modifier(key) {
            mods.push(key);
        } else if trigger.is_none() {
            trigger = Some(key);
        }
        i += 1;
    }
    assert(keys@.take(i as int) =~= keys@);
    (canonicalize_mods(&mods), trigger)
}

/// The label of a key: a short one, or else its name.
pub open spec fn label_of(key: Linux, name: Seq<char>) -> Seq<char> {
    match key_label(key) {
        Some(label) => label,
        None => name,
    }
}

/// The label of a key. `name` is the key's own name, which is the label where
/// there is no shorter one.
pub fn trigger_label(key: Linux, name: &str) -> (label: String)
    ensures
        label@ == label_of(key, name@),
{
    match short_label(key) {
        Some(label) => label.to_owned(),
        None => name.to_owned(),
    }
}

/// The glyph of a modifier other than Super.
pub open spec fn glyph_of(key: Linux) -> Seq<char> {
    if rank(key) == 0 {
        "⌃"@
    } else if rank(key) == 1 {
        "⇧"@
    } else {
        "⌥"@
    }
}

/// Text in the face and size of a chord.
pub open spec fn chip(text: Seq<char>) -> Seq<char> {
    "<span face=\"Adwaita Sans\" size=\"14000\" weight=\"normal\">"@ + text + "</span>"@
}

/// The Super key: the Omarchy logo where its face can be had, or else the
/// Command sign.
pub open spec fn super_text(omarchy: bool) -> Seq<char> {
    if omarchy {
        "<span face=\"omarchy\" size=\"10080\" rise=\"-250\">\u{e900}</span>"@
    } else {
        "<span face=\"Adwaita Sans\" size=\"14000\">⌘</span>"@
    }
}

pub open spec fn modifier_text(key: Linux, omarchy: bool) -> Seq<char> {
    if rank(key) == 3 {
        super_text(omarchy)
    } else {
        chip(glyph_of(key))
    }
}

/// The parts of a chord in markup: its modifiers, then its trigger.
pub open spec fn chord_parts(keys: Seq<Linux>, name: Seq<char>, omarchy: bool) -> Seq<Seq<char>> {
    let mods = canonical(modifiers_of(keys)).map_values(|k: Linux| modifier_text(k, omarchy));
    match trigger_of(keys) {
        Some(key) => mods.push(chip(escaped(label_of(key, name)))),
        None => mods,
    }
}

pub open spec fn chord_text(keys: Seq<Linux>, name: Seq<char>, omarchy: bool) -> Seq<char> {
    if keys.len() == 0 {
        "Click to set"@
    } else {
        joined(chord_parts(keys, name, omarchy), "\u{2004}"@)
    }
}

fn chip_markup(text: &str) -> (markup: String)
    ensures
        markup@ == chip(text@),
{
    let mut out = String::new();
    out.append("<span face=\"Adwaita Sans\" size=\"14000\" weight=\"normal\">");
    out.append(text);
    out.append("</span>");
    assert(out@ =~= chip(text@));
    out
}

/// The markup of a modifier.
pub fn modifier_markup(key: Linux, omarchy: bool) -> (markup: String)
    requires
        modifier(key),
    ensures
        markup@ == modifier_text(key, omarchy),
{
    match modifier_rank(key) {
        0 => chip_markup("⌃"),
        1 => chip_markup("⇧"),
        2 => chip_markup("⌥"),
        _ => super_markup(omarchy),
    }
}

/// The markup of the Super key.
pub fn super_markup(omarchy: bool) -> (markup: String)
    ensures
        markup@ == super_text(omarchy),
{
    if omarchy {
        "<span face=\"omarchy\" size=\"10080\" rise=\"-250\">\u{e900}</span>".to_owned()
    } else {
        "<span face=\"Adwaita Sans\" size=\"14000\">⌘</span>".to_owned()
    }
}

/// The markup that shows a chord. `name` is the name of its trigger, and
/// `omarchy` tells whether the Omarchy face can be had.
pub fn chord_markup(keys: &Vec<Linux>, name: &str, omarchy: bool) -> (markup: String)
    ensures
        markup@ == chord_text(keys@, name@, omarchy),
{
    if keys.len() == 0 {
        return "Click to set".to_owned();
    }
    let (mods, trigger) = split_chord(keys);
    proof {
        lemma_canonical_modifiers(keys@);
    }
    let ghost parts = chord_parts(keys@, name@, omarchy);
    let mut out = String::new();
    let mut i: usize = 0;
    assert(out@ =~= joined(parts.take(0), "\u{2004}"@));
    while i < mods.len()
        invariant
            i <= mods@.len(),
            mods@ == canonical(modifiers_of(keys@)),
            forall|k: int| 0 <= k < mods@.len() ==> modifier(#[trigger] mods@[k]),
            parts == chord_parts(keys@, name@, omarchy),
            out@ == joined(parts.take(i as int), "\u{2004}"@),
        decreases mods@.len() - i,
    {
        let ghost then = out@;
        if i > 0 {
            out.append("\u{2004}");
        }
        out.append(modifier_markup(mods[i], omarchy).as_str());
        proof {
            let now = parts.take(i + 1);
            assert(now.drop_last() =~= parts.take(i as int));
            assert(now.last() == modifier_text(mods@[i as int], omarchy));
            assert(out@ =~= joined(now, "\u{2004}"@));
        }
        i += 1;
    }
    if let Some(key) = trigger {
        if i > 0 {
            out.append("\u{2004}");
        }
        let label = trigger_label(key, name);
        out.append(chip_markup(escape(label.as_str()).as_str()).as_str());
        proof {
            assert(parts.drop_last() =~= parts.take(i as int));
            assert(parts.last() == chip(escaped(label_of(key, name@))));
            assert(out@ =~= joined(parts, "\u{2004}"@));
        }
    } else {
        assert(parts.take(i as int) =~= parts);
    }
    out
}

proof fn lemma_first_of_rank(keys: Seq<Linux>, r: u8)
    ensures
        first_of_rank(keys, r).len() <= 1,
        first_of_rank(keys, r).len() == 1 ==> rank(first_of_rank(keys, r)[0]) == r
            && keys.contains(first_of_rank(keys, r)[0]),
        first_of_rank(keys, r).len() == 0 ==> forall|i: int|
            0 <= i < keys.len() ==> rank(#[trigger] keys[i]) != r,
    decreases keys.len(),
{
    if keys.len() > 0 && rank(keys[0]) != r {
        let rest = keys.skip(1);
        lemma_first_of_rank(rest, r);
        if first_of_rank(keys, r).len() == 1 {
            let found = first_of_rank(rest, r)[0];
            let k = choose|k: int| 0 <= k < rest.len() && rest[k] == found;
            assert(keys[k + 1] == found);
        } else {
            assert forall|i: int| 0 <= i < keys.len() implies rank(#[trigger] keys[i]) != r by {
                if i > 0 {
                    assert(rest[i - 1] == keys[i]);
                }
            }
        }
    }
}

proof fn lemma_modifiers_of(keys: Seq<Linux>)
    ensures
        forall|i: int| 0 <= i < modifiers_of(keys).len() ==> modifier(#[trigger] modifiers_of(keys)[i]),
    decreases keys.len(),
{
    if keys.len() > 0 {
        let front = modifiers_of(keys.drop_last());
        lemma_modifiers_of(keys.drop_last());
        assert forall|i: int| 0 <= i < modifiers_of(keys).len() implies modifier(
            #[trigger] modifiers_of(keys)[i],
        ) by {
            if i < front.len() {
                assert(modifiers_of(keys)[i] == front[i]);
            }
        }
    }
}

/// The ordered modifiers of a chord are modifiers.
proof fn lemma_canonical_modifiers(keys: Seq<Linux>)
    ensures
        forall|i: int|
            0 <= i < canonical(modifiers_of(keys)).len() ==> modifier(
                #[trigger] canonical(modifiers_of(keys))[i],
            ),
{
    let mods = modifiers_of(keys);
    lemma_modifiers_of(keys);
    lemma_first_of_rank(mods, 0);
    lemma_first_of_rank(mods, 1);
    lemma_first_of_rank(mods, 2);
    lemma_first_of_rank(mods, 3);
    lemma_first_of_rank(mods, 99);
    assert(first_of_rank(mods, 99).len() == 0) by {
        if first_of_rank(mods, 99).len() == 1 {
            let found = first_of_rank(mods, 99)[0];
            let k = choose|k: int| 0 <= k < mods.len() && mods[k] == found;
            assert(modifier(mods[k]));
        }
    }
}

/// The modifiers of a chord stand in order, and no rank occurs twice: whatever
/// the order and the side of the keyboard in which they were given.
pub proof fn law_canonical_is_ordered(keys: Seq<Linux>, i: int, j: int)
    requires
        0 <= i < j < canonical(keys).len(),
    ensures
        rank(canonical(keys)[i]) < rank(canonical(keys)[j]),
{
    lemma_first_of_rank(keys, 0);
    lemma_first_of_rank(keys, 1);
    lemma_first_of_rank(keys, 2);
    lemma_first_of_rank(keys, 3);
    lemma_first_of_rank(keys, 99);
}

/// Every key of a chord is there in its ordered form by its rank, and nothing
/// else is.
pub proof fn law_canonical_keeps_ranks(keys: Seq<Linux>, key: Linux)
    ensures
        keys.contains(key) ==> exists|i: int|
            0 <= i < canonical(keys).len() && rank(#[trigger] canonical(keys)[i]) == rank(key),
        canonical(keys).contains(key) ==> keys.contains(key),
{
    let c = canonical(keys);
    let f0 = first_of_rank(keys, 0);
    let f1 = first_of_rank(keys, 1);
    let f2 = first_of_rank(keys, 2);
    let f3 = first_of_rank(keys, 3);
    let f99 = first_of_rank(keys, 99);
    lemma_first_of_rank(keys, 0);
    lemma_first_of_rank(keys, 1);
    lemma_first_of_rank(keys, 2);
    lemma_first_of_rank(keys, 3);
    lemma_first_of_rank(keys, 99);
    let n0 = f0.len() as int;
    let n1 = n0 + f1.len();
    let n2 = n1 + f2.len();
    let n3 = n2 + f3.len();
    if keys.contains(key) {
        let k = choose|k: int| 0 <= k < keys.len() && keys[k] == key;
        assert(rank(keys[k]) == rank(key));
        if rank(key) == 0 {
            assert(c[0] == f0[0]);
        } else if rank(key) == 1 {
            assert(c[n0] == f1[0]);
        } else if rank(key) == 2 {
            assert(c[n1] == f2[0]);
        } else if rank(key) == 3 {
            assert(c[n2] == f3[0]);
        } else {
            assert(c[n3] == f99[0]);
        }
    }
    if c.contains(key) {
        let k = choose|k: int| 0 <= k < c.len() && c[k] == key;
        if k < n0 {
            assert(c[k] == f0[k]);
        } else if k < n1 {
            assert(c[k] == f1[k - n0]);
        } else if k < n2 {
            assert(c[k] == f2[k - n1]);
        } else if k < n3 {
            assert(c[k] == f3[k - n2]);
        } else {
            assert(c[k] == f99[k - n3]);
        }
    }
}

/// The markup that is shown while a chord is being recorded.
pub fn capturing_markup() -> (markup: &'static str)
    ensures
        markup@ == "<span foreground=\"#9fbef0\" style=\"italic\">Press a shortcut…</span>"@,
{
    "<span foreground=\"#9fbef0\" style=\"italic\">Press a shortcut…</span>"
}

/// What recording a chord calls for.
#[derive(Debug)]
pub enum CaptureEffect {
    /// Nothing is to be shown anew.
    Nothing,
    /// Recording begins: show the prompt and mark the button.
    Begin,
    /// Recording was given up: show the chord and unmark the button.
    Cancel,
    /// A chord was recorded: show it, unmark the button and apply it.
    Finish(Vec<Linux>),
}

/// Recording of a chord.
#[derive(Debug)]
pub struct CaptureState {
    pub capturing: bool,
    pub pressed_mods: Vec<Linux>,
    pub last_chord: Vec<Linux>,
}

fn copy_keys(keys: &Vec<Linux>) -> (copy: Vec<Linux>)
    ensures
        copy@ == keys@,
{
    let mut copy: Vec<Linux> = Vec::new();
    let mut i: usize = 0;
    while i < keys.len()
        invariant
            i <= keys@.len(),
            copy@ == keys@.take(i as int),
        decreases keys@.len() - i,
    {
        copy.push(keys[i]);
        i += 1;
        assert(copy@ =~= keys@.take(i as int));
    }
    assert(keys@.take(i as int) =~= keys@);
    copy
}

/// The keys but for every occurrence of one of them.
pub open spec fn without_key(keys: Seq<Linux>, key: Linux) -> Seq<Linux>
    decreases keys.len(),
{
    if keys.len() == 0 {
        seq![]
    } else if keys.last() == key {
        without_key(keys.drop_last(), key)
    } else {
        without_key(keys.drop_last(), key).push(keys.last())
    }
}

/// Whether a key that is pressed while a chord is recorded ends the recording
/// by completing the chord.
pub open spec fn completes(keyval: u32) -> bool {
    keyval != KEYVAL_ESCAPE && (key_of(keyval) matches Some(key) && !modifier(key))
}

/// What a click on the button leads to.
pub open spec fn clicks(before: CaptureState, effect: CaptureEffect, after: CaptureState) -> bool {
    &&& after.capturing == !before.capturing
    &&& after.pressed_mods@ == Seq::<Linux>::empty()
    &&& after.last_chord == before.last_chord
    &&& effect == (if before.capturing {
        CaptureEffect::Cancel
    } else {
        CaptureEffect::Begin
    })
}

/// What the press of a key leads to: `passes` tells whether the window gets it
/// too.
pub open spec fn presses(
    before: CaptureState,
    keyval: u32,
    passes: bool,
    effect: CaptureEffect,
    after: CaptureState,
) -> bool {
    &&& passes == !before.capturing
    &&& match effect {
        CaptureEffect::Nothing => {
            &&& !before.capturing || keyval != KEYVAL_ESCAPE && !completes(keyval)
            &&& after.capturing == before.capturing
            &&& after.last_chord == before.last_chord
            &&& after.pressed_mods@ == (match key_of(keyval) {
                Some(key) if before.capturing && !before.pressed_mods@.contains(
                    key,
                ) => before.pressed_mods@.push(key),
                _ => before.pressed_mods@,
            })
        },
        CaptureEffect::Begin => false,
        CaptureEffect::Cancel => {
            &&& before.capturing && keyval == KEYVAL_ESCAPE
            &&& !after.capturing
            &&& after.pressed_mods@ == Seq::<Linux>::empty()
            &&& after.last_chord == before.last_chord
        },
        CaptureEffect::Finish(chord) => {
            &&& before.capturing && completes(keyval)
            &&& !after.capturing
            &&& after.pressed_mods@ == Seq::<Linux>::empty()
            &&& after.last_chord@ == chord@
            &&& chord@ == canonical(before.pressed_mods@).push(key_of(keyval)->0)
        },
    }
}

/// What the release of a key leads to.
pub open spec fn releases(before: CaptureState, keyval: u32, after: CaptureState) -> bool {
    &&& after.capturing == before.capturing
    &&& after.last_chord == before.last_chord
    &&& after.pressed_mods@ == (match key_of(keyval) {
        Some(key) if before.capturing && modifier(key) => without_key(before.pressed_mods@, key),
        _ => before.pressed_mods@,
    })
}

/// What a chord that the daemon reports leads to.
pub open spec fn takes_chord(
    before: CaptureState,
    chord: Vec<Linux>,
    show: bool,
    after: CaptureState,
) -> bool {
    &&& after.last_chord == chord
    &&& after.capturing == before.capturing
    &&& after.pressed_mods == before.pressed_mods
    &&& show == !before.capturing
}

impl CaptureState {
    /// No recording; the default chord is shown.
    pub fn new() -> (state: CaptureState)
        ensures
            !state.capturing,
            state.pressed_mods@ == Seq::<Linux>::empty(),
            state.last_chord@ == DEFAULT_RELEASE_CHORD@,
    {
        let mut chord: Vec<Linux> = Vec::new();
        chord.push(Linux::KeyLeftCtrl);
        chord.push(Linux::KeyLeftShift);
        chord.push(Linux::KeyLeftMeta);
        chord.push(Linux::KeyLeftAlt);
        assert(chord@ =~= DEFAULT_RELEASE_CHORD@);
        CaptureState { capturing: false, pressed_mods: Vec::new(), last_chord: chord }
    }

    /// Starts recording.
    pub fn begin_capture(&mut self)
        ensures
            final(self).capturing,
            final(self).pressed_mods@ == Seq::<Linux>::empty(),
            final(self).last_chord == old(self).last_chord,
    {
        self.capturing = true;
        self.pressed_mods = Vec::new();
    }

    /// Gives the recording up.
    pub fn cancel_capture(&mut self)
        ensures
            !final(self).capturing,
            final(self).pressed_mods@ == Seq::<Linux>::empty(),
            final(self).last_chord == old(self).last_chord,
    {
        self.capturing = false;
        self.pressed_mods = Vec::new();
    }

    /// Ends the recording with a chord.
    pub fn finish_capture(&mut self, chord: Vec<Linux>)
        ensures
            !final(self).capturing,
            final(self).pressed_mods@ == Seq::<Linux>::empty(),
            final(self).last_chord == chord,
    {
        self.capturing = false;
        self.pressed_mods = Vec::new();
        self.last_chord = chord;
    }

    /// The button was clicked: recording starts, or is given up.
    pub fn clicked(&mut self) -> (effect: CaptureEffect)
        ensures
            clicks(*old(self), effect, *final(self)),
    {
        if self.capturing {
            self.cancel_capture();
            CaptureEffect::Cancel
        } else {
            self.begin_capture();
            CaptureEffect::Begin
        }
    }

    /// A key was pressed. Returns whether the event goes on to the window, and
    /// what is to be shown. While a chord is recorded no key reaches the
    /// window: Escape gives up, modifiers are gathered, and any other known key
    /// completes the chord.
    pub fn key_pressed(&mut self, keyval: u32) -> (reaction: (bool, CaptureEffect))
        ensures
            presses(*old(self), keyval, reaction.0, reaction.1, *final(self)),
    {
        if !self.capturing {
            return (true, CaptureEffect::Nothing);
        }
        if keyval == KEYVAL_ESCAPE {
            self.cancel_capture();
            return (false, CaptureEffect::Cancel);
        }
        let key: Linux = match keyval_to_scancode(keyval) {
            Some(key) => key,
            None => {
                return (false, CaptureEffect::Nothing);
            },
        };
        if is_modifier(key) {
            let mut held: bool = false;
            let mut i: usize = 0;
            while i < self.pressed_mods.len()
                invariant
                    i <= self.pressed_mods@.len(),
                    held == exists|k: int| 0 <= k < i && self.pressed_mods@[k] == key,
                decreases self.pressed_mods@.len() - i,
            {
                if self.pressed_mods[i] == key {
                    held = true;
                }
                i += 1;
            }
            assert(held == self.pressed_mods@.contains(key));
            if !held {
                self.pressed_mods.push(key);
            }
            return (false, CaptureEffect::Nothing);
        }
        let mut chord: Vec<Linux> = canonicalize_mods(&self.pressed_mods);
        chord.push(key);
        let applied: Vec<Linux> = copy_keys(&chord);
        self.finish_capture(chord);
        (false, CaptureEffect::Finish(applied))
    }

    /// A key was released: while a chord is recorded, a modifier no longer
    /// counts then.
    pub fn key_released(&mut self, keyval: u32)
        ensures
            releases(*old(self), keyval, *final(self)),
    {
        if !self.capturing {
            return ;
        }
        if let Some(key) = keyval_to_scancode(keyval) {
            if is_modifier(key) {
                let mut rest: Vec<Linux> = Vec::new();
                let mut i: usize = 0;
                while i < self.pressed_mods.len()
                    invariant
                        i <= self.pressed_mods@.len(),
                        rest@ == without_key(self.pressed_mods@.take(i as int), key),
                    decreases self.pressed_mods@.len() - i,
                {
                    proof {
                        let now = self.pressed_mods@.take(i + 1);
                        assert(now.drop_last() =~= self.pressed_mods@.take(i as int));
                        assert(now.last() == self.pressed_mods@[i as int]);
                    }
                    if self.pressed_mods[i] != key {
                        rest.push(self.pressed_mods[i]);
                    }
                    i += 1;
                }
                assert(self.pressed_mods@.take(i as int) =~= self.pressed_mods@);
                self.pressed_mods = rest;
            }
        }
    }
}

/// A button that shows the chord and records a new one.
#[derive(Debug)]
pub struct ShortcutCaptureHandle {
    pub state: CaptureState,
}

/// Makes a button show the chord, which is the default one until the daemon
/// reports another.
pub fn bind_button() -> (handle: ShortcutCaptureHandle)
    ensures
        !handle.state.capturing,
        handle.state.pressed_mods@ == Seq::<Linux>::empty(),
        handle.state.last_chord@ == DEFAULT_RELEASE_CHORD@,
{
    ShortcutCaptureHandle { state: CaptureState::new() }
}

impl ShortcutCaptureHandle {
    /// The daemon reported the chord. Returns whether it is to be shown at
    /// once: not while another one is being recorded.
    pub fn set_chord(&mut self, chord: Vec<Linux>) -> (show: bool)
        ensures
            takes_chord(old(self).state, chord, show, final(self).state),
    {
        self.state.last_chord = chord;
        !self.state.capturing
    }
}

/// Without a recording every key goes to the window, and none changes anything.
/// While a chord is recorded no key does; Escape gives up and keeps the chord
/// that there was.
pub proof fn law_keys_are_the_windows_unless_recorded(
    before: CaptureState,
    keyval: u32,
    passes: bool,
    effect: CaptureEffect,
    after: CaptureState,
)
    requires
        presses(before, keyval, passes, effect, after),
    ensures
        passes <==> !before.capturing,
        !before.capturing ==> effect is Nothing && !after.capturing && after.last_chord
            == before.last_chord && after.pressed_mods@ == before.pressed_mods@,
        before.capturing && keyval == 0xff1b ==> effect is Cancel && !after.capturing
            && after.last_chord == before.last_chord && after.pressed_mods@.len() == 0,
        before.capturing && keyval != 0xff1b && key_of(keyval) is None ==> effect is Nothing
            && after.capturing && after.pressed_mods@ == before.pressed_mods@,
        effect is Finish ==> !after.capturing && after.pressed_mods@.len() == 0,
{
}

/// While a chord is recorded, a modifier that is pressed counts until it is
/// released, however often it is reported; and recording goes on.
pub proof fn law_held_modifiers_count(
    before: CaptureState,
    keyval: u32,
    passes: bool,
    effect: CaptureEffect,
    pressed: CaptureState,
    after: CaptureState,
    other: Linux,
)
    requires
        before.capturing,
        keyval != 0xff1b,
        key_of(keyval) matches Some(key) && modifier(key) && key != other,
        presses(before, keyval, passes, effect, pressed),
        releases(pressed, keyval, after),
    ensures
        effect is Nothing,
        pressed.capturing && after.capturing,
        pressed.pressed_mods@.contains(key_of(keyval)->0),
        !after.pressed_mods@.contains(key_of(keyval)->0),
        pressed.pressed_mods@.contains(other) <==> before.pressed_mods@.contains(other),
        after.pressed_mods@.contains(other) <==> before.pressed_mods@.contains(other),
        pressed.last_chord == before.last_chord && after.last_chord == before.last_chord,
{
    let key = key_of(keyval)->0;
    let held = before.pressed_mods@;
    let now = pressed.pressed_mods@;
    if !held.contains(key) {
        assert(now == held.push(key));
        assert(now[held.len() as int] == key);
        if held.contains(other) {
            let i = choose|i: int| 0 <= i < held.len() && held[i] == other;
            assert(now[i] == other);
        }
        if now.contains(other) {
            let i = choose|i: int| 0 <= i < now.len() && now[i] == other;
            assert(held[i] == other);
        }
    }
    lemma_without_key(now, key, key);
    lemma_without_key(now, key, other);
}

proof fn lemma_without_key(keys: Seq<Linux>, key: Linux, other: Linux)
    ensures
        without_key(keys, key).contains(other) <==> keys.contains(other) && other != key,
    decreases keys.len(),
{
    if keys.len() > 0 {
        let front = keys.drop_last();
        let rest = without_key(front, key);
        let all = without_key(keys, key);
        lemma_without_key(front, key, other);
        assert(keys.contains(other) <==> front.contains(other) || other == keys.last()) by {
            if front.contains(other) {
                let i = choose|i: int| 0 <= i < front.len() && front[i] == other;
                assert(keys[i] == other);
            }
            if keys.contains(other) && other != keys.last() {
                let i = choose|i: int| 0 <= i < keys.len() && keys[i] == other;
                assert(front[i] == other);
            }
            assert(keys[keys.len() - 1] == keys.last());
        }
        if keys.last() != key {
            assert(all == rest.push(keys.last()));
            if rest.contains(other) {
                let i = choose|i: int| 0 <= i < rest.len() && rest[i] == other;
                assert(all[i] == other);
            }
            if all.contains(other) {
                let i = choose|i: int| 0 <= i < all.len() && all[i] == other;
                if i < rest.len() {
                    assert(rest[i] == other);
                }
            }
            assert(all[rest.len() as int] == keys.last());
        }
    }
}

/// Any other known key completes the chord: it is the last of it, and before it
/// stand the modifiers that are held, Control, Shift, Alt and Super in that
/// order, each once. The chord is the one that counts from then on.
pub proof fn law_chords_are_what_is_held(
    before: CaptureState,
    keyval: u32,
    passes: bool,
    effect: CaptureEffect,
    after: CaptureState,
    held: Linux,
    i: int,
    j: int,
)
    requires
        before.capturing,
        keyval != 0xff1b,
        key_of(keyval) matches Some(key) && !modifier(key),
        presses(before, keyval, passes, effect, after),
    ensures
        effect matches CaptureEffect::Finish(chord) && {
            &&& after.last_chord@ == chord@
            &&& chord@.len() > 0
            &&& Some(chord@.last()) == key_of(keyval)
            &&& 0 <= i < chord@.len() - 1 ==> before.pressed_mods@.contains(chord@[i])
            &&& 0 <= i < j < chord@.len() - 1 ==> rank(chord@[i]) < rank(chord@[j])
            &&& before.pressed_mods@.contains(held) ==> exists|k: int|
                0 <= k < chord@.len() - 1 && rank(#[trigger] chord@[k]) == rank(held)
        },
{
    let mods = before.pressed_mods@;
    let ordered = canonical(mods);
    if let CaptureEffect::Finish(chord) = effect {
        law_canonical_keeps_ranks(mods, held);
        if 0 <= i < ordered.len() {
            law_canonical_keeps_ranks(mods, ordered[i]);
            assert(ordered.contains(ordered[i]));
        }
        if 0 <= i < j < ordered.len() {
            law_canonical_is_ordered(mods, i, j);
        }
        if mods.contains(held) {
            let k = choose|k: int|
                0 <= k < ordered.len() && rank(#[trigger] ordered[k]) == rank(held);
            assert(chord@[k] == ordered[k]);
        }
    }
}

/// A click starts a recording or gives it up, and never changes the chord. A
/// chord that the daemon reports counts at once, and is shown unless another one
/// is being recorded.
pub proof fn law_clicks_toggle_the_recording(
    before: CaptureState,
    effect: CaptureEffect,
    after: CaptureState,
    chord: Vec<Linux>,
    show: bool,
    told: CaptureState,
)
    requires
        clicks(before, effect, after),
        takes_chord(before, chord, show, told),
    ensures
        after.capturing != before.capturing,
        effect is Begin <==> after.capturing,
        effect is Cancel <==> before.capturing,
        after.last_chord == before.last_chord,
        after.pressed_mods@.len() == 0,
        told.last_chord == chord,
        told.capturing == before.capturing,
        show <==> !before.capturing,
{
}

/// A chord is taken apart into the modifiers that it holds and the first key
/// that is none.
pub proof fn law_chords_are_taken_apart(keys: Seq<Linux>, key: Linux, mods: Seq<Linux>)
    ensures
        modifiers_of(keys).contains(key) <==> keys.contains(key) && modifier(key),
        (forall|i: int| 0 <= i < mods.len() ==> modifier(#[trigger] mods[i])) && !modifier(key)
            ==> trigger_of(mods.push(key)) == Some(key) && trigger_of(mods) is None,
{
    lemma_modifier_members(keys, key);
    if (forall|i: int| 0 <= i < mods.len() ==> modifier(#[trigger] mods[i])) && !modifier(key) {
        lemma_trigger(mods, key);
    }
}

proof fn lemma_modifier_members(keys: Seq<Linux>, key: Linux)
    ensures
        modifiers_of(keys).contains(key) <==> keys.contains(key) && modifier(key),
    decreases keys.len(),
{
    if keys.len() > 0 {
        let front = keys.drop_last();
        let rest = modifiers_of(front);
        let all = modifiers_of(keys);
        lemma_modifier_members(front, key);
        assert(keys.contains(key) <==> front.contains(key) || key == keys.last()) by {
            if front.contains(key) {
                let i = choose|i: int| 0 <= i < front.len() && front[i] == key;
                assert(keys[i] == key);
            }
            if keys.contains(key) && key != keys.last() {
                let i = choose|i: int| 0 <= i < keys.len() && keys[i] == key;
                assert(front[i] == key);
            }
            assert(keys[keys.len() - 1] == keys.last());
        }
        if modifier(keys.last()) {
            assert(all == rest.push(keys.last()));
            if rest.contains(key) {
                let i = choose|i: int| 0 <= i < rest.len() && rest[i] == key;
                assert(all[i] == key);
            }
            if all.contains(key) {
                let i = choose|i: int| 0 <= i < all.len() && all[i] == key;
                if i < rest.len() {
                    assert(rest[i] == key);
                }
            }
            assert(all[rest.len() as int] == keys.last());
        }
    }
}

proof fn lemma_trigger(mods: Seq<Linux>, key: Linux)
    requires
        forall|i: int| 0 <= i < mods.len() ==> modifier(#[trigger] mods[i]),
        !modifier(key),
    ensures
        trigger_of(mods.push(key)) == Some(key),
        trigger_of(mods) is None,
    decreases mods.len(),
{
    let all = mods.push(key);
    if mods.len() > 0 {
        let rest = mods.skip(1);
        assert forall|i: int| 0 <= i < rest.len() implies modifier(#[trigger] rest[i]) by {
            assert(modifier(mods[i + 1]));
        }
        lemma_trigger(rest, key);
        assert(all.skip(1) =~= rest.push(key));
        assert(modifier(mods[0]));
        assert(all[0] == mods[0]);
    }
}

/// Text in markup never opens a tag and never ends a quotation; text without
/// signs that mean something there stays as it is.
pub proof fn law_markup_is_not_broken(text: Seq<char>, i: int)
    ensures
        0 <= i < escaped(text).len() ==> escaped(text)[i] != '<' && escaped(text)[i] != '>'
            && escaped(text)[i] != '"' && escaped(text)[i] != '\'',
        (forall|k: int|
            0 <= k < text.len() ==> #[trigger] text[k] != '&' && text[k] != '<' && text[k] != '>'
                && text[k] != '"' && text[k] != '\'' && !is_control(text[k])) ==> escaped(text)
            == text,
    decreases text.len(),
{
    reveal_strlit("&amp;");
    reveal_strlit("&lt;");
    reveal_strlit("&gt;");
    reveal_strlit("&apos;");
    reveal_strlit("&quot;");
    reveal_strlit("&#x");
    reveal_strlit(";");
    if text.len() > 0 {
        let front = text.drop_last();
        let last = text.last();
        let n = escaped(front).len() as int;
        law_markup_is_not_broken(front, i);
        if is_control(last) {
            lemma_hex_signs(last as nat);
        }
        if n <= i < escaped(text).len() {
            assert(escaped(text)[i] == escaped_char(last)[i - n]);
        } else if 0 <= i < n {
            assert(escaped(text)[i] == escaped(front)[i]);
        }
        if forall|k: int|
            0 <= k < text.len() ==> #[trigger] text[k] != '&' && text[k] != '<' && text[k] != '>'
                && text[k] != '"' && text[k] != '\'' && !is_control(text[k]) {
            assert forall|k: int|
                0 <= k < front.len() implies #[trigger] front[k] != '&' && front[k] != '<'
                && front[k] != '>' && front[k] != '"' && front[k] != '\'' && !is_control(
                front[k],
            ) by {
                assert(text[k] == front[k]);
            }
            assert(text[text.len() - 1] == last);
            assert(escaped(text) =~= text);
        }
    } else {
        assert(escaped(text) =~= text);
    }
}

proof fn lemma_hex_signs(n: nat)
    ensures
        forall|i: int|
            0 <= i < hex(n).len() ==> '0' <= #[trigger] hex(n)[i] <= '9' || 'a' <= hex(n)[i] <= 'f',
    decreases n,
{
    let d = n % 16;
    assert(crate::ip_text::hex_digit(d) as nat == if d < 10 {
        0x30 + d
    } else {
        0x57 + d
    });
    if n >= 16 {
        lemma_hex_signs(n / 16);
    } else {
        assert(d == n);
    }
    assert forall|i: int| 0 <= i < hex(n).len() implies '0' <= #[trigger] hex(n)[i] <= '9' || 'a'
        <= hex(n)[i] <= 'f' by {
        if i == hex(n).len() - 1 {
            assert(hex(n)[i] == crate::ip_text::hex_digit(d));
        } else {
            assert(hex(n)[i] == hex(n / 16)[i]);
        }
    }
}

/// Each modifier has its sign, the same on either side of the keyboard, and the
/// Super key the logo where that can be drawn.
pub proof fn law_modifiers_have_signs(omarchy: bool)
    ensures
        modifier_text(Linux::KeyLeftCtrl, omarchy) == chip("⌃"@),
        modifier_text(Linux::KeyLeftShift, omarchy) == chip("⇧"@),
        modifier_text(Linux::KeyLeftAlt, omarchy) == chip("⌥"@),
        modifier_text(Linux::KeyLeftMeta, true)
            == "<span face=\"omarchy\" size=\"10080\" rise=\"-250\">\u{e900}</span>"@,
        modifier_text(Linux::KeyLeftMeta, false)
            == "<span face=\"Adwaita Sans\" size=\"14000\">⌘</span>"@,
        modifier_text(Linux::KeyRightCtrl, omarchy) == modifier_text(Linux::KeyLeftCtrl, omarchy),
        modifier_text(Linux::KeyRightShift, omarchy) == modifier_text(
            Linux::KeyLeftShift,
            omarchy,
        ),
        modifier_text(Linux::KeyRightalt, omarchy) == modifier_text(Linux::KeyLeftAlt, omarchy),
        modifier_text(Linux::KeyRightmeta, omarchy) == modifier_text(Linux::KeyLeftMeta, omarchy),
{
}

/// A chord is shown sign by sign: its modifiers in order, then its trigger by its
/// label; and what there is to do where there is none.
pub proof fn law_chords_are_shown_in_order(
    keys: Seq<Linux>,
    name: Seq<char>,
    omarchy: bool,
    i: int,
)
    ensures
        chord_text(Seq::empty(), name, omarchy) == "Click to set"@,
        keys.len() > 0 ==> chord_text(keys, name, omarchy) == joined(
            chord_parts(keys, name, omarchy),
            "\u{2004}"@,
        ),
        0 <= i < canonical(modifiers_of(keys)).len() ==> chord_parts(keys, name, omarchy)[i]
            == modifier_text(canonical(modifiers_of(keys))[i], omarchy),
        trigger_of(keys) matches Some(key) ==> chord_parts(keys, name, omarchy).last() == chip(
            escaped(
                match key_label(key) {
                    Some(label) => label,
                    None => name,
                },
            ),
        ) && chord_parts(keys, name, omarchy).len() == canonical(modifiers_of(keys)).len() + 1,
        trigger_of(keys) is None ==> chord_parts(keys, name, omarchy).len() == canonical(
            modifiers_of(keys),
        ).len(),
{
}

} // verus!
