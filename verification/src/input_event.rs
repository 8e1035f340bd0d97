//! Input events of a pointer, a keyboard and the clipboard.
//!
//! Floating-point quantities are held as their IEEE 754 bit patterns, which is
//! all that crosses the wire.
use vstd::prelude::*;
use vstd::string::StringExecFns;
use crate::text::{push_decimal, push_signed};

verus! {

pub const BTN_LEFT: u32 = 0x110;

pub const BTN_RIGHT: u32 = 0x111;

pub const BTN_MIDDLE: u32 = 0x112;

pub const BTN_BACK: u32 = 0x113;

pub const BTN_FORWARD: u32 = 0x114;

#[allow(inconsistent_fields)]
#[derive(Debug, PartialEq, Eq, Clone, Copy, Structural)]
pub enum PointerEvent {
    /// Relative motion; `dx` and `dy` are the bits of 64-bit floats.
    Motion { time: u32, dx: u64, dy: u64 },
    /// Mouse button.
    Button { time: u32, button: u32, state: u32 },
    /// Scrolling of a touchpad; `value` is the bits of a 64-bit float.
    ///
    /// `momentum` marks the deltas that the source system made up after the
    /// finger was lifted.
    Axis { time: u32, axis: u8, value: u64, momentum: bool },
    /// Scrolling of a mouse wheel: 120 is one tick.
    AxisDiscrete120 { axis: u8, value: i32 },
}

#[derive(Debug, PartialEq, Eq, Clone, Copy, Structural)]
pub enum KeyboardEvent {
    /// A key was pressed or released.
    Key { time: u32, key: u32, state: u8 },
    /// The state of the modifiers changed.
    Modifiers { depressed: u32, latched: u32, locked: u32, group: u32 },
}

#[derive(Debug, PartialEq, Eq, Clone)]
pub enum ClipboardEvent {
    /// Text content of the clipboard.
    Text(String),
    /// A PNG-encoded image.
    ImagePng(Vec<u8>),
    /// URIs of local files.
    Files(Vec<String>),
}

#[derive(Debug, PartialEq, Eq, Clone)]
pub enum Event {
    /// Motion, button or scrolling.
    Pointer(PointerEvent),
    /// Key or modifiers.
    Keyboard(KeyboardEvent),
    /// Clipboard content to be shared with the peers.
    Clipboard(ClipboardEvent),
}

/// The name of a mouse button, where it has one.
pub open spec fn button_name(button: u32) -> Option<Seq<char>> {
    if button == BTN_LEFT {
        Some("left"@)
    } else if button == BTN_RIGHT {
        Some("right"@)
    } else if button == BTN_MIDDLE {
        Some("middle"@)
    } else if button == BTN_FORWARD {
        Some("forward"@)
    } else if button == BTN_BACK {
        Some("back"@)
    } else {
        None
    }
}

impl PointerEvent {
    /// The text of the event, where `a` and `b` are the texts of its first and
    /// second floating-point quantity.
    pub open spec fn text(self, a: Seq<char>, b: Seq<char>) -> Seq<char> {
        match self {
            PointerEvent::Motion { .. } => "motion("@ + a + ","@ + b + ")"@,
            PointerEvent::Button { button, state, .. } => match button_name(button) {
                Some(name) => "button("@ + name + ", "@ + crate::text::decimal(state as nat) + ")"@,
                None => "button("@ + crate::text::decimal(button as nat) + ", "@
                    + crate::text::decimal(state as nat),
            },
            PointerEvent::Axis { axis, momentum, .. } => "scroll("@ + crate::text::decimal(axis as nat) + ", "@ + a + (
            if momentum {
                ", momentum"@
            } else {
                ""@
            }) + ")"@,
            PointerEvent::AxisDiscrete120 { axis, value } => "scroll-120 ("@ + crate::text::decimal(
                axis as nat,
            ) + ", "@ + crate::text::signed_decimal(value as int) + ")"@,
        }
    }

    /// Describes the event. `a` and `b` are the texts of its floating-point
    /// quantities in the order of the fields; an event that has fewer leaves
    /// the rest unused.
    pub fn describe(&self, a: &str, b: &str) -> (text: String)
        ensures
            text@ == self.text(a@, b@),
    {
        let mut out = String::new();
        match self {
            PointerEvent::Motion { .. } => {
                out.append("motion(");
                out.append(a);
                out.append(",");
                out.append(b);
                out.append(")");
            },
            PointerEvent::Button { button, state, .. } => {
                let name: Option<&str> = if *button == BTN_LEFT {
                    Some("left")
                } else if *button == BTN_RIGHT {
                    Some("right")
                } else if *button == BTN_MIDDLE {
                    Some("middle")
                } else if *button == BTN_FORWARD {
                    Some("forward")
                } else if *button == BTN_BACK {
                    Some("back")
                } else {
                    None
                };
                out.append("button(");
                match name {
                    Some(name) => {
                        out.append(name);
                        out.append(", ");
                        push_decimal(&mut out, *state as u64);
                        out.append(")");
                    },
                    None => {
                        push_decimal(&mut out, *button as u64);
                        out.append(", ");
                        push_decimal(&mut out, *state as u64);
                    },
                }
            },
            PointerEvent::Axis { axis, momentum, .. } => {
                out.append("scroll(");
                push_decimal(&mut out, *axis as u64);
                out.append(", ");
                out.append(a);
                out.append(if *momentum {
                    ", momentum"
                } else {
                    ""
                });
                out.append(")");
            },
            PointerEvent::AxisDiscrete120 { axis, value } => {
                out.append("scroll-120 (");
                push_decimal(&mut out, *axis as u64);
                out.append(", ");
                push_signed(&mut out, *value as i64);
                out.append(")");
            },
        }
        assert(out@ =~= self.text(a@, b@));
        out
    }
}

impl KeyboardEvent {
    /// The text of the event, where `name` is the name of its scan code, if
    /// that is a known one.
    pub open spec fn text(self, name: Option<Seq<char>>) -> Seq<char> {
        match self {
            KeyboardEvent::Key { key, state, .. } => "key("@ + (match name {
                Some(name) => name,
                None => crate::text::decimal(key as nat),
            }) + ", "@ + crate::text::decimal(state as nat) + ")"@,
            KeyboardEvent::Modifiers { depressed, latched, locked, group } => "modifiers("@
                + crate::text::decimal(depressed as nat) + ","@ + crate::text::decimal(
                latched as nat,
            ) + ","@ + crate::text::decimal(locked as nat) + ","@ + crate::text::decimal(
                group as nat,
            ) + ")"@,
        }
    }

    /// Describes the event. `name` is the name of the key's scan code; a key
    /// without a name is shown by its number.
    pub fn describe(&self, name: Option<&str>) -> (text: String)
        ensures
            text@ == self.text(match name {
                Some(name) => Some(name@),
                None => None,
            }),
    {
        let mut out = String::new();
        match self {
            KeyboardEvent::Key { key, state, .. } => {
                out.append("key(");
                match name {
                    Some(name) => {
                        out.append(name);
                    },
                    None => {
                        push_decimal(&mut out, *key as u64);
                    },
                }
                out.append(", ");
                push_decimal(&mut out, *state as u64);
                out.append(")");
            },
            KeyboardEvent::Modifiers { depressed, latched, locked, group } => {
                out.append("modifiers(");
                push_decimal(&mut out, *depressed as u64);
                out.append(",");
                push_decimal(&mut out, *latched as u64);
                out.append(",");
                push_decimal(&mut out, *locked as u64);
                out.append(",");
                push_decimal(&mut out, *group as u64);
                out.append(")");
            },
        }
        assert(out@ =~= self.text(
            match name {
                Some(name) => Some(name@),
                None => None,
            },
        ));
        out
    }
}

/// How many bytes of a clipboard text are shown.
pub const PREVIEW_BYTES: usize = 50;

/// The shown part of a clipboard text: all of it, or its first bytes and an
/// ellipsis.
pub open spec fn preview(text: Seq<char>) -> Seq<char> {
    let bytes = vstd::utf8::encode_utf8(text);
    if bytes.len() > PREVIEW_BYTES {
        vstd::utf8::decode_utf8(bytes.take(PREVIEW_BYTES as int)) + "..."@
    } else {
        text
    }
}

impl ClipboardEvent {
    /// A long text can be cut after its first bytes without splitting a
    /// character.
    pub open spec fn previewable(self) -> bool {
        match self {
            ClipboardEvent::Text(text) => {
                let bytes = vstd::utf8::encode_utf8(text@);
                bytes.len() > PREVIEW_BYTES ==> vstd::utf8::is_char_boundary(
                    bytes,
                    PREVIEW_BYTES as int,
                )
            },
            _ => true,
        }
    }

    pub open spec fn text(self) -> Seq<char> {
        match self {
            ClipboardEvent::Text(text) => "clipboard(text: "@ + preview(text@) + ")"@,
            ClipboardEvent::ImagePng(png) => "clipboard(image/png: "@ + crate::text::decimal(
                png@.len(),
            ) + " bytes)"@,
            ClipboardEvent::Files(files) => "clipboard(files: "@ + crate::text::decimal(
                files@.len(),
            ) + " entries)"@,
        }
    }

    /// Describes the event.
    pub fn describe(&self) -> (text: String)
        requires
            self.previewable(),
        ensures
            text@ == self.text(),
    {
        let mut out = String::new();
        match self {
            ClipboardEvent::Text(text) => {
                out.append("clipboard(text: ");
                let s: &str = text.as_str();
                if s.as_bytes().len() > PREVIEW_BYTES {
                    let head: &str = s.split_at(PREVIEW_BYTES).0;
                    proof {
                        vstd::utf8::encode_utf8_decode_utf8(head@);
                    }
                    out.append(head);
                    out.append("...");
                } else {
                    out.append(s);
                }
                out.append(")");
            },
            ClipboardEvent::ImagePng(png) => {
                out.append("clipboard(image/png: ");
                push_decimal(&mut out, png.len() as u64);
                out.append(" bytes)");
            },
            ClipboardEvent::Files(files) => {
                out.append("clipboard(files: ");
                push_decimal(&mut out, files.len() as u64);
                out.append(" entries)");
            },
        }
        assert(out@ =~= self.text());
        out
    }
}

impl Event {
    pub open spec fn text(
        self,
        a: Seq<char>,
        b: Seq<char>,
        name: Option<Seq<char>>,
    ) -> Seq<char> {
        match self {
            Event::Pointer(p) => p.text(a, b),
            Event::Keyboard(k) => k.text(name),
            Event::Clipboard(c) => c.text(),
        }
    }

    /// Describes the event: see the description of each kind of event for
    /// what `a`, `b` and `name` are.
    pub fn describe(&self, a: &str, b: &str, name: Option<&str>) -> (text: String)
        requires
            self matches Event::Clipboard(c) ==> c.previewable(),
        ensures
            text@ == self.text(
                a@,
                b@,
                match name {
                    Some(name) => Some(name@),
                    None => None,
                },
            ),
    {
        match self {
            Event::Pointer(p) => p.describe(a, b),
            Event::Keyboard(k) => k.describe(name),
            Event::Clipboard(c) => c.describe(),
        }
    }
}

} // verus!
