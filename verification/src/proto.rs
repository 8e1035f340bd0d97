//! The events that two peers exchange, and their fixed-size encoding.
use vstd::prelude::*;
use vstd::string::{StrSliceExecFns, StringExecFns};
use crate::bytes::{
    be_bytes, be_value, law_numbers_are_big_endian, octet_at, push_all, push_be, quad_at, read_be,
};
use crate::input_event::{Event, KeyboardEvent, PointerEvent};
use crate::text::{decimal, push_decimal, push_signed, signed_decimal, text_from_utf8};

verus! {

/// The size of the buffer that holds any event but a clipboard event: a tag,
/// a 32-bit integer and two 64-bit floats.
pub const MAX_EVENT_SIZE: usize = 21;

/// Identifies a monitorhop peer: `MONHOP01` in ASCII. A peer whose greeting
/// carries any other magic is refused.
pub const PROTOCOL_MAGIC: [u8; 8] = [0x4d, 0x4f, 0x4e, 0x48, 0x4f, 0x50, 0x30, 0x31];

/// Violations of the protocol.
#[derive(Debug, PartialEq, Eq, Clone, Copy, Structural)]
pub enum ProtocolError {
    /// The tag names no event type.
    InvalidEventId(u8),
    /// The number names no position.
    InvalidPosition(u8),
    /// The clipboard content has too many bytes.
    ClipboardTooLarge(usize),
    /// The clipboard text is not UTF-8.
    InvalidUtf8,
    /// The metadata of a clipboard transfer is inconsistent.
    InvalidClipboardTransfer,
    /// A clipboard transfer failed its SHA-256 integrity check.
    ClipboardHashMismatch,
    /// Bytes are missing.
    BufferTooSmall,
}

impl ProtocolError {
    pub open spec fn text(self) -> Seq<char> {
        match self {
            ProtocolError::InvalidEventId(id) =>
                "invalid event id: `No discriminant in enum `EventType` matches the value `"@
                + decimal(id as nat) + "``"@,
            ProtocolError::InvalidPosition(id) =>
                "invalid event id: `No discriminant in enum `Position` matches the value `"@
                + decimal(id as nat) + "``"@,
            ProtocolError::ClipboardTooLarge(len) => "clipboard payload too large: "@ + decimal(
                len as nat,
            ) + " bytes"@,
            ProtocolError::InvalidUtf8 => "invalid UTF-8 in clipboard payload"@,
            ProtocolError::InvalidClipboardTransfer => "invalid clipboard transfer"@,
            ProtocolError::ClipboardHashMismatch => "clipboard integrity check failed"@,
            ProtocolError::BufferTooSmall => "buffer too small for clipboard payload"@,
        }
    }

    /// Describes the error.
    pub fn describe(&self) -> (text: String)
        ensures
            text@ == self.text(),
    {
        let mut out = String::new();
        match self {
            ProtocolError::InvalidEventId(id) => {
                out.append(
                    "invalid event id: `No discriminant in enum `EventType` matches the value `",
                );
                push_decimal(&mut out, *id as u64);
                out.append("``");
            },
            ProtocolError::InvalidPosition(id) => {
                out.append(
                    "invalid event id: `No discriminant in enum `Position` matches the value `",
                );
                push_decimal(&mut out, *id as u64);
                out.append("``");
            },
            ProtocolError::ClipboardTooLarge(len) => {
                out.append("clipboard payload too large: ");
                push_decimal(&mut out, *len as u64);
                out.append(" bytes");
            },
            ProtocolError::InvalidUtf8 => out.append("invalid UTF-8 in clipboard payload"),
            ProtocolError::InvalidClipboardTransfer => out.append("invalid clipboard transfer"),
            ProtocolError::ClipboardHashMismatch => out.append("clipboard integrity check failed"),
            ProtocolError::BufferTooSmall => out.append("buffer too small for clipboard payload"),
        }
        assert(out@ =~= self.text());
        out
    }
}

/// The side of the screen at which a client sits.
#[derive(Debug, PartialEq, Eq, Clone, Copy, Structural)]
pub enum Position {
    Left,
    Right,
    Top,
    Bottom,
}

impl Position {
    /// The number of the position on the wire.
    pub open spec fn number(self) -> u8 {
        match self {
            Position::Left => 0,
            Position::Right => 1,
            Position::Top => 2,
            Position::Bottom => 3,
        }
    }

    pub open spec fn text(self) -> Seq<char> {
        match self {
            Position::Left => "left"@,
            Position::Right => "right"@,
            Position::Top => "top"@,
            Position::Bottom => "bottom"@,
        }
    }

    /// The name of the position.
    pub fn name(&self) -> (name: &'static str)
        ensures
            name@ == self.text(),
    {
        match self {
            Position::Left => "left",
            Position::Right => "right",
            Position::Top => "top",
            Position::Bottom => "bottom",
        }
    }

    /// The number of the position on the wire.
    pub fn to_u8(&self) -> (number: u8)
        ensures
            number == self.number(),
    {
        match self {
            Position::Left => 0,
            Position::Right => 1,
            Position::Top => 2,
            Position::Bottom => 3,
        }
    }

    /// The position with the given number: an error where there is none.
    pub fn from_u8(number: u8) -> (position: Result<Position, ProtocolError>)
        ensures
            match position {
                Ok(p) => p.number() == number,
                Err(e) => number > 3 && e == ProtocolError::InvalidPosition(number),
            },
    {
        match number {
            0 => Ok(Position::Left),
            1 => Ok(Position::Right),
            2 => Ok(Position::Top),
            3 => Ok(Position::Bottom),
            _ => Err(ProtocolError::InvalidPosition(number)),
        }
    }
}

/// The tag of a datagram.
#[derive(Debug, PartialEq, Eq, Clone, Copy, Structural)]
pub enum EventType {
    PointerMotion,
    PointerButton,
    PointerAxis,
    PointerAxisValue120,
    KeyboardKey,
    KeyboardModifiers,
    Ping,
    Pong,
    Enter,
    Leave,
    Ack,
    Bounds,
    MotionAbsolute,
    CursorPos,
    Hello,
    ReceiverSensitivity,
    /// Clipboard content as a whole: on the wire it is split into
    /// `ClipboardBegin` and `ClipboardChunk` datagrams.
    Clipboard,
    ClipboardBegin,
    ClipboardChunk,
    ClipboardAck,
}

impl EventType {
    /// The tag's byte on the wire.
    pub open spec fn number(self) -> u8 {
        match self {
            EventType::PointerMotion => 0,
            EventType::PointerButton => 1,
            EventType::PointerAxis => 2,
            EventType::PointerAxisValue120 => 3,
            EventType::KeyboardKey => 4,
            EventType::KeyboardModifiers => 5,
            EventType::Ping => 6,
            EventType::Pong => 7,
            EventType::Enter => 8,
            EventType::Leave => 9,
            EventType::Ack => 10,
            EventType::Bounds => 11,
            EventType::MotionAbsolute => 12,
            EventType::CursorPos => 13,
            EventType::Hello => 14,
            EventType::ReceiverSensitivity => 15,
            EventType::Clipboard => 16,
            EventType::ClipboardBegin => 17,
            EventType::ClipboardChunk => 18,
            EventType::ClipboardAck => 19,
        }
    }

    /// The tag's byte on the wire.
    pub fn to_u8(&self) -> (number: u8)
        ensures
            number == self.number(),
    {
        match self {
            EventType::PointerMotion => 0,
            EventType::PointerButton => 1,
            EventType::PointerAxis => 2,
            EventType::PointerAxisValue120 => 3,
            EventType::KeyboardKey => 4,
            EventType::KeyboardModifiers => 5,
            EventType::Ping => 6,
            EventType::Pong => 7,
            EventType::Enter => 8,
            EventType::Leave => 9,
            EventType::Ack => 10,
            EventType::Bounds => 11,
            EventType::MotionAbsolute => 12,
            EventType::CursorPos => 13,
            EventType::Hello => 14,
            EventType::ReceiverSensitivity => 15,
            EventType::Clipboard => 16,
            EventType::ClipboardBegin => 17,
            EventType::ClipboardChunk => 18,
            EventType::ClipboardAck => 19,
        }
    }

    /// The tag with the given byte: an error where there is none.
    pub fn from_u8(number: u8) -> (tag: Result<EventType, ProtocolError>)
        ensures
            match tag {
                Ok(t) => t.number() == number,
                Err(e) => number > 19 && e == ProtocolError::InvalidEventId(number),
            },
    {
        match number {
            0 => Ok(EventType::PointerMotion),
            1 => Ok(EventType::PointerButton),
            2 => Ok(EventType::PointerAxis),
            3 => Ok(EventType::PointerAxisValue120),
            4 => Ok(EventType::KeyboardKey),
            5 => Ok(EventType::KeyboardModifiers),
            6 => Ok(EventType::Ping),
            7 => Ok(EventType::Pong),
            8 => Ok(EventType::Enter),
            9 => Ok(EventType::Leave),
            10 => Ok(EventType::Ack),
            11 => Ok(EventType::Bounds),
            12 => Ok(EventType::MotionAbsolute),
            13 => Ok(EventType::CursorPos),
            14 => Ok(EventType::Hello),
            15 => Ok(EventType::ReceiverSensitivity),
            16 => Ok(EventType::Clipboard),
            17 => Ok(EventType::ClipboardBegin),
            18 => Ok(EventType::ClipboardChunk),
            19 => Ok(EventType::ClipboardAck),
            _ => Err(ProtocolError::InvalidEventId(number)),
        }
    }
}

/// An event of the monitorhop protocol.
#[derive(Debug, Clone, PartialEq, Eq)]
pub enum ProtoEvent {
    /// The cursor entered the peer's region at the given side.
    Enter(Position),
    /// The cursor left the peer's region.
    Leave(u32),
    /// Acknowledges an `Enter` or a `Leave`.
    Ack(u32),
    /// An input event.
    Input(Event),
    /// Asks whether the peer still responds.
    Ping,
    /// Answers a `Ping`: true where emulation is available.
    Pong(bool),
    /// The size in pixels of the union of the peer's displays.
    Bounds { width: u32, height: u32 },
    /// Moves the peer's cursor to a pixel.
    MotionAbsolute { x: i32, y: i32 },
    /// The cursor's position, each axis from 0 to 1, and the side of entry as
    /// the receiver sees it; `nx` and `ny` are the bits of 32-bit floats.
    CursorPos { pos: Position, nx: u32, ny: u32 },
    /// The handshake: exchanged once the connection is authenticated.
    /// `commit` is the short commit hash of the peer's build.
    Hello { magic: [u8; 8], commit: [u8; 8] },
    /// The factor by which the receiver scales motion: the bits of a 64-bit
    /// float.
    ReceiverSensitivity { mouse_sensitivity: u64 },
    /// Clipboard text and the fingerprint of the peer on which it was copied.
    Clipboard { from_fingerprint: String, content: String },
}

/// A boolean on the wire.
pub open spec fn flag_byte(flag: bool) -> u8 {
    if flag {
        1
    } else {
        0
    }
}

pub open spec fn wire_u32(value: u32) -> Seq<u8> {
    be_bytes(value as nat, 4)
}

/// Two's complement, most significant byte first.
pub open spec fn wire_i32(value: i32) -> Seq<u8> {
    be_bytes((value as u32) as nat, 4)
}

pub open spec fn wire_u64(value: u64) -> Seq<u8> {
    be_bytes(value as nat, 8)
}

impl ProtoEvent {
    /// Clipboard events do not fit in the fixed-size encoding.
    pub open spec fn is_clipboard(self) -> bool {
        self is Clipboard || self matches ProtoEvent::Input(Event::Clipboard(_))
    }

    pub open spec fn tag(self) -> EventType {
        match self {
            ProtoEvent::Input(Event::Pointer(p)) => match p {
                PointerEvent::Motion { .. } => EventType::PointerMotion,
                PointerEvent::Button { .. } => EventType::PointerButton,
                PointerEvent::Axis { .. } => EventType::PointerAxis,
                PointerEvent::AxisDiscrete120 { .. } => EventType::PointerAxisValue120,
            },
            ProtoEvent::Input(Event::Keyboard(k)) => match k {
                KeyboardEvent::Key { .. } => EventType::KeyboardKey,
                KeyboardEvent::Modifiers { .. } => EventType::KeyboardModifiers,
            },
            ProtoEvent::Input(Event::Clipboard(_)) => EventType::Clipboard,
            ProtoEvent::Ping => EventType::Ping,
            ProtoEvent::Pong(_) => EventType::Pong,
            ProtoEvent::Enter(_) => EventType::Enter,
            ProtoEvent::Leave(_) => EventType::Leave,
            ProtoEvent::Ack(_) => EventType::Ack,
            ProtoEvent::Bounds { .. } => EventType::Bounds,
            ProtoEvent::MotionAbsolute { .. } => EventType::MotionAbsolute,
            ProtoEvent::CursorPos { .. } => EventType::CursorPos,
            ProtoEvent::Hello { .. } => EventType::Hello,
            ProtoEvent::ReceiverSensitivity { .. } => EventType::ReceiverSensitivity,
            ProtoEvent::Clipboard { .. } => EventType::Clipboard,
        }
    }

    /// The bytes that follow the tag.
    pub open spec fn payload(self) -> Seq<u8> {
        match self {
            ProtoEvent::Input(Event::Pointer(p)) => match p {
                PointerEvent::Motion { time, dx, dy } => wire_u32(time) + wire_u64(dx) + wire_u64(
                    dy,
                ),
                PointerEvent::Button { time, button, state } => wire_u32(time) + wire_u32(button)
                    + wire_u32(state),
                PointerEvent::Axis { time, axis, value, momentum } => wire_u32(time) + seq![axis]
                    + wire_u64(value) + seq![flag_byte(momentum)],
                PointerEvent::AxisDiscrete120 { axis, value } => seq![axis] + wire_i32(value),
            },
            ProtoEvent::Input(Event::Keyboard(k)) => match k {
                KeyboardEvent::Key { time, key, state } => wire_u32(time) + wire_u32(key)
                    + seq![state],
                KeyboardEvent::Modifiers { depressed, latched, locked, group } => wire_u32(
                    depressed,
                ) + wire_u32(latched) + wire_u32(locked) + wire_u32(group),
            },
            ProtoEvent::Input(Event::Clipboard(_)) => seq![],
            ProtoEvent::Ping => seq![],
            ProtoEvent::Pong(alive) => seq![flag_byte(alive)],
            ProtoEvent::Enter(pos) => seq![pos.number()],
            ProtoEvent::Leave(serial) => wire_u32(serial),
            ProtoEvent::Ack(serial) => wire_u32(serial),
            ProtoEvent::Bounds { width, height } => wire_u32(width) + wire_u32(height),
            ProtoEvent::MotionAbsolute { x, y } => wire_i32(x) + wire_i32(y),
            ProtoEvent::CursorPos { pos, nx, ny } => seq![pos.number()] + wire_u32(nx) + wire_u32(
                ny,
            ),
            ProtoEvent::Hello { magic, commit } => magic@ + commit@,
            ProtoEvent::ReceiverSensitivity { mouse_sensitivity } => wire_u64(mouse_sensitivity),
            ProtoEvent::Clipboard { .. } => seq![],
        }
    }

    /// The encoded event: its tag and its payload.
    pub open spec fn wire(self) -> Seq<u8> {
        seq![self.tag().number()] + self.payload()
    }

    /// A greeting with this protocol's magic and the given commit hash.
    pub fn hello(commit: [u8; 8]) -> (event: ProtoEvent)
        ensures
            event == (ProtoEvent::Hello { magic: PROTOCOL_MAGIC, commit }),
    {
        ProtoEvent::Hello { magic: PROTOCOL_MAGIC, commit }
    }

    /// The tag of the event.
    pub fn event_type(&self) -> (tag: EventType)
        ensures
            tag == self.tag(),
    {
        match self {
            ProtoEvent::Input(e) => match e {
                Event::Pointer(p) => match p {
                    PointerEvent::Motion { .. } => EventType::PointerMotion,
                    PointerEvent::Button { .. } => EventType::PointerButton,
                    PointerEvent::Axis { .. } => EventType::PointerAxis,
                    PointerEvent::AxisDiscrete120 { .. } => EventType::PointerAxisValue120,
                },
                Event::Keyboard(k) => match k {
                    KeyboardEvent::Key { .. } => EventType::KeyboardKey,
                    KeyboardEvent::Modifiers { .. } => EventType::KeyboardModifiers,
                },
                Event::Clipboard(_) => EventType::Clipboard,
            },
            ProtoEvent::Ping => EventType::Ping,
            ProtoEvent::Pong(_) => EventType::Pong,
            ProtoEvent::Enter(_) => EventType::Enter,
            ProtoEvent::Leave(_) => EventType::Leave,
            ProtoEvent::Ack(_) => EventType::Ack,
            ProtoEvent::Bounds { .. } => EventType::Bounds,
            ProtoEvent::MotionAbsolute { .. } => EventType::MotionAbsolute,
            ProtoEvent::CursorPos { .. } => EventType::CursorPos,
            ProtoEvent::Hello { .. } => EventType::Hello,
            ProtoEvent::ReceiverSensitivity { .. } => EventType::ReceiverSensitivity,
            ProtoEvent::Clipboard { .. } => EventType::Clipboard,
        }
    }
}

/// The number that four bytes of `buf` from `at` on spell.
pub open spec fn field_u32(buf: Seq<u8>, at: int) -> u32 {
    be_value(buf.subrange(at, at + 4)) as u32
}

pub open spec fn field_i32(buf: Seq<u8>, at: int) -> i32 {
    field_u32(buf, at) as i32
}

pub open spec fn field_u64(buf: Seq<u8>, at: int) -> u64 {
    be_value(buf.subrange(at, at + 8)) as u64
}

/// `event` is what the bytes of `buf` after the tag `tag` spell. A flag is set
/// by any byte but zero; bytes beyond the payload do not matter.
pub open spec fn spells(buf: Seq<u8>, tag: EventType, event: ProtoEvent) -> bool {
    match tag {
        EventType::PointerMotion => event == ProtoEvent::Input(
            Event::Pointer(
                PointerEvent::Motion {
                    time: field_u32(buf, 1),
                    dx: field_u64(buf, 5),
                    dy: field_u64(buf, 13),
                },
            ),
        ),
        EventType::PointerButton => event == ProtoEvent::Input(
            Event::Pointer(
                PointerEvent::Button {
                    time: field_u32(buf, 1),
                    button: field_u32(buf, 5),
                    state: field_u32(buf, 9),
                },
            ),
        ),
        EventType::PointerAxis => event == ProtoEvent::Input(
            Event::Pointer(
                PointerEvent::Axis {
                    time: field_u32(buf, 1),
                    axis: buf[5],
                    value: field_u64(buf, 6),
                    momentum: buf[14] != 0,
                },
            ),
        ),
        EventType::PointerAxisValue120 => event == ProtoEvent::Input(
            Event::Pointer(
                PointerEvent::AxisDiscrete120 { axis: buf[1], value: field_i32(buf, 2) },
            ),
        ),
        EventType::KeyboardKey => event == ProtoEvent::Input(
            Event::Keyboard(
                KeyboardEvent::Key {
                    time: field_u32(buf, 1),
                    key: field_u32(buf, 5),
                    state: buf[9],
                },
            ),
        ),
        EventType::KeyboardModifiers => event == ProtoEvent::Input(
            Event::Keyboard(
                KeyboardEvent::Modifiers {
                    depressed: field_u32(buf, 1),
                    latched: field_u32(buf, 5),
                    locked: field_u32(buf, 9),
                    group: field_u32(buf, 13),
                },
            ),
        ),
        EventType::Ping => event == ProtoEvent::Ping,
        EventType::Pong => event == ProtoEvent::Pong(buf[1] != 0),
        EventType::Enter => event matches ProtoEvent::Enter(pos) && pos.number() == buf[1],
        EventType::Leave => event == ProtoEvent::Leave(field_u32(buf, 1)),
        EventType::Ack => event == ProtoEvent::Ack(field_u32(buf, 1)),
        EventType::Bounds => event == (ProtoEvent::Bounds {
            width: field_u32(buf, 1),
            height: field_u32(buf, 5),
        }),
        EventType::MotionAbsolute => event == (ProtoEvent::MotionAbsolute {
            x: field_i32(buf, 1),
            y: field_i32(buf, 5),
        }),
        EventType::CursorPos => event matches ProtoEvent::CursorPos { pos, nx, ny }
            && pos.number() == buf[1] && nx == field_u32(buf, 2) && ny == field_u32(buf, 6),
        EventType::Hello => event matches ProtoEvent::Hello { magic, commit }
            && magic@ == buf.subrange(1, 9) && commit@ == buf.subrange(9, 17),
        EventType::ReceiverSensitivity => event == (ProtoEvent::ReceiverSensitivity {
            mouse_sensitivity: field_u64(buf, 1),
        }),
        EventType::Clipboard
        | EventType::ClipboardBegin
        | EventType::ClipboardChunk
        | EventType::ClipboardAck => false,
    }
}

/// What decoding `buf` gives: the event that the bytes after the tag spell, or
/// the reason why there is none.
pub open spec fn decodes(buf: Seq<u8>, result: Result<ProtoEvent, ProtocolError>) -> bool {
    match result {
        Ok(event) => buf[0] <= 15 && event.tag().number() == buf[0] && spells(
            buf,
            event.tag(),
            event,
        ),
        Err(ProtocolError::InvalidEventId(id)) => id == buf[0] && id > 19,
        Err(ProtocolError::BufferTooSmall) => 16 <= buf[0] <= 19,
        Err(ProtocolError::InvalidPosition(id)) => (buf[0] == EventType::Enter.number() || buf[0]
            == EventType::CursorPos.number()) && id == buf[1] && id > 3,
        Err(_) => false,
    }
}

fn get_u32(buf: &[u8], at: usize) -> (value: u32)
    requires
        at + 4 <= buf@.len(),
    ensures
        value == field_u32(buf@, at as int),
{
    proof {
        crate::bytes::lemma_byte_spans();
    }
    read_be(buf, at, 4) as u32
}

fn get_u64(buf: &[u8], at: usize) -> (value: u64)
    requires
        at + 8 <= buf@.len(),
    ensures
        value == field_u64(buf@, at as int),
{
    read_be(buf, at, 8)
}

/// `N` bytes of `buf` from `at` on.
pub(crate) fn get_array<const N: usize>(buf: &[u8], at: usize) -> (bytes: [u8; N])
    requires
        at + N <= buf@.len(),
    ensures
        bytes@ == buf@.subrange(at as int, at + N),
{
    let mut bytes: [u8; N] = [0u8;N];
    assert(buf@.len() == buf.len());
    let mut i: usize = 0;
    while i < N
        invariant
            i <= N,
            at + N <= buf@.len() <= usize::MAX,
            forall|k: int| 0 <= k < i ==> bytes@[k] == buf@[at + k],
        decreases N - i,
    {
        bytes[i] = buf[at + i];
        i += 1;
    }
    assert(bytes@ =~= buf@.subrange(at as int, at + N));
    bytes
}

impl ProtoEvent {
    /// The event in a buffer of the fixed size: its encoding, then zeros; and
    /// the length of the encoding.
    pub fn encode(&self) -> (encoded: ([u8; MAX_EVENT_SIZE], usize))
        requires
            !self.is_clipboard(),
        ensures
            encoded.1 == self.wire().len(),
            encoded.1 <= MAX_EVENT_SIZE,
            encoded.0@ == self.wire() + Seq::new(
                (MAX_EVENT_SIZE - self.wire().len()) as nat,
                |i: int| 0u8,
            ),
    {
        let mut out: Vec<u8> = Vec::new();
        out.push(self.event_type().to_u8());
        match self {
            ProtoEvent::Input(event) => match event {
                Event::Pointer(p) => match p {
                    PointerEvent::Motion { time, dx, dy } => {
                        push_be(&mut out, *time as u64, 4);
                        push_be(&mut out, *dx, 8);
                        push_be(&mut out, *dy, 8);
                    },
                    PointerEvent::Button { time, button, state } => {
                        push_be(&mut out, *time as u64, 4);
                        push_be(&mut out, *button as u64, 4);
                        push_be(&mut out, *state as u64, 4);
                    },
                    PointerEvent::Axis { time, axis, value, momentum } => {
                        push_be(&mut out, *time as u64, 4);
                        out.push(*axis);
                        push_be(&mut out, *value, 8);
                        out.push(if *momentum {
                            1
                        } else {
                            0
                        });
                    },
                    PointerEvent::AxisDiscrete120 { axis, value } => {
                        out.push(*axis);
                        push_be(&mut out, (*value as u32) as u64, 4);
                    },
                },
                Event::Keyboard(k) => match k {
                    KeyboardEvent::Key { time, key, state } => {
                        push_be(&mut out, *time as u64, 4);
                        push_be(&mut out, *key as u64, 4);
                        out.push(*state);
                    },
                    KeyboardEvent::Modifiers { depressed, latched, locked, group } => {
                        push_be(&mut out, *depressed as u64, 4);
                        push_be(&mut out, *latched as u64, 4);
                        push_be(&mut out, *locked as u64, 4);
                        push_be(&mut out, *group as u64, 4);
                    },
                },
                Event::Clipboard(_) => {},
            },
            ProtoEvent::Ping => {},
            ProtoEvent::Pong(alive) => out.push(if *alive {
                1
            } else {
                0
            }),
            ProtoEvent::Enter(pos) => out.push(pos.to_u8()),
            ProtoEvent::Leave(serial) => push_be(&mut out, *serial as u64, 4),
            ProtoEvent::Ack(serial) => push_be(&mut out, *serial as u64, 4),
            ProtoEvent::Bounds { width, height } => {
                push_be(&mut out, *width as u64, 4);
                push_be(&mut out, *height as u64, 4);
            },
            ProtoEvent::MotionAbsolute { x, y } => {
                push_be(&mut out, (*x as u32) as u64, 4);
                push_be(&mut out, (*y as u32) as u64, 4);
            },
            ProtoEvent::CursorPos { pos, nx, ny } => {
                out.push(pos.to_u8());
                push_be(&mut out, *nx as u64, 4);
                push_be(&mut out, *ny as u64, 4);
            },
            ProtoEvent::Hello { magic, commit } => {
                push_all(&mut out, magic.as_slice());
                push_all(&mut out, commit.as_slice());
            },
            ProtoEvent::ReceiverSensitivity { mouse_sensitivity } => push_be(
                &mut out,
                *mouse_sensitivity,
                8,
            ),
            ProtoEvent::Clipboard { .. } => {},
        }
        assert(out@ =~= self.wire());
        proof {
            self.lemma_wire_fits();
        }
        let mut buf: [u8; MAX_EVENT_SIZE] = [0u8;MAX_EVENT_SIZE];
        let mut i: usize = 0;
        while i < out.len()
            invariant
                i <= out@.len() <= MAX_EVENT_SIZE,
                forall|k: int| 0 <= k < i ==> buf@[k] == out@[k],
                forall|k: int| i <= k < MAX_EVENT_SIZE ==> buf@[k] == 0,
            decreases out@.len() - i,
        {
            buf[i] = out[i];
            i += 1;
        }
        assert(buf@ =~= self.wire() + Seq::new(
            (MAX_EVENT_SIZE - self.wire().len()) as nat,
            |i: int| 0u8,
        ));
        (buf, out.len())
    }

    /// Every event but a clipboard event fits in the fixed-size buffer.
    pub proof fn lemma_wire_fits(self)
        requires
            !self.is_clipboard(),
        ensures
            1 <= self.wire().len() <= MAX_EVENT_SIZE,
    {
        assert forall|v: nat, w: nat| #[trigger] be_bytes(v, w).len() == w by {
            crate::bytes::lemma_be_bytes_len(v, w);
        }
    }

    /// The event that the buffer holds: an error where the tag or a position
    /// is unknown, or where the tag is that of a clipboard datagram.
    pub fn try_from(buf: [u8; MAX_EVENT_SIZE]) -> (event: Result<ProtoEvent, ProtocolError>)
        ensures
            decodes(buf@, event),
    {
        let b: &[u8] = buf.as_slice();
        let tag = match EventType::from_u8(b[0]) {
            Ok(tag) => tag,
            Err(e) => {
                return Err(e);
            },
        };
        match tag {
            EventType::PointerMotion => Ok(
                ProtoEvent::Input(
                    Event::Pointer(
                        PointerEvent::Motion {
                            time: get_u32(b, 1),
                            dx: get_u64(b, 5),
                            dy: get_u64(b, 13),
                        },
                    ),
                ),
            ),
            EventType::PointerButton => Ok(
                ProtoEvent::Input(
                    Event::Pointer(
                        PointerEvent::Button {
                            time: get_u32(b, 1),
                            button: get_u32(b, 5),
                            state: get_u32(b, 9),
                        },
                    ),
                ),
            ),
            EventType::PointerAxis => Ok(
                ProtoEvent::Input(
                    Event::Pointer(
                        PointerEvent::Axis {
                            time: get_u32(b, 1),
                            axis: b[5],
                            value: get_u64(b, 6),
                            momentum: b[14] != 0,
                        },
                    ),
                ),
            ),
            EventType::PointerAxisValue120 => Ok(
                ProtoEvent::Input(
                    Event::Pointer(
                        PointerEvent::AxisDiscrete120 { axis: b[1], value: get_u32(b, 2) as i32 },
                    ),
                ),
            ),
            EventType::KeyboardKey => Ok(
                ProtoEvent::Input(
                    Event::Keyboard(
                        KeyboardEvent::Key {
                            time: get_u32(b, 1),
                            key: get_u32(b, 5),
                            state: b[9],
                        },
                    ),
                ),
            ),
            EventType::KeyboardModifiers => Ok(
                ProtoEvent::Input(
                    Event::Keyboard(
                        KeyboardEvent::Modifiers {
                            depressed: get_u32(b, 1),
                            latched: get_u32(b, 5),
                            locked: get_u32(b, 9),
                            group: get_u32(b, 13),
                        },
                    ),
                ),
            ),
            EventType::Ping => Ok(ProtoEvent::Ping),
            EventType::Pong => Ok(ProtoEvent::Pong(b[1] != 0)),
            EventType::Enter => match Position::from_u8(b[1]) {
                Ok(pos) => Ok(ProtoEvent::Enter(pos)),
                Err(e) => Err(e),
            },
            EventType::Leave => Ok(ProtoEvent::Leave(get_u32(b, 1))),
            EventType::Ack => Ok(ProtoEvent::Ack(get_u32(b, 1))),
            EventType::Bounds => Ok(
                ProtoEvent::Bounds { width: get_u32(b, 1), height: get_u32(b, 5) },
            ),
            EventType::MotionAbsolute => Ok(
                ProtoEvent::MotionAbsolute { x: get_u32(b, 1) as i32, y: get_u32(b, 5) as i32 },
            ),
            EventType::CursorPos => match Position::from_u8(b[1]) {
                Ok(pos) => Ok(
                    ProtoEvent::CursorPos { pos, nx: get_u32(b, 2), ny: get_u32(b, 6) },
                ),
                Err(e) => Err(e),
            },
            EventType::Hello => Ok(
                ProtoEvent::Hello { magic: get_array::<8>(b, 1), commit: get_array::<8>(b, 9) },
            ),
            EventType::ReceiverSensitivity => Ok(
                ProtoEvent::ReceiverSensitivity { mouse_sensitivity: get_u64(b, 1) },
            ),
            EventType::Clipboard
            | EventType::ClipboardBegin
            | EventType::ClipboardChunk
            | EventType::ClipboardAck => Err(ProtocolError::BufferTooSmall),
        }
    }
}

proof fn lemma_i32_bits(x: i32)
    ensures
        (x as u32) as i32 == x,
{
    assert((x as u32) as i32 == x) by (bit_vector);
}

/// Each number is read back from its bytes on the wire.
proof fn lemma_wire_fields()
    ensures
        forall|v: nat, w: nat| #[trigger] be_bytes(v, w).len() == w,
        forall|v: u32| #[trigger] be_value(wire_u32(v)) == v,
        forall|v: i32| (#[trigger] be_value(wire_i32(v)) as u32) as i32 == v,
        forall|v: u64| #[trigger] be_value(wire_u64(v)) == v,
{
    assert forall|v: nat, w: nat| #[trigger] be_bytes(v, w).len() == w by {
        crate::bytes::lemma_be_bytes_len(v, w);
    }
    assert forall|v: u32| #[trigger] be_value(wire_u32(v)) == v by {
        crate::bytes::lemma_byte_spans();
        crate::bytes::lemma_be_round_trip(v as nat, 4);
    }
    assert forall|v: i32| (#[trigger] be_value(wire_i32(v)) as u32) as i32 == v by {
        crate::bytes::lemma_byte_spans();
        crate::bytes::lemma_be_round_trip((v as u32) as nat, 4);
        lemma_i32_bits(v);
    }
    assert forall|v: u64| #[trigger] be_value(wire_u64(v)) == v by {
        crate::bytes::lemma_byte_spans();
        crate::bytes::lemma_be_round_trip(v as nat, 8);
    }
}

/// The payload stands in the buffer from the second byte on.
proof fn lemma_payload_place(event: ProtoEvent, buf: Seq<u8>)
    requires
        buf.len() == MAX_EVENT_SIZE,
        event.wire().is_prefix_of(buf),
    ensures
        buf[0] == event.tag().number(),
        forall|k: int| 0 <= k < event.payload().len() ==> #[trigger] event.payload()[k] == buf[k + 1],
        forall|k: int| 1 <= k <= event.payload().len() ==> #[trigger] buf[k] == event.payload()[k - 1],
{
    let wire = event.wire();
    let payload = event.payload();
    assert(forall|k: int| 0 <= k < wire.len() ==> wire[k] == buf[k]);
    assert(buf[0] == wire[0]);
    assert forall|k: int| 0 <= k < payload.len() implies #[trigger] payload[k] == buf[k + 1] by {
        assert(payload[k] == wire[k + 1]);
    }
    assert forall|k: int| 1 <= k <= payload.len() implies #[trigger] buf[k] == payload[k - 1] by {
        assert(wire[k] == buf[k]);
    }
}

/// The round trip of a pointer event.
#[verifier::spinoff_prover]
proof fn lemma_pointer_round_trip(event: ProtoEvent, buf: Seq<u8>, result: Result<ProtoEvent, ProtocolError>)
    requires
        event matches ProtoEvent::Input(Event::Pointer(_)),
        buf.len() == MAX_EVENT_SIZE,
        event.wire().is_prefix_of(buf),
        decodes(buf, result),
    ensures
        result == Ok::<ProtoEvent, ProtocolError>(event),
{
    lemma_wire_fields();
    lemma_payload_place(event, buf);
    let payload = event.payload();
    match event {
        ProtoEvent::Input(Event::Pointer(PointerEvent::Motion { time, dx, dy })) => {
            assert(buf.subrange(1, 5) =~= wire_u32(time));
            assert(buf.subrange(5, 13) =~= wire_u64(dx));
            assert(buf.subrange(13, 21) =~= wire_u64(dy));
        },
        ProtoEvent::Input(Event::Pointer(PointerEvent::Button { time, button, state })) => {
            assert(buf.subrange(1, 5) =~= wire_u32(time));
            assert(buf.subrange(5, 9) =~= wire_u32(button));
            assert(buf.subrange(9, 13) =~= wire_u32(state));
        },
        ProtoEvent::Input(
            Event::Pointer(PointerEvent::Axis { time, axis, value, momentum }),
        ) => {
            assert(buf.subrange(1, 5) =~= wire_u32(time));
            assert(payload[4] == axis);
            assert(buf.subrange(6, 14) =~= wire_u64(value));
            assert(payload[13] == flag_byte(momentum));
        },
        ProtoEvent::Input(Event::Pointer(PointerEvent::AxisDiscrete120 { axis, value })) => {
            assert(payload[0] == axis);
            assert(buf.subrange(2, 6) =~= wire_i32(value));
        },
        _ => {},
    }
}

/// The round trip of a keyboard event.
#[verifier::spinoff_prover]
proof fn lemma_keyboard_round_trip(event: ProtoEvent, buf: Seq<u8>, result: Result<ProtoEvent, ProtocolError>)
    requires
        event matches ProtoEvent::Input(Event::Keyboard(_)),
        buf.len() == MAX_EVENT_SIZE,
        event.wire().is_prefix_of(buf),
        decodes(buf, result),
    ensures
        result == Ok::<ProtoEvent, ProtocolError>(event),
{
    lemma_wire_fields();
    lemma_payload_place(event, buf);
    let payload = event.payload();
    match event {
        ProtoEvent::Input(Event::Keyboard(KeyboardEvent::Key { time, key, state })) => {
            assert(buf.subrange(1, 5) =~= wire_u32(time));
            assert(buf.subrange(5, 9) =~= wire_u32(key));
            assert(payload[8] == state);
        },
        ProtoEvent::Input(
            Event::Keyboard(KeyboardEvent::Modifiers { depressed, latched, locked, group }),
        ) => {
            assert(buf.subrange(1, 5) =~= wire_u32(depressed));
            assert(buf.subrange(5, 9) =~= wire_u32(latched));
            assert(buf.subrange(9, 13) =~= wire_u32(locked));
            assert(buf.subrange(13, 17) =~= wire_u32(group));
        },
        _ => {},
    }
}

/// The round trip of an event that is no input event.
#[verifier::spinoff_prover]
proof fn lemma_control_round_trip(event: ProtoEvent, buf: Seq<u8>, result: Result<ProtoEvent, ProtocolError>)
    requires
        !(event is Input),
        !event.is_clipboard(),
        buf.len() == MAX_EVENT_SIZE,
        event.wire().is_prefix_of(buf),
        decodes(buf, result),
    ensures
        result == Ok::<ProtoEvent, ProtocolError>(event),
{
    lemma_wire_fields();
    lemma_payload_place(event, buf);
    let payload = event.payload();
    match event {
        ProtoEvent::Pong(alive) => {
            assert(payload[0] == flag_byte(alive));
        },
        ProtoEvent::Enter(pos) => {
            assert(payload[0] == pos.number());
        },
        ProtoEvent::Leave(serial) => {
            assert(buf.subrange(1, 5) =~= wire_u32(serial));
        },
        ProtoEvent::Ack(serial) => {
            assert(buf.subrange(1, 5) =~= wire_u32(serial));
        },
        ProtoEvent::Bounds { width, height } => {
            assert(buf.subrange(1, 5) =~= wire_u32(width));
            assert(buf.subrange(5, 9) =~= wire_u32(height));
        },
        ProtoEvent::MotionAbsolute { x, y } => {
            assert(buf.subrange(1, 5) =~= wire_i32(x));
            assert(buf.subrange(5, 9) =~= wire_i32(y));
        },
        ProtoEvent::CursorPos { pos, nx, ny } => {
            assert(payload[0] == pos.number());
            assert(buf.subrange(2, 6) =~= wire_u32(nx));
            assert(buf.subrange(6, 10) =~= wire_u32(ny));
        },
        ProtoEvent::Hello { magic, commit } => {
            assert(buf.subrange(1, 9) =~= magic@);
            assert(buf.subrange(9, 17) =~= commit@);
            let decoded = result->Ok_0;
            assert(decoded->magic =~= magic);
            assert(decoded->commit =~= commit);
        },
        ProtoEvent::ReceiverSensitivity { mouse_sensitivity } => {
            assert(buf.subrange(1, 9) =~= wire_u64(mouse_sensitivity));
        },
        _ => {},
    }
}

/// Decoding an encoded event gives it back, whatever bytes follow the encoding
/// in the buffer: in one that `encode` fills they are zeros.
pub proof fn law_event_round_trip(
    event: ProtoEvent,
    buf: Seq<u8>,
    result: Result<ProtoEvent, ProtocolError>,
)
    requires
        !event.is_clipboard(),
        buf.len() == MAX_EVENT_SIZE,
        event.wire().is_prefix_of(buf),
        decodes(buf, result),
    ensures
        result == Ok::<ProtoEvent, ProtocolError>(event),
{
    match event {
        ProtoEvent::Input(Event::Pointer(_)) => lemma_pointer_round_trip(event, buf, result),
        ProtoEvent::Input(Event::Keyboard(_)) => lemma_keyboard_round_trip(event, buf, result),
        _ => lemma_control_round_trip(event, buf, result),
    }
}

/// How many characters of a clipboard text are shown.
pub const PREVIEW_CHARS: usize = 40;

/// How many bytes of a fingerprint are shown.
pub const FINGERPRINT_HEAD: usize = 8;

/// The first bytes of a fingerprint.
pub open spec fn fingerprint_head(fingerprint: Seq<char>) -> Seq<u8> {
    let bytes = vstd::utf8::encode_utf8(fingerprint);
    if bytes.len() > FINGERPRINT_HEAD {
        bytes.take(FINGERPRINT_HEAD as int)
    } else {
        bytes
    }
}

/// The commit hash of a greeting as text.
pub open spec fn commit_text(commit: Seq<u8>) -> Seq<char> {
    if vstd::utf8::valid_utf8(commit) {
        vstd::utf8::decode_utf8(commit)
    } else {
        "????????"@
    }
}

impl ProtoEvent {
    /// The texts that the description shortens can be cut where it cuts them
    /// without splitting a character.
    pub open spec fn describable(self) -> bool {
        match self {
            ProtoEvent::Input(Event::Clipboard(c)) => c.previewable(),
            ProtoEvent::Clipboard { from_fingerprint, .. } => vstd::utf8::is_char_boundary(
                vstd::utf8::encode_utf8(from_fingerprint@),
                fingerprint_head(from_fingerprint@).len() as int,
            ),
            _ => true,
        }
    }

    /// The text of the event, where `a` and `b` are the texts of its first
    /// and second floating-point quantity, and `name` is the name of its scan
    /// code, if that is a known one.
    pub open spec fn text(self, a: Seq<char>, b: Seq<char>, name: Option<Seq<char>>) -> Seq<char> {
        match self {
            ProtoEvent::Enter(s) => "Enter("@ + s.text() + ")"@,
            ProtoEvent::Leave(s) => "Leave("@ + decimal(s as nat) + ")"@,
            ProtoEvent::Ack(s) => "Ack("@ + decimal(s as nat) + ")"@,
            ProtoEvent::Input(e) => e.text(a, b, name),
            ProtoEvent::Ping => "ping"@,
            ProtoEvent::Pong(alive) => "pong: "@ + (if alive {
                "alive"@
            } else {
                "not available"@
            }),
            ProtoEvent::Bounds { width, height } => "Bounds("@ + decimal(width as nat) + "x"@
                + decimal(height as nat) + ")"@,
            ProtoEvent::MotionAbsolute { x, y } => "MotionAbsolute("@ + signed_decimal(x as int)
                + ", "@ + signed_decimal(y as int) + ")"@,
            ProtoEvent::CursorPos { pos, .. } => "CursorPos("@ + pos.text() + ", "@ + a + ", "@ + b
                + ")"@,
            ProtoEvent::ReceiverSensitivity { .. } => "ReceiverSensitivity("@ + a + ")"@,
            ProtoEvent::Hello { magic, commit } => (if magic@ == PROTOCOL_MAGIC@ {
                "Hello("@
            } else {
                "Hello(foreign:"@
            }) + commit_text(commit@) + ")"@,
            ProtoEvent::Clipboard { from_fingerprint, content } => "Clipboard(from="@
                + vstd::utf8::decode_utf8(fingerprint_head(from_fingerprint@)) + "…, "@ + decimal(
                vstd::utf8::encode_utf8(content@).len(),
            ) + "b: "@ + (if content@.len() > PREVIEW_CHARS {
                content@.take(PREVIEW_CHARS as int) + "…"@
            } else {
                content@
            }) + ")"@,
        }
    }

    /// Describes the event. `a` and `b` are the texts of its floating-point
    /// quantities in the order of the fields, `name` is the name of the key's
    /// scan code.
    pub fn describe(&self, a: &str, b: &str, name: Option<&str>) -> (text: String)
        requires
            self.describable(),
        ensures
            text@ == self.text(
                a@,
                b@,
                match name {
                    Some(name) => Some(name@),
                    None => None,
                },
            ),
    {
        let mut out = String::new();
        match self {
            ProtoEvent::Enter(s) => {
                out.append("Enter(");
                out.append(s.name());
                out.append(")");
            },
            ProtoEvent::Leave(s) => {
                out.append("Leave(");
                push_decimal(&mut out, *s as u64);
                out.append(")");
            },
            ProtoEvent::Ack(s) => {
                out.append("Ack(");
                push_decimal(&mut out, *s as u64);
                out.append(")");
            },
            ProtoEvent::Input(e) => {
                return e.describe(a, b, name);
            },
            ProtoEvent::Ping => out.append("ping"),
            ProtoEvent::Pong(alive) => {
                out.append("pong: ");
                out.append(if *alive {
                    "alive"
                } else {
                    "not available"
                });
            },
            ProtoEvent::Bounds { width, height } => {
                out.append("Bounds(");
                push_decimal(&mut out, *width as u64);
                out.append("x");
                push_decimal(&mut out, *height as u64);
                out.append(")");
            },
            ProtoEvent::MotionAbsolute { x, y } => {
                out.append("MotionAbsolute(");
                push_signed(&mut out, *x as i64);
                out.append(", ");
                push_signed(&mut out, *y as i64);
                out.append(")");
            },
            ProtoEvent::CursorPos { pos, .. } => {
                out.append("CursorPos(");
                out.append(pos.name());
                out.append(", ");
                out.append(a);
                out.append(", ");
                out.append(b);
                out.append(")");
            },
            ProtoEvent::ReceiverSensitivity { .. } => {
                out.append("ReceiverSensitivity(");
                out.append(a);
                out.append(")");
            },
            ProtoEvent::Hello { magic, commit } => {
                let ours: bool = crate::bytes::same_bytes(
                    magic.as_slice(),
                    PROTOCOL_MAGIC.as_slice(),
                );
                out.append(if ours {
                    "Hello("
                } else {
                    "Hello(foreign:"
                });
                match text_from_utf8(crate::bytes::copy_range(commit.as_slice(), 0, 8)) {
                    Ok(s) => {
                        proof {
                            vstd::utf8::encode_utf8_decode_utf8(s@);
                            assert(commit@.subrange(0, 8) =~= commit@);
                        }
                        out.append(s.as_str());
                    },
                    Err(_) => {
                        assert(commit@.subrange(0, 8) =~= commit@);
                        out.append("????????");
                    },
                }
                out.append(")");
            },
            ProtoEvent::Clipboard { from_fingerprint, content } => {
                out.append("Clipboard(from=");
                let fingerprint: &str = from_fingerprint.as_str();
                let fingerprint_len: usize = fingerprint.as_bytes().len();
                let head_len: usize = if fingerprint_len > FINGERPRINT_HEAD {
                    FINGERPRINT_HEAD
                } else {
                    fingerprint_len
                };
                let head: &str = fingerprint.split_at(head_len).0;
                proof {
                    vstd::utf8::encode_utf8_decode_utf8(head@);
                    assert(vstd::utf8::encode_utf8(head@) =~= fingerprint_head(from_fingerprint@));
                }
                out.append(head);
                out.append("…, ");
                push_decimal(&mut out, content.as_str().as_bytes().len() as u64);
                out.append("b: ");
                if content.as_str().unicode_len() > PREVIEW_CHARS {
                    out.append(content.as_str().substring_char(0, PREVIEW_CHARS));
                    out.append("…");
                } else {
                    out.append(content.as_str());
                }
                out.append(")");
            },
        }
        assert(out@ =~= self.text(
            a@,
            b@,
            match name {
                Some(name) => Some(name@),
                None => None,
            },
        ));
        out
    }
}

/// The number that stands for an integer on the wire: two's complement.
pub open spec fn unsigned(value: i32) -> int {
    if value >= 0 {
        value as int
    } else {
        value + 0x1_0000_0000
    }
}

/// A flag is one byte, zero or one.
pub open spec fn flag_at(bytes: Seq<u8>, at: int, flag: bool) -> bool {
    bytes[at] == 0 && !flag || bytes[at] == 1 && flag
}

/// Where each quantity of an input event stands on the wire.
pub proof fn law_input_layout(event: ProtoEvent)
    requires
        event is Input,
    ensures
        ({
            let w = event.wire();
            match event {
                ProtoEvent::Input(Event::Pointer(PointerEvent::Motion { time, dx, dy })) => {
                    &&& w.len() == 21
                    &&& w[0] == 0
                    &&& quad_at(w, 1) == time
                    &&& octet_at(w, 5) == dx
                    &&& octet_at(w, 13) == dy
                },
                ProtoEvent::Input(Event::Pointer(PointerEvent::Button { time, button, state })) => {
                    &&& w.len() == 13
                    &&& w[0] == 1
                    &&& quad_at(w, 1) == time
                    &&& quad_at(w, 5) == button
                    &&& quad_at(w, 9) == state
                },
                ProtoEvent::Input(
                    Event::Pointer(PointerEvent::Axis { time, axis, value, momentum }),
                ) => {
                    &&& w.len() == 15
                    &&& w[0] == 2
                    &&& quad_at(w, 1) == time
                    &&& w[5] == axis
                    &&& octet_at(w, 6) == value
                    &&& flag_at(w, 14, momentum)
                },
                ProtoEvent::Input(
                    Event::Pointer(PointerEvent::AxisDiscrete120 { axis, value }),
                ) => {
                    &&& w.len() == 6
                    &&& w[0] == 3
                    &&& w[1] == axis
                    &&& quad_at(w, 2) == unsigned(value)
                },
                ProtoEvent::Input(Event::Keyboard(KeyboardEvent::Key { time, key, state })) => {
                    &&& w.len() == 10
                    &&& w[0] == 4
                    &&& quad_at(w, 1) == time
                    &&& quad_at(w, 5) == key
                    &&& w[9] == state
                },
                ProtoEvent::Input(
                    Event::Keyboard(KeyboardEvent::Modifiers { depressed, latched, locked, group }),
                ) => {
                    &&& w.len() == 17
                    &&& w[0] == 5
                    &&& quad_at(w, 1) == depressed
                    &&& quad_at(w, 5) == latched
                    &&& quad_at(w, 9) == locked
                    &&& quad_at(w, 13) == group
                },
                _ => true,
            }
        }),
{
    lemma_numbers();
    let w = event.wire();
    let p = event.payload();
    assert forall|i: int| 0 <= i < p.len() implies #[trigger] w[i + 1] == p[i] by {}
    match event {
        ProtoEvent::Input(Event::Pointer(PointerEvent::Motion { time, dx, dy })) => {
            lemma_quad_at(w, 1, wire_u32(time));
            lemma_octet_at(w, 5, wire_u64(dx));
            lemma_octet_at(w, 13, wire_u64(dy));
        },
        ProtoEvent::Input(Event::Pointer(PointerEvent::Button { time, button, state })) => {
            lemma_quad_at(w, 1, wire_u32(time));
            lemma_quad_at(w, 5, wire_u32(button));
            lemma_quad_at(w, 9, wire_u32(state));
        },
        ProtoEvent::Input(Event::Pointer(PointerEvent::Axis { time, axis, value, momentum })) => {
            lemma_quad_at(w, 1, wire_u32(time));
            lemma_octet_at(w, 6, wire_u64(value));
        },
        ProtoEvent::Input(Event::Pointer(PointerEvent::AxisDiscrete120 { axis, value })) => {
            lemma_unsigned(value);
            lemma_quad_at(w, 2, wire_i32(value));
        },
        ProtoEvent::Input(Event::Keyboard(KeyboardEvent::Key { time, key, state })) => {
            lemma_quad_at(w, 1, wire_u32(time));
            lemma_quad_at(w, 5, wire_u32(key));
        },
        ProtoEvent::Input(
            Event::Keyboard(KeyboardEvent::Modifiers { depressed, latched, locked, group }),
        ) => {
            lemma_quad_at(w, 1, wire_u32(depressed));
            lemma_quad_at(w, 5, wire_u32(latched));
            lemma_quad_at(w, 9, wire_u32(locked));
            lemma_quad_at(w, 13, wire_u32(group));
        },
        _ => {},
    }
}

/// Where each quantity of an event that is no input event stands on the wire.
pub proof fn law_control_layout(event: ProtoEvent)
    requires
        !(event is Input),
    ensures
        ({
            let w = event.wire();
            match event {
                ProtoEvent::Ping => w.len() == 1 && w[0] == 6,
                ProtoEvent::Pong(alive) => w.len() == 2 && w[0] == 7 && flag_at(w, 1, alive),
                ProtoEvent::Enter(pos) => {
                    &&& w.len() == 2
                    &&& w[0] == 8
                    &&& w[1] == (match pos {
                        Position::Left => 0u8,
                        Position::Right => 1u8,
                        Position::Top => 2u8,
                        Position::Bottom => 3u8,
                    })
                },
                ProtoEvent::Leave(serial) => w.len() == 5 && w[0] == 9 && quad_at(w, 1) == serial,
                ProtoEvent::Ack(serial) => w.len() == 5 && w[0] == 10 && quad_at(w, 1) == serial,
                ProtoEvent::Bounds { width, height } => {
                    &&& w.len() == 9
                    &&& w[0] == 11
                    &&& quad_at(w, 1) == width
                    &&& quad_at(w, 5) == height
                },
                ProtoEvent::MotionAbsolute { x, y } => {
                    &&& w.len() == 9
                    &&& w[0] == 12
                    &&& quad_at(w, 1) == unsigned(x)
                    &&& quad_at(w, 5) == unsigned(y)
                },
                ProtoEvent::CursorPos { pos, nx, ny } => {
                    &&& w.len() == 10
                    &&& w[0] == 13
                    &&& w[1] == ProtoEvent::Enter(pos).wire()[1]
                    &&& quad_at(w, 2) == nx
                    &&& quad_at(w, 6) == ny
                },
                ProtoEvent::Hello { magic, commit } => {
                    &&& w.len() == 17
                    &&& w[0] == 14
                    &&& w.subrange(1, 9) == magic@
                    &&& w.subrange(9, 17) == commit@
                },
                ProtoEvent::ReceiverSensitivity { mouse_sensitivity } => {
                    &&& w.len() == 9
                    &&& w[0] == 15
                    &&& octet_at(w, 1) == mouse_sensitivity
                },
                _ => true,
            }
        }),
{
    lemma_numbers();
    let w = event.wire();
    let p = event.payload();
    assert forall|i: int| 0 <= i < p.len() implies #[trigger] w[i + 1] == p[i] by {}
    match event {
        ProtoEvent::Leave(serial) => lemma_quad_at(w, 1, wire_u32(serial)),
        ProtoEvent::Ack(serial) => lemma_quad_at(w, 1, wire_u32(serial)),
        ProtoEvent::Bounds { width, height } => {
            lemma_quad_at(w, 1, wire_u32(width));
            lemma_quad_at(w, 5, wire_u32(height));
        },
        ProtoEvent::MotionAbsolute { x, y } => {
            lemma_unsigned(x);
            lemma_unsigned(y);
            lemma_quad_at(w, 1, wire_i32(x));
            lemma_quad_at(w, 5, wire_i32(y));
        },
        ProtoEvent::CursorPos { pos, nx, ny } => {
            lemma_quad_at(w, 2, wire_u32(nx));
            lemma_quad_at(w, 6, wire_u32(ny));
        },
        ProtoEvent::Hello { magic, commit } => {
            assert(w.subrange(1, 9) =~= magic@);
            assert(w.subrange(9, 17) =~= commit@);
        },
        ProtoEvent::ReceiverSensitivity { mouse_sensitivity } => {
            lemma_octet_at(w, 1, wire_u64(mouse_sensitivity));
        },
        _ => {},
    }
}

proof fn lemma_numbers()
    ensures
        forall|v: nat, w: nat| #[trigger] be_bytes(v, w).len() == w,
        forall|v: u32| quad_at(#[trigger] wire_u32(v), 0) == v,
        forall|v: u64| octet_at(#[trigger] wire_u64(v), 0) == v,
        forall|v: i32| quad_at(#[trigger] wire_i32(v), 0) == (v as u32),
{
    assert forall|v: nat, w: nat| #[trigger] be_bytes(v, w).len() == w by {
        crate::bytes::lemma_be_bytes_len(v, w);
    }
    assert forall|v: u32| quad_at(#[trigger] wire_u32(v), 0) == v by {
        law_numbers_are_big_endian(v as nat);
    }
    assert forall|v: u64| octet_at(#[trigger] wire_u64(v), 0) == v by {
        law_numbers_are_big_endian(v as nat);
    }
    assert forall|v: i32| quad_at(#[trigger] wire_i32(v), 0) == (v as u32) by {
        law_numbers_are_big_endian((v as u32) as nat);
    }
}

proof fn lemma_quad_at(w: Seq<u8>, at: int, number: Seq<u8>)
    requires
        0 <= at,
        at + 4 <= w.len(),
        number.len() == 4,
        w[at] == number[0],
        w[at + 1] == number[1],
        w[at + 2] == number[2],
        w[at + 3] == number[3],
    ensures
        quad_at(w, at) == quad_at(number, 0),
{
}

proof fn lemma_octet_at(w: Seq<u8>, at: int, number: Seq<u8>)
    requires
        0 <= at,
        at + 8 <= w.len(),
        number.len() == 8,
        w[at] == number[0],
        w[at + 1] == number[1],
        w[at + 2] == number[2],
        w[at + 3] == number[3],
        w[at + 4] == number[4],
        w[at + 5] == number[5],
        w[at + 6] == number[6],
        w[at + 7] == number[7],
    ensures
        octet_at(w, at) == octet_at(number, 0),
{
}

proof fn lemma_unsigned(value: i32)
    ensures
        (value as u32) == unsigned(value),
{
    if value < 0 {
        assert(value < 0 ==> (value as u32) as int == value + 0x1_0000_0000int) by (bit_vector);
    } else {
        assert(value >= 0 ==> (value as u32) as int == value as int) by (bit_vector);
    }
}

/// The magic of a greeting reads `MONHOP01`.
pub proof fn law_magic_is_the_name()
    ensures
        PROTOCOL_MAGIC@ == seq![77u8, 79, 78, 72, 79, 80, 48, 49],
{
    assert(PROTOCOL_MAGIC@ =~= seq![77u8, 79, 78, 72, 79, 80, 48, 49]);
}

/// An event is decoded exactly where its tag is known and fits in the buffer, and
/// a position in it is one of the four.
pub proof fn law_unknown_events_are_refused(
    buf: Seq<u8>,
    result: Result<ProtoEvent, ProtocolError>,
)
    requires
        buf.len() == 21,
        decodes(buf, result),
    ensures
        result is Ok <==> buf[0] <= 15 && ((buf[0] == 8 || buf[0] == 13) ==> buf[1] <= 3),
        buf[0] > 19 ==> result == Err::<ProtoEvent, ProtocolError>(
            ProtocolError::InvalidEventId(buf[0]),
        ),
        result matches Ok(event) ==> event.wire()[0] == buf[0],
{
    if let Ok(event) = result {
        assert(event.wire()[0] == event.tag().number());
    }
}

} // verus!
