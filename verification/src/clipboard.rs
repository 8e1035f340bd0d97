//! Clipboard transfers: text split into datagrams that fit an ordinary
//! network packet, and put together again on the other side.
use vstd::prelude::*;
use crate::bytes::{
    be_bytes, be_value, copy_range, law_numbers_are_big_endian, octet_at, pair_at, push_all,
    push_be, quad_at, read_be,
};
use crate::input_event::{ClipboardEvent, Event};
use crate::proto::{EventType, ProtoEvent, ProtocolError};
use crate::text::text_from_utf8;

verus! {

/// Most bytes of UTF-8 text that a transfer carries.
pub const MAX_CLIPBOARD_SIZE: usize = 2_097_152;

/// Most bytes of an encoded clipboard datagram.
pub const MAX_CLIPBOARD_DATAGRAM_SIZE: usize = 1200;

/// Bytes of text in each chunk but the last, which may hold fewer.
pub const CLIPBOARD_CHUNK_SIZE: usize = 1120;

/// Most bytes of a fingerprint.
pub const MAX_FINGERPRINT_SIZE: usize = 256;

/// The SHA-256 hash of `content`.
pub uninterp spec fn sha256(content: Seq<u8>) -> [u8; 32];

/// `sha2::Sha256::digest` computes the SHA-256 hash of the bytes. What the
/// hash is on given bytes is not stated, only that it depends on nothing else.
#[verifier::external_body]
pub(crate) fn sha256_digest(content: &[u8]) -> (hash: [u8; 32])
    ensures
        hash == sha256(content@),
{
    <sha2::Sha256 as sha2::Digest>::digest(content).into()
}

/// One datagram of a clipboard transfer.
#[derive(Clone, Debug, PartialEq, Eq)]
pub enum ClipboardFrame {
    /// Opens a transfer.
    Begin {
        transfer_id: u64,
        from_fingerprint: String,
        content_len: u32,
        chunk_count: u32,
        content_hash: [u8; 32],
    },
    /// A part of the text.
    Chunk { transfer_id: u64, index: u32, data: Vec<u8> },
    /// Ends a transfer, in success or in failure.
    Ack { transfer_id: u64, content_hash: [u8; 32], accepted: bool },
}

/// A completed transfer.
#[derive(Clone, Debug, PartialEq, Eq)]
pub struct ClipboardTransfer {
    pub transfer_id: u64,
    pub from_fingerprint: String,
    pub content: String,
    pub content_hash: [u8; 32],
}

/// What a [`ClipboardFrame`] says.
#[verifier::ext_equal]
pub enum FrameView {
    Begin {
        transfer_id: u64,
        from_fingerprint: Seq<char>,
        content_len: u32,
        chunk_count: u32,
        content_hash: Seq<u8>,
    },
    Chunk { transfer_id: u64, index: u32, data: Seq<u8> },
    Ack { transfer_id: u64, content_hash: Seq<u8>, accepted: bool },
}

/// What a [`ClipboardTransfer`] says.
#[verifier::ext_equal]
pub struct TransferView {
    pub transfer_id: u64,
    pub from_fingerprint: Seq<char>,
    pub content: Seq<char>,
    pub content_hash: Seq<u8>,
}

impl View for ClipboardFrame {
    type V = FrameView;

    open spec fn view(&self) -> FrameView {
        match *self {
            ClipboardFrame::Begin {
                transfer_id,
                from_fingerprint,
                content_len,
                chunk_count,
                content_hash,
            } => FrameView::Begin {
                transfer_id,
                from_fingerprint: from_fingerprint@,
                content_len,
                chunk_count,
                content_hash: content_hash@,
            },
            ClipboardFrame::Chunk { transfer_id, index, data } => FrameView::Chunk {
                transfer_id,
                index,
                data: data@,
            },
            ClipboardFrame::Ack { transfer_id, content_hash, accepted } => FrameView::Ack {
                transfer_id,
                content_hash: content_hash@,
                accepted,
            },
        }
    }
}

impl View for ClipboardTransfer {
    type V = TransferView;

    open spec fn view(&self) -> TransferView {
        TransferView {
            transfer_id: self.transfer_id,
            from_fingerprint: self.from_fingerprint@,
            content: self.content@,
            content_hash: self.content_hash@,
        }
    }
}

/// How many chunks a text of `len` bytes takes: at least one.
pub open spec fn chunk_count_for(len: nat) -> nat {
    if len == 0 {
        1
    } else {
        (len + CLIPBOARD_CHUNK_SIZE as nat - 1) as nat / CLIPBOARD_CHUNK_SIZE as nat
    }
}

/// Where a chunk starts, or the end of the text where it is shorter.
pub open spec fn chunk_start(len: nat, index: nat) -> nat {
    if index * CLIPBOARD_CHUNK_SIZE < len {
        (index * CLIPBOARD_CHUNK_SIZE) as nat
    } else {
        len
    }
}

/// The bytes of the chunk with the given index.
pub open spec fn chunk_data(content: Seq<u8>, index: nat) -> Seq<u8> {
    content.subrange(
        chunk_start(content.len(), index) as int,
        chunk_start(content.len(), index + 1) as int,
    )
}

impl FrameView {
    pub open spec fn transfer_id(self) -> u64 {
        match self {
            FrameView::Begin { transfer_id, .. } => transfer_id,
            FrameView::Chunk { transfer_id, .. } => transfer_id,
            FrameView::Ack { transfer_id, .. } => transfer_id,
        }
    }

    /// Why the frame cannot be encoded, where it cannot.
    pub open spec fn encode_error(self) -> Option<ProtocolError> {
        match self {
            FrameView::Begin { from_fingerprint, content_len, chunk_count, .. } => {
                if vstd::utf8::encode_utf8(from_fingerprint).len() > MAX_FINGERPRINT_SIZE
                    || content_len > MAX_CLIPBOARD_SIZE || chunk_count == 0 {
                    Some(ProtocolError::InvalidClipboardTransfer)
                } else {
                    None
                }
            },
            FrameView::Chunk { data, .. } => {
                if data.len() > CLIPBOARD_CHUNK_SIZE {
                    Some(ProtocolError::ClipboardTooLarge(data.len() as usize))
                } else {
                    None
                }
            },
            FrameView::Ack { .. } => None,
        }
    }

    /// The bytes of the datagram.
    pub open spec fn wire(self) -> Seq<u8> {
        match self {
            FrameView::Begin {
                transfer_id,
                from_fingerprint,
                content_len,
                chunk_count,
                content_hash,
            } => {
                let fingerprint = vstd::utf8::encode_utf8(from_fingerprint);
                seq![EventType::ClipboardBegin.number()] + be_bytes(transfer_id as nat, 8)
                    + be_bytes(fingerprint.len(), 2) + fingerprint + be_bytes(content_len as nat, 4)
                    + be_bytes(chunk_count as nat, 4) + content_hash
            },
            FrameView::Chunk { transfer_id, index, data } => seq![
                EventType::ClipboardChunk.number(),
            ] + be_bytes(transfer_id as nat, 8) + be_bytes(index as nat, 4) + be_bytes(
                data.len(),
                2,
            ) + data,
            FrameView::Ack { transfer_id, content_hash, accepted } => seq![
                EventType::ClipboardAck.number(),
            ] + be_bytes(transfer_id as nat, 8) + content_hash + seq![
                crate::proto::flag_byte(accepted),
            ],
        }
    }
}

/// The frame that opens a transfer, as the bytes after its tag spell it.
pub open spec fn begin_of(buf: Seq<u8>) -> Result<FrameView, ProtocolError> {
    let fp_len = be_value(buf.subrange(9, 11)) as int;
    let fingerprint = buf.subrange(11, 11 + fp_len);
    let at = 11 + fp_len;
    let content_len = be_value(buf.subrange(at, at + 4));
    let chunk_count = be_value(buf.subrange(at + 4, at + 8));
    if buf.len() < 11 {
        Err(ProtocolError::BufferTooSmall)
    } else if fp_len > MAX_FINGERPRINT_SIZE || buf.len() < at {
        Err(ProtocolError::InvalidClipboardTransfer)
    } else if !vstd::utf8::valid_utf8(fingerprint) {
        Err(ProtocolError::InvalidUtf8)
    } else if buf.len() < at + 40 {
        Err(ProtocolError::BufferTooSmall)
    } else if content_len > MAX_CLIPBOARD_SIZE || chunk_count != chunk_count_for(content_len) {
        Err(ProtocolError::InvalidClipboardTransfer)
    } else {
        Ok(
            FrameView::Begin {
                transfer_id: be_value(buf.subrange(1, 9)) as u64,
                from_fingerprint: vstd::utf8::decode_utf8(fingerprint),
                content_len: content_len as u32,
                chunk_count: chunk_count as u32,
                content_hash: buf.subrange(at + 8, at + 40),
            },
        )
    }
}

/// The chunk that the bytes after the tag spell: it ends where the datagram
/// ends.
pub open spec fn chunk_of(buf: Seq<u8>) -> Result<FrameView, ProtocolError> {
    let len = be_value(buf.subrange(13, 15));
    if buf.len() < 15 {
        Err(ProtocolError::BufferTooSmall)
    } else if len > CLIPBOARD_CHUNK_SIZE || buf.len() != 15 + len {
        Err(ProtocolError::InvalidClipboardTransfer)
    } else {
        Ok(
            FrameView::Chunk {
                transfer_id: be_value(buf.subrange(1, 9)) as u64,
                index: be_value(buf.subrange(9, 13)) as u32,
                data: buf.skip(15),
            },
        )
    }
}

/// The acknowledgement that the bytes after the tag spell.
pub open spec fn ack_of(buf: Seq<u8>) -> Result<FrameView, ProtocolError> {
    if buf.len() < 42 {
        Err(ProtocolError::BufferTooSmall)
    } else if buf.len() != 42 {
        Err(ProtocolError::InvalidClipboardTransfer)
    } else {
        Ok(
            FrameView::Ack {
                transfer_id: be_value(buf.subrange(1, 9)) as u64,
                content_hash: buf.subrange(9, 41),
                accepted: buf[41] != 0,
            },
        )
    }
}

/// The frame that a datagram holds, or the reason why there is none.
pub open spec fn frame_of(buf: Seq<u8>) -> Result<FrameView, ProtocolError> {
    if buf.len() == 0 || buf.len() > MAX_CLIPBOARD_DATAGRAM_SIZE {
        Err(ProtocolError::BufferTooSmall)
    } else if buf[0] > 19 {
        Err(ProtocolError::InvalidEventId(buf[0]))
    } else if buf[0] == EventType::ClipboardBegin.number() {
        begin_of(buf)
    } else if buf[0] == EventType::ClipboardChunk.number() {
        chunk_of(buf)
    } else if buf[0] == EventType::ClipboardAck.number() {
        ack_of(buf)
    } else {
        Err(ProtocolError::InvalidClipboardTransfer)
    }
}

/// The datagram of a frame, or the reason why it has none.
pub fn encode_clipboard_frame(frame: &ClipboardFrame) -> (datagram: Result<Vec<u8>, ProtocolError>)
    ensures
        match datagram {
            Ok(bytes) => frame@.encode_error() is None && bytes@ == frame@.wire() && bytes@.len()
                <= MAX_CLIPBOARD_DATAGRAM_SIZE,
            Err(e) => frame@.encode_error() == Some(e),
        },
{
    let mut buf: Vec<u8> = Vec::with_capacity(MAX_CLIPBOARD_DATAGRAM_SIZE);
    proof {
        assert forall|v: nat, w: nat| #[trigger] be_bytes(v, w).len() == w by {
            crate::bytes::lemma_be_bytes_len(v, w);
        }
    }
    match frame {
        ClipboardFrame::Begin {
            transfer_id,
            from_fingerprint,
            content_len,
            chunk_count,
            content_hash,
        } => {
            let fingerprint: &[u8] = from_fingerprint.as_str().as_bytes();
            if fingerprint.len() > MAX_FINGERPRINT_SIZE || *content_len as usize
                > MAX_CLIPBOARD_SIZE || *chunk_count == 0 {
                return Err(ProtocolError::InvalidClipboardTransfer);
            }
            buf.push(EventType::ClipboardBegin.to_u8());
            push_be(&mut buf, *transfer_id, 8);
            push_be(&mut buf, fingerprint.len() as u64, 2);
            push_all(&mut buf, fingerprint);
            push_be(&mut buf, *content_len as u64, 4);
            push_be(&mut buf, *chunk_count as u64, 4);
            push_all(&mut buf, content_hash.as_slice());
        },
        ClipboardFrame::Chunk { transfer_id, index, data } => {
            if data.len() > CLIPBOARD_CHUNK_SIZE {
                return Err(ProtocolError::ClipboardTooLarge(data.len()));
            }
            buf.push(EventType::ClipboardChunk.to_u8());
            push_be(&mut buf, *transfer_id, 8);
            push_be(&mut buf, *index as u64, 4);
            push_be(&mut buf, data.len() as u64, 2);
            push_all(&mut buf, data.as_slice());
        },
        ClipboardFrame::Ack { transfer_id, content_hash, accepted } => {
            buf.push(EventType::ClipboardAck.to_u8());
            push_be(&mut buf, *transfer_id, 8);
            push_all(&mut buf, content_hash.as_slice());
            buf.push(if *accepted {
                1
            } else {
                0
            });
        },
    }
    assert(buf@ =~= frame@.wire());
    Ok(buf)
}

/// How many chunks a text of `len` bytes takes.
fn chunk_count(len: usize) -> (count: usize)
    requires
        len <= 0xffff_ffff - CLIPBOARD_CHUNK_SIZE,
    ensures
        count == chunk_count_for(len as nat),
{
    if len == 0 {
        1
    } else {
        (len + (CLIPBOARD_CHUNK_SIZE - 1)) / CLIPBOARD_CHUNK_SIZE
    }
}

/// The frame that a datagram holds, or the reason why there is none.
pub fn decode_clipboard_frame(buf: &[u8]) -> (frame: Result<ClipboardFrame, ProtocolError>)
    ensures
        match frame {
            Ok(f) => frame_of(buf@) == Ok::<FrameView, ProtocolError>(f@),
            Err(e) => frame_of(buf@) == Err::<FrameView, ProtocolError>(e),
        },
{
    if buf.len() == 0 || buf.len() > MAX_CLIPBOARD_DATAGRAM_SIZE {
        return Err(ProtocolError::BufferTooSmall);
    }
    proof {
        crate::bytes::lemma_byte_spans();
    }
    let tag = match EventType::from_u8(buf[0]) {
        Ok(tag) => tag,
        Err(e) => {
            return Err(e);
        },
    };
    match tag {
        EventType::ClipboardBegin => {
            if buf.len() < 11 {
                return Err(ProtocolError::BufferTooSmall);
            }
            let transfer_id: u64 = read_be(buf, 1, 8);
            let fp_len: usize = read_be(buf, 9, 2) as usize;
            if fp_len > MAX_FINGERPRINT_SIZE || buf.len() < 11 + fp_len {
                return Err(ProtocolError::InvalidClipboardTransfer);
            }
            let at: usize = 11 + fp_len;
            let from_fingerprint = match text_from_utf8(copy_range(buf, 11, at)) {
                Ok(text) => text,
                Err(_) => {
                    return Err(ProtocolError::InvalidUtf8);
                },
            };
            proof {
                vstd::utf8::encode_utf8_decode_utf8(from_fingerprint@);
            }
            if buf.len() < at + 40 {
                return Err(ProtocolError::BufferTooSmall);
            }
            let content_len: u32 = read_be(buf, at, 4) as u32;
            let count: u32 = read_be(buf, at + 4, 4) as u32;
            let content_hash: [u8; 32] = crate::proto::get_array::<32>(buf, at + 8);
            if content_len as usize > MAX_CLIPBOARD_SIZE || count as usize != chunk_count(
                content_len as usize,
            ) {
                return Err(ProtocolError::InvalidClipboardTransfer);
            }
            Ok(
                ClipboardFrame::Begin {
                    transfer_id,
                    from_fingerprint,
                    content_len,
                    chunk_count: count,
                    content_hash,
                },
            )
        },
        EventType::ClipboardChunk => {
            if buf.len() < 15 {
                return Err(ProtocolError::BufferTooSmall);
            }
            let transfer_id: u64 = read_be(buf, 1, 8);
            let index: u32 = read_be(buf, 9, 4) as u32;
            let len: usize = read_be(buf, 13, 2) as usize;
            if len > CLIPBOARD_CHUNK_SIZE || buf.len() != 15 + len {
                return Err(ProtocolError::InvalidClipboardTransfer);
            }
            let data: Vec<u8> = copy_range(buf, 15, buf.len());
            assert(data@ =~= buf@.skip(15));
            Ok(ClipboardFrame::Chunk { transfer_id, index, data })
        },
        EventType::ClipboardAck => {
            if buf.len() < 42 {
                return Err(ProtocolError::BufferTooSmall);
            }
            let transfer_id: u64 = read_be(buf, 1, 8);
            let content_hash: [u8; 32] = crate::proto::get_array::<32>(buf, 9);
            let accepted: bool = buf[41] != 0;
            if buf.len() != 42 {
                return Err(ProtocolError::InvalidClipboardTransfer);
            }
            Ok(ClipboardFrame::Ack { transfer_id, content_hash, accepted })
        },
        _ => Err(ProtocolError::InvalidClipboardTransfer),
    }
}

/// A frame that a decoder takes: one that can be encoded, whose hash has the
/// length of a SHA-256 hash, and whose number of chunks is that of its text.
pub open spec fn well_formed_frame(frame: FrameView) -> bool {
    &&& frame.encode_error() is None
    &&& match frame {
        FrameView::Begin { content_len, chunk_count, content_hash, .. } => content_hash.len() == 32
            && chunk_count == chunk_count_for(content_len as nat),
        FrameView::Chunk { .. } => true,
        FrameView::Ack { content_hash, .. } => content_hash.len() == 32,
    }
}

proof fn lemma_begin_round_trip(frame: FrameView)
    requires
        frame is Begin,
        well_formed_frame(frame),
    ensures
        frame_of(frame.wire()) == Ok::<FrameView, ProtocolError>(frame),
{
    let buf = frame.wire();
    let fingerprint = vstd::utf8::encode_utf8(frame->from_fingerprint);
    crate::bytes::lemma_byte_spans();
    crate::bytes::lemma_be_round_trip(frame->Begin_transfer_id as nat, 8);
    crate::bytes::lemma_be_round_trip(fingerprint.len(), 2);
    crate::bytes::lemma_be_round_trip(frame->content_len as nat, 4);
    crate::bytes::lemma_be_round_trip(frame->chunk_count as nat, 4);
    vstd::utf8::encode_utf8_valid_utf8(frame->from_fingerprint);
    vstd::utf8::encode_utf8_decode_utf8(frame->from_fingerprint);
    let at = 11 + fingerprint.len() as int;
    assert(buf.subrange(1, 9) =~= be_bytes(frame->Begin_transfer_id as nat, 8));
    assert(buf.subrange(9, 11) =~= be_bytes(fingerprint.len(), 2));
    assert(buf.subrange(11, at) =~= fingerprint);
    assert(buf.subrange(at, at + 4) =~= be_bytes(frame->content_len as nat, 4));
    assert(buf.subrange(at + 4, at + 8) =~= be_bytes(frame->chunk_count as nat, 4));
    assert(buf.subrange(at + 8, at + 40) =~= frame->Begin_content_hash);
}

/// Decoding the datagram of a well-formed frame gives the frame back, and the
/// datagram fits in [`MAX_CLIPBOARD_DATAGRAM_SIZE`] bytes.
pub proof fn law_frame_round_trip(frame: FrameView)
    requires
        well_formed_frame(frame),
    ensures
        frame.wire().len() <= MAX_CLIPBOARD_DATAGRAM_SIZE,
        frame_of(frame.wire()) == Ok::<FrameView, ProtocolError>(frame),
{
    let buf = frame.wire();
    crate::bytes::lemma_byte_spans();
    assert forall|v: nat, w: nat| #[trigger] be_bytes(v, w).len() == w by {
        crate::bytes::lemma_be_bytes_len(v, w);
    }
    match frame {
        FrameView::Begin { .. } => {
            lemma_begin_round_trip(frame);
        },
        FrameView::Chunk { transfer_id, index, data } => {
            crate::bytes::lemma_be_round_trip(transfer_id as nat, 8);
            crate::bytes::lemma_be_round_trip(index as nat, 4);
            crate::bytes::lemma_be_round_trip(data.len(), 2);
            assert(buf.subrange(1, 9) =~= be_bytes(transfer_id as nat, 8));
            assert(buf.subrange(9, 13) =~= be_bytes(index as nat, 4));
            assert(buf.subrange(13, 15) =~= be_bytes(data.len(), 2));
            assert(buf.skip(15) =~= data);
        },
        FrameView::Ack { transfer_id, content_hash, accepted } => {
            crate::bytes::lemma_be_round_trip(transfer_id as nat, 8);
            assert(buf.subrange(1, 9) =~= be_bytes(transfer_id as nat, 8));
            assert(buf.subrange(9, 41) =~= content_hash);
            assert(buf[41] == crate::proto::flag_byte(accepted));
        },
    }
}

/// The frames of a transfer: its opening, then every chunk in order.
pub open spec fn transfer_frames(
    transfer_id: u64,
    from_fingerprint: Seq<char>,
    content: Seq<u8>,
) -> Seq<FrameView> {
    Seq::new(
        1 + chunk_count_for(content.len()),
        |i: int|
            if i == 0 {
                begin_frame(transfer_id, from_fingerprint, content)
            } else {
                chunk_frame(transfer_id, content, (i - 1) as nat)
            },
    )
}

pub open spec fn begin_frame(
    transfer_id: u64,
    from_fingerprint: Seq<char>,
    content: Seq<u8>,
) -> FrameView {
    FrameView::Begin {
        transfer_id,
        from_fingerprint,
        content_len: content.len() as u32,
        chunk_count: chunk_count_for(content.len()) as u32,
        content_hash: sha256(content)@,
    }
}

pub open spec fn chunk_frame(transfer_id: u64, content: Seq<u8>, index: nat) -> FrameView {
    FrameView::Chunk { transfer_id, index: index as u32, data: chunk_data(content, index) }
}

impl ProtoEvent {
    /// The event carries clipboard text.
    pub open spec fn carries_text(self) -> bool {
        self is Clipboard || self matches ProtoEvent::Input(
            Event::Clipboard(ClipboardEvent::Text(_)),
        )
    }

    /// The fingerprint that goes with the text: none where the text was read
    /// from the local clipboard.
    pub open spec fn text_fingerprint(self) -> Seq<char> {
        match self {
            ProtoEvent::Clipboard { from_fingerprint, .. } => from_fingerprint@,
            _ => ""@,
        }
    }

    /// The clipboard text.
    pub open spec fn clipboard_text(self) -> Seq<char> {
        match self {
            ProtoEvent::Clipboard { content, .. } => content@,
            ProtoEvent::Input(Event::Clipboard(ClipboardEvent::Text(content))) => content@,
            _ => ""@,
        }
    }
}

/// Whether a text is too large to be transferred, or its fingerprint is.
pub open spec fn too_large(from_fingerprint: Seq<char>, content: Seq<char>) -> bool {
    vstd::utf8::encode_utf8(from_fingerprint).len() > MAX_FINGERPRINT_SIZE
        || vstd::utf8::encode_utf8(content).len() > MAX_CLIPBOARD_SIZE
}

/// `transfer` is what the text of an event is sent as: the datagrams of its
/// frames and its hash, or why it is not sent.
pub open spec fn transfers(
    event: ProtoEvent,
    transfer_id: u64,
    transfer: Result<(Vec<Vec<u8>>, [u8; 32]), ProtocolError>,
) -> bool {
    let content = vstd::utf8::encode_utf8(event.clipboard_text());
    let frames = transfer_frames(transfer_id, event.text_fingerprint(), content);
    match transfer {
        Ok((datagrams, hash)) => {
            &&& !too_large(event.text_fingerprint(), event.clipboard_text())
            &&& hash == sha256(content)
            &&& datagrams@.len() == frames.len()
            &&& forall|i: int|
                0 <= i < frames.len() ==> #[trigger] datagrams@[i]@ == frames[i].wire()
            &&& forall|i: int|
                0 <= i < frames.len() ==> (#[trigger] datagrams@[i])@.len()
                    <= MAX_CLIPBOARD_DATAGRAM_SIZE
        },
        Err(e) => too_large(event.text_fingerprint(), event.clipboard_text()) && e
            == ProtocolError::ClipboardTooLarge(content.len() as usize),
    }
}

/// Splits clipboard text into datagrams: the opening of the transfer, then its
/// chunks. The sender sends them again until it gets an acknowledgement with
/// the same hash.
pub fn encode_clipboard_transfer(event: &ProtoEvent, transfer_id: u64) -> (transfer: Result<
    (Vec<Vec<u8>>, [u8; 32]),
    ProtocolError,
>)
    requires
        event.carries_text(),
    ensures
        transfers(*event, transfer_id, transfer),
{
    let (from_fingerprint, content): (&str, &str) = match event {
        ProtoEvent::Clipboard { from_fingerprint, content } => (
            from_fingerprint.as_str(),
            content.as_str(),
        ),
        ProtoEvent::Input(Event::Clipboard(ClipboardEvent::Text(content))) => (
            "",
            content.as_str(),
        ),
        _ => ("", ""),
    };
    let text: &[u8] = content.as_bytes();
    if from_fingerprint.as_bytes().len() > MAX_FINGERPRINT_SIZE || text.len()
        > MAX_CLIPBOARD_SIZE {
        return Err(ProtocolError::ClipboardTooLarge(text.len()));
    }
    let content_hash: [u8; 32] = sha256_digest(text);
    let count: usize = chunk_count(text.len());
    let begin = ClipboardFrame::Begin {
        transfer_id,
        from_fingerprint: from_fingerprint.to_owned(),
        content_len: text.len() as u32,
        chunk_count: count as u32,
        content_hash,
    };
    let ghost frames = transfer_frames(transfer_id, from_fingerprint@, text@);
    assert(begin@ =~= frames[0]);
    let mut datagrams: Vec<Vec<u8>> = Vec::with_capacity(count + 1);
    match encode_clipboard_frame(&begin) {
        Ok(datagram) => datagrams.push(datagram),
        Err(e) => {
            return Err(e);
        },
    }
    let mut index: usize = 0;
    while index < count
        invariant
            text@.len() <= MAX_CLIPBOARD_SIZE,
            text@.len() == text.len(),
            index <= count == chunk_count_for(text@.len()),
            count <= 0x1_0000,
            frames == transfer_frames(transfer_id, from_fingerprint@, text@),
            datagrams@.len() == index + 1,
            forall|i: int| 0 <= i <= index ==> #[trigger] datagrams@[i]@ == frames[i].wire(),
            forall|i: int|
                0 <= i <= index ==> (#[trigger] datagrams@[i])@.len() <= MAX_CLIPBOARD_DATAGRAM_SIZE,
        decreases count - index,
    {
        let start: usize = if index * CLIPBOARD_CHUNK_SIZE < text.len() {
            index * CLIPBOARD_CHUNK_SIZE
        } else {
            text.len()
        };
        let end: usize = if (index + 1) * CLIPBOARD_CHUNK_SIZE < text.len() {
            (index + 1) * CLIPBOARD_CHUNK_SIZE
        } else {
            text.len()
        };
        let chunk = ClipboardFrame::Chunk {
            transfer_id,
            index: index as u32,
            data: copy_range(text, start, end),
        };
        assert(chunk@ =~= frames[index + 1]);
        match encode_clipboard_frame(&chunk) {
            Ok(datagram) => datagrams.push(datagram),
            Err(e) => {
                assert(false);
                return Err(e);
            },
        }
        index += 1;
    }
    Ok((datagrams, content_hash))
}

/// Every datagram of a transfer decodes to the frame that it was made from.
pub proof fn law_transfer_decodes(
    transfer_id: u64,
    from_fingerprint: Seq<char>,
    content: Seq<char>,
    i: int,
)
    requires
        !too_large(from_fingerprint, content),
        0 <= i < transfer_frames(
            transfer_id,
            from_fingerprint,
            vstd::utf8::encode_utf8(content),
        ).len(),
    ensures
        ({
            let frames = transfer_frames(
                transfer_id,
                from_fingerprint,
                vstd::utf8::encode_utf8(content),
            );
            frame_of(frames[i].wire()) == Ok::<FrameView, ProtocolError>(frames[i])
        }),
{
    let frames = transfer_frames(transfer_id, from_fingerprint, vstd::utf8::encode_utf8(content));
    law_frame_round_trip(frames[i]);
}

/// Text of up to 2 MiB is sent, whatever its transfer's number, and longer text
/// is not: in datagrams of at most 1200 bytes, the first of which opens the
/// transfer with the number, the fingerprint, the length and the hash of the
/// text, while the others hold its bytes in blocks of 1120, the last of which
/// may be shorter, each with the same number and its place.
pub proof fn law_text_is_sent_in_blocks(
    from_fingerprint: String,
    content: String,
    transfer_id: u64,
    transfer: Result<(Vec<Vec<u8>>, [u8; 32]), ProtocolError>,
    i: int,
)
    requires
        transfers(ProtoEvent::Clipboard { from_fingerprint, content }, transfer_id, transfer),
    ensures
        ({
            let bytes = vstd::utf8::encode_utf8(content@);
            let fits = vstd::utf8::encode_utf8(from_fingerprint@).len() <= 256 && bytes.len()
                <= 2_097_152;
            match transfer {
                Err(e) => !fits && e == ProtocolError::ClipboardTooLarge(bytes.len() as usize),
                Ok((datagrams, hash)) => {
                    &&& fits
                    &&& hash == sha256(bytes)
                    &&& datagrams@.len() > 1
                    &&& (datagrams@.len() - 2) * 1120 <= bytes.len()
                    &&& bytes.len() <= (datagrams@.len() - 1) * 1120
                    &&& bytes.len() > 0 ==> (datagrams@.len() - 2) * 1120 < bytes.len()
                    &&& frame_of(datagrams@[0]@) == Ok::<FrameView, ProtocolError>(
                        FrameView::Begin {
                            transfer_id,
                            from_fingerprint: from_fingerprint@,
                            content_len: bytes.len() as u32,
                            chunk_count: (datagrams@.len() - 1) as u32,
                            content_hash: hash@,
                        },
                    )
                    &&& 0 < i < datagrams@.len() ==> frame_of(datagrams@[i]@) == Ok::<
                        FrameView,
                        ProtocolError,
                    >(
                        FrameView::Chunk {
                            transfer_id,
                            index: (i - 1) as u32,
                            data: bytes.subrange(
                                (i - 1) * 1120,
                                if i * 1120 < bytes.len() {
                                    i * 1120
                                } else {
                                    bytes.len() as int
                                },
                            ),
                        },
                    )
                    &&& 0 <= i < datagrams@.len() ==> datagrams@[i]@.len() <= 1200
                },
            }
        }),
{
    let event = ProtoEvent::Clipboard { from_fingerprint, content };
    let bytes = vstd::utf8::encode_utf8(content@);
    if let Ok((datagrams, _)) = transfer {
        let frames = transfer_frames(transfer_id, from_fingerprint@, bytes);
        law_transfer_decodes(transfer_id, from_fingerprint@, content@, 0);
        assert(datagrams@[0]@ == frames[0].wire());
        if 0 < i < datagrams@.len() {
            law_transfer_decodes(transfer_id, from_fingerprint@, content@, i);
            assert(datagrams@[i]@ == frames[i].wire());
        }
    }
}

/// Text of the local clipboard is sent as text that no peer has sent before: the
/// same text with an empty fingerprint.
pub proof fn law_local_text_is_sent_alike(
    content: String,
    nobody: String,
    transfer_id: u64,
    transfer: Result<(Vec<Vec<u8>>, [u8; 32]), ProtocolError>,
)
    requires
        nobody@.len() == 0,
    ensures
        transfers(
            ProtoEvent::Input(Event::Clipboard(ClipboardEvent::Text(content))),
            transfer_id,
            transfer,
        ) <==> transfers(
            ProtoEvent::Clipboard { from_fingerprint: nobody, content },
            transfer_id,
            transfer,
        ),
{
    reveal_strlit("");
    assert(nobody@ =~= ""@);
}

/// Where each part of a clipboard datagram stands.
pub proof fn law_frame_layout(frame: FrameView)
    requires
        well_formed_frame(frame),
    ensures
        ({
            let w = frame.wire();
            match frame {
                FrameView::Begin {
                    transfer_id,
                    from_fingerprint,
                    content_len,
                    chunk_count,
                    content_hash,
                } => {
                    let fingerprint = vstd::utf8::encode_utf8(from_fingerprint);
                    let at = 11 + fingerprint.len() as int;
                    &&& w.len() == at + 40
                    &&& w[0] == 17
                    &&& octet_at(w, 1) == transfer_id
                    &&& pair_at(w, 9) == fingerprint.len()
                    &&& w.subrange(11, at) == fingerprint
                    &&& quad_at(w, at) == content_len
                    &&& quad_at(w, at + 4) == chunk_count
                    &&& w.subrange(at + 8, at + 40) == content_hash
                },
                FrameView::Chunk { transfer_id, index, data } => {
                    &&& w.len() == 15 + data.len()
                    &&& w[0] == 18
                    &&& octet_at(w, 1) == transfer_id
                    &&& quad_at(w, 9) == index
                    &&& pair_at(w, 13) == data.len()
                    &&& w.skip(15) == data
                },
                FrameView::Ack { transfer_id, content_hash, accepted } => {
                    &&& w.len() == 42
                    &&& w[0] == 19
                    &&& octet_at(w, 1) == transfer_id
                    &&& w.subrange(9, 41) == content_hash
                    &&& crate::proto::flag_at(w, 41, accepted)
                },
            }
        }),
{
    let w = frame.wire();
    assert forall|v: nat, n: nat| #[trigger] be_bytes(v, n).len() == n by {
        crate::bytes::lemma_be_bytes_len(v, n);
    }
    law_numbers_are_big_endian(frame.transfer_id() as nat);
    let id = be_bytes(frame.transfer_id() as nat, 8);
    assert forall|k: int| 0 <= k < 8 implies w[1 + k] == id[k] by {}
    assert(octet_at(w, 1) == octet_at(id, 0));
    match frame {
        FrameView::Begin { transfer_id, from_fingerprint, content_len, chunk_count, content_hash } => {
            let fingerprint = vstd::utf8::encode_utf8(from_fingerprint);
            let at = 11 + fingerprint.len() as int;
            law_numbers_are_big_endian(fingerprint.len());
            law_numbers_are_big_endian(content_len as nat);
            law_numbers_are_big_endian(chunk_count as nat);
            let len = be_bytes(content_len as nat, 4);
            let count = be_bytes(chunk_count as nat, 4);
            assert(w.subrange(11, at) =~= fingerprint);
            assert forall|k: int| 0 <= k < 4 implies w[at + k] == len[k] && w[at + 4 + k]
                == count[k] by {}
            assert(quad_at(w, at) == quad_at(len, 0));
            assert(quad_at(w, at + 4) == quad_at(count, 0));
            assert(w.subrange(at + 8, at + 40) =~= content_hash);
        },
        FrameView::Chunk { transfer_id, index, data } => {
            law_numbers_are_big_endian(index as nat);
            law_numbers_are_big_endian(data.len());
            let place = be_bytes(index as nat, 4);
            assert forall|k: int| 0 <= k < 4 implies w[9 + k] == place[k] by {}
            assert(quad_at(w, 9) == quad_at(place, 0));
            assert(w.skip(15) =~= data);
        },
        FrameView::Ack { transfer_id, content_hash, accepted } => {
            assert(w.subrange(9, 41) =~= content_hash);
        },
    }
}

/// What is decoded is a frame that a sender may send: within the limits of size,
/// with as many chunks as its text takes.
pub proof fn law_decoded_frames_are_well_formed(buf: Seq<u8>)
    requires
        frame_of(buf) is Ok,
    ensures
        0 < buf.len() <= 1200,
        well_formed_frame(frame_of(buf)->Ok_0),
        buf[0] == 17 <==> frame_of(buf)->Ok_0 is Begin,
        buf[0] == 18 <==> frame_of(buf)->Ok_0 is Chunk,
        buf[0] == 19 <==> frame_of(buf)->Ok_0 is Ack,
{
    if buf[0] == EventType::ClipboardBegin.number() {
        let fp_len = be_value(buf.subrange(9, 11)) as int;
        vstd::utf8::decode_utf8_encode_utf8(buf.subrange(11, 11 + fp_len));
    }
}

/// A text takes as many chunks as blocks of 1120 bytes cover it, and at least
/// one.
pub proof fn law_chunks_cover_the_text(len: nat)
    ensures
        chunk_count_for(len) >= 1,
        len <= chunk_count_for(len) * 1120,
        len > 0 ==> (chunk_count_for(len) - 1) * 1120 < len,
        len == 0 ==> chunk_count_for(len) == 1,
{
}

} // verus!
