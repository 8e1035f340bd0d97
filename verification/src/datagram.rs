//! A datagram of a peer: an event or a part of a clipboard transfer.
use vstd::prelude::*;
use crate::clipboard::{
    decode_clipboard_frame, frame_of, law_frame_round_trip, well_formed_frame, ClipboardFrame,
    FrameView,
};
use crate::proto::{decodes, EventType, ProtoEvent, ProtocolError, MAX_EVENT_SIZE};

verus! {

/// What a datagram holds.
#[derive(Debug)]
pub enum DecodedDatagram {
    Proto(ProtoEvent),
    Clipboard(ClipboardFrame),
}

/// The datagram in a buffer of the fixed size: cut off or followed by zeros.
pub open spec fn padded(bytes: Seq<u8>) -> Seq<u8> {
    Seq::new(
        MAX_EVENT_SIZE as nat,
        |i: int|
            if i < bytes.len() {
                bytes[i]
            } else {
                0u8
            },
    )
}

/// The tag is that of a part of a clipboard transfer.
pub open spec fn clipboard_tag(tag: u8) -> bool {
    tag == EventType::ClipboardBegin.number() || tag == EventType::ClipboardChunk.number() || tag
        == EventType::ClipboardAck.number()
}

/// The datagram ends before the payload of the event that it begins.
pub open spec fn cut_short(bytes: Seq<u8>, event: ProtoEvent) -> bool {
    decodes(padded(bytes), Ok(event)) && bytes.len() < event.wire().len()
}

/// `decoded` is what a datagram holds: nothing where it cannot be decoded, or
/// where its payload is cut short.
pub open spec fn datagram_holds(bytes: Seq<u8>, decoded: Option<DecodedDatagram>) -> bool {
    match decoded {
        Some(DecodedDatagram::Clipboard(frame)) => bytes.len() > 0 && clipboard_tag(bytes[0])
            && frame_of(bytes) == Ok::<FrameView, ProtocolError>(frame@),
        Some(DecodedDatagram::Proto(event)) => bytes.len() > 0 && !clipboard_tag(bytes[0])
            && decodes(padded(bytes), Ok(event)) && event.wire().len() <= bytes.len(),
        None => bytes.len() == 0 || (if clipboard_tag(bytes[0]) {
            frame_of(bytes) is Err
        } else {
            ||| exists|e: ProtocolError| decodes(padded(bytes), Err(e))
            ||| exists|event: ProtoEvent| cut_short(bytes, event)
        }),
    }
}

/// What a datagram holds: nothing where it cannot be decoded, or where its
/// payload is cut short. A peer may send events that this version does not know,
/// so that is no reason to drop the connection.
pub fn decode_proto_datagram(bytes: &[u8]) -> (decoded: Option<DecodedDatagram>)
    ensures
        datagram_holds(bytes@, decoded),
{
    if bytes.len() == 0 {
        return None;
    }
    let mut fixed: [u8; MAX_EVENT_SIZE] = [0u8;MAX_EVENT_SIZE];
    let mut i: usize = 0;
    while i < bytes.len() && i < MAX_EVENT_SIZE
        invariant
            i <= bytes@.len(),
            i <= MAX_EVENT_SIZE,
            forall|k: int| 0 <= k < i ==> fixed@[k] == bytes@[k],
            forall|k: int| i <= k < MAX_EVENT_SIZE ==> fixed@[k] == 0,
        decreases MAX_EVENT_SIZE - i,
    {
        fixed[i] = bytes[i];
        i += 1;
    }
    assert(fixed@ =~= padded(bytes@));
    let tag: u8 = bytes[0];
    if tag == EventType::ClipboardBegin.to_u8() || tag == EventType::ClipboardChunk.to_u8() || tag
        == EventType::ClipboardAck.to_u8() {
        return match decode_clipboard_frame(bytes) {
            Ok(frame) => Some(DecodedDatagram::Clipboard(frame)),
            Err(_) => None,
        };
    }
    match ProtoEvent::try_from(fixed) {
        Ok(event) => {
            let (_, len) = event.encode();
            if len <= bytes.len() {
                Some(DecodedDatagram::Proto(event))
            } else {
                assert(cut_short(bytes@, event));
                None
            }
        },
        Err(e) => {
            assert(decodes(padded(bytes@), Err(e)));
            None
        },
    }
}

/// A buffer holds one event.
proof fn lemma_decoded_is_unique(buf: Seq<u8>, first: ProtoEvent, second: ProtoEvent)
    requires
        decodes(buf, Ok(first)),
        decodes(buf, Ok(second)),
    ensures
        first == second,
{
    if let ProtoEvent::Hello { magic, commit } = first {
        assert(second->magic =~= magic);
        assert(second->commit =~= commit);
    }
}

/// A datagram never holds two things: what is decoded is determined, and
/// whether anything is.
pub proof fn law_datagrams_are_unambiguous(
    bytes: Seq<u8>,
    first: Option<DecodedDatagram>,
    second: Option<DecodedDatagram>,
)
    requires
        datagram_holds(bytes, first),
        datagram_holds(bytes, second),
    ensures
        first is Some <==> second is Some,
        first matches Some(DecodedDatagram::Clipboard(f)) ==> second matches Some(
            DecodedDatagram::Clipboard(g),
        ) && f@ == g@,
        first matches Some(DecodedDatagram::Proto(e)) ==> second matches Some(
            DecodedDatagram::Proto(h),
        ) && e == h,
{
    assert forall|e: ProtoEvent, h: ProtoEvent|
        #[trigger] decodes(padded(bytes), Ok(e)) && #[trigger] decodes(padded(bytes), Ok(h)) implies e
        == h by {
        lemma_decoded_is_unique(padded(bytes), e, h);
    }
}

/// The event of a datagram is the one that was sent: the encoding of any event
/// but a clipboard event comes through as a whole.
pub proof fn law_sent_events_arrive(event: ProtoEvent, decoded: Option<DecodedDatagram>)
    requires
        !event.is_clipboard(),
        datagram_holds(event.wire(), decoded),
    ensures
        decoded == Some(DecodedDatagram::Proto(event)),
{
    event.lemma_wire_fits();
    let wire = event.wire();
    let buf = padded(wire);
    assert(wire[0] == event.tag().number());
    assert(buf[0] == wire[0]);
    assert(wire.is_prefix_of(buf)) by {
        assert(wire =~= buf.take(wire.len() as int));
    }
    match decoded {
        Some(DecodedDatagram::Proto(e)) => {
            crate::proto::law_event_round_trip(event, buf, Ok(e));
        },
        Some(DecodedDatagram::Clipboard(_)) => {},
        None => {
            if exists|e: ProtocolError| decodes(buf, Err(e)) {
                let e = choose|e: ProtocolError| decodes(buf, Err(e));
                crate::proto::law_event_round_trip(event, buf, Err(e));
            } else {
                let other = choose|other: ProtoEvent| cut_short(wire, other);
                crate::proto::law_event_round_trip(event, buf, Ok(other));
            }
        },
    }
}

/// An event whose encoding is cut short is not taken for another one: nothing
/// is decoded.
pub proof fn law_cut_events_are_refused(event: ProtoEvent, n: nat, decoded: Option<DecodedDatagram>)
    requires
        !event.is_clipboard(),
        n < event.wire().len(),
        datagram_holds(event.wire().take(n as int), decoded),
    ensures
        decoded is None,
{
    let bytes = event.wire().take(n as int);
    if n > 0 {
        assert(bytes[0] == event.tag().number());
        assert(padded(bytes)[0] == bytes[0]);
        if let Some(DecodedDatagram::Proto(other)) = decoded {
            assert forall|v: nat, w: nat| #[trigger] crate::bytes::be_bytes(v, w).len() == w by {
                crate::bytes::lemma_be_bytes_len(v, w);
            }
            assert(other.tag() == event.tag());
            assert(other.wire().len() == event.wire().len());
        }
    }
}

/// A part of a clipboard transfer, and its acknowledgement, arrive as they were
/// sent.
pub proof fn law_sent_frames_arrive(frame: FrameView, decoded: Option<DecodedDatagram>)
    requires
        well_formed_frame(frame),
        datagram_holds(frame.wire(), decoded),
    ensures
        decoded matches Some(DecodedDatagram::Clipboard(f)) && f@ == frame,
{
    law_frame_round_trip(frame);
    assert(frame.wire()[0] == match frame {
        FrameView::Begin { .. } => EventType::ClipboardBegin.number(),
        FrameView::Chunk { .. } => EventType::ClipboardChunk.number(),
        FrameView::Ack { .. } => EventType::ClipboardAck.number(),
    });
}

} // verus!
