//! Puts clipboard transfers together from chunks that arrive in any order and
//! any number of times.
use vstd::prelude::*;
use std::collections::HashMap;
use crate::bytes::{push_all, same_bytes};
use crate::clipboard::{
    begin_frame, chunk_count_for, chunk_data, chunk_frame, chunk_start, sha256, sha256_digest,
    too_large, transfer_frames, ClipboardFrame, ClipboardTransfer, FrameView, TransferView,
};
use crate::proto::ProtocolError;
use crate::text::text_from_utf8;

verus! {

broadcast use vstd::std_specs::hash::group_hash_axioms;

/// A transfer of which chunks are missing.
#[derive(Debug)]
struct PendingClipboard {
    from_fingerprint: String,
    content_len: usize,
    content_hash: [u8; 32],
    chunks: Vec<Option<Vec<u8>>>,
}

/// What is known of a transfer of which chunks are missing.
#[verifier::ext_equal]
pub struct PendingView {
    pub from_fingerprint: Seq<char>,
    pub content_len: nat,
    pub content_hash: Seq<u8>,
    pub chunks: Seq<Option<Seq<u8>>>,
}

/// The bytes of a chunk, where it has arrived.
pub open spec fn chunk_view(chunk: Option<Vec<u8>>) -> Option<Seq<u8>> {
    match chunk {
        Some(bytes) => Some(bytes@),
        None => None,
    }
}

impl View for PendingClipboard {
    type V = PendingView;

    closed spec fn view(&self) -> PendingView {
        PendingView {
            from_fingerprint: self.from_fingerprint@,
            content_len: self.content_len as nat,
            content_hash: self.content_hash@,
            chunks: self.chunks@.map_values(|c: Option<Vec<u8>>| chunk_view(c)),
        }
    }
}

/// The transfers under way, by their number.
#[derive(Debug)]
pub struct ClipboardAssembler {
    pending: HashMap<u64, PendingClipboard>,
}

impl View for ClipboardAssembler {
    type V = Map<u64, PendingView>;

    closed spec fn view(&self) -> Map<u64, PendingView> {
        self.pending@.map_values(|p: PendingClipboard| p@)
    }
}

/// The chunks that have arrived, one after the other.
pub open spec fn gathered(chunks: Seq<Option<Seq<u8>>>) -> Seq<u8>
    decreases chunks.len(),
{
    if chunks.len() == 0 {
        seq![]
    } else {
        gathered(chunks.drop_last()) + (match chunks.last() {
            Some(bytes) => bytes,
            None => seq![],
        })
    }
}

/// Every chunk has arrived.
pub open spec fn complete(chunks: Seq<Option<Seq<u8>>>) -> bool {
    forall|i: int| 0 <= i < chunks.len() ==> #[trigger] chunks[i] is Some
}

/// The transfer with one more chunk: the first arrival of each chunk counts.
pub open spec fn with_chunk(pending: PendingView, index: int, data: Seq<u8>) -> PendingView {
    if pending.chunks[index] is None {
        PendingView { chunks: pending.chunks.update(index, Some(data)), ..pending }
    } else {
        pending
    }
}

/// What a transfer of which every chunk has arrived amounts to.
pub open spec fn finished(transfer_id: u64, pending: PendingView) -> Result<
    TransferView,
    ProtocolError,
> {
    let bytes = gathered(pending.chunks);
    if bytes.len() != pending.content_len {
        Err(ProtocolError::InvalidClipboardTransfer)
    } else if sha256(bytes)@ != pending.content_hash {
        Err(ProtocolError::ClipboardHashMismatch)
    } else if !vstd::utf8::valid_utf8(bytes) {
        Err(ProtocolError::InvalidUtf8)
    } else {
        Ok(
            TransferView {
                transfer_id,
                from_fingerprint: pending.from_fingerprint,
                content: vstd::utf8::decode_utf8(bytes),
                content_hash: pending.content_hash,
            },
        )
    }
}

/// The transfers under way after a frame has arrived.
pub open spec fn pending_after(before: Map<u64, PendingView>, frame: FrameView) -> Map<
    u64,
    PendingView,
> {
    match frame {
        FrameView::Begin {
            transfer_id,
            from_fingerprint,
            content_len,
            chunk_count,
            content_hash,
        } => {
            if before.contains_key(transfer_id) && before[transfer_id].content_len == content_len
                && before[transfer_id].content_hash == content_hash
                && before[transfer_id].from_fingerprint == from_fingerprint {
                before
            } else {
                before.insert(
                    transfer_id,
                    PendingView {
                        from_fingerprint,
                        content_len: content_len as nat,
                        content_hash,
                        chunks: Seq::new(chunk_count as nat, |i: int| None::<Seq<u8>>),
                    },
                )
            }
        },
        FrameView::Chunk { transfer_id, index, data } => {
            if !before.contains_key(transfer_id) || index >= before[transfer_id].chunks.len() {
                before
            } else {
                let pending = with_chunk(before[transfer_id], index as int, data);
                if complete(pending.chunks) {
                    before.remove(transfer_id)
                } else {
                    before.insert(transfer_id, pending)
                }
            }
        },
        FrameView::Ack { .. } => before,
    }
}

/// What the arrival of a frame brings: a completed transfer, nothing, or an
/// error.
pub open spec fn outcome(before: Map<u64, PendingView>, frame: FrameView) -> Result<
    Option<TransferView>,
    ProtocolError,
> {
    match frame {
        FrameView::Chunk { transfer_id, index, data } => {
            if !before.contains_key(transfer_id) {
                Ok(None)
            } else if index >= before[transfer_id].chunks.len() {
                Err(ProtocolError::InvalidClipboardTransfer)
            } else {
                let pending = with_chunk(before[transfer_id], index as int, data);
                if !complete(pending.chunks) {
                    Ok(None)
                } else {
                    match finished(transfer_id, pending) {
                        Ok(transfer) => Ok(Some(transfer)),
                        Err(e) => Err(e),
                    }
                }
            }
        },
        _ => Ok(None),
    }
}

/// The outcome of a frame, with the transfer as the assembler hands it out.
pub open spec fn outcome_view(
    result: Result<Option<ClipboardTransfer>, ProtocolError>,
) -> Result<Option<TransferView>, ProtocolError> {
    match result {
        Ok(Some(transfer)) => Ok(Some(transfer@)),
        Ok(None) => Ok(None),
        Err(e) => Err(e),
    }
}

impl Default for ClipboardAssembler {
    /// An assembler with no transfer under way.
    fn default() -> (assembler: Self)
        ensures
            assembler@ == Map::<u64, PendingView>::empty(),
    {
        let assembler = ClipboardAssembler { pending: HashMap::new() };
        assert(assembler@ =~= Map::<u64, PendingView>::empty());
        assembler
    }
}

impl PendingClipboard {
    /// Whether every chunk has arrived.
    fn is_complete(&self) -> (done: bool)
        ensures
            done == complete(self@.chunks),
    {
        let mut i: usize = 0;
        while i < self.chunks.len()
            invariant
                i <= self.chunks@.len(),
                forall|k: int| 0 <= k < i ==> #[trigger] self.chunks@[k] is Some,
            decreases self.chunks@.len() - i,
        {
            if self.chunks[i].is_none() {
                assert(self@.chunks[i as int] is None);
                return false;
            }
            i += 1;
        }
        assert forall|k: int| 0 <= k < self@.chunks.len() implies #[trigger] self@.chunks[k] is Some by {
            assert(self.chunks@[k] is Some);
        }
        true
    }

    /// The chunks that have arrived, one after the other.
    fn gather(&self) -> (bytes: Vec<u8>)
        ensures
            bytes@ == gathered(self@.chunks),
    {
        let mut bytes: Vec<u8> = Vec::new();
        let mut i: usize = 0;
        while i < self.chunks.len()
            invariant
                i <= self.chunks@.len(),
                bytes@ == gathered(self@.chunks.take(i as int)),
            decreases self.chunks@.len() - i,
        {
            let ghost before = bytes@;
            match &self.chunks[i] {
                Some(chunk) => {
                    push_all(&mut bytes, chunk.as_slice());
                },
                None => {},
            }
            proof {
                let next = self@.chunks.take(i + 1);
                assert(next.drop_last() =~= self@.chunks.take(i as int));
                assert(next.last() == chunk_view(self.chunks@[i as int]));
                assert(bytes@ =~= gathered(next));
            }
            i += 1;
        }
        assert(self@.chunks.take(i as int) =~= self@.chunks);
        bytes
    }

    /// What the transfer amounts to, once every chunk has arrived.
    fn finish(self, transfer_id: u64) -> (transfer: Result<ClipboardTransfer, ProtocolError>)
        ensures
            match transfer {
                Ok(t) => finished(transfer_id, self@) == Ok::<TransferView, ProtocolError>(t@),
                Err(e) => finished(transfer_id, self@) == Err::<TransferView, ProtocolError>(e),
            },
    {
        let bytes: Vec<u8> = self.gather();
        if bytes.len() != self.content_len {
            return Err(ProtocolError::InvalidClipboardTransfer);
        }
        let actual_hash: [u8; 32] = sha256_digest(bytes.as_slice());
        if !same_bytes(actual_hash.as_slice(), self.content_hash.as_slice()) {
            return Err(ProtocolError::ClipboardHashMismatch);
        }
        match text_from_utf8(bytes) {
            Ok(content) => {
                proof {
                    vstd::utf8::encode_utf8_decode_utf8(content@);
                }
                Ok(
                    ClipboardTransfer {
                        transfer_id,
                        from_fingerprint: self.from_fingerprint,
                        content,
                        content_hash: self.content_hash,
                    },
                )
            },
            Err(_) => Err(ProtocolError::InvalidUtf8),
        }
    }
}

impl ClipboardAssembler {
    /// Takes a frame in. A chunk of an unknown transfer is dropped: it
    /// overtook the opening, and the sender sends all frames again.
    pub fn push(&mut self, frame: ClipboardFrame) -> (result: Result<
        Option<ClipboardTransfer>,
        ProtocolError,
    >)
        ensures
            final(self)@ == pending_after(old(self)@, frame@),
            outcome_view(result) == outcome(old(self)@, frame@),
    {
        let ghost before = self@;
        match frame {
            ClipboardFrame::Begin {
                transfer_id,
                from_fingerprint,
                content_len,
                chunk_count,
                content_hash,
            } => {
                let known: bool = match self.pending.get(&transfer_id) {
                    Some(existing) => existing.content_len == content_len as usize && same_bytes(
                        existing.content_hash.as_slice(),
                        content_hash.as_slice(),
                    ) && existing.from_fingerprint == from_fingerprint,
                    None => false,
                };
                if !known {
                    let mut chunks: Vec<Option<Vec<u8>>> = Vec::new();
                    let mut i: u32 = 0;
                    while i < chunk_count
                        invariant
                            i <= chunk_count,
                            chunks@.len() == i,
                            forall|k: int| 0 <= k < i ==> #[trigger] chunks@[k] is None,
                        decreases chunk_count - i,
                    {
                        chunks.push(None);
                        i += 1;
                    }
                    let pending = PendingClipboard {
                        from_fingerprint,
                        content_len: content_len as usize,
                        content_hash,
                        chunks,
                    };
                    assert(pending@.chunks =~= Seq::new(
                        chunk_count as nat,
                        |i: int| None::<Seq<u8>>,
                    ));
                    self.pending.insert(transfer_id, pending);
                    assert(self@ =~= pending_after(before, frame@));
                }
                Ok(None)
            },
            ClipboardFrame::Chunk { transfer_id, index, data } => {
                let ghost in_map = self.pending@;
                match self.pending.remove(&transfer_id) {
                    None => {
                        assert(self@ =~= before);
                        Ok(None)
                    },
                    Some(mut pending) => {
                        let ghost arrived = pending@;
                        assert(arrived == before[transfer_id]);
                        if index as usize >= pending.chunks.len() {
                            self.pending.insert(transfer_id, pending);
                            assert(self.pending@ =~= in_map);
                            return Err(ProtocolError::InvalidClipboardTransfer);
                        }
                        if pending.chunks[index as usize].is_none() {
                            pending.chunks.set(index as usize, Some(data));
                            assert(pending@.chunks =~= arrived.chunks.update(
                                index as int,
                                Some(data@),
                            ));
                        } else {
                            assert(arrived.chunks[index as int] is Some);
                        }
                        assert(pending@ == with_chunk(arrived, index as int, data@));
                        if !pending.is_complete() {
                            self.pending.insert(transfer_id, pending);
                            assert(self@ =~= pending_after(before, frame@));
                            return Ok(None);
                        }
                        assert(self@ =~= before.remove(transfer_id));
                        match pending.finish(transfer_id) {
                            Ok(transfer) => Ok(Some(transfer)),
                            Err(e) => Err(e),
                        }
                    },
                }
            },
            ClipboardFrame::Ack { .. } => Ok(None),
        }
    }
}

/// The transfers under way after several frames have arrived.
pub open spec fn pending_after_all(before: Map<u64, PendingView>, frames: Seq<FrameView>) -> Map<
    u64,
    PendingView,
>
    decreases frames.len(),
{
    if frames.len() == 0 {
        before
    } else {
        pending_after(pending_after_all(before, frames.drop_last()), frames.last())
    }
}

/// What the last of several frames brings.
pub open spec fn last_outcome(before: Map<u64, PendingView>, frames: Seq<FrameView>) -> Result<
    Option<TransferView>,
    ProtocolError,
> {
    outcome(pending_after_all(before, frames.drop_last()), frames.last())
}

/// The opening of a transfer, then its chunks in the given order.
pub open spec fn frames_in_order(
    transfer_id: u64,
    from_fingerprint: Seq<char>,
    content: Seq<u8>,
    order: Seq<nat>,
) -> Seq<FrameView> {
    seq![begin_frame(transfer_id, from_fingerprint, content)] + order.map_values(
        |i: nat| chunk_frame(transfer_id, content, i),
    )
}

/// Every chunk of a text of `len` bytes occurs in `order`.
pub open spec fn covers(order: Seq<nat>, len: nat) -> bool {
    forall|i: nat| i < chunk_count_for(len) ==> #[trigger] order.contains(i)
}

/// Each entry of `order` is the index of a chunk of a text of `len` bytes.
pub open spec fn in_range(order: Seq<nat>, len: nat) -> bool {
    forall|k: int| 0 <= k < order.len() ==> #[trigger] order[k] < chunk_count_for(len)
}

/// The transfer once the chunks in `order` have arrived.
spec fn after_order(from_fingerprint: Seq<char>, content: Seq<u8>, order: Seq<nat>) -> PendingView {
    PendingView {
        from_fingerprint,
        content_len: content.len(),
        content_hash: sha256(content)@,
        chunks: Seq::new(
            chunk_count_for(content.len()),
            |i: int|
                if order.contains(i as nat) {
                    Some(chunk_data(content, i as nat))
                } else {
                    None
                },
        ),
    }
}

/// Until its last missing chunk arrives, a transfer holds just the chunks
/// that have arrived.
proof fn lemma_partial(
    before: Map<u64, PendingView>,
    transfer_id: u64,
    from_fingerprint: Seq<char>,
    content: Seq<u8>,
    order: Seq<nat>,
)
    requires
        !before.contains_key(transfer_id),
        content.len() <= 0x100_0000,
        in_range(order, content.len()),
        !covers(order, content.len()),
    ensures
        pending_after_all(
            before,
            frames_in_order(transfer_id, from_fingerprint, content, order),
        ) == before.insert(transfer_id, after_order(from_fingerprint, content, order)),
        last_outcome(before, frames_in_order(transfer_id, from_fingerprint, content, order)) == Ok::<
            Option<TransferView>,
            ProtocolError,
        >(None),
    decreases order.len(),
{
    let frames = frames_in_order(transfer_id, from_fingerprint, content, order);
    let count = chunk_count_for(content.len());
    let now = after_order(from_fingerprint, content, order);
    if order.len() == 0 {
        assert(frames.drop_last() =~= Seq::<FrameView>::empty());
        assert(frames.last() == begin_frame(transfer_id, from_fingerprint, content));
        reveal_with_fuel(pending_after_all, 2);
        assert(now.chunks =~= Seq::new(
            begin_frame(transfer_id, from_fingerprint, content)->chunk_count as nat,
            |i: int| None::<Seq<u8>>,
        ));
    } else {
        let earlier = order.drop_last();
        let index = order.last();
        assert(order[order.len() - 1] < count);
        let missing = choose|i: nat| i < count && !(#[trigger] order.contains(i));
        assert(!earlier.contains(missing)) by {
            if earlier.contains(missing) {
                let k = choose|k: int| 0 <= k < earlier.len() && earlier[k] == missing;
                assert(order[k] == missing);
            }
        }
        assert(in_range(earlier, content.len())) by {
            assert forall|k: int| 0 <= k < earlier.len() implies #[trigger] earlier[k] < count by {
                assert(order[k] < count);
            }
        }
        lemma_partial(before, transfer_id, from_fingerprint, content, earlier);
        assert(frames.drop_last() =~= frames_in_order(
            transfer_id,
            from_fingerprint,
            content,
            earlier,
        ));
        assert(frames.last() == chunk_frame(transfer_id, content, index));
        let then = after_order(from_fingerprint, content, earlier);
        lemma_next_chunk(from_fingerprint, content, order);
        assert(now.chunks[missing as int] is None);
        assert(!complete(now.chunks));
        assert(before.insert(transfer_id, then).insert(transfer_id, now) =~= before.insert(
            transfer_id,
            now,
        ));
    }
}

/// The arrival of one more chunk.
proof fn lemma_next_chunk(from_fingerprint: Seq<char>, content: Seq<u8>, order: Seq<nat>)
    requires
        order.len() > 0,
        order.last() < chunk_count_for(content.len()),
    ensures
        with_chunk(
            after_order(from_fingerprint, content, order.drop_last()),
            order.last() as int,
            chunk_data(content, order.last()),
        ) == after_order(from_fingerprint, content, order),
{
    let earlier = order.drop_last();
    let index = order.last();
    let then = after_order(from_fingerprint, content, earlier);
    let now = after_order(from_fingerprint, content, order);
    assert(order[order.len() - 1] == index);
    assert forall|i: nat| order.contains(i) == (earlier.contains(i) || i == index) by {
        if order.contains(i) && i != index {
            let k = choose|k: int| 0 <= k < order.len() && order[k] == i;
            assert(earlier[k] == i);
        }
        if earlier.contains(i) {
            let k = choose|k: int| 0 <= k < earlier.len() && earlier[k] == i;
            assert(order[k] == i);
        }
    }
    assert(with_chunk(then, index as int, chunk_data(content, index)).chunks =~= now.chunks);
}

/// The chunks of a text, one after the other, are the text.
proof fn lemma_gathered(content: Seq<u8>, chunks: Seq<Option<Seq<u8>>>)
    requires
        chunks.len() <= chunk_count_for(content.len()),
        forall|i: int|
            0 <= i < chunks.len() ==> #[trigger] chunks[i] == Some(chunk_data(content, i as nat)),
    ensures
        gathered(chunks) == content.take(chunk_start(content.len(), chunks.len()) as int),
    decreases chunks.len(),
{
    if chunks.len() > 0 {
        let last = (chunks.len() - 1) as nat;
        lemma_gathered(content, chunks.drop_last());
        assert(chunks[last as int] == Some(chunk_data(content, last)));
        assert(gathered(chunks) =~= content.take(chunk_start(content.len(), chunks.len()) as int));
    } else {
        assert(gathered(chunks) =~= content.take(0));
    }
}

/// A transfer is completed by the last of its chunks to arrive, whatever the
/// order in which they arrive and however often: until then nothing comes of
/// any frame, and then the text, its fingerprint and its hash come out as they
/// were sent. Afterwards the transfer is forgotten.
///
/// `order` ends with the chunk that was still missing.
pub proof fn law_transfer_reassembles(
    before: Map<u64, PendingView>,
    transfer_id: u64,
    from_fingerprint: Seq<char>,
    text: Seq<char>,
    order: Seq<nat>,
    sent: int,
)
    requires
        !before.contains_key(transfer_id),
        !too_large(from_fingerprint, text),
        in_range(order, vstd::utf8::encode_utf8(text).len()),
        order.len() > 0,
        covers(order, vstd::utf8::encode_utf8(text).len()),
        !covers(order.drop_last(), vstd::utf8::encode_utf8(text).len()),
        0 <= sent < order.len(),
    ensures
        ({
            let content = vstd::utf8::encode_utf8(text);
            let frames = frames_in_order(transfer_id, from_fingerprint, content, order);
            &&& last_outcome(before, frames.take(sent + 1)) == Ok::<
                Option<TransferView>,
                ProtocolError,
            >(None)
            &&& last_outcome(before, frames) == Ok::<Option<TransferView>, ProtocolError>(
                Some(
                    TransferView {
                        transfer_id,
                        from_fingerprint,
                        content: text,
                        content_hash: sha256(content)@,
                    },
                ),
            )
            &&& pending_after_all(before, frames) == before
        }),
{
    let content = vstd::utf8::encode_utf8(text);
    let count = chunk_count_for(content.len());
    let frames = frames_in_order(transfer_id, from_fingerprint, content, order);
    let earlier = order.drop_last();
    // No part of `earlier` covers the text either.
    let some = order.take(sent);
    let missing = choose|i: nat| i < count && !(#[trigger] earlier.contains(i));
    assert(!some.contains(missing)) by {
        if some.contains(missing) {
            let k = choose|k: int| 0 <= k < some.len() && some[k] == missing;
            assert(earlier[k] == missing);
        }
    }
    assert forall|k: int| 0 <= k < some.len() implies #[trigger] some[k] < count by {
        assert(order[k] < count);
    }
    assert forall|k: int| 0 <= k < earlier.len() implies #[trigger] earlier[k] < count by {
        assert(order[k] < count);
    }
    lemma_partial(before, transfer_id, from_fingerprint, content, some);
    assert(frames.take(sent + 1) =~= frames_in_order(transfer_id, from_fingerprint, content, some));
    lemma_partial(before, transfer_id, from_fingerprint, content, earlier);
    assert(frames.drop_last() =~= frames_in_order(transfer_id, from_fingerprint, content, earlier));
    assert(order[order.len() - 1] < count);
    assert(frames.last() == chunk_frame(transfer_id, content, order.last()));
    lemma_next_chunk(from_fingerprint, content, order);
    let now = after_order(from_fingerprint, content, order);
    assert forall|i: int| 0 <= i < now.chunks.len() implies #[trigger] now.chunks[i] == Some(
        chunk_data(content, i as nat),
    ) by {
        assert(order.contains(i as nat));
    }
    assert(complete(now.chunks));
    lemma_gathered(content, now.chunks);
    assert(chunk_start(content.len(), count) == content.len());
    assert(content.take(content.len() as int) =~= content);
    vstd::utf8::encode_utf8_valid_utf8(text);
    vstd::utf8::encode_utf8_decode_utf8(text);
    assert(before.insert(transfer_id, after_order(from_fingerprint, content, earlier)).remove(
        transfer_id,
    ) =~= before);
}

/// A frame of one transfer leaves all others as they are.
pub proof fn law_transfers_are_independent(
    before: Map<u64, PendingView>,
    frame: FrameView,
    other: u64,
)
    requires
        other != frame.transfer_id(),
    ensures
        pending_after(before, frame).contains_key(other) == before.contains_key(other),
        before.contains_key(other) ==> pending_after(before, frame)[other] == before[other],
{
}

/// The opening of a transfer that is sent again loses none of the chunks that
/// have arrived.
pub proof fn law_repeated_begin_keeps_chunks(
    before: Map<u64, PendingView>,
    begin: FrameView,
    chunks: Seq<FrameView>,
)
    requires
        begin is Begin,
        forall|i: int|
            0 <= i < chunks.len() ==> #[trigger] chunks[i] is Chunk && chunks[i].transfer_id()
                == begin.transfer_id(),
        pending_after_all(pending_after(before, begin), chunks).contains_key(begin.transfer_id()),
    ensures
        ({
            let then = pending_after_all(pending_after(before, begin), chunks);
            pending_after(then, begin) == then
        }),
{
    lemma_chunks_keep_metadata(pending_after(before, begin), begin.transfer_id(), chunks);
}

/// Chunks change nothing of a transfer but which chunks have arrived.
proof fn lemma_chunks_keep_metadata(
    before: Map<u64, PendingView>,
    transfer_id: u64,
    chunks: Seq<FrameView>,
)
    requires
        before.contains_key(transfer_id),
        forall|i: int| 0 <= i < chunks.len() ==> #[trigger] chunks[i] is Chunk,
        pending_after_all(before, chunks).contains_key(transfer_id),
    ensures
        ({
            let then = pending_after_all(before, chunks)[transfer_id];
            &&& then.from_fingerprint == before[transfer_id].from_fingerprint
            &&& then.content_len == before[transfer_id].content_len
            &&& then.content_hash == before[transfer_id].content_hash
        }),
    decreases chunks.len(),
{
    if chunks.len() > 0 {
        let earlier = chunks.drop_last();
        assert forall|i: int| 0 <= i < earlier.len() implies #[trigger] earlier[i] is Chunk by {
            assert(chunks[i] is Chunk);
        }
        assert(chunks[chunks.len() - 1] is Chunk);
        assert(pending_after_all(before, earlier).contains_key(transfer_id));
        lemma_chunks_keep_metadata(before, transfer_id, earlier);
    }
}

/// Text comes out of the assembler only where it has the length and the hash
/// that its transfer announced.
pub proof fn law_accepted_text_is_intact(before: Map<u64, PendingView>, frame: FrameView)
    requires
        outcome(before, frame) matches Ok(Some(_)),
    ensures
        ({
            let transfer = outcome(before, frame)->Ok_0->Some_0;
            let bytes = vstd::utf8::encode_utf8(transfer.content);
            &&& before.contains_key(frame.transfer_id())
            &&& transfer.transfer_id == frame.transfer_id()
            &&& transfer.from_fingerprint == before[frame.transfer_id()].from_fingerprint
            &&& transfer.content_hash == before[frame.transfer_id()].content_hash
            &&& bytes.len() == before[frame.transfer_id()].content_len
            &&& sha256(bytes)@ == before[frame.transfer_id()].content_hash
        }),
{
    let pending = with_chunk(
        before[frame.transfer_id()],
        frame->index as int,
        frame->data,
    );
    vstd::utf8::decode_utf8_encode_utf8(gathered(pending.chunks));
}

/// Whatever becomes of a transfer whose last chunk arrives, it is forgotten.
pub proof fn law_ended_transfers_are_forgotten(before: Map<u64, PendingView>, frame: FrameView)
    requires
        frame is Chunk,
        before.contains_key(frame.transfer_id()),
        frame->index < before[frame.transfer_id()].chunks.len(),
        complete(
            with_chunk(before[frame.transfer_id()], frame->index as int, frame->data).chunks,
        ),
    ensures
        !pending_after(before, frame).contains_key(frame.transfer_id()),
{
}

/// What arrives of a transfer: `arrivals` are the positions of the frames that
/// arrive among those that were sent.
pub open spec fn arriving(sent: Seq<FrameView>, arrivals: Seq<nat>) -> Seq<FrameView> {
    arrivals.map_values(|k: nat| sent[k as int])
}

/// Each of the `count` frames that were sent is among those that arrive.
pub open spec fn all_arrive(arrivals: Seq<nat>, count: nat) -> bool {
    forall|k: nat| k < count ==> #[trigger] arrivals.contains(k)
}

/// The opening arrives first, and nothing arrives that was not sent.
pub open spec fn opening_first(arrivals: Seq<nat>, count: nat) -> bool {
    &&& arrivals.len() > 0
    &&& arrivals[0] == 0
    &&& forall|i: int| 0 <= i < arrivals.len() ==> #[trigger] arrivals[i] < count
}

/// The transfer once some of its frames have arrived.
spec fn after_arrivals(
    from_fingerprint: Seq<char>,
    content: Seq<u8>,
    arrivals: Seq<nat>,
) -> PendingView {
    PendingView {
        from_fingerprint,
        content_len: content.len(),
        content_hash: sha256(content)@,
        chunks: Seq::new(
            chunk_count_for(content.len()),
            |i: int|
                if arrivals.contains((i + 1) as nat) {
                    Some(chunk_data(content, i as nat))
                } else {
                    None
                },
        ),
    }
}

/// The last of some frames to arrive is a chunk or the opening once more.
proof fn lemma_next_arrival(from_fingerprint: Seq<char>, content: Seq<u8>, arrivals: Seq<nat>)
    requires
        arrivals.len() > 1,
        arrivals.last() <= chunk_count_for(content.len()),
    ensures
        arrivals.last() == 0 ==> after_arrivals(from_fingerprint, content, arrivals)
            == after_arrivals(from_fingerprint, content, arrivals.drop_last()),
        arrivals.last() > 0 ==> with_chunk(
            after_arrivals(from_fingerprint, content, arrivals.drop_last()),
            arrivals.last() - 1,
            chunk_data(content, (arrivals.last() - 1) as nat),
        ) == after_arrivals(from_fingerprint, content, arrivals),
{
    let earlier = arrivals.drop_last();
    let last = arrivals.last();
    let then = after_arrivals(from_fingerprint, content, earlier);
    let now = after_arrivals(from_fingerprint, content, arrivals);
    assert(arrivals[arrivals.len() - 1] == last);
    assert forall|k: nat| arrivals.contains(k) == (earlier.contains(k) || k == last) by {
        if arrivals.contains(k) && k != last {
            let i = choose|i: int| 0 <= i < arrivals.len() && arrivals[i] == k;
            assert(earlier[i] == k);
        }
        if earlier.contains(k) {
            let i = choose|i: int| 0 <= i < earlier.len() && earlier[i] == k;
            assert(arrivals[i] == k);
        }
    }
    if last == 0 {
        assert(then.chunks =~= now.chunks);
    } else {
        assert(with_chunk(then, last - 1, chunk_data(content, (last - 1) as nat)).chunks
            =~= now.chunks);
    }
}

/// While a frame is missing, a transfer holds the chunks that have arrived.
proof fn lemma_some_arrive(
    before: Map<u64, PendingView>,
    transfer_id: u64,
    from_fingerprint: Seq<char>,
    content: Seq<u8>,
    arrivals: Seq<nat>,
)
    requires
        !before.contains_key(transfer_id),
        content.len() <= 0x100_0000,
        opening_first(arrivals, 1 + chunk_count_for(content.len())),
        !all_arrive(arrivals, 1 + chunk_count_for(content.len())),
    ensures
        ({
            let frames = arriving(
                transfer_frames(transfer_id, from_fingerprint, content),
                arrivals,
            );
            &&& pending_after_all(before, frames) == before.insert(
                transfer_id,
                after_arrivals(from_fingerprint, content, arrivals),
            )
            &&& last_outcome(before, frames) == Ok::<Option<TransferView>, ProtocolError>(None)
        }),
    decreases arrivals.len(),
{
    let sent = transfer_frames(transfer_id, from_fingerprint, content);
    let frames = arriving(sent, arrivals);
    let count = 1 + chunk_count_for(content.len());
    let now = after_arrivals(from_fingerprint, content, arrivals);
    let missing = choose|k: nat| k < count && !(#[trigger] arrivals.contains(k));
    assert(arrivals.contains(arrivals[0]));
    assert(now.chunks[missing - 1] is None);
    assert(!complete(now.chunks));
    assert(sent[0] == begin_frame(transfer_id, from_fingerprint, content));
    if arrivals.len() == 1 {
        assert(frames.drop_last() =~= Seq::<FrameView>::empty());
        assert(frames.last() == sent[0]);
        reveal_with_fuel(pending_after_all, 2);
        assert forall|k: nat| k > 0 implies !arrivals.contains(k) by {}
        assert(now.chunks =~= Seq::new(
            begin_frame(transfer_id, from_fingerprint, content)->chunk_count as nat,
            |i: int| None::<Seq<u8>>,
        ));
    } else {
        let earlier = arrivals.drop_last();
        let last = arrivals.last();
        assert(arrivals[arrivals.len() - 1] < count);
        assert(earlier[0] == arrivals[0]);
        assert forall|i: int| 0 <= i < earlier.len() implies #[trigger] earlier[i] < count by {
            assert(arrivals[i] < count);
        }
        assert(!earlier.contains(missing)) by {
            if earlier.contains(missing) {
                let i = choose|i: int| 0 <= i < earlier.len() && earlier[i] == missing;
                assert(arrivals[i] == missing);
            }
        }
        lemma_some_arrive(before, transfer_id, from_fingerprint, content, earlier);
        assert(frames.drop_last() =~= arriving(sent, earlier));
        assert(frames.last() == sent[last as int]);
        lemma_next_arrival(from_fingerprint, content, arrivals);
        let then = after_arrivals(from_fingerprint, content, earlier);
        assert(before.insert(transfer_id, then).insert(transfer_id, now) =~= before.insert(
            transfer_id,
            now,
        ));
        if last > 0 {
            assert(sent[last as int] == chunk_frame(transfer_id, content, (last - 1) as nat));
        }
    }
}

/// The frames that are sent make the transfer, for every number, fingerprint and
/// text within the limits: after the opening they may arrive in any order and
/// any number of times, the opening among them, as they do when they are sent
/// again. Nothing comes of any frame until the last missing one arrives, and
/// then the text, the fingerprint, the hash and the number come out as they were
/// sent, and the transfer is forgotten.
pub proof fn law_sent_frames_make_the_transfer(
    before: Map<u64, PendingView>,
    transfer_id: u64,
    from_fingerprint: Seq<char>,
    text: Seq<char>,
    arrivals: Seq<nat>,
    n: nat,
)
    requires
        !before.contains_key(transfer_id),
        vstd::utf8::encode_utf8(from_fingerprint).len() <= 256,
        vstd::utf8::encode_utf8(text).len() <= 2_097_152,
        ({
            let count = transfer_frames(
                transfer_id,
                from_fingerprint,
                vstd::utf8::encode_utf8(text),
            ).len();
            &&& opening_first(arrivals, count)
            &&& all_arrive(arrivals, count)
            &&& !all_arrive(arrivals.drop_last(), count)
        }),
        0 < n < arrivals.len(),
    ensures
        ({
            let content = vstd::utf8::encode_utf8(text);
            let frames = arriving(
                transfer_frames(transfer_id, from_fingerprint, content),
                arrivals,
            );
            &&& last_outcome(before, frames.take(n as int)) == Ok::<
                Option<TransferView>,
                ProtocolError,
            >(None)
            &&& last_outcome(before, frames) == Ok::<Option<TransferView>, ProtocolError>(
                Some(
                    TransferView {
                        transfer_id,
                        from_fingerprint,
                        content: text,
                        content_hash: sha256(content)@,
                    },
                ),
            )
            &&& pending_after_all(before, frames) == before
        }),
{
    let content = vstd::utf8::encode_utf8(text);
    let sent = transfer_frames(transfer_id, from_fingerprint, content);
    let count = sent.len();
    let frames = arriving(sent, arrivals);
    let earlier = arrivals.drop_last();
    let last = arrivals.last();
    let missing = choose|k: nat| k < count && !(#[trigger] earlier.contains(k));
    let some = arrivals.take(n as int);
    assert(!some.contains(missing)) by {
        if some.contains(missing) {
            let i = choose|i: int| 0 <= i < some.len() && some[i] == missing;
            assert(earlier[i] == missing);
        }
    }
    assert(some[0] == arrivals[0] && earlier[0] == arrivals[0]);
    assert forall|i: int| 0 <= i < some.len() implies #[trigger] some[i] < count by {
        assert(arrivals[i] < count);
    }
    assert forall|i: int| 0 <= i < earlier.len() implies #[trigger] earlier[i] < count by {
        assert(arrivals[i] < count);
    }
    lemma_some_arrive(before, transfer_id, from_fingerprint, content, some);
    assert(frames.take(n as int) =~= arriving(sent, some));
    lemma_some_arrive(before, transfer_id, from_fingerprint, content, earlier);
    assert(frames.drop_last() =~= arriving(sent, earlier));
    // The last to arrive is the one that was missing, so it is a chunk.
    assert(last == missing) by {
        assert(arrivals.contains(missing));
        let i = choose|i: int| 0 <= i < arrivals.len() && arrivals[i] == missing;
        if i < earlier.len() {
            assert(earlier[i] == missing);
        }
    }
    assert(earlier.contains(earlier[0]));
    assert(arrivals[arrivals.len() - 1] < count);
    assert(frames.last() == sent[last as int]);
    assert(sent[last as int] == chunk_frame(transfer_id, content, (last - 1) as nat));
    lemma_next_arrival(from_fingerprint, content, arrivals);
    let now = after_arrivals(from_fingerprint, content, arrivals);
    assert forall|i: int| 0 <= i < now.chunks.len() implies #[trigger] now.chunks[i] == Some(
        chunk_data(content, i as nat),
    ) by {
        assert(arrivals.contains((i + 1) as nat));
    }
    assert(complete(now.chunks));
    lemma_gathered(content, now.chunks);
    assert(chunk_start(content.len(), chunk_count_for(content.len())) == content.len());
    assert(content.take(content.len() as int) =~= content);
    vstd::utf8::encode_utf8_valid_utf8(text);
    vstd::utf8::encode_utf8_decode_utf8(text);
    assert(before.insert(transfer_id, after_arrivals(from_fingerprint, content, earlier)).remove(
        transfer_id,
    ) =~= before);
}

/// A chunk of a transfer that was not opened is dropped without a trace, and so
/// is one that its transfer has no place for, but for an error.
pub proof fn law_stray_chunks_are_dropped(
    before: Map<u64, PendingView>,
    transfer_id: u64,
    index: u32,
    data: Seq<u8>,
)
    ensures
        ({
            let chunk = FrameView::Chunk { transfer_id, index, data };
            &&& !before.contains_key(transfer_id) ==> outcome(before, chunk) == Ok::<
                Option<TransferView>,
                ProtocolError,
            >(None) && pending_after(before, chunk) == before
            &&& before.contains_key(transfer_id) && index >= before[transfer_id].chunks.len()
                ==> outcome(before, chunk) is Err && pending_after(before, chunk) == before
        }),
{
}

/// Text that does not have the length or the hash that was announced, or that is
/// no text, is not handed out.
pub proof fn law_corrupted_text_is_refused(before: Map<u64, PendingView>, frame: FrameView)
    requires
        frame is Chunk,
        before.contains_key(frame.transfer_id()),
        frame->index < before[frame.transfer_id()].chunks.len(),
    ensures
        ({
            let old = before[frame.transfer_id()];
            let pending = with_chunk(old, frame->index as int, frame->data);
            let bytes = gathered(pending.chunks);
            complete(pending.chunks) && (bytes.len() != old.content_len || sha256(bytes)@
                != old.content_hash || !vstd::utf8::valid_utf8(bytes)) ==> outcome(before, frame)
                is Err
        }),
        !complete(with_chunk(before[frame.transfer_id()], frame->index as int, frame->data).chunks)
            ==> outcome(before, frame) == Ok::<Option<TransferView>, ProtocolError>(None),
{
}

/// The first arrival of a chunk counts: another one with the same place changes
/// nothing of what is there.
pub proof fn law_the_first_arrival_counts(pending: PendingView, index: int, data: Seq<u8>)
    requires
        0 <= index < pending.chunks.len(),
    ensures
        ({
            let after = with_chunk(pending, index, data);
            &&& after.chunks.len() == pending.chunks.len()
            &&& pending.chunks[index] is Some ==> after == pending
            &&& pending.chunks[index] is None ==> after.chunks[index] == Some(data)
            &&& forall|i: int|
                0 <= i < pending.chunks.len() && i != index ==> #[trigger] after.chunks[i]
                    == pending.chunks[i]
            &&& after.from_fingerprint == pending.from_fingerprint
            &&& after.content_len == pending.content_len
            &&& after.content_hash == pending.content_hash
        }),
{
}

/// An opening with other facts starts its transfer over, without any chunk.
pub proof fn law_another_opening_starts_over(before: Map<u64, PendingView>, begin: FrameView, i: int)
    requires
        begin is Begin,
        before.contains_key(begin.transfer_id()) ==> before[begin.transfer_id()].content_hash
            != begin->Begin_content_hash || before[begin.transfer_id()].content_len
            != begin->content_len || before[begin.transfer_id()].from_fingerprint
            != begin->from_fingerprint,
    ensures
        ({
            let after = pending_after(before, begin);
            &&& after.contains_key(begin.transfer_id())
            &&& after[begin.transfer_id()].content_len == begin->content_len
            &&& after[begin.transfer_id()].content_hash == begin->Begin_content_hash
            &&& after[begin.transfer_id()].from_fingerprint == begin->from_fingerprint
            &&& after[begin.transfer_id()].chunks.len() == begin->chunk_count
            &&& 0 <= i < begin->chunk_count ==> after[begin.transfer_id()].chunks[i] is None
            &&& outcome(before, begin) == Ok::<Option<TransferView>, ProtocolError>(None)
        }),
{
}

} // verus!
