use vstd::prelude::*;
use vstd::string::StringExecFns;
use std::collections::HashMap;
use crate::errors::Error;
use crate::frames::{control_frame, frame, frames_contents, data_frame_bytes, lemma_data_frame_layout, chunks, data_frames_spec, lemma_chunks_reassemble};
use crate::buffers::u64_from_be_bytes;
use bytes::Bytes;
use crate::messages::{ControlMessage, Header, control_of_code, word_control, word_stream_id, word_data_size};
use crate::state::{StreamIdGenerator, allocates, has_free_id, next_candidate, MAX_STREAM_ID, IdChange, id_step, id_run, lemma_open_ids_distinct};

verus! {

broadcast use vstd::std_specs::hash::group_hash_axioms;

/// What the reader of the connection does with a header it received.
pub enum InboundAction<W> {
    /// Read `data_size` payload bytes and hand them to the open stream `stream_id`.
    Deliver { stream_id: u32, data_size: u32 },
    /// The peer opens `stream_id`: hand it to a local accept.
    Accept { stream_id: u32 },
    /// The peer acknowledged `stream_id`: wake the local connect waiting on it.
    Acknowledge { stream_id: u32, waiter: W },
    /// The peer closed `stream_id`; it is no longer open here.
    Closed { stream_id: u32 },
}

/// The streams of one multiplexed connection: the open streams with the
/// handle that takes their incoming data (`S`), the opens that wait for an
/// answer with the handle that wakes them (`W`; a local accept waits under id
/// 0), and the ids in use.
pub struct StreamRegistry<S, W> {
    established: HashMap<u32, S>,
    waiting: HashMap<u32, W>,
    ids: StreamIdGenerator,
}

/// `r1` is `r0` after a local open that got `id`: the id was the first free one
/// going round from the cursor, and the stream is now open and waiting for the
/// peer's acknowledgement.
pub open spec fn opened_locally<S, W>(
    r0: StreamRegistry<S, W>,
    r1: StreamRegistry<S, W>,
    id: u32,
    inbound: S,
    waiter: W,
) -> bool {
    &&& allocates(r0.cursor(), r0.open_ids(), id)
    &&& 1 <= id <= MAX_STREAM_ID
    &&& !r0.open_ids().contains(id)
    &&& r1.open_ids() == r0.open_ids().insert(id)
    &&& r1.cursor() == next_candidate(id)
    &&& r1.established_map() == r0.established_map().insert(id, inbound)
    &&& r1.waiting_map() == r0.waiting_map().insert(id, waiter)
}

/// `r1` is `r0` after giving up on the open of `id`: it is neither waiting,
/// nor open, nor in use any more.
pub open spec fn abandoned<S, W>(r0: StreamRegistry<S, W>, r1: StreamRegistry<S, W>, id: u32) -> bool {
    &&& r1.open_ids() == r0.open_ids().remove(id)
    &&& r1.cursor() == r0.cursor()
    &&& r1.established_map() == r0.established_map().remove(id)
    &&& r1.waiting_map() == r0.waiting_map().remove(id)
}

/// `r1` holds the same streams, waiters and ids as `r0`.
pub open spec fn unchanged<S, W>(r0: StreamRegistry<S, W>, r1: StreamRegistry<S, W>) -> bool {
    &&& r1.open_ids() == r0.open_ids()
    &&& r1.cursor() == r0.cursor()
    &&& r1.established_map() == r0.established_map()
    &&& r1.waiting_map() == r0.waiting_map()
}

/// What receiving the header word `w` does to the registry `r0`, giving `r1`,
/// and what the reader is told to do.
pub open spec fn inbound_step<S, W>(
    r0: StreamRegistry<S, W>,
    r1: StreamRegistry<S, W>,
    w: u64,
    r: Result<InboundAction<W>, Error>,
) -> bool {
    let id = word_stream_id(w);
    match control_of_code(word_control(w)) {
        ControlMessage::Data => {
            &&& unchanged(r0, r1)
            &&& r0.established_map().contains_key(id) ==> r == Ok::<InboundAction<W>, Error>(
                InboundAction::Deliver { stream_id: id, data_size: word_data_size(w) },
            )
            &&& !r0.established_map().contains_key(id) ==> (r matches Err(
                Error::StreamDoesNotExistError(m),
            ) && m@ == "peer tried to send data to nonexistent stream"@)
        },
        ControlMessage::Open => {
            &&& unchanged(r0, r1)
            &&& r == Ok::<InboundAction<W>, Error>(InboundAction::Accept { stream_id: id })
        },
        ControlMessage::OpenAck => {
            &&& r1.waiting_map() == r0.waiting_map().remove(id)
            &&& r1.established_map() == r0.established_map()
            &&& r1.open_ids() == r0.open_ids()
            &&& r1.cursor() == r0.cursor()
            &&& r0.waiting_map().contains_key(id) ==> r == Ok::<InboundAction<W>, Error>(
                InboundAction::Acknowledge { stream_id: id, waiter: r0.waiting_map()[id] },
            )
            &&& !r0.waiting_map().contains_key(id) ==> (r matches Err(Error::NotAcceptingError(m))
                && m@ == "peer tried to acknowledge nonexistent stream"@)
        },
        ControlMessage::Close => {
            &&& r0.established_map().contains_key(id) ==> {
                &&& r1.established_map() == r0.established_map().remove(id)
                &&& r1.open_ids() == r0.open_ids().remove(id)
                &&& r1.waiting_map() == r0.waiting_map()
                &&& r1.cursor() == r0.cursor()
                &&& r == Ok::<InboundAction<W>, Error>(InboundAction::Closed { stream_id: id })
            }
            &&& !r0.established_map().contains_key(id) ==> {
                &&& unchanged(r0, r1)
                &&& r matches Err(Error::StreamDoesNotExistError(m))
                &&& m@ == "peer tried to close nonexistent stream"@
            }
        },
    }
}

/// The change to the ids in use that receiving the header word `w` makes: a
/// close of an open stream frees its id; every other header changes nothing.
pub open spec fn inbound_id_change<S, W>(r0: StreamRegistry<S, W>, w: u64) -> IdChange {
    if control_of_code(word_control(w)) == ControlMessage::Close && r0.established_map().contains_key(
        word_stream_id(w),
    ) {
        IdChange::Release(word_stream_id(w))
    } else {
        IdChange::Keep
    }
}

/// `r1` follows from `r0` by `change` as far as the cursor and the ids in use go.
pub open spec fn ids_step<S, W>(r0: StreamRegistry<S, W>, change: IdChange, r1: StreamRegistry<S, W>) -> bool {
    id_step(r0.cursor(), r0.open_ids(), change, r1.cursor(), r1.open_ids())
}

/// The value a map holds for a key, if any.
pub open spec fn map_get<K, V>(m: Map<K, V>, k: K) -> Option<V> {
    if m.contains_key(k) {
        Some(m[k])
    } else {
        None
    }
}

impl<S, W> StreamRegistry<S, W> {
    /// The open streams, by id.
    pub closed spec fn established_map(&self) -> Map<u32, S> {
        self.established@
    }

    /// The opens waiting for an answer, by id.
    pub closed spec fn waiting_map(&self) -> Map<u32, W> {
        self.waiting@
    }

    /// The ids in use.
    pub closed spec fn open_ids(&self) -> Set<u32> {
        self.ids.open_ids()
    }

    /// Where the next search for a free id starts.
    pub closed spec fn cursor(&self) -> u32 {
        self.ids.cursor()
    }

    /// Every open stream's id is in use, and the id search is well formed.
    pub closed spec fn wf(&self) -> bool {
        &&& self.ids.wf()
        &&& forall|id: u32| #[trigger] self.established@.contains_key(id) ==> self.ids.open_ids().contains(id)
    }

    pub fn new() -> (r: Self)
        ensures
            r.wf(),
            r.established_map() == Map::<u32, S>::empty(),
            r.waiting_map() == Map::<u32, W>::empty(),
            r.open_ids() == Set::<u32>::empty(),
            r.cursor() == 1,
    {
        StreamRegistry { established: HashMap::new(), waiting: HashMap::new(), ids: StreamIdGenerator::new() }
    }

    /// Opens a stream from this side: takes the first free id going round
    /// from the cursor, registers the stream's incoming-data handle and the
    /// handle that wakes the open when the peer acknowledges. Without a free id
    /// nothing changes.
    pub fn begin_connect(&mut self, inbound: S, waiter: W) -> (r: Option<u32>)
        requires
            old(self).wf(),
        ensures
            final(self).wf(),
            r is Some <==> has_free_id(old(self).open_ids()),
            r is None ==> unchanged(*old(self), *final(self)),
            r matches Some(id) ==> opened_locally(*old(self), *final(self), id, inbound, waiter),
            ids_step(
                *old(self),
                match r {
                    Some(id) => IdChange::Next(id),
                    None => IdChange::Keep,
                },
                *final(self),
            ),
    {
        match self.ids.try_next() {
            None => None,
            Some(id) => {
                self.waiting.insert(id, waiter);
                self.established.insert(id, inbound);
                Some(id)
            },
        }
    }

    /// Gives up on the open of `id`: it stops waiting, its id is released and
    /// the stream is no longer open.
    pub fn abandon(&mut self, id: u32)
        requires
            old(self).wf(),
        ensures
            final(self).wf(),
            abandoned(*old(self), *final(self), id),
            ids_step(*old(self), IdChange::Release(id), *final(self)),
    {
        self.waiting.remove(&id);
        self.ids.release_id(id);
        self.established.remove(&id);
    }

    /// A local accept waits, under id 0, for the peer to open a stream; a
    /// previous waiting accept is replaced.
    pub fn begin_accept(&mut self, waiter: W)
        requires
            old(self).wf(),
        ensures
            final(self).wf(),
            final(self).waiting_map() == old(self).waiting_map().insert(0, waiter),
            final(self).established_map() == old(self).established_map(),
            final(self).open_ids() == old(self).open_ids(),
            final(self).cursor() == old(self).cursor(),
            ids_step(*old(self), IdChange::Keep, *final(self)),
    {
        self.waiting.insert(0, waiter);
    }

    /// Stops waiting under `id` and hands back the waiting handle, if there was one.
    pub fn take_waiter(&mut self, id: u32) -> (r: Option<W>)
        requires
            old(self).wf(),
        ensures
            final(self).wf(),
            r == map_get(old(self).waiting_map(), id),
            final(self).waiting_map() == old(self).waiting_map().remove(id),
            final(self).established_map() == old(self).established_map(),
            final(self).open_ids() == old(self).open_ids(),
            final(self).cursor() == old(self).cursor(),
            ids_step(*old(self), IdChange::Keep, *final(self)),
    {
        self.waiting.remove(&id)
    }

    /// Hands an incoming stream to the waiting local accept; fails when no
    /// accept waits.
    pub fn take_acceptor(&mut self) -> (r: Result<W, Error>)
        requires
            old(self).wf(),
        ensures
            final(self).wf(),
            final(self).waiting_map() == old(self).waiting_map().remove(0),
            final(self).established_map() == old(self).established_map(),
            final(self).open_ids() == old(self).open_ids(),
            final(self).cursor() == old(self).cursor(),
            old(self).waiting_map().contains_key(0) ==> r == Ok::<W, Error>(old(self).waiting_map()[0]),
            !old(self).waiting_map().contains_key(0) ==> (r matches Err(Error::NotAcceptingError(m))
                && m@ == "not currently accepting connections"@),
            ids_step(*old(self), IdChange::Keep, *final(self)),
    {
        match self.waiting.remove(&0) {
            Some(w) => Ok(w),
            None => Err(Error::NotAcceptingError(String::from_str("not currently accepting connections"))),
        }
    }

    /// Completes a local accept of the peer's stream `id`: the id is in use and
    /// the stream open with the given incoming-data handle.
    pub fn complete_accept(&mut self, id: u32, inbound: S)
        requires
            old(self).wf(),
        ensures
            final(self).wf(),
            final(self).open_ids() == old(self).open_ids().insert(id),
            final(self).established_map() == old(self).established_map().insert(id, inbound),
            final(self).waiting_map() == old(self).waiting_map(),
            final(self).cursor() == old(self).cursor(),
            ids_step(*old(self), IdChange::Acquire(id), *final(self)),
    {
        self.ids.acquire_id(id);
        self.established.insert(id, inbound);
    }

    /// Decides what a header received from the peer means: data for an open
    /// stream is delivered, an open is handed to a local accept, an
    /// acknowledgement wakes the local open that waits for it, and a close ends
    /// the stream and frees its id. Data for, or a close of, a stream that is not
    /// open, and an acknowledgement nobody waits for, are errors.
    pub fn handle_header(&mut self, header: &Header) -> (r: Result<InboundAction<W>, Error>)
        requires
            old(self).wf(),
        ensures
            final(self).wf(),
            inbound_step(*old(self), *final(self), header.0, r),
            ids_step(*old(self), inbound_id_change(*old(self), header.0), *final(self)),
    {
        let stream_id = header.stream_id();
        match header.control() {
            ControlMessage::Data => {
                if self.established.contains_key(&stream_id) {
                    Ok(InboundAction::Deliver { stream_id, data_size: header.data_size() })
                } else {
                    Err(
                        Error::StreamDoesNotExistError(
                            String::from_str("peer tried to send data to nonexistent stream"),
                        ),
                    )
                }
            },
            ControlMessage::Open => Ok(InboundAction::Accept { stream_id }),
            ControlMessage::OpenAck => match self.waiting.remove(&stream_id) {
                Some(waiter) => Ok(InboundAction::Acknowledge { stream_id, waiter }),
                None => Err(
                    Error::NotAcceptingError(
                        String::from_str("peer tried to acknowledge nonexistent stream"),
                    ),
                ),
            },
            ControlMessage::Close => match self.established.remove(&stream_id) {
                Some(_) => {
                    self.ids.release_id(stream_id);
                    Ok(InboundAction::Closed { stream_id })
                },
                None => {
                    assert(self.established@ =~= old(self).established@);
                    Err(
                        Error::StreamDoesNotExistError(
                            String::from_str("peer tried to close nonexistent stream"),
                        ),
                    )
                },
            },
        }
    }

    /// One close frame for every open stream, each open stream once, in some
    /// order: what this side sends when the whole connection goes away.
    pub fn close_frames(&self) -> (frames: Vec<Bytes>)
        requires
            self.wf(),
        ensures
            exists|ids: Seq<u32>|
                {
                    &&& ids.no_duplicates()
                    &&& ids.to_set() == self.established_map().dom()
                    &&& frames_contents(frames@) == ids.map_values(
                        |id: u32| frame(ControlMessage::Close, id, 0, Seq::empty()),
                    )
                },
    {
        let mut frames: Vec<Bytes> = Vec::new();
        for id in it: self.established.keys()
            invariant
                frames_contents(frames@) == it.seq().take(it.index() as int).map_values(
                    |k: &u32| frame(ControlMessage::Close, *k, 0, Seq::empty()),
                ),
        {
            let ghost prev = frames@;
            let ghost i = it.index();
            assert(it.seq()[i as int] == id);
            frames.push(control_frame(ControlMessage::Close, *id));
            assert(frames_contents(frames@) =~= frames_contents(prev).push(frame(ControlMessage::Close, *id, 0, Seq::empty())));
            assert(it.seq().take(i + 1) =~= it.seq().take(i as int).push(id));
        }
        frames
    }

    /// The incoming-data handle of the open stream `id`, if it is open.
    pub fn stream(&self, id: u32) -> (r: Option<&S>)
        requires
            self.wf(),
        ensures
            match r {
                Some(s) => self.established_map().contains_key(id) && *s == self.established_map()[id],
                None => !self.established_map().contains_key(id),
            },
    {
        self.established.get(&id)
    }
}

/// Giving up on a local open right after making it leaves the open streams and
/// the ids in use as they were, and the waiting opens too when none waited
/// under that id before.
pub proof fn lemma_abandon_undoes_connect<S, W>(
    r0: StreamRegistry<S, W>,
    r1: StreamRegistry<S, W>,
    r2: StreamRegistry<S, W>,
    id: u32,
    inbound: S,
    waiter: W,
)
    requires
        r0.wf(),
        opened_locally(r0, r1, id, inbound, waiter),
        abandoned(r1, r2, id),
    ensures
        r2.established_map() == r0.established_map(),
        r2.open_ids() == r0.open_ids(),
        !r0.waiting_map().contains_key(id) ==> r2.waiting_map() == r0.waiting_map(),
{
    assert(!r0.established_map().contains_key(id));
    assert(r2.established_map() =~= r0.established_map());
    assert(r2.open_ids() =~= r0.open_ids());
    if !r0.waiting_map().contains_key(id) {
        assert(r2.waiting_map() =~= r0.waiting_map());
    }
}

/// When the peer closes a stream this side opened, the open streams and the ids
/// in use are as before the open: the id can be handed out again.
pub proof fn lemma_peer_close_undoes_connect<S, W>(
    r0: StreamRegistry<S, W>,
    r1: StreamRegistry<S, W>,
    r2: StreamRegistry<S, W>,
    id: u32,
    inbound: S,
    waiter: W,
    w: u64,
    r: Result<InboundAction<W>, Error>,
)
    requires
        r0.wf(),
        opened_locally(r0, r1, id, inbound, waiter),
        control_of_code(word_control(w)) == ControlMessage::Close,
        word_stream_id(w) == id,
        inbound_step(r1, r2, w, r),
    ensures
        r == Ok::<InboundAction<W>, Error>(InboundAction::Closed { stream_id: id }),
        r2.established_map() == r0.established_map(),
        r2.open_ids() == r0.open_ids(),
        !r2.open_ids().contains(id),
{
    assert(!r0.established_map().contains_key(id));
    assert(r1.established_map().contains_key(id));
    assert(r2.established_map() =~= r0.established_map());
    assert(r2.open_ids() =~= r0.open_ids());
}

/// After the peer's open of a fresh id is accepted here, a close of it by the
/// peer leaves the open streams and the ids in use as they were.
pub proof fn lemma_peer_close_undoes_accept<S, W>(
    r0: StreamRegistry<S, W>,
    r1: StreamRegistry<S, W>,
    r2: StreamRegistry<S, W>,
    id: u32,
    inbound: S,
    w: u64,
    r: Result<InboundAction<W>, Error>,
)
    requires
        r0.wf(),
        !r0.open_ids().contains(id),
        r1.open_ids() == r0.open_ids().insert(id),
        r1.established_map() == r0.established_map().insert(id, inbound),
        control_of_code(word_control(w)) == ControlMessage::Close,
        word_stream_id(w) == id,
        inbound_step(r1, r2, w, r),
    ensures
        r == Ok::<InboundAction<W>, Error>(InboundAction::Closed { stream_id: id }),
        r2.established_map() == r0.established_map(),
        r2.open_ids() == r0.open_ids(),
{
    assert(!r0.established_map().contains_key(id));
    assert(r1.established_map().contains_key(id));
    assert(r2.established_map() =~= r0.established_map());
    assert(r2.open_ids() =~= r0.open_ids());
}

/// A data frame written for a stream that is open on the other side, once the
/// other side reads its header as a big-endian word, is delivered to that
/// stream with the payload's length and changes nothing there.
pub proof fn lemma_written_data_is_delivered<S, W>(
    r0: StreamRegistry<S, W>,
    r1: StreamRegistry<S, W>,
    stream_id: u32,
    payload: Seq<u8>,
    r: Result<InboundAction<W>, Error>,
)
    requires
        stream_id < 0x4000_0000,
        payload.len() <= u32::MAX,
        r0.established_map().contains_key(stream_id),
        inbound_step(
            r0,
            r1,
            u64_from_be_bytes(data_frame_bytes(stream_id, payload).subrange(0, 8)) as u64,
            r,
        ),
    ensures
        r == Ok::<InboundAction<W>, Error>(
            InboundAction::Deliver { stream_id, data_size: payload.len() as u32 },
        ),
        unchanged(r0, r1),
{
    lemma_data_frame_layout(stream_id, payload);
    vstd::arithmetic::div_mod::lemma_small_mod(stream_id as nat, 0x4000_0000);
}

/// Along any run of registry operations that starts with the cursor in range
/// (as a new registry does), two streams opened from this side get different,
/// non-zero ids when the first is neither abandoned nor closed by the peer
/// before the second is opened. Every registry operation's contract gives the
/// change it makes to the ids; only `abandon` and a received close free one.
pub proof fn lemma_connected_ids_distinct<S, W>(
    regs: Seq<StreamRegistry<S, W>>,
    changes: Seq<IdChange>,
    a: u32,
    b: u32,
    i: int,
    j: int,
)
    requires
        regs.len() == changes.len() + 1,
        forall|k: int| 0 <= k < changes.len() ==> ids_step(regs[k], #[trigger] changes[k], regs[k + 1]),
        1 <= regs[0].cursor() <= MAX_STREAM_ID,
        0 <= i < j < changes.len(),
        changes[i] == IdChange::Next(a),
        changes[j] == IdChange::Next(b),
        forall|m: int| i < m < j ==> #[trigger] changes[m] != IdChange::Release(a),
    ensures
        a != b,
        a != 0,
        b != 0,
{
    let cursors = Seq::new(regs.len(), |k: int| regs[k].cursor());
    let opens = Seq::new(regs.len(), |k: int| regs[k].open_ids());
    assert forall|k: int| 0 <= k < changes.len() implies id_step(
        cursors[k],
        opens[k],
        #[trigger] changes[k],
        cursors[k + 1],
        opens[k + 1],
    ) by {
        assert(ids_step(regs[k], changes[k], regs[k + 1]));
    }
    assert(id_run(cursors, opens, changes));
    lemma_open_ids_distinct(cursors, opens, changes, a, b, i, j);
}

/// `unchanged` links up along a chain.
proof fn lemma_unchanged_chain<S, W>(
    regs: Seq<StreamRegistry<S, W>>,
    stream_id: u32,
    payloads: Seq<Seq<u8>>,
    results: Seq<Result<InboundAction<W>, Error>>,
    k: int,
)
    requires
        stream_id < 0x4000_0000,
        regs.len() == payloads.len() + 1,
        results.len() == payloads.len(),
        0 <= k <= payloads.len(),
        forall|i: int| 0 <= i < payloads.len() ==> (#[trigger] payloads[i]).len() <= u32::MAX,
        regs[0].established_map().contains_key(stream_id),
        forall|i: int|
            0 <= i < payloads.len() ==> inbound_step(
                regs[i],
                regs[i + 1],
                u64_from_be_bytes(data_frame_bytes(stream_id, #[trigger] payloads[i]).subrange(0, 8)) as u64,
                results[i],
            ),
    ensures
        unchanged(regs[0], regs[k]),
        forall|i: int| 0 <= i < k ==> #[trigger] results[i] == Ok::<InboundAction<W>, Error>(
            InboundAction::Deliver { stream_id, data_size: payloads[i].len() as u32 },
        ),
    decreases k,
{
    if k > 0 {
        lemma_unchanged_chain(regs, stream_id, payloads, results, k - 1);
        let i = k - 1;
        assert(inbound_step(
            regs[i],
            regs[i + 1],
            u64_from_be_bytes(data_frame_bytes(stream_id, payloads[i]).subrange(0, 8)) as u64,
            results[i],
        ));
        lemma_written_data_is_delivered(regs[i], regs[i + 1], stream_id, payloads[i], results[i]);
    }
}

/// What one side writes on a stream is what the other side reads: when the
/// stream is open on the receiving side and the receiver takes each data frame
/// of a write in turn (its header read as a big-endian word, then as many
/// payload bytes as the header announces), every frame is delivered to that
/// stream, nothing else changes, and the delivered payloads put together are
/// exactly the written bytes, in order.
#[verifier::rlimit(40)]
pub proof fn lemma_write_read_round_trip<S, W>(
    regs: Seq<StreamRegistry<S, W>>,
    results: Seq<Result<InboundAction<W>, Error>>,
    stream_id: u32,
    size: nat,
    buf: Seq<u8>,
    keep_empty_tail: bool,
)
    requires
        stream_id < 0x4000_0000,
        0 < size <= u32::MAX,
        regs.len() == data_frames_spec(stream_id, size, buf, keep_empty_tail).len() + 1,
        results.len() == data_frames_spec(stream_id, size, buf, keep_empty_tail).len(),
        regs[0].established_map().contains_key(stream_id),
        forall|i: int|
            0 <= i < results.len() ==> inbound_step(
                regs[i],
                regs[i + 1],
                u64_from_be_bytes(
                    (#[trigger] data_frames_spec(stream_id, size, buf, keep_empty_tail)[i]).subrange(0, 8),
                ) as u64,
                results[i],
            ),
    ensures
        ({
            let frames = data_frames_spec(stream_id, size, buf, keep_empty_tail);
            &&& forall|i: int|
                0 <= i < frames.len() ==> #[trigger] results[i] == Ok::<InboundAction<W>, Error>(
                    InboundAction::Deliver { stream_id, data_size: (frames[i].len() - 8) as u32 },
                )
            &&& forall|i: int| 0 <= i < regs.len() ==> unchanged(regs[0], #[trigger] regs[i])
            &&& Seq::new(frames.len(), |i: int| frames[i].subrange(8, frames[i].len() as int)).flatten()
                == buf
        }),
{
    let frames = data_frames_spec(stream_id, size, buf, keep_empty_tail);
    let cs = chunks(buf, size, keep_empty_tail);
    lemma_chunks_reassemble(buf, size, keep_empty_tail);
    assert forall|i: int| 0 <= i < cs.len() implies frames[i] == data_frame_bytes(stream_id, #[trigger] cs[i])
        && cs[i].len() <= u32::MAX && frames[i].subrange(8, frames[i].len() as int) == cs[i]
        && frames[i].len() == 8 + cs[i].len() by {
        assert(cs[i].len() <= size);
        lemma_data_frame_layout(stream_id, cs[i]);
    }
    assert forall|i: int|
        0 <= i < cs.len() implies inbound_step(
        regs[i],
        regs[i + 1],
        u64_from_be_bytes(data_frame_bytes(stream_id, #[trigger] cs[i]).subrange(0, 8)) as u64,
        results[i],
    ) by {
        assert(frames[i] == data_frame_bytes(stream_id, cs[i]));
    }
    assert forall|k: int| 0 <= k < regs.len() implies unchanged(regs[0], #[trigger] regs[k]) by {
        lemma_unchanged_chain(regs, stream_id, cs, results, k);
    }
    lemma_unchanged_chain(regs, stream_id, cs, results, cs.len() as int);
    assert forall|i: int| 0 <= i < frames.len() implies #[trigger] results[i] == Ok::<InboundAction<W>, Error>(
        InboundAction::Deliver { stream_id, data_size: (frames[i].len() - 8) as u32 },
    ) by {
        assert(results[i] == Ok::<InboundAction<W>, Error>(
            InboundAction::Deliver { stream_id, data_size: cs[i].len() as u32 },
        ));
        assert(frames[i].len() - 8 == cs[i].len());
    }
    assert(Seq::new(frames.len(), |i: int| frames[i].subrange(8, frames[i].len() as int)) =~= cs);
}

/// A peer's open is always handed on to be accepted, whatever the registry
/// holds and whether or not a local accept is already waiting: receiving a
/// header whose kind is Open yields `Accept` for the header's stream id and
/// changes nothing. (The accept may come later; the reader waits for it with a
/// timeout.)
pub proof fn lemma_peer_open_is_handed_on<S, W>(
    r0: StreamRegistry<S, W>,
    r1: StreamRegistry<S, W>,
    w: u64,
    r: Result<InboundAction<W>, Error>,
)
    requires
        control_of_code(word_control(w)) == ControlMessage::Open,
        inbound_step(r0, r1, w, r),
    ensures
        r == Ok::<InboundAction<W>, Error>(InboundAction::Accept { stream_id: word_stream_id(w) }),
        r1.established_map() == r0.established_map(),
        r1.waiting_map() == r0.waiting_map(),
        r1.open_ids() == r0.open_ids(),
        r1.cursor() == r0.cursor(),
{
}

/// What receiving any header does, kind by kind, whatever the registry holds:
/// - data is accepted exactly when its stream is open, is delivered to that
///   stream with the header's size, and never changes anything;
/// - an acknowledgement succeeds exactly when an open waits under its id, hands
///   back that very waiter, and afterwards nothing waits under the id;
/// - a close succeeds exactly when its stream is open; afterwards the stream is
///   not open and its id is free, and every other stream is untouched;
/// - only a close changes the open streams or the ids in use, only an
///   acknowledgement changes the waiting opens, and nothing moves the cursor.
pub proof fn lemma_inbound_effects<S, W>(
    r0: StreamRegistry<S, W>,
    r1: StreamRegistry<S, W>,
    w: u64,
    r: Result<InboundAction<W>, Error>,
)
    requires
        inbound_step(r0, r1, w, r),
    ensures
        r1.cursor() == r0.cursor(),
        control_of_code(word_control(w)) != ControlMessage::Close ==> {
            &&& r1.established_map() == r0.established_map()
            &&& r1.open_ids() == r0.open_ids()
        },
        control_of_code(word_control(w)) != ControlMessage::OpenAck ==> r1.waiting_map()
            == r0.waiting_map(),
        control_of_code(word_control(w)) == ControlMessage::Data ==> {
            &&& (r is Ok <==> r0.established_map().contains_key(word_stream_id(w)))
            &&& r is Ok ==> r == Ok::<InboundAction<W>, Error>(
                InboundAction::Deliver { stream_id: word_stream_id(w), data_size: word_data_size(w) },
            )
        },
        control_of_code(word_control(w)) == ControlMessage::OpenAck ==> {
            &&& (r is Ok <==> r0.waiting_map().contains_key(word_stream_id(w)))
            &&& r is Ok ==> r == Ok::<InboundAction<W>, Error>(
                InboundAction::Acknowledge {
                    stream_id: word_stream_id(w),
                    waiter: r0.waiting_map()[word_stream_id(w)],
                },
            )
            &&& !r1.waiting_map().contains_key(word_stream_id(w))
            &&& forall|k: u32| k != word_stream_id(w) ==> (r1.waiting_map().contains_key(k)
                == r0.waiting_map().contains_key(k))
        },
        control_of_code(word_control(w)) == ControlMessage::Close ==> {
            &&& (r is Ok <==> r0.established_map().contains_key(word_stream_id(w)))
            &&& r is Ok ==> r == Ok::<InboundAction<W>, Error>(
                InboundAction::Closed { stream_id: word_stream_id(w) },
            )
            &&& !r1.established_map().contains_key(word_stream_id(w))
            &&& r is Ok ==> !r1.open_ids().contains(word_stream_id(w))
            &&& forall|k: u32| k != word_stream_id(w) ==> (r1.established_map().contains_key(k)
                == r0.established_map().contains_key(k) && r1.open_ids().contains(k)
                == r0.open_ids().contains(k))
        },
{
}

} // verus!
