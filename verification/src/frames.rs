use vstd::prelude::*;
use vstd::slice::slice_subrange;
use bytes::{Bytes};
use crate::buffers::{bytes_contents, u64_be_bytes, u64_from_be_bytes, lemma_u64_be_bytes_roundtrip, new_buffer, put_u64, put_slice, freeze};
use crate::messages::{ControlMessage, Header, header_word, word_control, word_stream_id, word_data_size, control_code, lemma_header_word_fields};

verus! {

/// A frame on the wire: the big-endian header word, then the payload.
pub open spec fn frame(control: ControlMessage, stream_id: u32, data_size: u32, payload: Seq<u8>) -> Seq<u8> {
    u64_be_bytes(header_word(control, stream_id, data_size)) + payload
}

/// A data frame carrying `payload`; its header announces the payload's length
/// (truncated to 32 bits, as the header field is).
pub open spec fn data_frame_bytes(stream_id: u32, payload: Seq<u8>) -> Seq<u8> {
    frame(ControlMessage::Data, stream_id, payload.len() as u32, payload)
}

/// Whether the frames that carry a write of `len` bytes in `size`-byte pieces
/// fit in memory: each frame's buffer, the header plus at most one piece, must
/// stay within `isize::MAX` bytes. A full piece is only cut when the write is at
/// least `size` long.
pub open spec fn frames_fit(len: nat, size: nat) -> bool {
    &&& size <= len ==> size + 8 <= isize::MAX
    &&& len % size + 8 <= isize::MAX
}

/// The bytes of a frozen buffer, for each buffer of a sequence.
pub open spec fn frames_contents(frames: Seq<Bytes>) -> Seq<Seq<u8>> {
    frames.map_values(|b: Bytes| bytes_contents(b))
}

/// How many pieces a write of `len` bytes is cut into: one per full
/// `size`-byte piece, and one for the rest when there is a rest or when an
/// empty last piece is kept.
pub open spec fn chunk_count(len: nat, size: nat, keep_empty_tail: bool) -> nat {
    if keep_empty_tail || len % size != 0 {
        len / size + 1
    } else {
        len / size
    }
}

/// The end of piece `i` of a buffer of `len` bytes cut into `size`-byte pieces.
pub open spec fn chunk_end(len: nat, size: nat, i: int) -> int {
    if (i + 1) * size <= len {
        (i + 1) * size
    } else {
        len as int
    }
}

/// The pieces a buffer is cut into, in order.
pub open spec fn chunks(buf: Seq<u8>, size: nat, keep_empty_tail: bool) -> Seq<Seq<u8>> {
    Seq::new(
        chunk_count(buf.len(), size, keep_empty_tail),
        |i: int| buf.subrange(i * size, chunk_end(buf.len(), size, i)),
    )
}

/// The data frames that carry `buf` for a stream, one per piece.
pub open spec fn data_frames_spec(stream_id: u32, size: nat, buf: Seq<u8>, keep_empty_tail: bool) -> Seq<Seq<u8>> {
    chunks(buf, size, keep_empty_tail).map_values(|c: Seq<u8>| data_frame_bytes(stream_id, c))
}

/// The data frames of a vectored write: the frames of each buffer in turn, each
/// buffer ending with a (possibly empty) frame for its rest.
pub open spec fn vectored_frames_spec(stream_id: u32, size: nat, bufs: Seq<Seq<u8>>) -> Seq<Seq<u8>>
    decreases bufs.len(),
{
    if bufs.len() == 0 {
        Seq::empty()
    } else {
        vectored_frames_spec(stream_id, size, bufs.drop_last()) + data_frames_spec(stream_id, size, bufs.last(), true)
    }
}

/// The total number of bytes in a sequence of buffers.
pub open spec fn total_len(bufs: Seq<Seq<u8>>) -> nat
    decreases bufs.len(),
{
    if bufs.len() == 0 {
        0
    } else {
        total_len(bufs.drop_last()) + bufs.last().len()
    }
}

/// A frame that carries only a control message for a stream: a header with a
/// zero data size and no payload.
pub fn control_frame(control: ControlMessage, stream_id: u32) -> (frame_bytes: Bytes)
    ensures
        bytes_contents(frame_bytes) == frame(control, stream_id, 0, Seq::empty()),
{
    let mut buf = new_buffer(8);
    put_u64(&mut buf, Header::new(control, stream_id, 0).0);
    let frozen = freeze(buf);
    assert(frame(control, stream_id, 0, Seq::empty()) =~= u64_be_bytes(header_word(control, stream_id, 0)));
    frozen
}

/// One data frame for a piece of a write, built in a buffer of the given
/// capacity.
fn data_frame(stream_id: u32, capacity: usize, chunk: &[u8]) -> (frame_bytes: Bytes)
    requires
        capacity <= isize::MAX,
        chunk@.len() + 8 <= isize::MAX,
    ensures
        bytes_contents(frame_bytes) == data_frame_bytes(stream_id, chunk@),
{
    let mut bytes = new_buffer(capacity);
    put_u64(&mut bytes, Header::new(ControlMessage::Data, stream_id, chunk.len() as u32).0);
    put_slice(&mut bytes, chunk);
    freeze(bytes)
}

/// Facts about cutting `len` bytes into `size`-byte pieces: the full pieces
/// end inside the buffer and the rest starts where they stop.
proof fn lemma_cut(len: nat, size: nat, i: nat)
    requires
        size > 0,
    ensures
        (len / size) * size + len % size == len,
        len % size < size,
        i < len / size ==> (i + 1) * size <= len,
        (len / size + 1) * size > len,
        i * size + size == (i + 1) * size,
{
    vstd::arithmetic::div_mod::lemma_fundamental_div_mod(len as int, size as int);
    assert((len / size) * size == size * (len / size)) by (nonlinear_arith);
    if i < len / size {
        vstd::arithmetic::mul::lemma_mul_inequality(i as int + 1, (len / size) as int, size as int);
    }
    assert((len / size + 1) * size == (len / size) * size + size) by (nonlinear_arith);
    assert(i * size + size == (i + 1) * size) by (nonlinear_arith);
}

/// Appends to `frames` the data frames that carry `buf` for a stream: one frame
/// per full `buffer_size`-byte piece, then one for the rest, which is sent empty
/// only when `keep_empty_tail` is set.
fn append_data_frames(
    frames: &mut Vec<Bytes>,
    stream_id: u32,
    buffer_size: usize,
    buf: &[u8],
    keep_empty_tail: bool,
)
    requires
        0 < buffer_size,
        frames_fit(buf@.len(), buffer_size as nat),
    ensures
        frames_contents(final(frames)@) == frames_contents(old(frames)@) + data_frames_spec(
            stream_id,
            buffer_size as nat,
            buf@,
            keep_empty_tail,
        ),
{
    let ghost base = frames_contents(frames@);
    let ghost spec = data_frames_spec(stream_id, buffer_size as nat, buf@, keep_empty_tail);
    let length = buf.len();
    let full = length / buffer_size;
    proof {
        lemma_cut(length as nat, buffer_size as nat, 0);
    }
    let mut i: usize = 0;
    while i < full
        invariant
            0 < buffer_size,
            frames_fit(buf@.len(), buffer_size as nat),
            length == buf@.len(),
            full == length / buffer_size,
            i <= full,
            spec == data_frames_spec(stream_id, buffer_size as nat, buf@, keep_empty_tail),
            spec.len() >= full,
            frames_contents(frames@) == base + spec.take(i as int),
        decreases full - i,
    {
        proof {
            lemma_cut(length as nat, buffer_size as nat, i as nat);
            lemma_cut(length as nat, buffer_size as nat, 0);
            assert(buffer_size <= length);
        }
        let start = i * buffer_size;
        let end = start + buffer_size;
        let chunk = slice_subrange(buf, start, end);
        let f = data_frame(stream_id, 8 + buffer_size, chunk);
        let ghost prev = frames@;
        frames.push(f);
        proof {
            assert(chunk_end(length as nat, buffer_size as nat, i as int) == end);
            assert(spec[i as int] == data_frame_bytes(stream_id, chunk@));
            assert(spec.take(i + 1) =~= spec.take(i as int).push(spec[i as int]));
            assert(frames_contents(frames@) =~= frames_contents(prev).push(bytes_contents(f)));
        }
        i = i + 1;
    }
    let start = length - length % buffer_size;
    let end = length;
    proof {
        lemma_cut(length as nat, buffer_size as nat, 0);
    }
    let ghost prev = frames@;
    if keep_empty_tail || start != end {
        let chunk = slice_subrange(buf, start, end);
        let f = data_frame(stream_id, 8 + length % buffer_size, chunk);
        frames.push(f);
        proof {
            assert(spec.len() == full + 1);
            assert(chunk_end(length as nat, buffer_size as nat, full as int) == end);
            assert(spec[full as int] == data_frame_bytes(stream_id, chunk@));
            assert(spec =~= spec.take(full as int).push(spec[full as int]));
            assert(frames_contents(frames@) =~= frames_contents(prev).push(bytes_contents(f)));
        }
    } else {
        assert(spec =~= spec.take(full as int));
    }
}

/// The frames a write of `buf` on a stream sends, in order: one data frame per
/// full `buffer_size`-byte piece, then one for the rest if there is any.
pub fn data_frames(stream_id: u32, buffer_size: usize, buf: &[u8]) -> (frames: Vec<Bytes>)
    requires
        0 < buffer_size,
        frames_fit(buf@.len(), buffer_size as nat),
    ensures
        frames_contents(frames@) == data_frames_spec(stream_id, buffer_size as nat, buf@, false),
{
    let mut frames: Vec<Bytes> = Vec::new();
    proof {
        assert(frames_contents(frames@) =~= Seq::<Seq<u8>>::empty());
    }
    append_data_frames(&mut frames, stream_id, buffer_size, buf, false);
    proof {
        assert(frames_contents(frames@) =~= data_frames_spec(stream_id, buffer_size as nat, buf@, false));
    }
    frames
}

/// The views of a sequence of byte slices.
pub open spec fn slices_view(bufs: Seq<&[u8]>) -> Seq<Seq<u8>> {
    bufs.map_values(|b: &[u8]| b@)
}

/// The frames a vectored write sends, in order, and the number of bytes it
/// reports written: each buffer in turn is cut as by `data_frames`, except that
/// every buffer ends with a frame for its rest, empty or not.
pub fn vectored_data_frames(stream_id: u32, buffer_size: usize, bufs: &[&[u8]]) -> (r: (
    Vec<Bytes>,
    usize,
))
    requires
        bufs@.len() > 0 ==> 0 < buffer_size,
        forall|i: int| 0 <= i < bufs@.len() ==> frames_fit(#[trigger] bufs@[i]@.len(), buffer_size as nat),
        total_len(slices_view(bufs@)) <= usize::MAX,
    ensures
        frames_contents(r.0@) == vectored_frames_spec(stream_id, buffer_size as nat, slices_view(bufs@)),
        r.1 == total_len(slices_view(bufs@)),
{
    let ghost views = slices_view(bufs@);
    let mut frames: Vec<Bytes> = Vec::new();
    let mut total_length: usize = 0;
    let mut k: usize = 0;
    proof {
        assert(frames_contents(frames@) =~= Seq::<Seq<u8>>::empty());
        assert(views.take(0) =~= Seq::<Seq<u8>>::empty());
    }
    while k < bufs.len()
        invariant
            bufs@.len() > 0 ==> 0 < buffer_size,
            forall|i: int| 0 <= i < bufs@.len() ==> frames_fit(#[trigger] bufs@[i]@.len(), buffer_size as nat),
            views == slices_view(bufs@),
            total_len(views) <= usize::MAX,
            k <= bufs@.len(),
            frames_contents(frames@) == vectored_frames_spec(stream_id, buffer_size as nat, views.take(k as int)),
            total_length == total_len(views.take(k as int)),
        decreases bufs.len() - k,
    {
        let buf = bufs[k];
        proof {
            assert(views.take(k + 1).drop_last() =~= views.take(k as int));
            assert(views.take(k + 1).last() == buf@);
            lemma_total_len_prefix(views, k as int + 1);
        }
        let length = buf.len();
        total_length = total_length + length;
        append_data_frames(&mut frames, stream_id, buffer_size, buf, true);
        k = k + 1;
    }
    proof {
        assert(views.take(bufs@.len() as int) =~= views);
    }
    (frames, total_length)
}

/// The bytes of a prefix of a sequence of buffers are no more than those of the
/// whole sequence.
proof fn lemma_total_len_prefix(bufs: Seq<Seq<u8>>, n: int)
    requires
        0 <= n <= bufs.len(),
    ensures
        total_len(bufs.take(n)) <= total_len(bufs),
    decreases bufs.len(),
{
    if n < bufs.len() {
        assert(bufs.drop_last().take(n) =~= bufs.take(n));
        lemma_total_len_prefix(bufs.drop_last(), n);
    } else {
        assert(bufs.take(n) =~= bufs);
    }
}

/// Where the first `k` pieces of a cut end.
spec fn prefix_end(len: nat, size: nat, k: int) -> int {
    if k <= 0 {
        0
    } else {
        chunk_end(len, size, k - 1)
    }
}

/// Piece `k` starts where the pieces before it end.
proof fn lemma_chunk_start(len: nat, size: nat, keep_empty_tail: bool, k: int)
    requires
        size > 0,
        0 <= k < chunk_count(len, size, keep_empty_tail),
    ensures
        k * size == prefix_end(len, size, k),
        k * size <= chunk_end(len, size, k) <= len,
{
    lemma_cut(len, size, k as nat);
    if k > 0 {
        lemma_cut(len, size, (k - 1) as nat);
        assert(k - 1 < len / size);
        assert((k - 1) as nat + 1 == k);
        assert(k * size <= len);
        assert(k - 1 + 1 == k);
        assert(chunk_end(len, size, k - 1) == k * size);
    } else {
        assert(k * size == 0) by (nonlinear_arith)
            requires k == 0;
    }
    if k * size > len {
        assert(k >= len / size + 1) by (nonlinear_arith)
            requires k * size > len, size > 0, (len / size) * size + len % size == len,
                len % size < size;
    }
}

/// The first `k` pieces put together are the bytes up to where they end.
proof fn lemma_chunks_prefix(buf: Seq<u8>, size: nat, keep_empty_tail: bool, k: int)
    requires
        size > 0,
        0 <= k <= chunk_count(buf.len(), size, keep_empty_tail),
    ensures
        chunks(buf, size, keep_empty_tail).take(k).flatten() == buf.subrange(0, prefix_end(buf.len(), size, k)),
    decreases k,
{
    let cs = chunks(buf, size, keep_empty_tail);
    if k == 0 {
        assert(cs.take(0) =~= Seq::<Seq<u8>>::empty());
        assert(buf.subrange(0, 0) =~= Seq::<u8>::empty());
    } else {
        lemma_chunks_prefix(buf, size, keep_empty_tail, k - 1);
        lemma_chunk_start(buf.len(), size, keep_empty_tail, k - 1);
        assert(cs.take(k) =~= cs.take(k - 1).push(cs[k - 1]));
        cs.take(k - 1).lemma_flatten_push(cs[k - 1]);
        assert(buf.subrange(0, prefix_end(buf.len(), size, k - 1)) + cs[k - 1] =~= buf.subrange(
            0,
            prefix_end(buf.len(), size, k),
        ));
    }
}

/// Cutting a write into pieces loses and reorders nothing: the pieces put back
/// together in order are the written bytes. Every piece holds at most `size`
/// bytes, and every piece but the last holds exactly `size`.
pub proof fn lemma_chunks_reassemble(buf: Seq<u8>, size: nat, keep_empty_tail: bool)
    requires
        size > 0,
    ensures
        chunks(buf, size, keep_empty_tail).flatten() == buf,
        forall|i: int|
            0 <= i < chunks(buf, size, keep_empty_tail).len() ==> #[trigger] chunks(buf, size, keep_empty_tail)[i].len() <= size,
        forall|i: int|
            0 <= i < chunks(buf, size, keep_empty_tail).len() - 1 ==> #[trigger] chunks(buf, size, keep_empty_tail)[i].len() == size,
{
    let cs = chunks(buf, size, keep_empty_tail);
    let len = buf.len();
    let n = cs.len() as int;
    lemma_cut(len, size, 0);
    lemma_chunks_prefix(buf, size, keep_empty_tail, n);
    assert(cs.take(n) =~= cs);
    if n > 0 {
        lemma_cut(len, size, (n - 1) as nat);
        assert((n - 1) * size + size == n * size) by (nonlinear_arith);
        if keep_empty_tail || len % size != 0 {
            assert(n * size > len);
        } else {
            assert(n * size == len);
        }
        assert(prefix_end(len, size, n) == len);
    } else {
        assert(len == 0);
    }
    assert(buf.subrange(0, len as int) =~= buf);
    assert forall|i: int| 0 <= i < cs.len() implies #[trigger] cs[i].len() <= size by {
        lemma_chunk_start(len, size, keep_empty_tail, i);
        lemma_cut(len, size, i as nat);
    }
    assert forall|i: int| 0 <= i < cs.len() - 1 implies #[trigger] cs[i].len() == size by {
        lemma_cut(len, size, i as nat);
        lemma_chunk_start(len, size, keep_empty_tail, i);
        assert(i < len / size);
    }
}

/// A data frame is its eight header bytes followed by the payload; a reader
/// that takes the eight bytes as a big-endian number gets the header word, and
/// its fields give back the frame kind, the stream id (modulo 2^30) and the
/// payload's length, whenever that length fits the 32-bit size field.
pub proof fn lemma_data_frame_layout(stream_id: u32, payload: Seq<u8>)
    requires
        payload.len() <= u32::MAX,
    ensures
        ({
            let f = data_frame_bytes(stream_id, payload);
            let w = header_word(ControlMessage::Data, stream_id, payload.len() as u32);
            &&& f.len() == 8 + payload.len()
            &&& f.subrange(0, 8) == u64_be_bytes(w)
            &&& u64_from_be_bytes(f.subrange(0, 8)) == w
            &&& f.subrange(8, f.len() as int) == payload
            &&& word_control(w) == control_code(ControlMessage::Data)
            &&& word_stream_id(w) == stream_id as nat % 0x4000_0000
            &&& word_data_size(w) == payload.len()
        }),
{
    let f = data_frame_bytes(stream_id, payload);
    let w = header_word(ControlMessage::Data, stream_id, payload.len() as u32);
    lemma_header_word_fields(ControlMessage::Data, stream_id, payload.len() as u32);
    lemma_u64_be_bytes_roundtrip(w);
    assert(f.subrange(0, 8) =~= u64_be_bytes(w));
    assert(f.subrange(8, f.len() as int) =~= payload);
}

/// A control frame is exactly eight bytes; read as a big-endian number they
/// are the header word, whose fields are the control message, the stream id
/// (modulo 2^30) and a zero data size.
pub proof fn lemma_control_frame_layout(control: ControlMessage, stream_id: u32)
    ensures
        ({
            let f = frame(control, stream_id, 0, Seq::empty());
            let w = header_word(control, stream_id, 0);
            &&& f.len() == 8
            &&& u64_from_be_bytes(f) == w
            &&& word_control(w) == control_code(control)
            &&& word_stream_id(w) == stream_id as nat % 0x4000_0000
            &&& word_data_size(w) == 0
        }),
{
    let f = frame(control, stream_id, 0, Seq::empty());
    let w = header_word(control, stream_id, 0);
    lemma_header_word_fields(control, stream_id, 0);
    lemma_u64_be_bytes_roundtrip(w);
    assert(f =~= u64_be_bytes(w));
}

/// A write (not vectored) of `len` bytes goes out as exactly
/// `ceil(len / size)` data frames, every one of them carrying at least one
/// byte: no empty data frame is ever sent, so a write of exactly `size` bytes is
/// one frame and an empty write sends nothing.
pub proof fn lemma_write_frames_nonempty(stream_id: u32, size: nat, buf: Seq<u8>)
    requires
        size > 0,
    ensures
        data_frames_spec(stream_id, size, buf, false).len() == (buf.len() + size - 1) / size as int,
        forall|i: int|
            0 <= i < data_frames_spec(stream_id, size, buf, false).len() ==> {
                &&& #[trigger] chunks(buf, size, false)[i].len() >= 1
                &&& data_frames_spec(stream_id, size, buf, false)[i].len() > 8
            },
{
    let len = buf.len();
    let cs = chunks(buf, size, false);
    lemma_cut(len, size, 0);
    let q = len / size;
    let r = len % size;
    if r == 0 {
        assert(len + size - 1 == q * size + (size - 1));
        vstd::arithmetic::div_mod::lemma_fundamental_div_mod_converse(
            (len + size - 1) as int,
            size as int,
            q as int,
            (size - 1) as int,
        );
    } else {
        assert(len + size - 1 == (q + 1) * size + (r - 1)) by (nonlinear_arith)
            requires len == q * size + r, r >= 1;
        vstd::arithmetic::div_mod::lemma_fundamental_div_mod_converse(
            (len + size - 1) as int,
            size as int,
            (q + 1) as int,
            (r - 1) as int,
        );
    }
    assert forall|i: int| 0 <= i < cs.len() implies #[trigger] cs[i].len() >= 1
        && data_frames_spec(stream_id, size, buf, false)[i].len() > 8 by {
        lemma_chunk_start(len, size, false, i);
        lemma_cut(len, size, i as nat);
        if i < q {
            assert(chunk_end(len, size, i) == (i + 1) * size);
            assert(i * size + size == (i + 1) * size);
        } else {
            assert(i == q);
            assert(r != 0);
            assert(chunk_end(len, size, i) == len);
            assert(i * size == q * size);
        }
        assert(data_frames_spec(stream_id, size, buf, false)[i] == data_frame_bytes(stream_id, cs[i]));
    }
}

/// The payload of each frame: what follows its eight-byte header.
pub open spec fn frame_payloads(frames: Seq<Seq<u8>>) -> Seq<Seq<u8>> {
    Seq::new(frames.len(), |i: int| frames[i].subrange(8, frames[i].len() as int))
}

/// For each buffer of a vectored write, one frame per full piece and one more
/// for its rest.
pub open spec fn vectored_frame_count(bufs: Seq<Seq<u8>>, size: nat) -> nat
    decreases bufs.len(),
{
    if bufs.len() == 0 {
        0
    } else {
        vectored_frame_count(bufs.drop_last(), size) + bufs.last().len() / size + 1
    }
}

/// The payloads of a write's frames are its pieces.
proof fn lemma_payloads_are_chunks(stream_id: u32, size: nat, buf: Seq<u8>, keep_empty_tail: bool)
    requires
        size > 0,
    ensures
        frame_payloads(data_frames_spec(stream_id, size, buf, keep_empty_tail)) == chunks(buf, size, keep_empty_tail),
{
    let fs = data_frames_spec(stream_id, size, buf, keep_empty_tail);
    let cs = chunks(buf, size, keep_empty_tail);
    assert forall|i: int| 0 <= i < cs.len() implies #[trigger] frame_payloads(fs)[i] == cs[i] by {
        assert(fs[i] == data_frame_bytes(stream_id, cs[i]));
        assert(fs[i].subrange(8, fs[i].len() as int) =~= cs[i]);
    }
    assert(frame_payloads(fs) =~= cs);
}

/// A vectored write loses and reorders nothing: the payloads of its frames put
/// together are the bytes of all its buffers, in order. Each buffer gives one
/// frame per full piece and one more for its rest, even an empty rest, and no
/// payload is longer than `size`.
#[verifier::rlimit(30)]
pub proof fn lemma_vectored_reassemble(stream_id: u32, size: nat, bufs: Seq<Seq<u8>>)
    requires
        size > 0,
    ensures
        frame_payloads(vectored_frames_spec(stream_id, size, bufs)).flatten() == bufs.flatten(),
        vectored_frames_spec(stream_id, size, bufs).len() == vectored_frame_count(bufs, size),
        forall|i: int|
            0 <= i < vectored_frames_spec(stream_id, size, bufs).len() ==> (#[trigger] frame_payloads(
                vectored_frames_spec(stream_id, size, bufs),
            )[i]).len() <= size,
    decreases bufs.len(),
{
    if bufs.len() == 0 {
        assert(frame_payloads(vectored_frames_spec(stream_id, size, bufs)) =~= Seq::<Seq<u8>>::empty());
        assert(bufs =~= Seq::<Seq<u8>>::empty());
    } else {
        let init = bufs.drop_last();
        let last = bufs.last();
        lemma_vectored_reassemble(stream_id, size, init);
        let a = vectored_frames_spec(stream_id, size, init);
        let b = data_frames_spec(stream_id, size, last, true);
        lemma_payloads_are_chunks(stream_id, size, last, true);
        lemma_chunks_reassemble(last, size, true);
        assert(frame_payloads(a + b) =~= frame_payloads(a) + frame_payloads(b));
        vstd::seq_lib::lemma_flatten_concat(frame_payloads(a), frame_payloads(b));
        assert(bufs =~= init.push(last));
        init.lemma_flatten_push(last);
        assert(frame_payloads(vectored_frames_spec(stream_id, size, bufs)) == frame_payloads(a) + frame_payloads(b));
        lemma_cut(last.len(), size, 0);
        assert(b.len() == last.len() / size + 1);
        assert forall|i: int|
            0 <= i < vectored_frames_spec(stream_id, size, bufs).len() implies (#[trigger] frame_payloads(
            vectored_frames_spec(stream_id, size, bufs),
        )[i]).len() <= size by {
            if i < a.len() {
                assert(frame_payloads(vectored_frames_spec(stream_id, size, bufs))[i] == frame_payloads(a)[i]);
            } else {
                assert(frame_payloads(vectored_frames_spec(stream_id, size, bufs))[i] == frame_payloads(b)[i - a.len()]);
                assert(frame_payloads(b)[i - a.len()] == chunks(last, size, true)[i - a.len()]);
            }
        }
    }
}

} // verus!
