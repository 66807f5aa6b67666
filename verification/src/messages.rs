use vstd::prelude::*;
use vstd::arithmetic::power2::{pow2, lemma2_to64, lemma2_to64_rest};
use bitfield::{BitRange, BitRangeMut};

verus! {

/// The kind of a frame, stored in the two lowest bits of its header.
#[derive(Debug, Clone, Copy, PartialEq, Eq, Structural)]
pub enum ControlMessage {
    Data,
    Open,
    OpenAck,
    Close,
}

/// The two-bit code of a control message on the wire.
pub open spec fn control_code(c: ControlMessage) -> u8 {
    match c {
        ControlMessage::Data => 0,
        ControlMessage::Open => 1,
        ControlMessage::OpenAck => 2,
        ControlMessage::Close => 3,
    }
}

/// The control message with a given two-bit code.
pub open spec fn control_of_code(v: u8) -> ControlMessage {
    if v == 0 {
        ControlMessage::Data
    } else if v == 1 {
        ControlMessage::Open
    } else if v == 2 {
        ControlMessage::OpenAck
    } else {
        ControlMessage::Close
    }
}

/// Encoding a control message and decoding the code gives the message back, and
/// every code below 4 is the code of the message it decodes to.
pub proof fn lemma_control_code_roundtrip(c: ControlMessage, v: u8)
    ensures
        control_of_code(control_code(c)) == c,
        control_code(c) < 4,
        v < 4 ==> control_code(control_of_code(v)) == v,
{
}

impl ControlMessage {
    /// Decodes a two-bit code; codes above 3 have no meaning and are not accepted.
    pub fn from_bits(value: u8) -> (c: ControlMessage)
        requires
            value < 4,
        ensures
            c == control_of_code(value),
            control_code(c) == value,
    {
        match value {
            0 => ControlMessage::Data,
            1 => ControlMessage::Open,
            2 => ControlMessage::OpenAck,
            _ => ControlMessage::Close,
        }
    }
}

impl From<ControlMessage> for u8 {
    fn from(value: ControlMessage) -> (r: u8) {
        match value {
            ControlMessage::Data => 0,
            ControlMessage::Open => 1,
            ControlMessage::OpenAck => 2,
            ControlMessage::Close => 3,
        }
    }
}

impl vstd::std_specs::convert::FromSpecImpl<ControlMessage> for u8 {
    open spec fn obeys_from_spec() -> bool {
        true
    }

    open spec fn from_spec(v: ControlMessage) -> u8 {
        control_code(v)
    }
}

/// The bits `lsb..=msb` of `word`, as a number.
pub open spec fn bit_field(word: u64, msb: nat, lsb: nat) -> nat {
    (word as nat / pow2(lsb)) % pow2((msb - lsb + 1) as nat)
}

/// `word` with the bits `lsb..=msb` replaced by the low bits of `value`.
pub open spec fn with_bit_field(word: u64, msb: nat, lsb: nat, value: nat) -> nat {
    (word as nat / pow2(msb + 1)) * pow2(msb + 1)
        + (value % pow2((msb - lsb + 1) as nat)) * pow2(lsb)
        + word as nat % pow2(lsb)
}

/// Reads a bit range of a word through `bitfield`'s `BitRange<u8>` for `u64`,
/// which shifts the range down and keeps `msb - lsb + 1` bits.
#[verifier::external_body]
fn read_bits_u8(word: u64, msb: usize, lsb: usize) -> (r: u8)
    requires
        lsb <= msb < 64,
        msb - lsb < 8,
    ensures
        r as nat == bit_field(word, msb as nat, lsb as nat),
{
    BitRange::<u8>::bit_range(&word, msb, lsb)
}

/// Reads a bit range of a word through `bitfield`'s `BitRange<u32>` for `u64`.
#[verifier::external_body]
fn read_bits_u32(word: u64, msb: usize, lsb: usize) -> (r: u32)
    requires
        lsb <= msb < 64,
        msb - lsb < 32,
    ensures
        r as nat == bit_field(word, msb as nat, lsb as nat),
{
    BitRange::<u32>::bit_range(&word, msb, lsb)
}

/// Writes a bit range of a word through `bitfield`'s `BitRangeMut<u8>` for `u64`:
/// the bits of the range are cleared and the low bits of `value` put in their place.
#[verifier::external_body]
fn write_bits_u8(word: &mut u64, msb: usize, lsb: usize, value: u8)
    requires
        lsb <= msb < 64,
    ensures
        *final(word) as nat == with_bit_field(*old(word), msb as nat, lsb as nat, value as nat),
{
    BitRangeMut::<u8>::set_bit_range(word, msb, lsb, value)
}

/// Writes a bit range of a word through `bitfield`'s `BitRangeMut<u32>` for `u64`.
#[verifier::external_body]
fn write_bits_u32(word: &mut u64, msb: usize, lsb: usize, value: u32)
    requires
        lsb <= msb < 64,
    ensures
        *final(word) as nat == with_bit_field(*old(word), msb as nat, lsb as nat, value as nat),
{
    BitRangeMut::<u32>::set_bit_range(word, msb, lsb, value)
}

/// The header word laid out as: data size in bits 63..32, stream id in bits 31..2,
/// control code in bits 1..0.
pub open spec fn header_word(control: ControlMessage, stream_id: u32, data_size: u32) -> u64 {
    (data_size as nat * 0x1_0000_0000 + (stream_id as nat % 0x4000_0000) * 4
        + control_code(control) as nat) as u64
}

/// The control field of a header word.
pub open spec fn word_control(w: u64) -> u8 {
    (w % 4) as u8
}

/// The stream id field of a header word.
pub open spec fn word_stream_id(w: u64) -> u32 {
    ((w / 4) % 0x4000_0000) as u32
}

/// The data size field of a header word.
pub open spec fn word_data_size(w: u64) -> u32 {
    (w / 0x1_0000_0000) as u32
}

/// The eight-byte header that precedes every frame.
pub struct Header(pub u64);

proof fn lemma_pow2_constants()
    ensures
        pow2(0) == 1,
        pow2(1) == 2,
        pow2(2) == 4,
        pow2(30) == 0x4000_0000,
        pow2(32) == 0x1_0000_0000,
        pow2(64) == 0x1_0000_0000_0000_0000,
{
    lemma2_to64();
    lemma2_to64_rest();
}

/// A word made of a data size, a stream id below 2^30 and a two-bit control
/// code has exactly those three fields.
proof fn lemma_compose_fields(d: nat, s: nat, c: nat)
    requires
        d < 0x1_0000_0000,
        s < 0x4000_0000,
        c < 4,
    ensures
        d * 0x1_0000_0000 + s * 4 + c < 0x1_0000_0000_0000_0000,
        word_control((d * 0x1_0000_0000 + s * 4 + c) as u64) == c,
        word_stream_id((d * 0x1_0000_0000 + s * 4 + c) as u64) == s,
        word_data_size((d * 0x1_0000_0000 + s * 4 + c) as u64) == d,
{
    let w = d * 0x1_0000_0000 + s * 4 + c;
    assert(w < 0x1_0000_0000_0000_0000) by (nonlinear_arith)
        requires c < 4, s < 0x4000_0000, d < 0x1_0000_0000, w == d * 0x1_0000_0000 + s * 4 + c;
    vstd::arithmetic::div_mod::lemma_fundamental_div_mod_converse(w as int, 4, (d * 0x4000_0000 + s) as int, c as int);
    vstd::arithmetic::div_mod::lemma_fundamental_div_mod_converse((d * 0x4000_0000 + s) as int, 0x4000_0000, d as int, s as int);
    vstd::arithmetic::div_mod::lemma_fundamental_div_mod_converse(w as int, 0x1_0000_0000, d as int, (s * 4 + c) as int);
}

/// Every word is its data size, stream id and control code put together.
proof fn lemma_decompose_word(w: u64)
    ensures
        w as nat == word_data_size(w) as nat * 0x1_0000_0000 + word_stream_id(w) as nat * 4
            + word_control(w) as nat,
{
    let x = w as int;
    vstd::arithmetic::div_mod::lemma_fundamental_div_mod(x, 4);
    vstd::arithmetic::div_mod::lemma_fundamental_div_mod(x / 4, 0x4000_0000);
    vstd::arithmetic::div_mod::lemma_div_denominator(x, 4, 0x4000_0000);
    assert(x / 0x1_0000_0000 < 0x1_0000_0000) by (nonlinear_arith)
        requires 0 <= x < 0x1_0000_0000_0000_0000;
}

/// Each field of a header word built from a control message, a stream id and a
/// data size reads back the value that was put in it (the stream id modulo 2^30).
pub proof fn lemma_header_word_fields(control: ControlMessage, stream_id: u32, data_size: u32)
    ensures
        word_control(header_word(control, stream_id, data_size)) == control_code(control),
        word_stream_id(header_word(control, stream_id, data_size)) == stream_id as nat
            % 0x4000_0000,
        word_data_size(header_word(control, stream_id, data_size)) == data_size,
        control_of_code(word_control(header_word(control, stream_id, data_size))) == control,
{
    lemma_compose_fields(data_size as nat, stream_id as nat % 0x4000_0000, control_code(control) as nat);
}

/// Replacing one field of a word, as the header setters do, puts the new value
/// (in as many bits as the field has) there and keeps the other two fields.
proof fn lemma_replace_field(w: u64, msb: nat, lsb: nat, v: nat)
    requires
        (msb, lsb) == (1nat, 0nat) || (msb, lsb) == (31nat, 2nat) || (msb, lsb) == (63nat, 32nat),
    ensures
        with_bit_field(w, msb, lsb, v) < 0x1_0000_0000_0000_0000,
        ({
            let n = with_bit_field(w, msb, lsb, v) as u64;
            &&& word_control(n) == (if lsb == 0 { v % 4 } else { word_control(w) as nat })
            &&& word_stream_id(n) == (if lsb == 2 { v % 0x4000_0000 } else { word_stream_id(w) as nat })
            &&& word_data_size(n) == (if lsb == 32 { v % 0x1_0000_0000 } else { word_data_size(w) as nat })
        }),
{
    lemma_pow2_constants();
    lemma_decompose_word(w);
    let d = word_data_size(w) as nat;
    let s = word_stream_id(w) as nat;
    let c = word_control(w) as nat;
    let x = w as int;
    if lsb == 0 {
        vstd::arithmetic::div_mod::lemma_fundamental_div_mod_converse(x, 4, (d * 0x4000_0000 + s) as int, c as int);
        assert(with_bit_field(w, msb, lsb, v) == (d * 0x4000_0000 + s) * 4 + v % 4);
        assert((d * 0x4000_0000 + s) * 4 + v % 4 == d * 0x1_0000_0000 + s * 4 + v % 4) by (nonlinear_arith);
        lemma_compose_fields(d, s, v % 4);
    } else if lsb == 2 {
        vstd::arithmetic::div_mod::lemma_fundamental_div_mod_converse(x, 4, (d * 0x4000_0000 + s) as int, c as int);
        vstd::arithmetic::div_mod::lemma_fundamental_div_mod_converse(x, 0x1_0000_0000, d as int, (s * 4 + c) as int);
        assert(with_bit_field(w, msb, lsb, v) == d * 0x1_0000_0000 + (v % 0x4000_0000) * 4 + c);
        lemma_compose_fields(d, v % 0x4000_0000, c);
    } else {
        vstd::arithmetic::div_mod::lemma_fundamental_div_mod_converse(x, 0x1_0000_0000, d as int, (s * 4 + c) as int);
        vstd::arithmetic::div_mod::lemma_fundamental_div_mod_converse(x, 0x1_0000_0000_0000_0000, 0, x);
        assert(with_bit_field(w, msb, lsb, v) == (v % 0x1_0000_0000) * 0x1_0000_0000 + s * 4 + c);
        lemma_compose_fields(v % 0x1_0000_0000, s, c);
    }
}

impl Header {
    /// A header for a frame of the given kind, stream and payload size.
    pub fn new(control: ControlMessage, stream_id: u32, data_size: u32) -> (header: Header)
        ensures
            header.0 == header_word(control, stream_id, data_size),
            word_control(header.0) == control_code(control),
            word_stream_id(header.0) == stream_id as nat % 0x4000_0000,
            word_data_size(header.0) == data_size,
    {
        let mut header = Header(0);
        header.set_control(control);
        header.set_stream_id(stream_id);
        header.set_data_size(data_size);
        proof {
            assert(word_control(0) == 0 && word_stream_id(0) == 0 && word_data_size(0) == 0);
            lemma_header_word_fields(control, stream_id, data_size);
            lemma_decompose_word(header.0);
            lemma_decompose_word(header_word(control, stream_id, data_size));
        }
        header
    }

    pub fn control(&self) -> (c: ControlMessage)
        ensures
            c == control_of_code(word_control(self.0)),
            control_code(c) == word_control(self.0),
    {
        proof { lemma_pow2_constants(); }
        let raw: u8 = read_bits_u8(self.0, 1, 0);
        ControlMessage::from_bits(raw)
    }

    pub fn set_control(&mut self, value: ControlMessage)
        ensures
            final(self).0 as nat == with_bit_field(old(self).0, 1, 0, control_code(value) as nat),
            word_control(final(self).0) == control_code(value),
            word_stream_id(final(self).0) == word_stream_id(old(self).0),
            word_data_size(final(self).0) == word_data_size(old(self).0),
    {
        let raw: u8 = u8::from(value);
        proof {
            lemma_replace_field(self.0, 1, 0, raw as nat);
        }
        write_bits_u8(&mut self.0, 1, 0, raw);
    }

    pub fn stream_id(&self) -> (id: u32)
        ensures
            id == word_stream_id(self.0),
    {
        proof { lemma_pow2_constants(); }
        read_bits_u32(self.0, 31, 2)
    }

    pub fn set_stream_id(&mut self, value: u32)
        ensures
            final(self).0 as nat == with_bit_field(old(self).0, 31, 2, value as nat),
            word_control(final(self).0) == word_control(old(self).0),
            word_stream_id(final(self).0) == value as nat % 0x4000_0000,
            word_data_size(final(self).0) == word_data_size(old(self).0),
    {
        proof {
            lemma_replace_field(self.0, 31, 2, value as nat);
        }
        write_bits_u32(&mut self.0, 31, 2, value);
    }

    pub fn data_size(&self) -> (size: u32)
        ensures
            size == word_data_size(self.0),
    {
        proof {
            lemma_pow2_constants();
            let w = self.0 as nat;
            assert(w / 0x1_0000_0000 < 0x1_0000_0000) by (nonlinear_arith)
                requires w < 0x1_0000_0000_0000_0000;
            vstd::arithmetic::div_mod::lemma_small_mod(w / 0x1_0000_0000, 0x1_0000_0000);
        }
        read_bits_u32(self.0, 63, 32)
    }

    pub fn set_data_size(&mut self, value: u32)
        ensures
            final(self).0 as nat == with_bit_field(old(self).0, 63, 32, value as nat),
            word_control(final(self).0) == word_control(old(self).0),
            word_stream_id(final(self).0) == word_stream_id(old(self).0),
            word_data_size(final(self).0) == value,
    {
        proof {
            lemma_replace_field(self.0, 63, 32, value as nat);
            vstd::arithmetic::div_mod::lemma_small_mod(value as nat, 0x1_0000_0000);
        }
        write_bits_u32(&mut self.0, 63, 32, value);
    }
}

} // verus!
