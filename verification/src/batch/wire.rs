//! The building blocks of the stream protocol: LEB128 varints, zigzag signs and length
//! prefixed text, and a cursor that reads them back.

use crate::batch::buffer::{buffer_bytes, put_u8};
use crate::error::{ErrorCode, ErrorView, ReductError};
use bytes::BytesMut;
use vstd::arithmetic::power::{lemma_pow1, lemma_pow_increases, pow};
use vstd::prelude::*;
use vstd::utf8::{decode_utf8, valid_utf8};

verus! {

/// The signed number that has the same 64 bits as `v`.
pub open spec fn signed(v: u64) -> int {
    if v <= i64::MAX {
        v as int
    } else {
        v - 0x1_0000_0000_0000_0000
    }
}

/// Brings a difference of two signed 64-bit numbers back into their range.
pub open spec fn wrap_signed(d: int) -> int {
    if d > i64::MAX {
        d - 0x1_0000_0000_0000_0000
    } else if d < i64::MIN {
        d + 0x1_0000_0000_0000_0000
    } else {
        d
    }
}

/// Zigzag: small numbers of either sign become small unsigned numbers.
pub open spec fn zigzag_code(v: int) -> int {
    if v >= 0 {
        2 * v
    } else {
        -2 * v - 1
    }
}

/// The inverse of [`zigzag_code`].
pub open spec fn zigzag_value(c: int) -> int {
    if c % 2 == 0 {
        c / 2
    } else {
        -(c / 2) - 1
    }
}

pub fn zigzag(value: i64) -> (r: u64)
    ensures
        r == zigzag_code(value as int),
{
    proof {
        assert(value >= 0 ==> ((value << 1) ^ (value >> 63)) as u64 == 2 * value) by (bit_vector);
        assert(value < 0 ==> ((value << 1) ^ (value >> 63)) as u64 == -2 * value - 1)
            by (bit_vector);
    }
    ((value << 1) ^ (value >> 63)) as u64
}

pub fn unzigzag(value: u64) -> (r: i64)
    ensures
        r == zigzag_value(value as int),
{
    proof {
        assert(value % 2 == 0 ==> ((value >> 1) as i64) ^ (-((value & 1) as i64)) as i64 == value / 2)
            by (bit_vector);
        assert(value % 2 == 1 ==> ((value >> 1) as i64) ^ (-((value & 1) as i64)) as i64 == -(value / 2) - 1)
            by (bit_vector);
        assert((value & 1) as i64 <= 1) by (bit_vector);
        assert((value & 1) as i64 >= 0) by (bit_vector);
    }
    ((value >> 1) as i64) ^ -((value & 1) as i64)
}

/// The wire difference of two timestamps.
pub open spec fn delta_of(prev: u64, timestamp: u64) -> int {
    wrap_signed(signed(timestamp) - signed(prev))
}

pub fn timestamp_delta(prev: u64, timestamp: u64) -> (r: i64)
    ensures
        r == delta_of(prev, timestamp),
{
    proof {
        assert(timestamp <= 0x7fff_ffff_ffff_ffff ==> timestamp as i64 == timestamp) by (bit_vector);
        assert(timestamp > 0x7fff_ffff_ffff_ffff ==> timestamp as i64 == timestamp - 0x1_0000_0000_0000_0000) by (bit_vector);
        assert(prev <= 0x7fff_ffff_ffff_ffff ==> prev as i64 == prev) by (bit_vector);
        assert(prev > 0x7fff_ffff_ffff_ffff ==> prev as i64 == prev - 0x1_0000_0000_0000_0000) by (bit_vector);
    }
    (timestamp as i64).wrapping_sub(prev as i64)
}

/// Recovers a timestamp from its wire difference.
pub open spec fn moved_by(prev: u64, delta: int) -> int {
    let moved = wrap_signed(signed(prev) + delta);
    if moved >= 0 {
        moved
    } else {
        moved + 0x1_0000_0000_0000_0000
    }
}

pub fn apply_delta(prev: u64, delta: i64) -> (r: u64)
    ensures
        r == moved_by(prev, delta as int),
{
    let base: i64 = prev as i64;
    let moved: i64 = base.wrapping_add(delta);
    proof {
        assert(prev <= 0x7fff_ffff_ffff_ffff ==> prev as i64 == prev) by (bit_vector);
        assert(prev > 0x7fff_ffff_ffff_ffff ==> prev as i64 == prev - 0x1_0000_0000_0000_0000)
            by (bit_vector);
        assert(moved >= 0 ==> moved as u64 == moved) by (bit_vector);
        assert(moved < 0 ==> moved as u64 == moved + 0x1_0000_0000_0000_0000) by (bit_vector);
    }
    moved as u64
}

/// A timestamp survives the trip through its difference, whatever came before it.
pub proof fn lemma_delta_round_trip(prev: u64, timestamp: u64)
    ensures
        moved_by(prev, delta_of(prev, timestamp)) == timestamp,
        i64::MIN <= delta_of(prev, timestamp) <= i64::MAX,
{
}

pub proof fn lemma_zigzag_round_trip(v: int)
    requires
        i64::MIN <= v <= i64::MAX,
    ensures
        zigzag_value(zigzag_code(v)) == v,
        0 <= zigzag_code(v) <= u64::MAX,
{
}

/// A number as an unsigned LEB128 varint: groups of seven bits, least significant first,
/// each but the last with its top bit set.
pub open spec fn varint(v: u64) -> Seq<u8>
    decreases v,
{
    if v < 0x80 {
        seq![v as u8]
    } else {
        proof {
            assert(v >= 0x80 ==> v >> 7 < v) by (bit_vector);
        }
        seq![(v as u8) | 0x80u8] + varint(v >> 7)
    }
}

pub fn put_varint(buf: &mut BytesMut, value: u64)
    requires
        buffer_bytes(*old(buf)).len() + varint(value).len() <= isize::MAX,
    ensures
        buffer_bytes(*final(buf)) == buffer_bytes(*old(buf)) + varint(value),
{
    let mut value: u64 = value;
    let ghost all = buffer_bytes(*buf) + varint(value);
    while value >= 0x80
        invariant
            all == buffer_bytes(*buf) + varint(value),
            all.len() <= isize::MAX,
        decreases value,
    {
        proof {
            assert(value >= 0x80 ==> value >> 7 < value) by (bit_vector);
            lemma_varint_size(value >> 7);
        }
        let ghost before = buffer_bytes(*buf);
        put_u8(buf, (value as u8) | 0x80);
        assert(before + varint(value) =~= before.push((value as u8) | 0x80) + varint(value >> 7));
        value = value >> 7;
    }
    let ghost before = buffer_bytes(*buf);
    put_u8(buf, value as u8);
    assert(before + varint(value) =~= before.push(value as u8));
}

/// What reading from the front of a byte sequence comes to: more bytes are needed, the
/// bytes are wrong, or a value and the bytes behind it.
pub enum Parse<T> {
    More,
    Malformed(Seq<char>),
    Done(T, Seq<u8>),
}

/// The error for a stream that breaks the protocol.
pub open spec fn malformed_error(what: Seq<char>) -> ErrorView {
    ErrorView { status: ErrorCode::Unknown, message: "Malformed record stream: "@ + what }
}

pub fn malformed(what: &str) -> (r: ReductError)
    ensures
        r@ == malformed_error(what@),
{
    let message = "Malformed record stream: ".to_owned().concat(what);
    ReductError { status: ErrorCode::Unknown, message }
}

pub open spec fn parse_u8(b: Seq<u8>) -> Parse<u8> {
    if b.len() == 0 {
        Parse::More
    } else {
        Parse::Done(b[0], b.skip(1))
    }
}

/// Reads a varint of which `read` bytes are behind already. A varint has at most ten bytes.
pub open spec fn parse_varint_from(b: Seq<u8>, read: nat) -> Parse<u64>
    decreases b.len(),
{
    if b.len() == 0 {
        Parse::More
    } else if b[0] & 0x80u8 == 0 {
        Parse::Done((b[0] & 0x7fu8) as u64, b.skip(1))
    } else if read >= 9 {
        Parse::Malformed("varint overflows 64 bits"@)
    } else {
        match parse_varint_from(b.skip(1), read + 1) {
            Parse::Done(high, rest) => Parse::Done(((b[0] & 0x7fu8) as u64) | (high << 7u64), rest),
            other => other,
        }
    }
}

/// Reads a varint.
pub open spec fn parse_varint(b: Seq<u8>) -> Parse<u64> {
    parse_varint_from(b, 0)
}

/// Reads a run of `len` bytes.
pub open spec fn parse_slice(b: Seq<u8>, len: nat) -> Parse<Seq<u8>> {
    if b.len() < len {
        Parse::More
    } else {
        Parse::Done(b.take(len as int), b.skip(len as int))
    }
}

/// Bytes behind those that were read change nothing but what is left.
pub proof fn lemma_parse_varint_stable(b: Seq<u8>, read: nat, more: Seq<u8>)
    ensures
        match parse_varint_from(b, read) {
            Parse::More => true,
            Parse::Malformed(what) => parse_varint_from(b + more, read) == Parse::<u64>::Malformed(
                what,
            ),
            Parse::Done(v, rest) => parse_varint_from(b + more, read) == Parse::Done(v, rest + more)
                && rest.len() < b.len(),
        },
    decreases b.len(),
{
    if b.len() > 0 {
        lemma_parse_varint_stable(b.skip(1), read + 1, more);
        assert((b + more).skip(1) =~= b.skip(1) + more);
    }
}

/// Reading gives back the number that was written.
pub proof fn lemma_varint_round_trip(v: u64, rest: Seq<u8>)
    ensures
        parse_varint(varint(v) + rest) == Parse::Done(v, rest),
{
    assert(v <= 0xffff_ffff_ffff_ffffu64 >> 0u64) by (bit_vector);
    lemma_varint_round_trip_from(v, 0, rest);
}

proof fn lemma_varint_round_trip_from(v: u64, read: u64, rest: Seq<u8>)
    requires
        read <= 9,
        v <= 0xffff_ffff_ffff_ffffu64 >> (read * 7) as u64,
    ensures
        parse_varint_from(varint(v) + rest, read as nat) == Parse::Done(v, rest),
    decreases v,
{
    let all = varint(v) + rest;
    if v < 0x80 {
        assert(v < 0x80 ==> (v as u8) & 0x80u8 == 0 && ((v as u8) & 0x7fu8) as u64 == v)
            by (bit_vector);
        assert(all.skip(1) =~= rest);
    } else {
        let shift = (read * 7) as u64;
        assert(v >> 7 < v) by (bit_vector)
            requires
                v >= 0x80,
        ;
        assert(read < 9) by (bit_vector)
            requires
                read <= 9,
                shift == read * 7,
                v >= 0x80,
                v <= 0xffff_ffff_ffff_ffffu64 >> shift,
        ;
        let next = (read + 1) as u64;
        let next_shift = (next * 7) as u64;
        assert(v >> 7 <= 0xffff_ffff_ffff_ffffu64 >> next_shift) by (bit_vector)
            requires
                shift <= 56,
                next_shift == shift + 7,
                v <= 0xffff_ffff_ffff_ffffu64 >> shift,
        ;
        lemma_varint_round_trip_from(v >> 7, next, rest);
        assert(((v as u8) | 0x80u8) & 0x80u8 != 0) by (bit_vector);
        assert(((((v as u8) | 0x80u8) & 0x7fu8) as u64) | ((v >> 7) << 7u64) == v) by (bit_vector);
        assert(all.skip(1) =~= varint(v >> 7) + rest);
    }
}

/// The number that bytes hold in groups of seven bits, the least significant first.
pub open spec fn groups_value(b: Seq<u8>) -> nat
    decreases b.len(),
{
    if b.len() == 0 {
        0
    } else {
        (b[0] % 128) as nat + 128 * groups_value(b.skip(1))
    }
}

/// A varint holds its number in groups of seven bits, the least significant first, and every byte
/// but the last one has its top bit set.
pub proof fn law_varint_holds_its_number(v: u64, i: int)
    ensures
        groups_value(varint(v)) == v,
        varint(v).len() > 0,
        0 <= i < varint(v).len() ==> (varint(v)[i] >= 128 <==> i < varint(v).len() - 1),
    decreases v,
{
    if v < 0x80 {
        assert(varint(v).skip(1) =~= Seq::<u8>::empty());
        assert(groups_value(varint(v).skip(1)) == 0);
    } else {
        let first = (v as u8) | 0x80u8;
        assert(v >> 7 < v && v >> 7 == v / 128 && first % 128 == v % 128 && first >= 128)
            by (bit_vector)
            requires
                v >= 0x80,
                first == (v as u8) | 0x80u8,
        ;
        law_varint_holds_its_number(v >> 7, i - 1);
        assert(varint(v).skip(1) =~= varint(v >> 7));
    }
}

/// Zigzag numbers count up from zero, a negative number behind each positive one: 0, -1, 1, -2, 2
/// and so on.
pub proof fn law_zigzag_counts_up(v: int)
    requires
        v >= 0,
    ensures
        zigzag_code(0) == 0,
        zigzag_code(-v - 1) == zigzag_code(v) + 1,
        zigzag_code(v + 1) == zigzag_code(-v - 1) + 1,
        zigzag_value(zigzag_code(v)) == v,
        zigzag_value(zigzag_code(-v - 1)) == -v - 1,
{
}

/// What goes on the wire for a timestamp is how much later it is than the one before, wherever the
/// difference is one of 64 bits with a sign; and so much later a reader takes it to be.
pub proof fn law_delta_is_the_difference(prev: u64, timestamp: u64)
    requires
        i64::MIN <= timestamp - prev <= i64::MAX,
    ensures
        delta_of(prev, timestamp) == timestamp - prev,
        moved_by(prev, timestamp - prev) == timestamp,
{
}

/// A varint has as many groups of seven bits as its number needs: never more than ten bytes, and
/// one byte for a number below 128.
pub proof fn law_varint_len(v: u64)
    ensures
        1 <= varint(v).len() <= 10,
        v < pow(128, varint(v).len()),
        varint(v).len() > 1 ==> pow(128, (varint(v).len() - 1) as nat) <= v,
{
    lemma_varint_size(v);
    let len = varint(v).len();
    if len > 10 {
        lemma_pow_increases(128, 10, (len - 1) as nat);
        reveal_with_fuel(pow, 11);
        assert(pow(128, 10) > u64::MAX);
    }
}

proof fn lemma_varint_size(v: u64)
    ensures
        1 <= varint(v).len(),
        v < pow(128, varint(v).len()),
        varint(v).len() > 1 ==> pow(128, (varint(v).len() - 1) as nat) <= v,
    decreases v,
{
    reveal(pow);
    if v < 0x80 {
        lemma_pow1(128);
        assert(varint(v).len() == 1);
    } else {
        assert(v >> 7 < v && v >> 7 == v / 128) by (bit_vector)
            requires
                v >= 0x80,
        ;
        lemma_varint_size(v >> 7);
        let len = varint(v >> 7).len();
        assert(varint(v).len() == len + 1);
        assert(pow(128, len + 1) == 128 * pow(128, len));
        if len == 1 {
            lemma_pow1(128);
        } else {
            assert(pow(128, len) == 128 * pow(128, (len - 1) as nat));
        }
    }
}

proof fn lemma_varint_len_grows(a: u64, b: u64)
    requires
        a <= b,
    ensures
        varint(a).len() <= varint(b).len(),
    decreases b,
{
    lemma_varint_size(b);
    if a >= 0x80 {
        assert(a >> 7 <= b >> 7 && b >> 7 < b) by (bit_vector)
            requires
                a <= b,
                b >= 0x80,
        ;
        lemma_varint_len_grows(a >> 7, b >> 7);
    }
}

/// No bytes that are read as a number are fewer than those that are written for it.
pub proof fn law_varint_is_shortest(b: Seq<u8>)
    ensures
        parse_varint(b) matches Parse::Done(v, rest) ==> varint(v).len() + rest.len() <= b.len(),
{
    lemma_varint_is_shortest(b, 0);
}

proof fn lemma_varint_is_shortest(b: Seq<u8>, read: nat)
    ensures
        parse_varint_from(b, read) matches Parse::Done(v, rest) ==> varint(v).len() + rest.len()
            <= b.len(),
    decreases b.len(),
{
    if b.len() > 0 {
        let low = (b[0] & 0x7fu8) as u64;
        assert(low < 0x80) by {
            let first = b[0];
            assert(first & 0x7fu8 < 0x80) by (bit_vector);
        }
        lemma_varint_is_shortest(b.skip(1), read + 1);
        if let Parse::Done(high, rest) = parse_varint_from(b.skip(1), read + 1) {
            let v = low | (high << 7u64);
            assert(v >> 7 <= high) by (bit_vector)
                requires
                    low < 0x80,
                    v == low | (high << 7u64),
            ;
            lemma_varint_len_grows(v >> 7, high);
            lemma_varint_size(high);
        }
    }
}

/// `String::from_utf8` succeeds on valid UTF-8 alone, and gives the text that the bytes
/// encode.
#[verifier::external_body]
pub(crate) fn text_from_utf8(bytes: &[u8]) -> (r: Option<String>)
    ensures
        r is Some <==> valid_utf8(bytes@),
        r is Some ==> r->0@ == decode_utf8(bytes@),
{
    String::from_utf8(bytes.to_vec()).ok()
}

/// Whether the outcome of a read is what reading `b` comes to, with `after` left behind it.
pub open spec fn reads<T>(
    r: Result<Option<T>, ReductError>,
    parse: Parse<T>,
    after: Seq<u8>,
) -> bool {
    match parse {
        Parse::More => r matches Ok(None),
        Parse::Malformed(what) => r matches Err(e) && e@ == malformed_error(what),
        Parse::Done(v, rest) => r matches Ok(Some(w)) && w == v && after == rest,
    }
}

/// Reads from the front of a slice, and tells "not enough bytes yet" from an error.
pub struct Cursor<'a> {
    pub buf: &'a [u8],
    pub pos: usize,
}

impl<'a> Cursor<'a> {
    pub open spec fn wf(self) -> bool {
        self.pos <= self.buf@.len()
    }

    /// The bytes that are still to be read.
    pub open spec fn rest(self) -> Seq<u8> {
        self.buf@.skip(self.pos as int)
    }

    pub fn u8(&mut self) -> (r: Option<u8>)
        requires
            old(self).wf(),
        ensures
            final(self).wf(),
            final(self).buf == old(self).buf,
            match parse_u8(old(self).rest()) {
                Parse::Done(v, rest) => r == Some(v) && final(self).rest() == rest,
                _ => r is None,
            },
    {
        if self.pos >= self.buf.len() {
            return None;
        }
        let ghost before = self.rest();
        let byte: u8 = self.buf[self.pos];
        self.pos = self.pos + 1;
        assert(self.rest() =~= before.skip(1));
        Some(byte)
    }

    pub fn varint(&mut self) -> (r: Result<Option<u64>, ReductError>)
        requires
            old(self).wf(),
        ensures
            final(self).wf(),
            final(self).buf == old(self).buf,
            reads(r, parse_varint(old(self).rest()), final(self).rest()),
    {
        let ghost start = self.rest();
        let mut result: u64 = 0;
        let mut shift: u32 = 0;
        let mut read: u32 = 0;
        proof {
            assert forall|high: u64| #[trigger] (0u64 | (high << 0u32)) == high by {
                assert(0u64 | (high << 0u32) == high) by (bit_vector);
            }
        }
        loop
            invariant
                self.wf(),
                self.buf == old(self).buf,
                start == old(self).rest(),
                shift == read * 7,
                read <= 9,
                match parse_varint_from(self.rest(), read as nat) {
                    Parse::Done(high, rest) => parse_varint(start) == Parse::Done(
                        result | (high << shift),
                        rest,
                    ),
                    other => parse_varint(start) == other,
                },
            decreases self.buf@.len() - self.pos,
        {
            if self.pos >= self.buf.len() {
                return Ok(None);
            }
            let byte: u8 = self.buf[self.pos];
            let ghost before = self.rest();
            self.pos = self.pos + 1;
            assert(self.rest() =~= before.skip(1));
            let low: u64 = (byte & 0x7f) as u64;
            let ghost done = result;
            result = result | (low << shift);
            if byte & 0x80 == 0 {
                return Ok(Some(result));
            }
            if shift + 7 >= 64 {
                return Err(malformed("varint overflows 64 bits"));
            }
            proof {
                let next = (shift + 7) as u32;
                assert forall|high: u64|
                    done | ((low | (high << 7u64)) << shift) == #[trigger] (result | (high << next)) by {
                    assert(done | ((low | (high << 7u64)) << shift) == (done | (low << shift)) | (
                    high << next)) by (bit_vector)
                        requires
                            shift <= 56,
                            next == shift + 7,
                    ;
                }
            }
            shift = shift + 7;
            read = read + 1;
        }
    }

    pub fn slice(&mut self, len: usize) -> (r: Option<&'a [u8]>)
        requires
            old(self).wf(),
        ensures
            final(self).wf(),
            final(self).buf == old(self).buf,
            match parse_slice(old(self).rest(), len as nat) {
                Parse::Done(v, rest) => r matches Some(out) && out@ == v && final(self).rest()
                    == rest,
                _ => r is None,
            },
    {
        let left: usize = self.buf.len() - self.pos;
        if len > left {
            return None;
        }
        let ghost before = self.rest();
        let end: usize = self.pos + len;
        let out: &'a [u8] = vstd::slice::slice_subrange(self.buf, self.pos, end);
        self.pos = end;
        assert(out@ =~= before.take(len as int));
        assert(self.rest() =~= before.skip(len as int));
        Some(out)
    }
}

} // verus!
