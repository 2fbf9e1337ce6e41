use crate::error::ParseError;
use crate::reader::{
    bytes_at, i32_at, le_i32, read_i32, read_u8, u8_at, ByteSource,
};
use vstd::prelude::*;
use vstd::utf8::{
    char_is_scalar, char_u32_cast, decode_utf8, encode_utf8, encode_utf8_decode_utf8,
    encode_utf8_valid_utf8, valid_utf8,
};

verus! {

/// What `String::from_utf8_lossy` makes of bytes that are not valid UTF-8.
pub uninterp spec fn utf8_lossy(b: Seq<u8>) -> Seq<char>;

pub open spec fn is_high_surrogate(u: u16) -> bool {
    0xD800 <= u <= 0xDBFF
}

pub open spec fn is_low_surrogate(u: u16) -> bool {
    0xDC00 <= u <= 0xDFFF
}

/// True when every surrogate in `u` is a high one directly followed by a low one.
pub open spec fn valid_utf16(u: Seq<u16>) -> bool
    decreases u.len(),
{
    if u.len() == 0 {
        true
    } else if is_high_surrogate(u[0]) {
        u.len() >= 2 && is_low_surrogate(u[1]) && valid_utf16(u.skip(2))
    } else {
        !is_low_surrogate(u[0]) && valid_utf16(u.skip(1))
    }
}

/// The characters that UTF-16 code units stand for: a high surrogate followed by a low one
/// is one character, every other surrogate becomes U+FFFD, and every other unit is the
/// character with its value.
pub open spec fn decode_utf16(u: Seq<u16>) -> Seq<char>
    decreases u.len(),
{
    if u.len() == 0 {
        seq![]
    } else if is_high_surrogate(u[0]) && u.len() >= 2 && is_low_surrogate(u[1]) {
        seq![(0x1_0000 + (u[0] - 0xD800) * 0x400 + (u[1] - 0xDC00)) as u32 as char]
            + decode_utf16(u.skip(2))
    } else if is_high_surrogate(u[0]) || is_low_surrogate(u[0]) {
        seq!['\u{FFFD}'] + decode_utf16(u.skip(1))
    } else {
        seq![u[0] as u32 as char] + decode_utf16(u.skip(1))
    }
}

/// The UTF-16 code units of one character.
pub open spec fn utf16_of_char(c: char) -> Seq<u16> {
    let v = c as u32;
    if v < 0x1_0000 {
        seq![v as u16]
    } else {
        seq![(0xD800 + (v - 0x1_0000) / 0x400) as u16, (0xDC00 + (v - 0x1_0000) % 0x400) as u16]
    }
}

/// The UTF-16 encoding of a text.
pub open spec fn encode_utf16(t: Seq<char>) -> Seq<u16>
    decreases t.len(),
{
    if t.len() == 0 {
        seq![]
    } else {
        utf16_of_char(t[0]) + encode_utf16(t.drop_first())
    }
}

/// Bytes decoded as UTF-8, ill-formed parts replaced.
pub open spec fn utf8_text(b: Seq<u8>) -> Seq<char> {
    if valid_utf8(b) {
        decode_utf8(b)
    } else {
        utf8_lossy(b)
    }
}

/// The little-endian 16-bit code units held by `b` (a trailing odd byte is ignored).
pub open spec fn units_le(b: Seq<u8>) -> Seq<u16> {
    Seq::new((b.len() / 2) as nat, |i: int| (b[2 * i] as int + b[2 * i + 1] as int * 0x100) as u16)
}

/// The number of UTF-16 code units that a negative length prefix announces.
pub open spec fn utf16_unit_count(len: i32) -> int {
    (-(len as int) - 1) / 2
}

/// Reading a length-prefixed string from a stream that holds `b` and then stops with `stop`:
/// the text and what is left. A positive prefix `L` announces `L - 1` bytes of UTF-8 and a
/// terminating byte; a negative one announces `(-L - 1) / 2` UTF-16 code units; zero, the
/// empty text.
pub open spec fn string_at(b: Seq<u8>, stop: ParseError) -> Result<(Seq<char>, Seq<u8>), ParseError> {
    match i32_at(b, stop) {
        Err(e) => Err(e),
        Ok((len, rest)) => {
            if len == 0 {
                Ok((seq![], rest))
            } else if len > 0 {
                match bytes_at(rest, stop, len - 1) {
                    Err(e) => Err(e),
                    Ok((payload, rest2)) => match u8_at(rest2, stop) {
                        Err(e) => Err(e),
                        Ok((_, rest3)) => Ok((utf8_text(payload), rest3)),
                    },
                }
            } else {
                match bytes_at(rest, stop, 2 * utf16_unit_count(len)) {
                    Err(e) => Err(e),
                    Ok((payload, rest2)) => Ok((decode_utf16(units_le(payload)), rest2)),
                }
            }
        },
    }
}

/// Relies on `String::from_utf8_lossy`: valid UTF-8 decodes to the characters it encodes;
/// for other bytes the text depends on the bytes alone.
#[verifier::external_body]
fn decode_utf8_lossy(b: &[u8]) -> (r: String)
    ensures
        valid_utf8(b@) ==> r@ == decode_utf8(b@),
        !valid_utf8(b@) ==> r@ == utf8_lossy(b@),
{
    String::from_utf8_lossy(b).into_owned()
}

/// Relies on `String::from_utf16_lossy`: it decodes UTF-16 and replaces each unpaired
/// surrogate with U+FFFD.
#[verifier::external_body]
fn decode_utf16_lossy(u: &[u16]) -> (r: String)
    ensures
        r@ == decode_utf16(u@),
{
    String::from_utf16_lossy(u)
}

/// Pairs up little-endian bytes into 16-bit code units.
fn units_from_le(b: &Vec<u8>) -> (r: Vec<u16>)
    ensures
        r@ == units_le(b@),
{
    let len = b.len();
    let n = len / 2;
    let mut units: Vec<u16> = Vec::with_capacity(n);
    let mut i: usize = 0;
    while i < n
        invariant
            len == b@.len(),
            n == len / 2,
            i <= n,
            units@ =~= units_le(b@).take(i as int),
        decreases n - i,
    {
        let lo = b[2 * i] as u16;
        let hi = b[2 * i + 1] as u16;
        units.push(lo + hi * 0x100);
        i += 1;
    }
    assert(units_le(b@).take(n as int) =~= units_le(b@));
    units
}

/// Reads a length-prefixed string (see `string_at`).
pub fn read_string<S: ByteSource>(file: &mut S) -> (r: Result<String, ParseError>)
    requires
        old(file).wf(),
    ensures
        final(file).wf(),
        r is Ok ==> final(file).stop() == old(file).stop(),
        match string_at(old(file).remaining(), old(file).stop()) {
            Ok((t, rest)) => r is Ok && r->Ok_0@ == t && final(file).remaining() == rest,
            Err(e) => r == Err::<String, ParseError>(e),
        },
{
    let length = read_i32(file)?;
    if length == 0 {
        Ok(String::new())
    } else if length > 0 {
        let payload = file.read_bytes((length - 1) as usize)?;
        let _terminator = read_u8(file)?;
        Ok(decode_utf8_lossy(payload.as_slice()))
    } else {
        let unit_count = ((-(length as i64) - 1) / 2) as usize;
        let bytes = file.read_bytes(2 * unit_count)?;
        let units = units_from_le(&bytes);
        Ok(decode_utf16_lossy(units.as_slice()))
    }
}

/// The little-endian bytes of a 32-bit integer.
pub open spec fn i32_le_bytes(v: i32) -> Seq<u8> {
    let u = #[verifier::truncate] (v as u32);
    seq![
        (u % 0x100) as u8,
        (u / 0x100 % 0x100) as u8,
        (u / 0x1_0000 % 0x100) as u8,
        (u / 0x100_0000) as u8,
    ]
}

/// The little-endian bytes of a sequence of 16-bit code units.
pub open spec fn units_le_bytes(u: Seq<u16>) -> Seq<u8> {
    Seq::new(
        2 * u.len(),
        |j: int|
            if j % 2 == 0 {
                (u[j / 2] % 0x100) as u8
            } else {
                (u[j / 2] / 0x100) as u8
            },
    )
}

/// A text framed as UTF-8: a positive length prefix, the bytes, a terminating zero.
pub open spec fn utf8_string_bytes(t: Seq<char>) -> Seq<u8> {
    i32_le_bytes((encode_utf8(t).len() + 1) as i32) + encode_utf8(t) + seq![0u8]
}

/// A text framed as UTF-16: a negative length prefix, the code units, two terminating zeros.
pub open spec fn utf16_string_bytes(t: Seq<char>) -> Seq<u8> {
    i32_le_bytes((-(2 * encode_utf16(t).len() + 2)) as i32) + units_le_bytes(encode_utf16(t))
        + seq![0u8, 0u8]
}

proof fn lemma_i32_le_bytes(v: i32)
    ensures
        le_i32(i32_le_bytes(v)) == v,
{
    let u = #[verifier::truncate] (v as u32);
    assert(#[verifier::truncate] (u as i32) == v) by (bit_vector)
        requires
            u == #[verifier::truncate] (v as u32),
    ;
    assert(u == u % 0x100 + (u / 0x100 % 0x100) * 0x100 + (u / 0x1_0000 % 0x100) * 0x1_0000 + (u
        / 0x100_0000) * 0x100_0000);
}

proof fn lemma_units_le_bytes(u: Seq<u16>)
    ensures
        units_le(units_le_bytes(u)) == u,
{
    let b = units_le_bytes(u);
    assert forall|i: int| 0 <= i < u.len() implies #[trigger] units_le(b)[i] == u[i] by {
        assert((2 * i) / 2 == i && (2 * i) % 2 == 0);
        assert((2 * i + 1) / 2 == i && (2 * i + 1) % 2 == 1);
    }
    assert(units_le(b) =~= u);
}

proof fn lemma_utf16_char(c: char)
    ensures
        valid_utf16(utf16_of_char(c)),
        decode_utf16(utf16_of_char(c)) == seq![c],
{
    char_is_scalar(c);
    let v = c as u32;
    let u = utf16_of_char(c);
    let e = Seq::<u16>::empty();
    assert(valid_utf16(e));
    assert(decode_utf16(e) == Seq::<char>::empty());
    if v < 0x1_0000 {
        assert(u[0] == v);
        assert(u.skip(1) =~= e);
        char_u32_cast(c, u[0] as u32);
        assert(decode_utf16(u) == seq![u[0] as u32 as char] + decode_utf16(e));
        assert(decode_utf16(u) =~= seq![c]);
    } else {
        let w = v - 0x1_0000;
        assert(w == (w / 0x400) * 0x400 + w % 0x400);
        assert(u[0] == 0xD800 + w / 0x400);
        assert(u[1] == 0xDC00 + w % 0x400);
        assert(u.skip(2) =~= e);
        let d = (0x1_0000 + (u[0] - 0xD800) * 0x400 + (u[1] - 0xDC00)) as u32;
        assert(d == v);
        char_u32_cast(c, d);
        assert(decode_utf16(u) == seq![d as char] + decode_utf16(e));
        assert(decode_utf16(u) =~= seq![c]);
    }
}

proof fn lemma_decode_utf16_prefix(a: Seq<u16>, b: Seq<u16>)
    requires
        valid_utf16(a),
        valid_utf16(b),
    ensures
        valid_utf16(a + b),
        decode_utf16(a + b) == decode_utf16(a) + decode_utf16(b),
    decreases a.len(),
{
    if a.len() == 0 {
        assert(a + b =~= b);
        assert(decode_utf16(a) + decode_utf16(b) =~= decode_utf16(b));
    } else {
        let k: int = if is_high_surrogate(a[0]) { 2 } else { 1 };
        assert((a + b).skip(k) =~= a.skip(k) + b);
        lemma_decode_utf16_prefix(a.skip(k), b);
        assert(decode_utf16(a + b) =~= decode_utf16(a) + decode_utf16(b));
    }
}

proof fn lemma_utf16_round_trip(t: Seq<char>)
    ensures
        valid_utf16(encode_utf16(t)),
        decode_utf16(encode_utf16(t)) == t,
    decreases t.len(),
{
    if t.len() == 0 {
    } else {
        lemma_utf16_char(t[0]);
        lemma_utf16_round_trip(t.drop_first());
        lemma_decode_utf16_prefix(utf16_of_char(t[0]), encode_utf16(t.drop_first()));
        assert(t =~= seq![t[0]] + t.drop_first());
    }
}

/// A text written as UTF-8 with its length prefix and terminator reads back as itself, and the
/// stream goes on right after the terminator.
pub proof fn lemma_utf8_string_round_trip(t: Seq<char>, rest: Seq<u8>, stop: ParseError)
    requires
        encode_utf8(t).len() < i32::MAX,
    ensures
        string_at(utf8_string_bytes(t) + rest, stop) == Ok::<(Seq<char>, Seq<u8>), ParseError>(
            (t, rest),
        ),
{
    let enc = encode_utf8(t);
    let len = (enc.len() + 1) as i32;
    let b = utf8_string_bytes(t) + rest;
    lemma_i32_le_bytes(len);
    assert(b.take(4) =~= i32_le_bytes(len));
    let rest1 = b.skip(4);
    assert(rest1 =~= enc + (seq![0u8] + rest));
    assert(rest1.take(len - 1) =~= enc);
    assert(rest1.skip(len - 1) =~= seq![0u8] + rest);
    assert((seq![0u8] + rest).skip(1) =~= rest);
    encode_utf8_valid_utf8(t);
    encode_utf8_decode_utf8(t);
}

/// A text written as UTF-16 with its length prefix and terminator reads back as itself; the
/// two terminating zero bytes are not part of the announced code units and stay in the stream.
pub proof fn lemma_utf16_string_round_trip(t: Seq<char>, rest: Seq<u8>, stop: ParseError)
    requires
        2 * encode_utf16(t).len() + 2 <= i32::MAX,
    ensures
        string_at(utf16_string_bytes(t) + rest, stop) == Ok::<(Seq<char>, Seq<u8>), ParseError>(
            (t, seq![0u8, 0u8] + rest),
        ),
{
    let units = encode_utf16(t);
    let len = (-(2 * units.len() + 2)) as i32;
    let b = utf16_string_bytes(t) + rest;
    lemma_i32_le_bytes(len);
    assert(b.take(4) =~= i32_le_bytes(len));
    assert(utf16_unit_count(len) == units.len());
    let rest1 = b.skip(4);
    let payload = units_le_bytes(units);
    assert(rest1 =~= payload + (seq![0u8, 0u8] + rest));
    assert(rest1.take(2 * units.len() as int) =~= payload);
    assert(rest1.skip(2 * units.len() as int) =~= seq![0u8, 0u8] + rest);
    lemma_units_le_bytes(units);
    lemma_utf16_round_trip(t);
}

/// Every way of writing a text reads back as that text: UTF-8 under a positive prefix,
/// UTF-16 under a negative one, and, for the empty text, a zero prefix alone.
pub proof fn lemma_string_round_trip(t: Seq<char>, rest: Seq<u8>, stop: ParseError)
    requires
        encode_utf8(t).len() < i32::MAX,
        2 * encode_utf16(t).len() + 2 <= i32::MAX,
    ensures
        string_at(utf8_string_bytes(t) + rest, stop) matches Ok((s, r)) && s == t && r == rest,
        string_at(utf16_string_bytes(t) + rest, stop) matches Ok((s, _)) && s == t,
        t.len() == 0 ==> (string_at(i32_le_bytes(0) + rest, stop) matches Ok((s, r)) && s == t && r
            == rest),
{
    lemma_utf8_string_round_trip(t, rest, stop);
    lemma_utf16_string_round_trip(t, rest, stop);
    if t.len() == 0 {
        lemma_zero_prefix(rest, stop);
        assert(t =~= seq![]);
    }
}

proof fn lemma_zero_prefix(rest: Seq<u8>, stop: ParseError)
    ensures
        string_at(i32_le_bytes(0) + rest, stop) == Ok::<(Seq<char>, Seq<u8>), ParseError>(
            (seq![], rest),
        ),
{
    let b = i32_le_bytes(0) + rest;
    lemma_i32_le_bytes(0);
    assert(b.take(4) =~= i32_le_bytes(0));
    assert(b.skip(4) =~= rest);
}

/// A length prefix that announces more bytes than follow it makes the read fail with the
/// stream's stop error (`UnexpectedEnd` on a plain byte buffer).
pub proof fn lemma_string_longer_than_input(b: Seq<u8>, stop: ParseError)
    requires
        b.len() >= 4,
        le_i32(b.take(4)) > 0 ==> b.len() - 4 < le_i32(b.take(4)),
        le_i32(b.take(4)) < 0 ==> b.len() - 4 < 2 * utf16_unit_count(le_i32(b.take(4))),
        le_i32(b.take(4)) != 0,
    ensures
        string_at(b, stop) == Err::<(Seq<char>, Seq<u8>), ParseError>(stop),
{
}

} // verus!
