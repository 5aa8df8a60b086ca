//! The binary form of an event.
//!
//! An event is its timestamp as a compact integer, one byte that tells the
//! shape, the shape's fields as compact signed integers, and three colour
//! bytes. Events follow each other without framing.

use crate::data::{Coordinate, PixelColor, PixelData};
use vstd::prelude::*;

verus! {

/// Why bytes are not an event.
#[derive(Debug, Clone, Copy, PartialEq, Eq, Structural)]
pub enum CodecError {
    /// The bytes end inside an event.
    Truncated,
    /// The leading byte of a number announces a width that the field cannot hold.
    InvalidInteger,
    /// The shape byte is none of the three known.
    UnknownShape { tag: u8 },
}

/// The compact form of an unsigned 32-bit number: itself in one byte up to
/// 250, else a marker (251 or 252) and the number in two or four bytes, low
/// byte first.
pub open spec fn varint_u32(v: u32) -> Seq<u8> {
    if v <= 250 {
        seq![v as u8]
    } else if v <= 0xffff {
        seq![251u8, (v % 256) as u8, (v / 256) as u8]
    } else {
        seq![
            252u8,
            (v % 256) as u8,
            (v / 256 % 256) as u8,
            (v / 65536 % 256) as u8,
            (v / 16777216) as u8,
        ]
    }
}

/// The unsigned number that stands for a signed one: 0, -1, 1, -2, ... are
/// 0, 1, 2, 3, ...
pub open spec fn zigzag(v: i16) -> int {
    if v < 0 {
        -2 * v - 1
    } else {
        2 * v
    }
}

pub open spec fn unzigzag(n: int) -> int {
    if n % 2 == 0 {
        n / 2
    } else {
        -(n / 2) - 1
    }
}

/// The compact form of a signed 16-bit number: that of the unsigned number
/// which stands for it, in one byte up to 250, else the marker 251 and two
/// bytes, low byte first.
pub open spec fn varint_i16(v: i16) -> Seq<u8> {
    let n = zigzag(v);
    if n <= 250 {
        seq![n as u8]
    } else {
        seq![251u8, (n % 256) as u8, (n / 256) as u8]
    }
}

/// What reading a compact unsigned 32-bit number from the front of `s` gives:
/// the number and how many bytes it took.
pub open spec fn decode_varint_u32(s: Seq<u8>) -> Result<(u32, usize), CodecError> {
    if s.len() == 0 {
        Err(CodecError::Truncated)
    } else if s[0] <= 250 {
        Ok((s[0] as u32, 1usize))
    } else if s[0] == 251 {
        if s.len() >= 3 {
            Ok(((s[1] + 256 * s[2]) as u32, 3usize))
        } else {
            Err(CodecError::Truncated)
        }
    } else if s[0] == 252 {
        if s.len() >= 5 {
            Ok(((s[1] + 256 * s[2] + 65536 * s[3] + 16777216 * s[4]) as u32, 5usize))
        } else {
            Err(CodecError::Truncated)
        }
    } else {
        Err(CodecError::InvalidInteger)
    }
}

/// What reading a compact signed 16-bit number from the front of `s` gives.
pub open spec fn decode_varint_i16(s: Seq<u8>) -> Result<(i16, usize), CodecError> {
    if s.len() == 0 {
        Err(CodecError::Truncated)
    } else if s[0] <= 250 {
        Ok((unzigzag(s[0] as int) as i16, 1usize))
    } else if s[0] == 251 {
        if s.len() >= 3 {
            Ok((unzigzag(s[1] + 256 * s[2]) as i16, 3usize))
        } else {
            Err(CodecError::Truncated)
        }
    } else {
        Err(CodecError::InvalidInteger)
    }
}

/// `bincode::encode_to_vec` on a `u32` under the standard configuration
/// (little endian, variable-width integers). Writing into a vector cannot
/// fail, and the bytes are the compact form of the number.
#[verifier::external_body]
fn encode_u32(v: u32) -> (out: Vec<u8>)
    ensures
        out@ == varint_u32(v),
{
    bincode::encode_to_vec(v, bincode::config::standard()).unwrap_or_default()
}

/// `bincode::encode_to_vec` on an `i16` under the standard configuration.
/// The number is first mapped to the unsigned number that stands for it, and
/// the bytes are the compact form of that one.
#[verifier::external_body]
fn encode_i16(v: i16) -> (out: Vec<u8>)
    ensures
        out@ == varint_i16(v),
{
    bincode::encode_to_vec(v, bincode::config::standard()).unwrap_or_default()
}

/// `bincode::decode_from_slice` for a `u32` under the standard configuration.
/// It reads the leading byte and then the two or four bytes that it
/// announces, accepts a number written wider than needed, reports an end of
/// input where bytes are missing and an invalid integer for any other leading
/// byte.
#[verifier::external_body]
fn decode_u32(src: &[u8]) -> (r: Result<(u32, usize), CodecError>)
    ensures
        r == decode_varint_u32(src@),
{
    match bincode::decode_from_slice::<u32, _>(src, bincode::config::standard()) {
        Ok(read) => Ok(read),
        Err(bincode::error::DecodeError::UnexpectedEnd { .. }) => Err(CodecError::Truncated),
        Err(_) => Err(CodecError::InvalidInteger),
    }
}

/// `bincode::decode_from_slice` for an `i16` under the standard
/// configuration. It reads an unsigned 16-bit number as above, for which the
/// leading byte may announce two bytes and no more, and maps it back to the
/// signed number it stands for.
#[verifier::external_body]
fn decode_i16(src: &[u8]) -> (r: Result<(i16, usize), CodecError>)
    ensures
        r == decode_varint_i16(src@),
{
    match bincode::decode_from_slice::<i16, _>(src, bincode::config::standard()) {
        Ok(read) => Ok(read),
        Err(bincode::error::DecodeError::UnexpectedEnd { .. }) => Err(CodecError::Truncated),
        Err(_) => Err(CodecError::InvalidInteger),
    }
}

/// The byte that tells a shape.
pub open spec fn shape_tag(c: Coordinate) -> u8 {
    match c {
        Coordinate::Simple { .. } => 0,
        Coordinate::Rectangle { .. } => 1,
        Coordinate::Circle { .. } => 2,
    }
}

/// A shape's fields in the order in which they are written.
pub open spec fn shape_fields(c: Coordinate) -> Seq<i16> {
    match c {
        Coordinate::Simple { x, y } => seq![x, y],
        Coordinate::Rectangle { x1, y1, x2, y2 } => seq![x1, y1, x2, y2],
        Coordinate::Circle { x, y, radius } => seq![x, y, radius],
    }
}

/// How many fields follow a shape byte; `None` for an unknown one.
pub open spec fn field_count(tag: u8) -> Option<nat> {
    if tag == 0 {
        Some(2)
    } else if tag == 1 {
        Some(4)
    } else if tag == 2 {
        Some(3)
    } else {
        None
    }
}

/// The shape that a known shape byte and its fields denote.
pub open spec fn shape_of(tag: u8, f: Seq<i16>) -> Coordinate {
    if tag == 0 {
        Coordinate::Simple { x: f[0], y: f[1] }
    } else if tag == 1 {
        Coordinate::Rectangle { x1: f[0], y1: f[1], x2: f[2], y2: f[3] }
    } else {
        Coordinate::Circle { x: f[0], y: f[1], radius: f[2] }
    }
}

/// The bytes of a run of fields: the compact form of each, one after the
/// other.
pub open spec fn encode_fields(f: Seq<i16>) -> Seq<u8>
    decreases f.len(),
{
    if f.len() == 0 {
        Seq::empty()
    } else {
        encode_fields(f.drop_last()) + varint_i16(f.last())
    }
}

/// The bytes of one event.
pub open spec fn encode_event_spec(e: PixelData) -> Seq<u8> {
    varint_u32(e.miliseconds_since_first_pixel) + seq![shape_tag(e.coordinate)] + encode_fields(
        shape_fields(e.coordinate),
    ) + seq![e.pixel_color.r, e.pixel_color.g, e.pixel_color.b]
}

/// Reading `count` fields from `s` starting at `at`: the fields and the
/// position behind them.
pub open spec fn decode_fields(s: Seq<u8>, at: int, count: nat) -> Result<
    (Seq<i16>, int),
    CodecError,
>
    decreases count,
{
    if count == 0 {
        Ok((Seq::empty(), at))
    } else {
        match decode_fields(s, at, (count - 1) as nat) {
            Err(e) => Err(e),
            Ok((head, mid)) => match decode_varint_i16(s.subrange(mid, s.len() as int)) {
                Err(e) => Err(e),
                Ok((v, n)) => Ok((head.push(v), mid + n)),
            },
        }
    }
}

/// Reading one event from the front of `s`: the event and how many bytes it
/// took. Where the bytes end before the event does, it is truncated; that
/// holds of no bytes at all too, since whether a stream may end is the
/// stream's affair (see `decode_stream`).
pub open spec fn decode_event_spec(s: Seq<u8>) -> Result<(PixelData, int), CodecError> {
    match decode_varint_u32(s) {
        Err(e) => Err(e),
        Ok((t, n)) => if s.len() <= n {
            Err(CodecError::Truncated)
        } else {
            match field_count(s[n as int]) {
                None => Err(CodecError::UnknownShape { tag: s[n as int] }),
                Some(count) => match decode_fields(s, n + 1, count) {
                    Err(e) => Err(e),
                    Ok((f, p)) => if s.len() < p + 3 {
                        Err(CodecError::Truncated)
                    } else {
                        Ok(
                            (
                                PixelData {
                                    miliseconds_since_first_pixel: t,
                                    coordinate: shape_of(s[n as int], f),
                                    pixel_color: PixelColor { r: s[p], g: s[p + 1], b: s[p + 2] },
                                },
                                p + 3,
                            ),
                        )
                    },
                },
            }
        },
    }
}

pub proof fn lemma_encode_fields_push(f: Seq<i16>, v: i16)
    ensures
        encode_fields(f.push(v)) == encode_fields(f) + varint_i16(v),
{
    assert(f.push(v).drop_last() =~= f);
}

/// Appends the compact forms of `fields` to `out`.
fn write_fields(out: &mut Vec<u8>, fields: &Vec<i16>)
    ensures
        final(out)@ == old(out)@ + encode_fields(fields@),
{
    let mut i: usize = 0;
    assert(fields@.take(0) =~= Seq::<i16>::empty());
    assert(out@ =~= old(out)@ + encode_fields(fields@.take(0)));
    while i < fields.len()
        invariant
            i <= fields.len(),
            out@ == old(out)@ + encode_fields(fields@.take(i as int)),
        decreases fields.len() - i,
    {
        let mut one = encode_i16(fields[i]);
        proof {
            lemma_encode_fields_push(fields@.take(i as int), fields[i as int]);
            assert(fields@.take(i as int).push(fields[i as int]) =~= fields@.take(i + 1));
            assert(out@ + one@ =~= old(out)@ + encode_fields(fields@.take(i + 1)));
        }
        out.append(&mut one);
        i += 1;
    }
    assert(fields@.take(i as int) =~= fields@);
}

/// Writes one event.
pub fn encode_event(e: &PixelData) -> (out: Vec<u8>)
    ensures
        out@ == encode_event_spec(*e),
{
    let mut out: Vec<u8> = encode_u32(e.miliseconds_since_first_pixel);
    let mut fields: Vec<i16> = Vec::new();
    match e.coordinate {
        Coordinate::Simple { x, y } => {
            out.push(0u8);
            fields.push(x);
            fields.push(y);
        },
        Coordinate::Rectangle { x1, y1, x2, y2 } => {
            out.push(1u8);
            fields.push(x1);
            fields.push(y1);
            fields.push(x2);
            fields.push(y2);
        },
        Coordinate::Circle { x, y, radius } => {
            out.push(2u8);
            fields.push(x);
            fields.push(y);
            fields.push(radius);
        },
    }
    assert(fields@ =~= shape_fields(e.coordinate));
    write_fields(&mut out, &fields);
    out.push(e.pixel_color.r);
    out.push(e.pixel_color.g);
    out.push(e.pixel_color.b);
    assert(out@ =~= encode_event_spec(*e));
    out
}

/// Whether an executable result says what `decode_event_spec` says.
pub open spec fn decoded_as(
    r: Result<(PixelData, usize), CodecError>,
    expected: Result<(PixelData, int), CodecError>,
) -> bool {
    match r {
        Ok((e, n)) => expected == Ok::<(PixelData, int), CodecError>((e, n as int)),
        Err(e) => expected == Err::<(PixelData, int), CodecError>(e),
    }
}

/// Reads one event from the front of `bytes` and says how many bytes it
/// took.
#[verifier::loop_isolation(false)]
pub fn decode_event(bytes: &[u8]) -> (r: Result<(PixelData, usize), CodecError>)
    ensures
        decoded_as(r, decode_event_spec(bytes@)),
{
    let len: usize = bytes.len();
    let (t, n) = match decode_u32(bytes) {
        Ok(read) => read,
        Err(e) => {
            return Err(e);
        },
    };
    if len <= n {
        return Err(CodecError::Truncated);
    }
    let tag: u8 = bytes[n];
    let count: usize = if tag == 0 {
        2
    } else if tag == 1 {
        4
    } else if tag == 2 {
        3
    } else {
        return Err(CodecError::UnknownShape { tag });
    };
    let mut fields: Vec<i16> = Vec::new();
    let mut at: usize = n + 1;
    while fields.len() < count
        invariant
            fields.len() <= count <= 4,
            n + 1 <= at <= len,
            len == bytes.len(),
            decode_fields(bytes@, n + 1, fields.len() as nat) == Ok::<
                (Seq<i16>, int),
                CodecError,
            >((fields@, at as int)),
        decreases count - fields.len(),
    {
        let ghost done = fields.len() as nat;
        assert(decode_fields(bytes@, n + 1, done + 1) == match decode_varint_i16(
            bytes@.subrange(at as int, len as int),
        ) {
            Err(e) => Err::<(Seq<i16>, int), CodecError>(e),
            Ok((v, used)) => Ok((fields@.push(v), at + used)),
        });
        match decode_i16(&bytes[at..len]) {
            Ok((v, used)) => {
                fields.push(v);
                at = at + used;
            },
            Err(e) => {
                proof {
                    lemma_decode_fields_fails(bytes@, n + 1, done, count as nat);
                }
                return Err(e);
            },
        }
    }
    if len - at < 3 {
        return Err(CodecError::Truncated);
    }
    let coordinate = if tag == 0 {
        Coordinate::Simple { x: fields[0], y: fields[1] }
    } else if tag == 1 {
        Coordinate::Rectangle { x1: fields[0], y1: fields[1], x2: fields[2], y2: fields[3] }
    } else {
        Coordinate::Circle { x: fields[0], y: fields[1], radius: fields[2] }
    };
    Ok(
        (
            PixelData {
                miliseconds_since_first_pixel: t,
                coordinate,
                pixel_color: PixelColor { r: bytes[at], g: bytes[at + 1], b: bytes[at + 2] },
            },
            at + 3,
        ),
    )
}

/// Once a field cannot be read, no longer run of fields can.
pub proof fn lemma_decode_fields_fails(s: Seq<u8>, at: int, done: nat, count: nat)
    requires
        done < count,
        decode_fields(s, at, done + 1) is Err,
    ensures
        decode_fields(s, at, count) == decode_fields(s, at, done + 1),
    decreases count,
{
    if count > done + 1 {
        lemma_decode_fields_fails(s, at, done, (count - 1) as nat);
    }
}


/// Reading fields never moves backwards.
pub proof fn lemma_decode_fields_advances(s: Seq<u8>, at: int, count: nat)
    ensures
        decode_fields(s, at, count) matches Ok((f, p)) ==> f.len() == count && at <= p,
    decreases count,
{
    if count > 0 {
        lemma_decode_fields_advances(s, at, (count - 1) as nat);
    }
}

/// An event that can be read takes at least one byte and no more than there are.
pub proof fn lemma_decode_event_consumes(s: Seq<u8>)
    ensures
        decode_event_spec(s) matches Ok((e, n)) ==> 0 < n <= s.len(),
{
    if let Ok((t, n)) = decode_varint_u32(s) {
        if s.len() > n {
            if let Some(count) = field_count(s[n as int]) {
                lemma_decode_fields_advances(s, n + 1, count);
            }
        }
    }
}

/// A compact unsigned number is read back as it was written, whatever follows it.
pub proof fn lemma_varint_u32_round_trip(v: u32, rest: Seq<u8>)
    ensures
        decode_varint_u32(varint_u32(v) + rest) == Ok::<(u32, usize), CodecError>(
            (v, varint_u32(v).len() as usize),
        ),
        1 <= varint_u32(v).len() <= 5,
{
    let s = varint_u32(v) + rest;
    if v <= 250 {
        assert(s[0] == v as u8);
    } else if v <= 0xffff {
        assert(s[0] == 251 && s[1] == (v % 256) as u8 && s[2] == (v / 256) as u8);
    } else {
        assert(s[0] == 252 && s[1] == (v % 256) as u8 && s[2] == (v / 256 % 256) as u8 && s[3] == (
        v / 65536 % 256) as u8 && s[4] == (v / 16777216) as u8);
    }
}

/// A compact signed number is read back as it was written, whatever follows it.
pub proof fn lemma_varint_i16_round_trip(v: i16, rest: Seq<u8>)
    ensures
        decode_varint_i16(varint_i16(v) + rest) == Ok::<(i16, usize), CodecError>(
            (v, varint_i16(v).len() as usize),
        ),
        1 <= varint_i16(v).len() <= 3,
{
    let s = varint_i16(v) + rest;
    let n = zigzag(v);
    assert(unzigzag(n) == v);
    if n <= 250 {
        assert(s[0] == n as u8);
    } else {
        assert(s[0] == 251 && s[1] == (n % 256) as u8 && s[2] == (n / 256) as u8);
    }
}

/// Fields are read back as they were written, whatever stands before and
/// after them.
pub proof fn lemma_fields_round_trip(before: Seq<u8>, f: Seq<i16>, rest: Seq<u8>)
    ensures
        decode_fields(before + encode_fields(f) + rest, before.len() as int, f.len())
            == Ok::<(Seq<i16>, int), CodecError>(
            (f, (before.len() + encode_fields(f).len()) as int),
        ),
    decreases f.len(),
{
    let s = before + encode_fields(f) + rest;
    if f.len() == 0 {
        assert(f =~= Seq::<i16>::empty());
    } else {
        let g = f.drop_last();
        let v = f.last();
        let one = varint_i16(v);
        assert(f =~= g.push(v));
        lemma_encode_fields_push(g, v);
        lemma_fields_round_trip(before, g, one + rest);
        assert(before + encode_fields(g) + (one + rest) =~= s);
        let mid = (before.len() + encode_fields(g).len()) as int;
        assert(s.subrange(mid, s.len() as int) =~= one + rest);
        lemma_varint_i16_round_trip(v, rest);
    }
}

/// Every event is read back as it was written, whatever follows it.
pub proof fn lemma_event_round_trip(e: PixelData, rest: Seq<u8>)
    ensures
        decode_event_spec(encode_event_spec(e) + rest) == Ok::<(PixelData, int), CodecError>(
            (e, encode_event_spec(e).len() as int),
        ),
        encode_event_spec(e).len() > 0,
{
    let t = varint_u32(e.miliseconds_since_first_pixel);
    let tag = seq![shape_tag(e.coordinate)];
    let f = shape_fields(e.coordinate);
    let body = encode_fields(f);
    let color = seq![e.pixel_color.r, e.pixel_color.g, e.pixel_color.b];
    let s = encode_event_spec(e) + rest;
    assert(s =~= t + (tag + body + color + rest));
    lemma_varint_u32_round_trip(e.miliseconds_since_first_pixel, tag + body + color + rest);
    let n = t.len() as int;
    assert(s[n] == shape_tag(e.coordinate));
    assert(field_count(s[n]) == Some(f.len()));
    assert(s =~= (t + tag) + body + (color + rest));
    lemma_fields_round_trip(t + tag, f, color + rest);
    let p = n + 1 + body.len();
    assert(s[p] == e.pixel_color.r && s[p + 1] == e.pixel_color.g && s[p + 2]
        == e.pixel_color.b);
    assert(shape_of(shape_tag(e.coordinate), f) == e.coordinate);
    assert(encode_event_spec(e).len() == p + 3);
}

/// Decoding is the inverse of encoding: for every event `e`, reading the
/// bytes of `e` gives `e` and takes all of them.
pub proof fn codec_round_trip(e: PixelData)
    ensures
        decode_event_spec(encode_event_spec(e)) == Ok::<(PixelData, int), CodecError>(
            (e, encode_event_spec(e).len() as int),
        ),
{
    lemma_event_round_trip(e, Seq::empty());
    assert(encode_event_spec(e) + Seq::<u8>::empty() =~= encode_event_spec(e));
}


/// The bytes of a run of events: those of each, one after the other.
pub open spec fn encode_stream(events: Seq<PixelData>) -> Seq<u8>
    decreases events.len(),
{
    if events.len() == 0 {
        Seq::empty()
    } else {
        encode_event_spec(events.first()) + encode_stream(events.drop_first())
    }
}

/// What a byte stream holds: the events that can be read from its front, in
/// order, and the error that stopped the reading, if one did. An end of the
/// bytes where an event would begin stops it without an error.
pub open spec fn decode_stream(s: Seq<u8>) -> (Seq<PixelData>, Option<CodecError>)
    decreases s.len(),
    via decode_stream_decreases
{
    if s.len() == 0 {
        (Seq::empty(), None)
    } else {
        match decode_event_spec(s) {
            Err(e) => (Seq::empty(), Some(e)),
            Ok((e, n)) => {
                let rest = decode_stream(s.skip(n));
                (seq![e] + rest.0, rest.1)
            },
        }
    }
}

#[via_fn]
proof fn decode_stream_decreases(s: Seq<u8>) {
    lemma_decode_event_consumes(s);
}

pub proof fn lemma_encode_stream_push(events: Seq<PixelData>, e: PixelData)
    ensures
        encode_stream(events.push(e)) == encode_stream(events) + encode_event_spec(e),
    decreases events.len(),
{
    if events.len() == 0 {
        assert(events.push(e).drop_first() =~= Seq::<PixelData>::empty());
        assert(encode_stream(events.push(e)) =~= encode_event_spec(e) + encode_stream(
            Seq::<PixelData>::empty(),
        ));
        assert(encode_stream(events.push(e)) =~= encode_stream(events) + encode_event_spec(e));
    } else {
        assert(events.push(e).drop_first() =~= events.drop_first().push(e));
        lemma_encode_stream_push(events.drop_first(), e);
        assert(encode_stream(events.push(e)) =~= encode_stream(events) + encode_event_spec(e));
    }
}

/// Writes a run of events.
pub fn encode_events(events: &Vec<PixelData>) -> (out: Vec<u8>)
    ensures
        out@ == encode_stream(events@),
{
    let mut out: Vec<u8> = Vec::new();
    let mut i: usize = 0;
    assert(events@.take(0) =~= Seq::<PixelData>::empty());
    while i < events.len()
        invariant
            i <= events.len(),
            out@ == encode_stream(events@.take(i as int)),
        decreases events.len() - i,
    {
        let mut one = encode_event(&events[i]);
        proof {
            lemma_encode_stream_push(events@.take(i as int), events[i as int]);
            assert(events@.take(i as int).push(events[i as int]) =~= events@.take(i + 1));
        }
        out.append(&mut one);
        i += 1;
    }
    assert(events@.take(i as int) =~= events@);
    out
}

/// Reads events from the front of `bytes` until they end or one cannot be read.
pub fn decode_events(bytes: &[u8]) -> (r: (Vec<PixelData>, Option<CodecError>))
    ensures
        (r.0@, r.1) == decode_stream(bytes@),
{
    let len: usize = bytes.len();
    let mut events: Vec<PixelData> = Vec::new();
    let mut at: usize = 0;
    assert(bytes@.skip(0) =~= bytes@);
    while at < len
        invariant
            at <= len == bytes.len(),
            decode_stream(bytes@) == (
                events@ + decode_stream(bytes@.skip(at as int)).0,
                decode_stream(bytes@.skip(at as int)).1,
            ),
        decreases len - at,
    {
        let ghost s = bytes@.skip(at as int);
        assert(s =~= bytes@.subrange(at as int, len as int));
        proof {
            lemma_decode_event_consumes(s);
        }
        match decode_event(&bytes[at..len]) {
            Ok((e, n)) => {
                assert(s.skip(n as int) =~= bytes@.skip(at + n));
                assert(events@.push(e) + decode_stream(s.skip(n as int)).0 =~= events@ + (seq![e]
                    + decode_stream(s.skip(n as int)).0));
                events.push(e);
                at = at + n;
            },
            Err(e) => {
                assert(events@ + Seq::<PixelData>::empty() =~= events@);
                return (events, Some(e));
            },
        }
    }
    assert(events@ + Seq::<PixelData>::empty() =~= events@);
    (events, None)
}

/// A run of events is read back as it was written, without an error.
pub proof fn stream_round_trip(events: Seq<PixelData>)
    ensures
        decode_stream(encode_stream(events)) == (events, None::<CodecError>),
    decreases events.len(),
{
    if events.len() > 0 {
        let e = events.first();
        let rest = encode_stream(events.drop_first());
        lemma_event_round_trip(e, rest);
        stream_round_trip(events.drop_first());
        let s = encode_stream(events);
        assert(s.skip(encode_event_spec(e).len() as int) =~= rest);
        assert(seq![e] + events.drop_first() =~= events);
    }
}

} // verus!
