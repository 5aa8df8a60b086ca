//! The compressed binary log and the rows it is compiled from.

use crate::codec::{decode_event, decode_events, decode_stream, encode_events, encode_stream};
use crate::codec::{lemma_decode_event_consumes, stream_round_trip, CodecError};
use crate::data::{parse_color_spec, parse_coordinate_spec};
use crate::data::{Coordinate, ParseError, PixelColor, PixelData};
use std::io::{Read, Write};
use vstd::prelude::*;
use vstd::string::*;
use vstd::utf8::encode_utf8;

verus! {

/// Why a log could not be read.
#[derive(Debug, Clone, Copy, PartialEq, Eq, Structural)]
pub enum ReadError {
    /// The compressed stream could not be read to its end.
    Io,
    /// The bytes inside are not a run of events.
    Codec(CodecError),
}

/// The gzip stream that default compression makes of `data`.
pub uninterp spec fn gzip_bytes(data: Seq<u8>) -> Seq<u8>;

/// What a gzip stream holds; `None` where the bytes are no such stream.
pub uninterp spec fn gunzip_bytes(bytes: Seq<u8>) -> Option<Seq<u8>>;

/// `flate2::write::GzEncoder` at the default level, over a vector, fed all of
/// `data` and finished. The header carries no time and no file name, so the
/// stream depends on `data` alone; and it is a gzip stream of `data`, which
/// `flate2::read::GzDecoder` reads back.
#[verifier::external_body]
fn gzip(data: &[u8]) -> (out: Vec<u8>)
    ensures
        out@ == gzip_bytes(data@),
        gunzip_bytes(out@) == Some(data@),
{
    let mut encoder = flate2::write::GzEncoder::new(Vec::new(), flate2::Compression::default());
    match encoder.write_all(data) {
        Ok(()) => encoder.finish().unwrap_or_default(),
        Err(_) => Vec::new(),
    }
}

/// `flate2::read::GzDecoder` over `bytes`, read to its end.
#[verifier::external_body]
fn gunzip(bytes: &[u8]) -> (out: Option<Vec<u8>>)
    ensures
        match out {
            Some(data) => gunzip_bytes(bytes@) == Some(data@),
            None => gunzip_bytes(bytes@) is None,
        },
{
    let mut data = Vec::new();
    match flate2::read::GzDecoder::new(bytes).read_to_end(&mut data) {
        Ok(_) => Some(data),
        Err(_) => None,
    }
}

/// What `parse_bin` owes for each outcome of decompression.
pub open spec fn parse_bin_spec(raw: Option<Seq<u8>>) -> Result<Seq<PixelData>, ReadError> {
    match raw {
        None => Err(ReadError::Io),
        Some(data) => match decode_stream(data).1 {
            Some(e) => Err(ReadError::Codec(e)),
            None => Ok(decode_stream(data).0),
        },
    }
}

/// Reads a whole compressed log.
pub fn parse_bin(file: &[u8]) -> (r: Result<Vec<PixelData>, ReadError>)
    ensures
        match r {
            Ok(events) => parse_bin_spec(gunzip_bytes(file@)) == Ok::<Seq<PixelData>, ReadError>(
                events@,
            ),
            Err(e) => parse_bin_spec(gunzip_bytes(file@)) == Err::<Seq<PixelData>, ReadError>(e),
        },
{
    match gunzip(file) {
        None => Err(ReadError::Io),
        Some(data) => {
            let (events, error) = decode_events(data.as_slice());
            match error {
                Some(e) => Err(ReadError::Codec(e)),
                None => Ok(events),
            }
        },
    }
}

/// Writes a whole compressed log. What is written reads back as the same
/// events.
pub fn write_to_bin(events: &Vec<PixelData>) -> (file: Vec<u8>)
    ensures
        file@ == gzip_bytes(encode_stream(events@)),
        parse_bin_spec(gunzip_bytes(file@)) == Ok::<Seq<PixelData>, ReadError>(events@),
{
    let data = encode_events(events);
    proof {
        stream_round_trip(events@);
    }
    gzip(data.as_slice())
}

/// A single pass over the events of a log, in the order of the log.
pub struct GzippedBinPixelDataReader {
    bytes: Vec<u8>,
    at: usize,
    done: bool,
}

impl GzippedBinPixelDataReader {
    #[verifier::type_invariant]
    spec fn well_formed(self) -> bool {
        self.at <= self.bytes.len()
    }

    /// The bytes not yet read.
    pub closed spec fn remaining(&self) -> Seq<u8> {
        if self.done {
            Seq::empty()
        } else {
            self.bytes@.skip(self.at as int)
        }
    }

    /// What is still to come: the events, and the error behind them if the
    /// bytes go wrong.
    pub open spec fn pending(&self) -> (Seq<PixelData>, Option<CodecError>) {
        decode_stream(self.remaining())
    }

    /// A reader over the bytes inside a log, already decompressed.
    pub fn from_bytes(bytes: Vec<u8>) -> (reader: Self)
        ensures
            reader.remaining() == bytes@,
    {
        assert(bytes@.skip(0) =~= bytes@);
        GzippedBinPixelDataReader { bytes, at: 0, done: false }
    }

    /// A reader over a compressed log.
    pub fn new(file: &[u8]) -> (r: Result<Self, ReadError>)
        ensures
            match r {
                Ok(reader) => gunzip_bytes(file@) == Some(reader.remaining()),
                Err(e) => e == ReadError::Io && gunzip_bytes(file@) is None,
            },
    {
        match gunzip(file) {
            Some(bytes) => Ok(Self::from_bytes(bytes)),
            None => Err(ReadError::Io),
        }
    }

    /// The next event. After the last event, and after an error, there is
    /// nothing more.
    pub fn next(&mut self) -> (r: Option<Result<PixelData, CodecError>>)
        ensures
            match r {
                None => old(self).pending() == (Seq::<PixelData>::empty(), None::<CodecError>)
                    && final(self).pending() == old(self).pending(),
                Some(Ok(e)) => old(self).pending().0.len() > 0 && e == old(self).pending().0[0]
                    && final(self).pending() == (
                    old(self).pending().0.drop_first(),
                    old(self).pending().1,
                ),
                Some(Err(e)) => old(self).pending() == (Seq::<PixelData>::empty(), Some(e))
                    && final(self).pending() == (Seq::<PixelData>::empty(), None::<CodecError>),
            },
    {
        proof {
            use_type_invariant(&*self);
        }
        let len: usize = self.bytes.len();
        if self.done || self.at >= len {
            assert(self.remaining() =~= Seq::<u8>::empty());
            return None;
        }
        let ghost s = self.remaining();
        assert(s =~= self.bytes@.subrange(self.at as int, len as int));
        proof {
            lemma_decode_event_consumes(s);
        }
        match decode_event(&self.bytes.as_slice()[self.at..len]) {
            Ok((e, n)) => {
                self.at = self.at + n;
                assert(self.remaining() =~= s.skip(n as int));
                assert((seq![e] + decode_stream(s.skip(n as int)).0).drop_first()
                    =~= decode_stream(s.skip(n as int)).0);
                Some(Ok(e))
            },
            Err(e) => {
                self.done = true;
                Some(Err(e))
            },
        }
    }
}

/// A reader over the bytes of `k` events and nothing more has exactly those
/// `k` events to come, in their order, and no error behind them: it yields
/// each of them and then nothing.
pub proof fn reader_yields_every_event(reader: GzippedBinPixelDataReader, events: Seq<PixelData>)
    requires
        reader.remaining() == encode_stream(events),
    ensures
        reader.pending() == (events, None::<CodecError>),
{
    stream_round_trip(events);
}

/// One row of the input: the columns as text.
#[derive(Debug)]
pub struct CsvRecord {
    pub timestamp: String,
    pub user: String,
    pub coordinate: String,
    pub pixel_color: String,
}

/// Why a row is not an event.
#[derive(Debug, Clone, Copy, PartialEq, Eq, Structural)]
pub enum CsvError {
    /// The timestamp is not a date and time with an offset.
    InvalidTimestamp,
    /// The timestamp lies before the first event, or too long after it.
    TimestampOutOfRange,
    InvalidCoordinate(ParseError),
    InvalidColor(ParseError),
}

/// The instant of the first event of the log, 2023-07-20 13:00:26.088 UTC, in
/// milliseconds since 1970.
pub const FIRST_PIXEL_MILLIS: i64 = 1_689_858_026_088;

/// The instant that an RFC 3339 date and time denotes, in milliseconds since
/// 1970; `None` where the text is no such date and time.
pub uninterp spec fn rfc3339_millis(text: Seq<char>) -> Option<i64>;

/// `chrono::DateTime::parse_from_rfc3339`, and of the instant it gives,
/// `timestamp_millis`. The text carries its own offset, so the instant depends
/// on the text alone.
#[verifier::external_body]
fn parse_rfc3339_millis(text: &str) -> (r: Option<i64>)
    ensures
        r == rfc3339_millis(text@),
{
    match chrono::DateTime::parse_from_rfc3339(text) {
        Ok(instant) => Some(instant.timestamp_millis()),
        Err(_) => None,
    }
}

/// `str::strip_suffix`: the text before `suffix` where `text` ends with it,
/// nothing where it does not.
#[verifier::external_body]
fn strip_suffix<'a>(text: &'a str, suffix: &str) -> (r: Option<&'a str>)
    ensures
        match r {
            Some(head) => text@ == head@ + suffix@,
            None => !suffix@.is_suffix_of(text@),
        },
{
    text.strip_suffix(suffix)
}

/// A timestamp as RFC 3339 wants it: a trailing `" UTC"` becomes `"Z"`.
pub open spec fn normalized_timestamp(text: Seq<char>) -> Seq<char> {
    if " UTC"@.is_suffix_of(text) {
        text.subrange(0, text.len() - " UTC"@.len()) + "Z"@
    } else {
        text
    }
}

/// Replaces a trailing `" UTC"` by `"Z"`.
pub fn normalize_timestamp(text: &str) -> (r: String)
    ensures
        r@ == normalized_timestamp(text@),
{
    match strip_suffix(text, " UTC") {
        Some(head) => {
            assert(head@ =~= text@.subrange(0, text@.len() - " UTC"@.len()));
            assert(" UTC"@.is_suffix_of(text@)) by {
                assert(text@.skip(text@.len() - " UTC"@.len()) =~= " UTC"@);
            }
            head.to_owned().concat("Z")
        },
        None => text.to_owned(),
    }
}

/// The event of a row whose timestamp denotes `millis`, in a log whose first
/// event happened at `first`.
pub open spec fn pixel_data_spec(
    millis: Option<i64>,
    first: i64,
    coordinate: Seq<u8>,
    color: Seq<u8>,
) -> Result<PixelData, CsvError> {
    match millis {
        None => Err(CsvError::InvalidTimestamp),
        Some(m) => if !(0 <= m - first <= u32::MAX) {
            Err(CsvError::TimestampOutOfRange)
        } else {
            match parse_coordinate_spec(coordinate) {
                Err(e) => Err(CsvError::InvalidCoordinate(e)),
                Ok(c) => match parse_color_spec(color) {
                    Err(e) => Err(CsvError::InvalidColor(e)),
                    Ok(p) => Ok(
                        PixelData {
                            miliseconds_since_first_pixel: (m - first) as u32,
                            coordinate: c,
                            pixel_color: p,
                        },
                    ),
                },
            }
        },
    }
}

/// Makes the event of a row from the instant of its timestamp and the text of
/// its two other columns.
pub fn pixel_data_from_fields(
    millis: Option<i64>,
    first_pixel_millis: i64,
    coordinate: &str,
    pixel_color: &str,
) -> (r: Result<PixelData, CsvError>)
    ensures
        r == pixel_data_spec(
            millis,
            first_pixel_millis,
            coordinate.spec_bytes(),
            pixel_color.spec_bytes(),
        ),
{
    let m: i64 = match millis {
        Some(m) => m,
        None => {
            return Err(CsvError::InvalidTimestamp);
        },
    };
    let since: i128 = m as i128 - first_pixel_millis as i128;
    if since < 0 || since > 0xffff_ffff {
        return Err(CsvError::TimestampOutOfRange);
    }
    let coordinate = match Coordinate::from_str(coordinate) {
        Ok(c) => c,
        Err(e) => {
            return Err(CsvError::InvalidCoordinate(e));
        },
    };
    let pixel_color = match PixelColor::from_str(pixel_color) {
        Ok(p) => p,
        Err(e) => {
            return Err(CsvError::InvalidColor(e));
        },
    };
    Ok(PixelData { miliseconds_since_first_pixel: since as u32, coordinate, pixel_color })
}

impl CsvRecord {
    /// The event of this row, in a log whose first event happened at
    /// `first_pixel_millis`.
    pub fn to_pixel_data(self, first_pixel_millis: i64) -> (r: Result<PixelData, CsvError>)
        ensures
            r == pixel_data_spec(
                rfc3339_millis(normalized_timestamp(self.timestamp@)),
                first_pixel_millis,
                encode_utf8(self.coordinate@),
                encode_utf8(self.pixel_color@),
            ),
    {
        let text = normalize_timestamp(self.timestamp.as_str());
        let millis = parse_rfc3339_millis(text.as_str());
        pixel_data_from_fields(
            millis,
            first_pixel_millis,
            self.coordinate.as_str(),
            self.pixel_color.as_str(),
        )
    }
}

} // verus!
