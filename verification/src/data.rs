//! Paint events and the textual forms they are read from.

use vstd::prelude::*;
use vstd::string::*;

verus! {

/// The shape an event paints, in logical coordinates (origin centred, y up).
#[derive(Debug, Clone, Copy, PartialEq, Eq, Structural)]
pub enum Coordinate {
    Simple { x: i16, y: i16 },
    Rectangle { x1: i16, y1: i16, x2: i16, y2: i16 },
    Circle { x: i16, y: i16, radius: i16 },
}

/// A colour: red, green, blue.
#[derive(Debug, Clone, Copy, PartialEq, Eq, Structural)]
pub struct PixelColor {
    pub r: u8,
    pub g: u8,
    pub b: u8,
}

/// One paint event of the log.
#[derive(Debug, Clone, Copy, PartialEq, Eq, Structural)]
pub struct PixelData {
    pub miliseconds_since_first_pixel: u32,
    pub coordinate: Coordinate,
    pub pixel_color: PixelColor,
}

/// Why a coordinate or a colour could not be read from text.
#[derive(Debug, Clone, Copy, PartialEq, Eq, Structural)]
pub enum ParseError {
    /// A delimiter or a field of the braced form is missing.
    InvalidFormat,
    /// The plain form has neither two nor four fields.
    UnknownFormat,
    /// A field is not a number of the expected range.
    InvalidNumber,
}

impl ParseError {
    /// The error in words.
    pub fn to_string(&self) -> (text: String)
        ensures
            text@ == match *self {
                ParseError::InvalidFormat => "Invalid format"@,
                ParseError::UnknownFormat => "Unknown coordinate format"@,
                ParseError::InvalidNumber => "Invalid number"@,
            },
    {
        match self {
            ParseError::InvalidFormat => "Invalid format".to_owned(),
            ParseError::UnknownFormat => "Unknown coordinate format".to_owned(),
            ParseError::InvalidNumber => "Invalid number".to_owned(),
        }
    }
}

pub open spec fn is_digit(b: u8) -> bool {
    48 <= b && b <= 57
}

pub open spec fn all_digits(s: Seq<u8>) -> bool {
    forall|i: int| 0 <= i < s.len() ==> is_digit(#[trigger] s[i])
}

/// The number that a run of decimal digits denotes.
pub open spec fn decimal_value(digits: Seq<u8>) -> nat
    decreases digits.len(),
{
    if digits.len() == 0 {
        0
    } else {
        decimal_value(digits.drop_last()) * 10 + (digits.last() - 48) as nat
    }
}

/// A signed 16-bit number in decimal: an optional `+` or `-`, then one or more
/// digits and nothing else, denoting a value that fits.
pub open spec fn parse_i16_spec(s: Seq<u8>) -> Option<i16> {
    let signed = s.len() > 0 && (s[0] == 43 || s[0] == 45);
    let digits = if signed {
        s.subrange(1, s.len() as int)
    } else {
        s
    };
    let magnitude = decimal_value(digits) as int;
    let value = if s.len() > 0 && s[0] == 45 {
        -magnitude
    } else {
        magnitude
    };
    if digits.len() > 0 && all_digits(digits) && -32768 <= value <= 32767 {
        Some(value as i16)
    } else {
        None
    }
}

/// Reads the decimal number that `bytes[start..end]` spells.
#[verifier::loop_isolation(false)]
fn parse_i16(bytes: &[u8], start: usize, end: usize) -> (r: Option<i16>)
    requires
        start <= end <= bytes.len(),
    ensures
        r == parse_i16_spec(bytes@.subrange(start as int, end as int)),
{
    let ghost s = bytes@.subrange(start as int, end as int);
    if start == end {
        return None;
    }
    let first: u8 = bytes[start];
    assert(first == s[0]);
    let negative: bool = first == 45;
    let begin: usize = if first == 43 || first == 45 {
        start + 1
    } else {
        start
    };
    let ghost digits = bytes@.subrange(begin as int, end as int);
    assert(digits =~= if first == 43 || first == 45 {
        s.subrange(1, s.len() as int)
    } else {
        s
    });
    if begin == end {
        return None;
    }
    let mut i: usize = begin;
    let mut acc: i32 = 0;
    let mut fits: bool = true;
    while i < end
        invariant
            begin <= i <= end <= bytes.len(),
            digits == bytes@.subrange(begin as int, end as int),
            all_digits(digits.take(i - begin)),
            fits ==> acc == decimal_value(digits.take(i - begin)) && 0 <= acc <= 32768,
            !fits ==> decimal_value(digits.take(i - begin)) > 32768,
        decreases end - i,
    {
        let b: u8 = bytes[i];
        let ghost k = i - begin;
        assert(digits[k] == b);
        assert(digits.take(k + 1).drop_last() =~= digits.take(k));
        assert(digits.take(k + 1).last() == b);
        if b < 48 || b > 57 {
            assert(!is_digit(digits[k]));
            return None;
        }
        assert forall|j: int| 0 <= j < k + 1 implies is_digit(#[trigger] digits.take(k + 1)[j]) by {
            if j < k {
                assert(digits.take(k + 1)[j] == digits.take(k)[j]);
            }
        }
        if fits {
            acc = acc * 10 + (b - 48) as i32;
            if acc > 32768 {
                fits = false;
            }
        }
        i += 1;
    }
    assert(digits.take(i - begin) =~= digits);
    if !fits {
        None
    } else if negative {
        Some((-acc) as i16)
    } else if acc <= 32767 {
        Some(acc as i16)
    } else {
        None
    }
}


pub open spec fn hex_digit_value(b: u8) -> int {
    if 48 <= b <= 57 {
        b - 48
    } else if 97 <= b <= 102 {
        b - 87
    } else {
        b - 55
    }
}

pub open spec fn is_hex_digit(b: u8) -> bool {
    (48 <= b <= 57) || (97 <= b <= 102) || (65 <= b <= 70)
}

pub open spec fn all_hex_digits(s: Seq<u8>) -> bool {
    forall|i: int| 0 <= i < s.len() ==> is_hex_digit(#[trigger] s[i])
}

/// The number that a run of hexadecimal digits denotes.
pub open spec fn hex_value(digits: Seq<u8>) -> nat
    decreases digits.len(),
{
    if digits.len() == 0 {
        0
    } else {
        hex_value(digits.drop_last()) * 16 + hex_digit_value(digits.last()) as nat
    }
}

/// An unsigned 32-bit number in hexadecimal: an optional `+`, then one or more
/// digits of either case and nothing else, denoting a value that fits.
pub open spec fn parse_hex_u32_spec(s: Seq<u8>) -> Option<u32> {
    let digits = if s.len() > 0 && s[0] == 43 {
        s.subrange(1, s.len() as int)
    } else {
        s
    };
    if digits.len() > 0 && all_hex_digits(digits) && hex_value(digits) <= u32::MAX {
        Some(hex_value(digits) as u32)
    } else {
        None
    }
}

/// Reads the hexadecimal number that `bytes[start..end]` spells.
#[verifier::loop_isolation(false)]
fn parse_hex_u32(bytes: &[u8], start: usize, end: usize) -> (r: Option<u32>)
    requires
        start <= end <= bytes.len(),
    ensures
        r == parse_hex_u32_spec(bytes@.subrange(start as int, end as int)),
{
    let ghost s = bytes@.subrange(start as int, end as int);
    if start == end {
        return None;
    }
    let first: u8 = bytes[start];
    assert(first == s[0]);
    let begin: usize = if first == 43 {
        start + 1
    } else {
        start
    };
    let ghost digits = bytes@.subrange(begin as int, end as int);
    assert(digits =~= if first == 43 {
        s.subrange(1, s.len() as int)
    } else {
        s
    });
    if begin == end {
        return None;
    }
    let mut i: usize = begin;
    let mut acc: u64 = 0;
    let mut fits: bool = true;
    while i < end
        invariant
            begin <= i <= end <= bytes.len(),
            all_hex_digits(digits.take(i - begin)),
            fits ==> acc == hex_value(digits.take(i - begin)) && acc <= u32::MAX,
            !fits ==> hex_value(digits.take(i - begin)) > u32::MAX,
        decreases end - i,
    {
        let b: u8 = bytes[i];
        let ghost k = i - begin;
        assert(digits[k] == b);
        assert(digits.take(k + 1).drop_last() =~= digits.take(k));
        assert(digits.take(k + 1).last() == b);
        let d: u8 = if 48 <= b && b <= 57 {
            b - 48
        } else if 97 <= b && b <= 102 {
            b - 87
        } else if 65 <= b && b <= 70 {
            b - 55
        } else {
            assert(!is_hex_digit(digits[k]));
            return None;
        };
        assert(d == hex_digit_value(b));
        assert forall|j: int| 0 <= j < k + 1 implies is_hex_digit(
            #[trigger] digits.take(k + 1)[j],
        ) by {
            if j < k {
                assert(digits.take(k + 1)[j] == digits.take(k)[j]);
            }
        }
        if fits {
            acc = acc * 16 + d as u64;
            if acc > 0xffff_ffff {
                fits = false;
            }
        }
        i += 1;
    }
    assert(digits.take(i - begin) =~= digits);
    if fits {
        Some(acc as u32)
    } else {
        None
    }
}

/// A colour in text, as in `#RRGGBB`: one leading marker, which is a single
/// byte and is skipped, then a hexadecimal number whose three low bytes are
/// red, green and blue. Text without the marker is of no valid format; text
/// whose rest is no such number holds no valid number.
pub open spec fn parse_color_spec(s: Seq<u8>) -> Result<PixelColor, ParseError> {
    if s.len() == 0 || s[0] >= 128 {
        Err(ParseError::InvalidFormat)
    } else {
        match parse_hex_u32_spec(s.subrange(1, s.len() as int)) {
            Some(v) => Ok(
                PixelColor {
                    r: ((v / 65536) % 256) as u8,
                    g: ((v / 256) % 256) as u8,
                    b: (v % 256) as u8,
                },
            ),
            None => Err(ParseError::InvalidNumber),
        }
    }
}

impl PixelColor {
    /// Reads a colour written as `#RRGGBB`: a marker, then red, green and
    /// blue in hexadecimal.
    pub fn from_str(s: &str) -> (r: Result<PixelColor, ParseError>)
        ensures
            r == parse_color_spec(s.spec_bytes()),
    {
        let bytes: &[u8] = s.as_bytes();
        if bytes.len() == 0 || bytes[0] >= 128 {
            return Err(ParseError::InvalidFormat);
        }
        match parse_hex_u32(bytes, 1, bytes.len()) {
            Some(v) => Ok(
                PixelColor {
                    r: ((v / 65536) % 256) as u8,
                    g: ((v / 256) % 256) as u8,
                    b: (v % 256) as u8,
                },
            ),
            None => Err(ParseError::InvalidNumber),
        }
    }
}

/// The pieces of `s` between occurrences of `sep`, in order. There is always
/// at least one piece, and a piece may be empty.
pub open spec fn split(s: Seq<u8>, sep: u8) -> Seq<Seq<u8>>
    decreases s.len(),
{
    if s.len() == 0 {
        seq![Seq::empty()]
    } else {
        let head = split(s.drop_last(), sep);
        if s.last() == sep {
            head.push(Seq::empty())
        } else {
            head.update(head.len() - 1, head.last().push(s.last()))
        }
    }
}

pub proof fn lemma_split_nonempty(s: Seq<u8>, sep: u8)
    ensures
        split(s, sep).len() >= 1,
    decreases s.len(),
{
    if s.len() > 0 {
        lemma_split_nonempty(s.drop_last(), sep);
    }
}

/// Whether `fields` marks, as index pairs into `bytes`, the pieces of
/// `bytes[start..end]` between occurrences of `sep`.
pub open spec fn fields_of(
    fields: Seq<(usize, usize)>,
    bytes: Seq<u8>,
    start: int,
    end: int,
    sep: u8,
) -> bool {
    let pieces = split(bytes.subrange(start, end), sep);
    &&& fields.len() == pieces.len()
    &&& forall|k: int|
        0 <= k < fields.len() ==> {
            &&& start <= (#[trigger] fields[k]).0 <= fields[k].1 <= end
            &&& bytes.subrange(fields[k].0 as int, fields[k].1 as int) == pieces[k]
        }
}

/// Cuts `bytes[start..end]` at every `sep`.
fn split_fields(bytes: &[u8], start: usize, end: usize, sep: u8) -> (fields: Vec<
    (usize, usize),
>)
    requires
        start <= end <= bytes.len(),
    ensures
        fields_of(fields@, bytes@, start as int, end as int, sep),
{
    let ghost s = bytes@.subrange(start as int, end as int);
    let mut fields: Vec<(usize, usize)> = Vec::new();
    let mut from: usize = start;
    let mut i: usize = start;
    assert(s.take(0) =~= Seq::<u8>::empty());
    assert(bytes@.subrange(start as int, start as int) =~= Seq::<u8>::empty());
    while i < end
        invariant
            start <= from <= i <= end <= bytes.len(),
            s == bytes@.subrange(start as int, end as int),
            split(s.take(i - start), sep).len() == fields.len() + 1,
            split(s.take(i - start), sep).last() == bytes@.subrange(from as int, i as int),
            forall|k: int|
                0 <= k < fields.len() ==> {
                    &&& start <= (#[trigger] fields[k]).0 <= fields[k].1 <= end
                    &&& bytes@.subrange(fields[k].0 as int, fields[k].1 as int) == split(
                        s.take(i - start),
                        sep,
                    )[k]
                },
        decreases end - i,
    {
        let b: u8 = bytes[i];
        let ghost k = i - start;
        let ghost before = split(s.take(k), sep);
        assert(s.take(k + 1).drop_last() =~= s.take(k));
        assert(s.take(k + 1).last() == b);
        if b == sep {
            fields.push((from, i));
            from = i + 1;
            assert(bytes@.subrange(from as int, i + 1) =~= Seq::<u8>::empty());
        } else {
            assert(bytes@.subrange(from as int, i + 1) =~= before.last().push(b));
        }
        i += 1;
    }
    assert(s.take(i - start) =~= s);
    fields.push((from, end));
    fields
}

/// Where the first `": "` of `s` at or after `from` begins, or the length of
/// `s` if there is none.
pub open spec fn first_separator(s: Seq<u8>, from: int) -> int
    decreases s.len() - from,
{
    if from < 0 || from + 1 >= s.len() {
        s.len() as int
    } else if s[from] == 58 && s[from + 1] == 32 {
        from
    } else {
        first_separator(s, from + 1)
    }
}

/// Finds the first `": "` within `bytes[start..end]`; `end` if there is none.
fn find_separator(bytes: &[u8], start: usize, end: usize) -> (at: usize)
    requires
        start <= end <= bytes.len(),
    ensures
        start <= at <= end,
        at - start == first_separator(bytes@.subrange(start as int, end as int), 0),
        at < end ==> at + 2 <= end,
{
    let ghost s = bytes@.subrange(start as int, end as int);
    let mut i: usize = start;
    while end - i >= 2
        invariant
            start <= i <= end <= bytes.len(),
            s == bytes@.subrange(start as int, end as int),
            first_separator(s, 0) == first_separator(s, i - start),
        decreases end - i,
    {
        assert(s[i - start] == bytes[i as int]);
        assert(s[i - start + 1] == bytes[i + 1]);
        if bytes[i] == 58 && bytes[i + 1] == 32 {
            return i;
        }
        i += 1;
    }
    end
}

/// The text of a `name: value` field after its first `": "`.
pub open spec fn field_text(part: Seq<u8>) -> Option<Seq<u8>> {
    let at = first_separator(part, 0);
    if at == part.len() {
        None
    } else {
        Some(part.subrange(at + 2, part.len() as int))
    }
}

/// The text of a `name: value` field between its first `": "` and its second,
/// or the end where there is no second.
pub open spec fn bounded_field_text(part: Seq<u8>) -> Option<Seq<u8>> {
    match field_text(part) {
        Some(text) => Some(text.subrange(0, first_separator(text, 0))),
        None => None,
    }
}

/// The braced form `{X: x, Y: y, R: r}`: the text between the braces is cut at
/// commas; the first two pieces give the centre and the third the radius.
pub open spec fn parse_circle_spec(s: Seq<u8>) -> Result<Coordinate, ParseError> {
    if s.len() < 2 || s.last() != 125 {
        Err(ParseError::InvalidFormat)
    } else {
        let parts = split(s.subrange(1, s.len() - 1), 44);
        match field_text(parts[0]) {
            None => Err(ParseError::InvalidFormat),
            Some(tx) => match parse_i16_spec(tx) {
                None => Err(ParseError::InvalidNumber),
                Some(x) => if parts.len() < 2 {
                    Err(ParseError::InvalidFormat)
                } else {
                    match field_text(parts[1]) {
                        None => Err(ParseError::InvalidFormat),
                        Some(ty) => match parse_i16_spec(ty) {
                            None => Err(ParseError::InvalidNumber),
                            Some(y) => if parts.len() < 3 {
                                Err(ParseError::InvalidFormat)
                            } else {
                                match bounded_field_text(parts[2]) {
                                    None => Err(ParseError::InvalidFormat),
                                    Some(tr) => match parse_i16_spec(tr) {
                                        None => Err(ParseError::InvalidNumber),
                                        Some(radius) => Ok(Coordinate::Circle { x, y, radius }),
                                    },
                                }
                            },
                        },
                    }
                },
            },
        }
    }
}

/// The plain forms `X,Y` and `X1,Y1,X2,Y2`.
pub open spec fn parse_plain_spec(s: Seq<u8>) -> Result<Coordinate, ParseError> {
    let parts = split(s, 44);
    if parts.len() == 2 {
        match (parse_i16_spec(parts[0]), parse_i16_spec(parts[1])) {
            (Some(x), Some(y)) => Ok(Coordinate::Simple { x, y }),
            _ => Err(ParseError::InvalidNumber),
        }
    } else if parts.len() == 4 {
        match (
            parse_i16_spec(parts[0]),
            parse_i16_spec(parts[1]),
            parse_i16_spec(parts[2]),
            parse_i16_spec(parts[3]),
        ) {
            (Some(x1), Some(y1), Some(x2), Some(y2)) => Ok(
                Coordinate::Rectangle { x1, y1, x2, y2 },
            ),
            _ => Err(ParseError::InvalidNumber),
        }
    } else {
        Err(ParseError::UnknownFormat)
    }
}

/// A coordinate in text: the braced form where the text begins with `{`, a
/// plain form otherwise.
pub open spec fn parse_coordinate_spec(s: Seq<u8>) -> Result<Coordinate, ParseError> {
    if s.len() > 0 && s[0] == 123 {
        parse_circle_spec(s)
    } else {
        parse_plain_spec(s)
    }
}

/// Reads the value of the `name: value` field `bytes[start..end]`.
fn parse_field(bytes: &[u8], start: usize, end: usize, bounded: bool) -> (r: Result<
    i16,
    ParseError,
>)
    requires
        start <= end <= bytes.len(),
    ensures
        r == match (if bounded {
            bounded_field_text(bytes@.subrange(start as int, end as int))
        } else {
            field_text(bytes@.subrange(start as int, end as int))
        }) {
            None => Err::<i16, ParseError>(ParseError::InvalidFormat),
            Some(text) => match parse_i16_spec(text) {
                None => Err(ParseError::InvalidNumber),
                Some(v) => Ok(v),
            },
        },
{
    let ghost part = bytes@.subrange(start as int, end as int);
    let at: usize = find_separator(bytes, start, end);
    if at == end {
        return Err(ParseError::InvalidFormat);
    }
    let from: usize = at + 2;
    let ghost text = bytes@.subrange(from as int, end as int);
    assert(text =~= part.subrange(at - start + 2, part.len() as int));
    let to: usize = if bounded {
        find_separator(bytes, from, end)
    } else {
        end
    };
    assert(bytes@.subrange(from as int, to as int) =~= text.subrange(0, to - from));
    assert(text.subrange(0, text.len() as int) =~= text);
    match parse_i16(bytes, from, to) {
        None => Err(ParseError::InvalidNumber),
        Some(v) => Ok(v),
    }
}

fn parse_circle(bytes: &[u8]) -> (r: Result<Coordinate, ParseError>)
    requires
        bytes.len() > 0,
        bytes[0] == 123,
    ensures
        r == parse_circle_spec(bytes@),
{
    let n: usize = bytes.len();
    if n < 2 || bytes[n - 1] != 125 {
        return Err(ParseError::InvalidFormat);
    }
    let fields = split_fields(bytes, 1, n - 1, 44);
    proof {
        lemma_split_nonempty(bytes@.subrange(1, n - 1), 44);
    }
    let x: i16 = match parse_field(bytes, fields[0].0, fields[0].1, false) {
        Ok(v) => v,
        Err(e) => {
            return Err(e);
        },
    };
    if fields.len() < 2 {
        return Err(ParseError::InvalidFormat);
    }
    let y: i16 = match parse_field(bytes, fields[1].0, fields[1].1, false) {
        Ok(v) => v,
        Err(e) => {
            return Err(e);
        },
    };
    if fields.len() < 3 {
        return Err(ParseError::InvalidFormat);
    }
    match parse_field(bytes, fields[2].0, fields[2].1, true) {
        Ok(radius) => Ok(Coordinate::Circle { x, y, radius }),
        Err(e) => Err(e),
    }
}

fn parse_plain(bytes: &[u8]) -> (r: Result<Coordinate, ParseError>)
    ensures
        r == parse_plain_spec(bytes@),
{
    let fields = split_fields(bytes, 0, bytes.len(), 44);
    assert(bytes@.subrange(0, bytes.len() as int) =~= bytes@);
    if fields.len() == 2 {
        let x = parse_i16(bytes, fields[0].0, fields[0].1);
        let y = parse_i16(bytes, fields[1].0, fields[1].1);
        match (x, y) {
            (Some(x), Some(y)) => Ok(Coordinate::Simple { x, y }),
            _ => Err(ParseError::InvalidNumber),
        }
    } else if fields.len() == 4 {
        let x1 = parse_i16(bytes, fields[0].0, fields[0].1);
        let y1 = parse_i16(bytes, fields[1].0, fields[1].1);
        let x2 = parse_i16(bytes, fields[2].0, fields[2].1);
        let y2 = parse_i16(bytes, fields[3].0, fields[3].1);
        match (x1, y1, x2, y2) {
            (Some(x1), Some(y1), Some(x2), Some(y2)) => Ok(
                Coordinate::Rectangle { x1, y1, x2, y2 },
            ),
            _ => Err(ParseError::InvalidNumber),
        }
    } else {
        Err(ParseError::UnknownFormat)
    }
}

impl Coordinate {
    /// Reads a coordinate written as `X,Y`, as `X1,Y1,X2,Y2` or as
    /// `{X: x, Y: y, R: r}`.
    pub fn from_str(s: &str) -> (r: Result<Coordinate, ParseError>)
        ensures
            r == parse_coordinate_spec(s.spec_bytes()),
    {
        let bytes: &[u8] = s.as_bytes();
        if bytes.len() > 0 && bytes[0] == 123 {
            parse_circle(bytes)
        } else {
            parse_plain(bytes)
        }
    }
}

impl std::str::FromStr for Coordinate {
    type Err = ParseError;

    /// As `Coordinate::from_str`, for `str::parse`.
    fn from_str(s: &str) -> (r: Result<Self, ParseError>)
        ensures
            r == parse_coordinate_spec(s.spec_bytes()),
    {
        Coordinate::from_str(s)
    }
}

impl std::str::FromStr for PixelColor {
    type Err = ParseError;

    /// As `PixelColor::from_str`, for `str::parse`.
    fn from_str(s: &str) -> (r: Result<Self, ParseError>)
        ensures
            r == parse_color_spec(s.spec_bytes()),
    {
        PixelColor::from_str(s)
    }
}

} // verus!
