use place_replay::codec::{encode_events, CodecError};
use place_replay::data::{Coordinate, ParseError, PixelColor, PixelData};
use std::io::Write;

use place_replay::parse::{
    normalize_timestamp, parse_bin, pixel_data_from_fields, write_to_bin, CsvError, CsvRecord,
    GzippedBinPixelDataReader, ReadError, FIRST_PIXEL_MILLIS,
};

fn point(t: u32, x: i16, y: i16) -> PixelData {
    PixelData {
        miliseconds_since_first_pixel: t,
        coordinate: Coordinate::Simple { x, y },
        pixel_color: PixelColor { r: 1, g: 2, b: 3 },
    }
}

fn row(timestamp: &str, coordinate: &str, pixel_color: &str) -> CsvRecord {
    CsvRecord {
        timestamp: timestamp.to_string(),
        user: "someone".to_string(),
        coordinate: coordinate.to_string(),
        pixel_color: pixel_color.to_string(),
    }
}

#[test]
fn written_log_is_gzip_and_reads_back() {
    let events: Vec<PixelData> = (0..5000u32)
        .map(|k| point(k, (k % 3000) as i16 - 1500, 7))
        .collect();
    let file = write_to_bin(&events);
    assert_eq!(&file[..3], &[0x1f, 0x8b, 8]);
    assert!(file.len() < encode_events(&events).len());
    assert_eq!(parse_bin(&file), Ok(events));
}

#[test]
fn empty_log_reads_back_empty() {
    let file = write_to_bin(&Vec::new());
    assert_eq!(parse_bin(&file), Ok(Vec::new()));
}

#[test]
fn bytes_that_are_no_gzip_are_an_io_error() {
    let raw = encode_events(&vec![point(1, 2, 3)]);
    assert_eq!(parse_bin(&raw), Err(ReadError::Io));
    assert_eq!(parse_bin(&[]), Err(ReadError::Io));
    assert!(matches!(GzippedBinPixelDataReader::new(&raw), Err(ReadError::Io)));
    let mut cut = write_to_bin(&vec![point(1, 2, 3)]);
    cut.truncate(cut.len() - 6);
    assert_eq!(parse_bin(&cut), Err(ReadError::Io));
}

#[test]
fn bad_events_inside_are_a_codec_error() {
    let mut events = Vec::new();
    events.push(point(1, 2, 3));
    let mut raw = encode_events(&events);
    raw.push(0);
    raw.push(9);
    let mut encoder = flate2::write::GzEncoder::new(Vec::new(), flate2::Compression::default());
    encoder.write_all(&raw).unwrap();
    let file = encoder.finish().unwrap();
    assert_eq!(
        parse_bin(&file),
        Err(ReadError::Codec(CodecError::UnknownShape { tag: 9 }))
    );
}

#[test]
fn reader_yields_events_in_order_then_none() {
    let events: Vec<PixelData> = (0..300u32).map(|k| point(k * 3, k as i16, -(k as i16))).collect();
    let file = write_to_bin(&events);
    let mut reader = GzippedBinPixelDataReader::new(&file).unwrap();
    for e in events.iter() {
        assert_eq!(reader.next(), Some(Ok(*e)));
    }
    assert_eq!(reader.next(), None);
    assert_eq!(reader.next(), None);
}

#[test]
fn reader_yields_error_once_then_none() {
    let mut raw = encode_events(&vec![point(1, 2, 3), point(4, 5, 6)]);
    raw.extend_from_slice(&[1, 0]);
    let mut reader = GzippedBinPixelDataReader::from_bytes(raw);
    assert_eq!(reader.next(), Some(Ok(point(1, 2, 3))));
    assert_eq!(reader.next(), Some(Ok(point(4, 5, 6))));
    assert_eq!(reader.next(), Some(Err(CodecError::Truncated)));
    assert_eq!(reader.next(), None);
    assert_eq!(reader.next(), None);
}

#[test]
fn timestamp_is_normalized_at_its_end_only() {
    assert_eq!(
        normalize_timestamp("2023-07-20 13:00:26.088 UTC"),
        "2023-07-20 13:00:26.088Z"
    );
    assert_eq!(normalize_timestamp("2023-07-20T13:00:26Z"), "2023-07-20T13:00:26Z");
    assert_eq!(normalize_timestamp(" UTC"), "Z");
    assert_eq!(normalize_timestamp("a UTC b"), "a UTC b");
    assert_eq!(normalize_timestamp(""), "");
}

#[test]
fn first_row_is_the_anchor() {
    let record = row("2023-07-20 13:00:26.088 UTC", "-199,-235", "#FFFFFF");
    assert_eq!(
        record.to_pixel_data(FIRST_PIXEL_MILLIS),
        Ok(PixelData {
            miliseconds_since_first_pixel: 0,
            coordinate: Coordinate::Simple { x: -199, y: -235 },
            pixel_color: PixelColor {
                r: 255,
                g: 255,
                b: 255
            },
        })
    );
}

#[test]
fn row_times_are_relative_to_the_anchor() {
    let record = row("2023-07-20 13:00:27.100 UTC", "1,2,3,4", "#FF4500");
    assert_eq!(
        record.to_pixel_data(FIRST_PIXEL_MILLIS),
        Ok(PixelData {
            miliseconds_since_first_pixel: 1012,
            coordinate: Coordinate::Rectangle {
                x1: 1,
                y1: 2,
                x2: 3,
                y2: 4
            },
            pixel_color: PixelColor { r: 255, g: 69, b: 0 },
        })
    );
    // An offset is taken into account: 15:00:26.088 at +02:00 is the anchor.
    let record = row("2023-07-20T15:00:26.088+02:00", "{X: 1, Y: 2, R: 5}", "#000000");
    assert_eq!(
        record.to_pixel_data(FIRST_PIXEL_MILLIS).map(|e| e.miliseconds_since_first_pixel),
        Ok(0)
    );
    let record = row("2023-07-25 21:38:35.937 UTC", "0,0", "#000000");
    assert_eq!(
        record.to_pixel_data(FIRST_PIXEL_MILLIS).map(|e| e.miliseconds_since_first_pixel),
        Ok(463_089_849)
    );
}

#[test]
fn row_errors() {
    assert_eq!(
        row("yesterday", "1,2", "#000000").to_pixel_data(FIRST_PIXEL_MILLIS),
        Err(CsvError::InvalidTimestamp)
    );
    assert_eq!(
        row("2023-07-20 13:00:26.087 UTC", "1,2", "#000000").to_pixel_data(FIRST_PIXEL_MILLIS),
        Err(CsvError::TimestampOutOfRange)
    );
    assert_eq!(
        row("2024-07-20 13:00:26.088 UTC", "1,2", "#000000").to_pixel_data(FIRST_PIXEL_MILLIS),
        Err(CsvError::TimestampOutOfRange)
    );
    assert_eq!(
        row("2023-07-20 13:00:26.088 UTC", "1;2", "#000000").to_pixel_data(FIRST_PIXEL_MILLIS),
        Err(CsvError::InvalidCoordinate(ParseError::UnknownFormat))
    );
    assert_eq!(
        row("2023-07-20 13:00:26.088 UTC", "1,2", "black").to_pixel_data(FIRST_PIXEL_MILLIS),
        Err(CsvError::InvalidColor(ParseError::InvalidNumber))
    );
    // The timestamp is looked at first, then the coordinate, then the colour.
    assert_eq!(
        row("never", "x", "y").to_pixel_data(FIRST_PIXEL_MILLIS),
        Err(CsvError::InvalidTimestamp)
    );
    assert_eq!(
        row("2023-07-20 13:00:26.088 UTC", "x", "").to_pixel_data(FIRST_PIXEL_MILLIS),
        Err(CsvError::InvalidCoordinate(ParseError::UnknownFormat))
    );
}

#[test]
fn event_from_fields() {
    assert_eq!(
        pixel_data_from_fields(Some(1500), 1000, "3,4", "#010203"),
        Ok(point(500, 3, 4))
    );
    assert_eq!(
        pixel_data_from_fields(Some(i64::MIN), i64::MAX, "3,4", "#010203"),
        Err(CsvError::TimestampOutOfRange)
    );
    assert_eq!(
        pixel_data_from_fields(Some(4_294_967_295), 0, "3,4", "#010203"),
        Ok(point(u32::MAX, 3, 4))
    );
    assert_eq!(
        pixel_data_from_fields(Some(4_294_967_296), 0, "3,4", "#010203"),
        Err(CsvError::TimestampOutOfRange)
    );
    assert_eq!(
        pixel_data_from_fields(None, 0, "3,4", "#010203"),
        Err(CsvError::InvalidTimestamp)
    );
}
