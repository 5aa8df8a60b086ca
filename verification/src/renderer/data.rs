//! Events in the fixed layout in which a compute pass reads them.

use crate::data::{Coordinate, PixelColor, PixelData};
use crate::mapping::{texture_u, texture_v, to_texture};
use vstd::prelude::*;

verus! {

/// A shape as a tag and four lanes. The lanes hold texture coordinates as
/// signed 32-bit numbers in two's complement.
#[derive(Debug, Clone, Copy, PartialEq, Eq)]
pub struct GpuCoordinate {
    pub tag: u32,
    pub data: [u32; 4],
}

/// An event in that layout: its timestamp, its shape, and its colour as
/// three lanes.
#[derive(Debug, Clone, Copy, PartialEq, Eq)]
pub struct GpuPixelData {
    pub miliseconds_since_first_pixel: u32,
    pub coordinate: GpuCoordinate,
    pub color: [u32; 3],
}

/// The lane that holds the signed number `v`.
pub open spec fn lane(v: int) -> u32 {
    if v >= 0 {
        v as u32
    } else {
        (v + 0x1_0000_0000) as u32
    }
}

/// The signed number that a lane holds.
pub open spec fn lane_value(lane: u32) -> int {
    if lane < 0x8000_0000 {
        lane as int
    } else {
        lane - 0x1_0000_0000
    }
}

/// The lane that holds `v`.
fn to_lane(v: i32) -> (r: u32)
    ensures
        r == lane(v as int),
        lane_value(r) == v,
{
    if v >= 0 {
        v as u32
    } else {
        (v as i64 + 0x1_0000_0000) as u32
    }
}

/// A shape in the layout of a compute pass: its points mapped to texture
/// space, in the order in which the shape names them.
pub open spec fn gpu_coordinate(value: Coordinate) -> GpuCoordinate {
    match value {
        Coordinate::Simple { x, y } => GpuCoordinate {
            tag: 0,
            data: [lane(texture_u(x as int)), lane(texture_v(y as int)), 0, 0],
        },
        Coordinate::Rectangle { x1, y1, x2, y2 } => GpuCoordinate {
            tag: 1,
            data: [
                lane(texture_u(x1 as int)),
                lane(texture_v(y1 as int)),
                lane(texture_u(x2 as int)),
                lane(texture_v(y2 as int)),
            ],
        },
        Coordinate::Circle { x, y, radius } => GpuCoordinate {
            tag: 2,
            data: [lane(texture_u(x as int)), lane(texture_v(y as int)), lane(radius as int), 0],
        },
    }
}

impl vstd::std_specs::convert::FromSpecImpl<Coordinate> for GpuCoordinate {
    open spec fn obeys_from_spec() -> bool {
        true
    }

    open spec fn from_spec(value: Coordinate) -> Self {
        gpu_coordinate(value)
    }
}

impl From<Coordinate> for GpuCoordinate {
    /// Maps the points of a shape to texture space and lays the shape out.
    fn from(value: Coordinate) -> (r: Self) {
        match value {
            Coordinate::Simple { x, y } => {
                let (u, v) = to_texture(x, y);
                GpuCoordinate { tag: 0, data: [to_lane(u), to_lane(v), 0, 0] }
            },
            Coordinate::Rectangle { x1, y1, x2, y2 } => {
                let (u1, v1) = to_texture(x1, y1);
                let (u2, v2) = to_texture(x2, y2);
                GpuCoordinate {
                    tag: 1,
                    data: [to_lane(u1), to_lane(v1), to_lane(u2), to_lane(v2)],
                }
            },
            Coordinate::Circle { x, y, radius } => {
                let (u, v) = to_texture(x, y);
                GpuCoordinate { tag: 2, data: [to_lane(u), to_lane(v), to_lane(radius as i32), 0] }
            },
        }
    }
}

/// The number that a lane holds, read back as signed.
pub fn from_lane(lane: u32) -> (v: i32)
    ensures
        v == lane_value(lane),
{
    if lane < 0x8000_0000 {
        lane as i32
    } else {
        (lane as i64 - 0x1_0000_0000) as i32
    }
}

/// A colour as three lanes: red, green, blue.
pub open spec fn color_lanes(value: PixelColor) -> [u32; 3] {
    [value.r as u32, value.g as u32, value.b as u32]
}

impl vstd::std_specs::convert::FromSpecImpl<PixelColor> for [u32; 3] {
    open spec fn obeys_from_spec() -> bool {
        true
    }

    open spec fn from_spec(value: PixelColor) -> Self {
        color_lanes(value)
    }
}

impl From<PixelColor> for [u32; 3] {
    /// Widens the three channels of a colour.
    fn from(value: PixelColor) -> (r: Self) {
        [value.r as u32, value.g as u32, value.b as u32]
    }
}

/// An event in the layout of a compute pass.
pub open spec fn gpu_pixel_data(pixel_data: PixelData) -> GpuPixelData {
    GpuPixelData {
        miliseconds_since_first_pixel: pixel_data.miliseconds_since_first_pixel,
        coordinate: gpu_coordinate(pixel_data.coordinate),
        color: color_lanes(pixel_data.pixel_color),
    }
}

impl vstd::std_specs::convert::FromSpecImpl<PixelData> for GpuPixelData {
    open spec fn obeys_from_spec() -> bool {
        true
    }

    open spec fn from_spec(pixel_data: PixelData) -> Self {
        gpu_pixel_data(pixel_data)
    }
}

impl From<PixelData> for GpuPixelData {
    /// Lays an event out for a compute pass.
    fn from(pixel_data: PixelData) -> (r: Self) {
        GpuPixelData {
            miliseconds_since_first_pixel: pixel_data.miliseconds_since_first_pixel,
            coordinate: GpuCoordinate::from(pixel_data.coordinate),
            color: <[u32; 3]>::from(pixel_data.pixel_color),
        }
    }
}

/// An event as the words of the staging buffer: every member begins a slot
/// of four words. The timestamp is in the first slot, the tag in the second,
/// the lanes of the shape fill the third, and the colour is in the fourth.
/// The words that hold nothing are zero.
pub open spec fn event_words(event: GpuPixelData) -> Seq<u32> {
    seq![
        event.miliseconds_since_first_pixel,
        0,
        0,
        0,
        event.coordinate.tag,
        0,
        0,
        0,
        event.coordinate.data[0],
        event.coordinate.data[1],
        event.coordinate.data[2],
        event.coordinate.data[3],
        event.color[0],
        event.color[1],
        event.color[2],
        0,
    ]
}

impl GpuPixelData {
    /// Lays the event out for the staging buffer.
    pub fn to_words(&self) -> (words: [u32; 16])
        ensures
            words@ == event_words(*self),
    {
        let words = [
            self.miliseconds_since_first_pixel,
            0,
            0,
            0,
            self.coordinate.tag,
            0,
            0,
            0,
            self.coordinate.data[0],
            self.coordinate.data[1],
            self.coordinate.data[2],
            self.coordinate.data[3],
            self.color[0],
            self.color[1],
            self.color[2],
            0,
        ];
        assert(words@ =~= event_words(*self));
        words
    }
}

} // verus!
