//! Replay of a time-ordered log of canvas paint events onto a fixed raster.
//!
//! The log is a compressed stream of events in a compact binary form. The
//! events are paced against the clock, cut into batches that fit a compute
//! dispatch, and applied to a canvas on which, texel by texel, the latest
//! event wins.

pub mod codec;
pub mod data;
pub mod mapping;
pub mod parse;
pub mod renderer;

use crate::codec::{decode_stream, CodecError};
use crate::data::{Coordinate, PixelData};
use crate::mapping::{affects, convert, on_canvas, texture_u, texture_v};
use crate::mapping::{CANVAS_HEIGHT, CANVAS_WIDTH};
use crate::parse::{gunzip_bytes, GzippedBinPixelDataReader, ReadError};
use crate::renderer::data::{GpuCoordinate, GpuPixelData};
use crate::renderer::update_texture::{blank, gpu_batch, lemma_gpu_covers, texel_after};
use crate::renderer::update_texture::{Rgba, Texel, UpdateTexturePipeline};
use crate::renderer::{replay_error, replayed, App, Playback};
use vstd::prelude::*;

verus! {

/// How many milliseconds of the log pass in one millisecond on the clock.
pub const PLAYBACK_SPEED: u32 = 10000;

/// What a log holds as playback finds it at the start.
pub open spec fn playback_of(raw: Seq<u8>) -> Playback {
    Playback {
        buffer: Seq::empty(),
        upcoming: decode_stream(raw).0,
        ending: decode_stream(raw).1,
    }
}

/// Plays a compressed log, through the given redraws, onto a blank canvas.
/// `redraws` holds, for each redraw, the milliseconds on the clock since
/// playback began. Gives the viewer with the canvas as the last redraw left
/// it, and the error of the log if a redraw reached its bad end.
pub fn run(file: &[u8], redraws: &Vec<u128>) -> (r: Result<(App, Option<CodecError>), ReadError>)
    ensures
        match r {
            Err(e) => e == ReadError::Io && gunzip_bytes(file@) is None,
            Ok((app, error)) => gunzip_bytes(file@) matches Some(raw) && {
                &&& app.canvas().width() == CANVAS_WIDTH
                &&& app.canvas().height() == CANVAS_HEIGHT
                &&& forall|i: int, j: int|
                    app.canvas().inside(i, j) ==> #[trigger] app.canvas().texel(i, j)
                        == texel_after(
                        blank(),
                        gpu_batch(replayed(playback_of(raw), PLAYBACK_SPEED, redraws@)),
                        i,
                        j,
                    )
                &&& error == replay_error(playback_of(raw), PLAYBACK_SPEED, redraws@)
            },
        },
{
    let reader = match GzippedBinPixelDataReader::new(file) {
        Ok(reader) => reader,
        Err(e) => {
            return Err(e);
        },
    };
    let mut app = App::new();
    let error = app.run(reader, PLAYBACK_SPEED, redraws);
    proof {
        if redraws.len() == 0 {
            assert(gpu_batch(Seq::<PixelData>::empty()) =~= Seq::<GpuPixelData>::empty());
        }
    }
    Ok((app, error))
}

/// The smallest and the largest column and row among the points of a log:
/// the two smallest, then the two largest. A log without points gives the
/// largest number as the smallest and the smallest as the largest.
pub open spec fn extent(events: Seq<PixelData>) -> ((i16, i16), (i16, i16))
    decreases events.len(),
{
    if events.len() == 0 {
        ((i16::MAX, i16::MAX), (i16::MIN, i16::MIN))
    } else {
        let (min, max) = extent(events.drop_last());
        match events.last().coordinate {
            Coordinate::Simple { x, y } => (
                (if x < min.0 {
                    x
                } else {
                    min.0
                }, if y < min.1 {
                    y
                } else {
                    min.1
                }),
                (if x > max.0 {
                    x
                } else {
                    max.0
                }, if y > max.1 {
                    y
                } else {
                    max.1
                }),
            ),
            _ => (min, max),
        }
    }
}

/// Whether `events[k]` is a point.
pub open spec fn is_point(events: Seq<PixelData>, k: int) -> bool {
    0 <= k < events.len() && events[k].coordinate is Simple
}

/// Every point of a log lies within its extent.
pub proof fn extent_holds_every_point(events: Seq<PixelData>, k: int)
    requires
        is_point(events, k),
    ensures
        extent(events).0.0 <= events[k].coordinate->Simple_x <= extent(events).1.0,
        extent(events).0.1 <= events[k].coordinate->Simple_y <= extent(events).1.1,
    decreases events.len(),
{
    if k < events.len() - 1 {
        assert(events.drop_last()[k] == events[k]);
        extent_holds_every_point(events.drop_last(), k);
    }
}

/// In a log with a point, each of the four numbers of the extent is the
/// column or the row of one of the points.
pub proof fn extent_is_reached(events: Seq<PixelData>, k: int)
    requires
        is_point(events, k),
    ensures
        exists|a: int| #[trigger]
            is_point(events, a) && events[a].coordinate->Simple_x == extent(events).0.0,
        exists|a: int| #[trigger]
            is_point(events, a) && events[a].coordinate->Simple_y == extent(events).0.1,
        exists|a: int| #[trigger]
            is_point(events, a) && events[a].coordinate->Simple_x == extent(events).1.0,
        exists|a: int| #[trigger]
            is_point(events, a) && events[a].coordinate->Simple_y == extent(events).1.1,
    decreases events.len(),
{
    let n = events.len() - 1;
    let head = events.drop_last();
    assert forall|a: int| is_point(head, a) implies is_point(events, a) && head[a]
        == events[a] by {}
    assert(events.last() == events[n]);
    if exists|a: int| is_point(head, a) {
        let a0 = choose|a: int| is_point(head, a);
        extent_is_reached(head, a0);
        let a1 = choose|a: int| #[trigger]
            is_point(head, a) && head[a].coordinate->Simple_x == extent(head).0.0;
        let a2 = choose|a: int| #[trigger]
            is_point(head, a) && head[a].coordinate->Simple_y == extent(head).0.1;
        let a3 = choose|a: int| #[trigger]
            is_point(head, a) && head[a].coordinate->Simple_x == extent(head).1.0;
        let a4 = choose|a: int| #[trigger]
            is_point(head, a) && head[a].coordinate->Simple_y == extent(head).1.1;
        assert(is_point(events, a1) && is_point(events, a2) && is_point(events, a3) && is_point(
            events,
            a4,
        ));
        if is_point(events, n) {
            assert(is_point(events, n));
        }
    } else {
        assert(k == n);
        assert(is_point(events, n));
        assert forall|a: int| 0 <= a < head.len() implies !(head[a].coordinate is Simple) by {
            assert(!is_point(head, a));
        }
        lemma_extent_without_points(head);
    }
}

/// A log without points has the empty extent.
pub proof fn lemma_extent_without_points(events: Seq<PixelData>)
    requires
        forall|a: int| 0 <= a < events.len() ==> !((#[trigger] events[a]).coordinate is Simple),
    ensures
        extent(events) == ((i16::MAX, i16::MAX), (i16::MIN, i16::MIN)),
    decreases events.len(),
{
    if events.len() > 0 {
        assert forall|a: int| 0 <= a < events.drop_last().len() implies !((
        #[trigger] events.drop_last()[a]).coordinate is Simple) by {
            assert(events.drop_last()[a] == events[a]);
        }
        lemma_extent_without_points(events.drop_last());
        assert(events.last() == events[events.len() - 1]);
    }
}

/// Finds the smallest and the largest coordinates among the points of a log.
pub fn get_max_min_coord(events: &Vec<PixelData>) -> (r: ((i16, i16), (i16, i16)))
    ensures
        r == extent(events@),
{
    let mut min: (i16, i16) = (i16::MAX, i16::MAX);
    let mut max: (i16, i16) = (i16::MIN, i16::MIN);
    let mut k: usize = 0;
    assert(events@.take(0) =~= Seq::<PixelData>::empty());
    while k < events.len()
        invariant
            k <= events.len(),
            (min, max) == extent(events@.take(k as int)),
        decreases events.len() - k,
    {
        assert(events@.take(k + 1).drop_last() =~= events@.take(k as int));
        assert(events@.take(k + 1).last() == events[k as int]);
        if let Coordinate::Simple { x, y } = events[k].coordinate {
            if x < min.0 {
                min.0 = x;
            }
            if y < min.1 {
                min.1 = y;
            }
            if x > max.0 {
                max.0 = x;
            }
            if y > max.1 {
                max.1 = y;
            }
        }
        k += 1;
    }
    assert(events@.take(k as int) =~= events@);
    (min, max)
}

/// Whether the count of written texels takes a shape into account: a point
/// always, a disc if its centre is on the canvas, a rectangle if both its
/// corners are.
pub open spec fn counted(c: Coordinate) -> bool {
    match c {
        Coordinate::Simple { .. } => true,
        Coordinate::Circle { x, y, .. } => on_canvas(texture_u(x as int), texture_v(y as int)),
        Coordinate::Rectangle { x1, y1, x2, y2 } => on_canvas(
            texture_u(x1 as int),
            texture_v(y1 as int),
        ) && on_canvas(texture_u(x2 as int), texture_v(y2 as int)),
    }
}

/// Whether one of the events counts and paints the texel `(i, j)`.
pub open spec fn marked(events: Seq<PixelData>, i: int, j: int) -> bool
    decreases events.len(),
{
    events.len() > 0 && (marked(events.drop_last(), i, j) || (counted(events.last().coordinate)
        && affects(events.last().coordinate, i, j)))
}

/// How many of the first `texels` texels of the canvas, taken row by row, no
/// event has marked.
pub open spec fn never_updated(events: Seq<PixelData>, texels: nat) -> nat
    decreases texels,
{
    if texels == 0 {
        0
    } else {
        let at = (texels - 1) as int;
        never_updated(events, (texels - 1) as nat) + (if marked(
            events,
            at % (CANVAS_WIDTH as int),
            at / (CANVAS_WIDTH as int),
        ) {
            0nat
        } else {
            1nat
        })
    }
}

fn is_counted(c: &Coordinate) -> (r: bool)
    ensures
        r == counted(*c),
{
    match *c {
        Coordinate::Simple { .. } => true,
        Coordinate::Circle { x, y, .. } => convert(x, y).is_some(),
        Coordinate::Rectangle { x1, y1, x2, y2 } => convert(x1, y1).is_some() && convert(
            x2,
            y2,
        ).is_some(),
    }
}

/// Counts the texels of the canvas that no event of a log has painted.
pub fn find_never_updated_pixels(events: &Vec<PixelData>) -> (count: usize)
    ensures
        count == never_updated(events@, (CANVAS_WIDTH * CANVAS_HEIGHT) as nat),
{
    let mut canvas = UpdateTexturePipeline::new((CANVAS_WIDTH, CANVAS_HEIGHT));
    let ghost black = Texel { color: Rgba { r: 0, g: 0, b: 0, a: 255 }, stamp: 0 };
    let mut k: usize = 0;
    assert(events@.take(0) =~= Seq::<PixelData>::empty());
    while k < events.len()
        invariant
            k <= events.len(),
            canvas.width() == CANVAS_WIDTH,
            canvas.height() == CANVAS_HEIGHT,
            black == (Texel { color: Rgba { r: 0, g: 0, b: 0, a: 255 }, stamp: 0 }),
            forall|i: int, j: int|
                canvas.inside(i, j) ==> #[trigger] canvas.texel(i, j) == (if marked(
                    events@.take(k as int),
                    i,
                    j,
                ) {
                    black
                } else {
                    blank()
                }),
        decreases events.len() - k,
    {
        let c = events[k].coordinate;
        assert(events@.take(k + 1).drop_last() =~= events@.take(k as int));
        assert(events@.take(k + 1).last() == events[k as int]);
        if is_counted(&c) {
            let mark = GpuPixelData {
                miliseconds_since_first_pixel: 0,
                coordinate: GpuCoordinate::from(c),
                color: [0, 0, 0],
            };
            let ghost before = canvas;
            canvas.apply(&mark);
            assert forall|i: int, j: int| canvas.inside(i, j) implies #[trigger] canvas.texel(
                i,
                j,
            ) == (if marked(events@.take(k + 1), i, j) {
                black
            } else {
                blank()
            }) by {
                lemma_gpu_covers(c, i, j);
                assert(before.inside(i, j));
            }
        }
        k += 1;
    }
    assert(events@.take(k as int) =~= events@);
    let mut count: usize = 0;
    let mut at: usize = 0;
    while at < 6000000
        invariant
            at <= 6000000,
            count <= at,
            canvas.width() == CANVAS_WIDTH,
            canvas.height() == CANVAS_HEIGHT,
            count == never_updated(events@, at as nat),
            forall|i: int, j: int|
                canvas.inside(i, j) ==> #[trigger] canvas.texel(i, j) == (if marked(
                    events@,
                    i,
                    j,
                ) {
                    black
                } else {
                    blank()
                }),
            black == (Texel { color: Rgba { r: 0, g: 0, b: 0, a: 255 }, stamp: 0 }),
        decreases 6000000 - at,
    {
        let i: u32 = (at % 3000) as u32;
        let j: u32 = (at / 3000) as u32;
        let color = canvas.pixel(i, j);
        assert(canvas.texel(i as int, j as int).color == color);
        if color.r == 255 {
            count += 1;
        }
        at += 1;
    }
    count
}

/// Whether a shape is a large one: a disc of a radius above 10, or a
/// rectangle that is more than 10 wide and more than 10 high.
pub open spec fn is_large(c: Coordinate) -> bool {
    match c {
        Coordinate::Simple { .. } => false,
        Coordinate::Circle { radius, .. } => radius > 10,
        Coordinate::Rectangle { x1, y1, x2, y2 } => x2 - x1 > 10 && y2 - y1 > 10,
    }
}

/// The large shapes of a log, in its order.
pub open spec fn large_shapes(events: Seq<PixelData>) -> Seq<Coordinate>
    decreases events.len(),
{
    if events.len() == 0 {
        Seq::empty()
    } else if is_large(events.last().coordinate) {
        large_shapes(events.drop_last()).push(events.last().coordinate)
    } else {
        large_shapes(events.drop_last())
    }
}

/// Lists the large discs and rectangles of a log.
pub fn quad_circle(events: &Vec<PixelData>) -> (shapes: Vec<Coordinate>)
    ensures
        shapes@ == large_shapes(events@),
{
    let mut shapes: Vec<Coordinate> = Vec::new();
    let mut k: usize = 0;
    assert(events@.take(0) =~= Seq::<PixelData>::empty());
    while k < events.len()
        invariant
            k <= events.len(),
            shapes@ == large_shapes(events@.take(k as int)),
        decreases events.len() - k,
    {
        assert(events@.take(k + 1).drop_last() =~= events@.take(k as int));
        assert(events@.take(k + 1).last() == events[k as int]);
        let c = events[k].coordinate;
        let large: bool = match c {
            Coordinate::Simple { .. } => false,
            Coordinate::Circle { radius, .. } => radius > 10,
            Coordinate::Rectangle { x1, y1, x2, y2 } => x2 as i32 - x1 as i32 > 10 && y2 as i32
                - y1 as i32 > 10,
        };
        if large {
            shapes.push(c);
        }
        k += 1;
    }
    assert(events@.take(k as int) =~= events@);
    shapes
}

} // verus!
