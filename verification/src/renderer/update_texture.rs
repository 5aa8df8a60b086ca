//! The pass that applies a batch of events to the canvas.
//!
//! Every texel carries, beside its colour, the timestamp of the write that
//! coloured it. An event writes a texel only if its own timestamp is not
//! older than the one stored there, so the texel ends with the colour of the
//! latest event that reaches it, in whatever order the events of a batch run.

use crate::data::{Coordinate, PixelData};
use crate::mapping::covers;
use crate::renderer::data::{from_lane, gpu_coordinate, gpu_pixel_data, lane_value};
use crate::renderer::data::{GpuCoordinate, GpuPixelData};
use vstd::prelude::*;

verus! {

/// One texel of an 8-bit RGBA image.
#[derive(Debug, Clone, Copy, PartialEq, Eq, Structural)]
pub struct Rgba {
    pub r: u8,
    pub g: u8,
    pub b: u8,
    pub a: u8,
}

/// A texel of the canvas together with its entry of the timestamp map.
pub struct Texel {
    pub color: Rgba,
    pub stamp: u32,
}

/// The background: opaque white.
pub open spec fn white() -> Rgba {
    Rgba { r: 255, g: 255, b: 255, a: 255 }
}

/// A texel that was never written.
pub open spec fn blank() -> Texel {
    Texel { color: white(), stamp: 0 }
}

/// The byte that a colour lane stores in the image: the lane, or 255 where it
/// is larger.
pub open spec fn channel(lane: u32) -> u8 {
    if lane > 255 {
        255
    } else {
        lane as u8
    }
}

/// The colour that an event writes.
pub open spec fn color_of(e: GpuPixelData) -> Rgba {
    Rgba { r: channel(e.color[0]), g: channel(e.color[1]), b: channel(e.color[2]), a: 255 }
}

/// Whether a shape reaches the texel `(i, j)`, before clipping. The tag 0 is
/// a point, 1 a rectangle whose lanes are its two corners, the rows of which
/// change roles, 2 a disc whose third lane is the radius. A shape of any
/// other tag reaches nothing.
pub open spec fn gpu_covers(c: GpuCoordinate, i: int, j: int) -> bool {
    let d0 = lane_value(c.data[0]);
    let d1 = lane_value(c.data[1]);
    let d2 = lane_value(c.data[2]);
    let d3 = lane_value(c.data[3]);
    if c.tag == 0 {
        i == d0 && j == d1
    } else if c.tag == 1 {
        d0 <= i < d2 && d3 <= j < d1
    } else if c.tag == 2 {
        (i - d0) * (i - d0) + (j - d1) * (j - d1) < d2 * d2
    } else {
        false
    }
}

/// What one event makes of a texel: where it reaches the texel, the stored
/// timestamp becomes the later of the two, and the colour becomes the event's
/// unless the stored timestamp is later than the event's.
pub open spec fn texel_step(t: Texel, e: GpuPixelData, hit: bool) -> Texel {
    if hit && e.miliseconds_since_first_pixel >= t.stamp {
        Texel { color: color_of(e), stamp: e.miliseconds_since_first_pixel }
    } else {
        t
    }
}

/// What a run of events, applied in order, makes of the texel `(i, j)`.
pub open spec fn texel_after(t: Texel, events: Seq<GpuPixelData>, i: int, j: int) -> Texel
    decreases events.len(),
{
    if events.len() == 0 {
        t
    } else {
        texel_step(
            texel_after(t, events.drop_last(), i, j),
            events.last(),
            gpu_covers(events.last().coordinate, i, j),
        )
    }
}

/// A batch in the layout of a compute pass.
pub open spec fn gpu_batch(data: Seq<PixelData>) -> Seq<GpuPixelData> {
    Seq::new(data.len(), |k: int| gpu_pixel_data(data[k]))
}

/// Where the texel `(i, j)` stands in a row-major image of width `w`.
pub open spec fn texel_index(w: int, i: int, j: int) -> int {
    j * w + i
}

pub proof fn lemma_texel_index(w: int, h: int, i: int, j: int)
    requires
        0 <= i < w,
        0 <= j < h,
    ensures
        0 <= texel_index(w, i, j) < w * h,
{
    assert(j * w + i < w * h) by (nonlinear_arith)
        requires
            0 <= i < w,
            0 <= j < h,
    ;
    assert(0 <= j * w) by (nonlinear_arith)
        requires
            0 <= j,
            0 <= w,
    ;
}

pub proof fn lemma_texel_index_distinct(w: int, i: int, j: int, i2: int, j2: int)
    requires
        0 <= i < w,
        0 <= i2 < w,
        0 <= j,
        0 <= j2,
        i != i2 || j != j2,
    ensures
        texel_index(w, i, j) != texel_index(w, i2, j2),
{
    if j < j2 {
        assert(j * w + i < j2 * w + i2) by (nonlinear_arith)
            requires
                0 <= i < w,
                0 <= i2,
                j < j2,
        ;
    } else if j2 < j {
        assert(j2 * w + i2 < j * w + i) by (nonlinear_arith)
            requires
                0 <= i2 < w,
                0 <= i,
                j2 < j,
        ;
    }
}

/// A disc lies within its radius of its centre along either axis.
pub proof fn lemma_disc_within_radius(a: int, b: int, r: int)
    requires
        a * a + b * b < r * r,
        r >= 0,
    ensures
        -r < a < r,
        -r < b < r,
{
    assert(-r < a < r && -r < b < r) by (nonlinear_arith)
        requires
            a * a + b * b < r * r,
            r >= 0,
    ;
}

/// The state of the pass: the canvas image and the timestamp map, both of
/// the same size, and whether the next dispatch must clear them first.
pub struct UpdateTexturePipeline {
    width: u32,
    height: u32,
    canvas: Vec<Rgba>,
    timestamps: Vec<u32>,
    should_clear_canvas: bool,
}

/// How many invocations make one workgroup.
pub const WORKGROUP_SIZE: u64 = 256;

/// How many events the staging buffer holds: 128 MiB of events of 64 bytes.
pub const MAX_PIXEL_UPDATES: u64 = 2097152;

/// Whether a shape reaches the texel `(i, j)`.
fn reaches(c: &GpuCoordinate, i: u32, j: u32) -> (r: bool)
    ensures
        r == gpu_covers(*c, i as int, j as int),
{
    let d0: i128 = from_lane(c.data[0]) as i128;
    let d1: i128 = from_lane(c.data[1]) as i128;
    let d2: i128 = from_lane(c.data[2]) as i128;
    let d3: i128 = from_lane(c.data[3]) as i128;
    let x: i128 = i as i128;
    let y: i128 = j as i128;
    if c.tag == 0 {
        x == d0 && y == d1
    } else if c.tag == 1 {
        d0 <= x && x < d2 && d3 <= y && y < d1
    } else if c.tag == 2 {
        let dx: i128 = x - d0;
        let dy: i128 = y - d1;
        assert(0 <= dx * dx <= 0x1_0000_0000_0000_0000_0000) by (nonlinear_arith)
            requires
                -0x1_0000_0000_00 <= dx <= 0x1_0000_0000_00,
        ;
        assert(0 <= dy * dy <= 0x1_0000_0000_0000_0000_0000) by (nonlinear_arith)
            requires
                -0x1_0000_0000_00 <= dy <= 0x1_0000_0000_00,
        ;
        assert(0 <= d2 * d2 <= 0x1_0000_0000_0000_0000_0000) by (nonlinear_arith)
            requires
                -0x1_0000_0000_00 <= d2 <= 0x1_0000_0000_00,
        ;
        dx * dx + dy * dy < d2 * d2
    } else {
        false
    }
}

/// The colour that an event writes.
fn event_color(e: &GpuPixelData) -> (c: Rgba)
    ensures
        c == color_of(*e),
{
    let r: u8 = if e.color[0] > 255 {
        255
    } else {
        e.color[0] as u8
    };
    let g: u8 = if e.color[1] > 255 {
        255
    } else {
        e.color[1] as u8
    };
    let b: u8 = if e.color[2] > 255 {
        255
    } else {
        e.color[2] as u8
    };
    Rgba { r, g, b, a: 255 }
}

/// The columns or rows `[low, high)` cut to `[0, size)`; `(0, 0)` where
/// nothing is left.
spec fn clipped(low: int, high: int, size: int) -> (int, int) {
    let from = if low < 0 {
        0
    } else {
        low
    };
    let to = if high > size {
        size
    } else {
        high
    };
    if from < to {
        (from, to)
    } else {
        (0, 0)
    }
}

/// Cuts the columns or rows `[low, high)` to `[0, size)`.
fn clip(low: i64, high: i64, size: u32) -> (r: (u32, u32))
    ensures
        (r.0 as int, r.1 as int) == clipped(low as int, high as int, size as int),
{
    let from: i64 = if low < 0 {
        0
    } else {
        low
    };
    let to: i64 = if high > size as i64 {
        size as i64
    } else {
        high
    };
    if from < to {
        (from as u32, to as u32)
    } else {
        (0, 0)
    }
}

impl UpdateTexturePipeline {
    #[verifier::type_invariant]
    spec fn well_formed(self) -> bool {
        &&& self.canvas.len() == self.width * self.height
        &&& self.timestamps.len() == self.width * self.height
    }

    pub closed spec fn width(&self) -> int {
        self.width as int
    }

    pub closed spec fn height(&self) -> int {
        self.height as int
    }

    /// Whether `(i, j)` is a texel of this canvas.
    pub open spec fn inside(&self, i: int, j: int) -> bool {
        0 <= i < self.width() && 0 <= j < self.height()
    }

    /// The texel `(i, j)` as it is stored.
    pub closed spec fn texel(&self, i: int, j: int) -> Texel {
        Texel {
            color: self.canvas[texel_index(self.width as int, i, j)],
            stamp: self.timestamps[texel_index(self.width as int, i, j)],
        }
    }

    /// Whether the next dispatch clears the canvas before it applies events.
    pub closed spec fn must_clear(&self) -> bool {
        self.should_clear_canvas
    }

    /// The texel `(i, j)` as the next dispatch finds it.
    pub open spec fn base_texel(&self, i: int, j: int) -> Texel {
        if self.must_clear() {
            blank()
        } else {
            self.texel(i, j)
        }
    }

    /// A pass over a canvas of the given size, white and never written; its
    /// first dispatch clears it once more.
    pub fn new(canvas_size: (u32, u32)) -> (pipeline: Self)
        requires
            canvas_size.0 * canvas_size.1 <= usize::MAX,
        ensures
            pipeline.width() == canvas_size.0,
            pipeline.height() == canvas_size.1,
            pipeline.must_clear(),
            forall|i: int, j: int| pipeline.inside(i, j) ==> pipeline.texel(i, j) == blank(),
    {
        let texels: usize = canvas_size.0 as usize * canvas_size.1 as usize;
        let canvas: Vec<Rgba> = vec![Rgba { r: 255, g: 255, b: 255, a: 255 }; texels];
        let timestamps: Vec<u32> = vec![0u32; texels];
        let pipeline = UpdateTexturePipeline {
            width: canvas_size.0,
            height: canvas_size.1,
            canvas,
            timestamps,
            should_clear_canvas: true,
        };
        assert forall|i: int, j: int| pipeline.inside(i, j) implies pipeline.texel(i, j)
            == blank() by {
            lemma_texel_index(canvas_size.0 as int, canvas_size.1 as int, i, j);
        }
        pipeline
    }

    /// The size of the canvas: width, then height.
    pub fn canvas_size(&self) -> (size: (u32, u32))
        ensures
            size.0 == self.width(),
            size.1 == self.height(),
    {
        (self.width, self.height)
    }

    /// The canvas image, row by row from the top.
    pub fn canvas_image(&self) -> (image: &Vec<Rgba>)
        ensures
            image.len() == self.width() * self.height(),
            forall|i: int, j: int|
                self.inside(i, j) ==> (#[trigger] image[texel_index(self.width(), i, j)])
                    == self.texel(i, j).color,
    {
        proof {
            use_type_invariant(self);
        }
        &self.canvas
    }

    /// The colour of the texel `(i, j)`.
    pub fn pixel(&self, i: u32, j: u32) -> (color: Rgba)
        requires
            self.inside(i as int, j as int),
        ensures
            color == self.texel(i as int, j as int).color,
    {
        proof {
            use_type_invariant(self);
            lemma_texel_index(self.width as int, self.height as int, i as int, j as int);
        }
        self.canvas[j as usize * self.width as usize + i as usize]
    }

    /// The entry of the timestamp map for the texel `(i, j)`.
    pub fn timestamp(&self, i: u32, j: u32) -> (stamp: u32)
        requires
            self.inside(i as int, j as int),
        ensures
            stamp == self.texel(i as int, j as int).stamp,
    {
        proof {
            use_type_invariant(self);
            lemma_texel_index(self.width as int, self.height as int, i as int, j as int);
        }
        self.timestamps[j as usize * self.width as usize + i as usize]
    }
}


impl UpdateTexturePipeline {
    /// One invocation of the pass: applies one event to every texel it
    /// reaches on the canvas. An event that reaches no texel of the canvas,
    /// and one of an unknown tag, changes nothing.
    pub fn apply(&mut self, event: &GpuPixelData)
        ensures
            final(self).width() == old(self).width(),
            final(self).height() == old(self).height(),
            final(self).must_clear() == old(self).must_clear(),
            forall|i: int, j: int|
                old(self).inside(i, j) ==> #[trigger] final(self).texel(i, j) == texel_step(
                    old(self).texel(i, j),
                    *event,
                    gpu_covers(event.coordinate, i, j),
                ),
    {
        proof {
            use_type_invariant(&*self);
        }
        let c = &event.coordinate;
        let d0: i64 = from_lane(c.data[0]) as i64;
        let d1: i64 = from_lane(c.data[1]) as i64;
        let d2: i64 = from_lane(c.data[2]) as i64;
        let d3: i64 = from_lane(c.data[3]) as i64;
        let radius: i64 = if d2 < 0 {
            -d2
        } else {
            d2
        };
        let (low_i, high_i, low_j, high_j): (i64, i64, i64, i64) = if c.tag == 0 {
            (d0, d0 + 1, d1, d1 + 1)
        } else if c.tag == 1 {
            (d0, d2, d3, d1)
        } else if c.tag == 2 {
            (d0 - radius + 1, d0 + radius, d1 - radius + 1, d1 + radius)
        } else {
            (0, 0, 0, 0)
        };
        assert forall|i: int, j: int| gpu_covers(*c, i, j) implies low_i <= i < high_i && low_j
            <= j < high_j by {
            if c.tag == 2 {
                assert(radius * radius == d2 * d2) by (nonlinear_arith)
                    requires
                        radius == d2 || radius == -d2,
                ;
                lemma_disc_within_radius(i - d0, j - d1, radius as int);
            }
        }
        let (i0, i1) = clip(low_i, high_i, self.width);
        let (j0, j1) = clip(low_j, high_j, self.height);
        let color = event_color(event);
        let t: u32 = event.miliseconds_since_first_pixel;
        let ghost before = *self;
        let mut j: u32 = j0;
        while j < j1
            invariant
                j0 <= j <= j1 <= self.height,
                i0 <= i1 <= self.width,
                self.width == before.width,
                self.height == before.height,
                self.should_clear_canvas == before.should_clear_canvas,
                self.canvas.len() == self.width * self.height,
                self.timestamps.len() == self.width * self.height,
                color == color_of(*event),
                t == event.miliseconds_since_first_pixel,
                c == &event.coordinate,
                forall|i2: int, j2: int|
                    before.inside(i2, j2) ==> #[trigger] self.texel(i2, j2) == (if j0 <= j2 < j
                        && i0 <= i2 < i1 {
                        texel_step(before.texel(i2, j2), *event, gpu_covers(*c, i2, j2))
                    } else {
                        before.texel(i2, j2)
                    }),
            decreases j1 - j,
        {
            let mut i: u32 = i0;
            while i < i1
                invariant
                    j0 <= j < j1 <= self.height,
                    i0 <= i <= i1 <= self.width,
                    self.width == before.width,
                    self.height == before.height,
                    self.should_clear_canvas == before.should_clear_canvas,
                    self.canvas.len() == self.width * self.height,
                    self.timestamps.len() == self.width * self.height,
                    color == color_of(*event),
                    t == event.miliseconds_since_first_pixel,
                    c == &event.coordinate,
                    forall|i2: int, j2: int|
                        before.inside(i2, j2) ==> #[trigger] self.texel(i2, j2) == (if (j0 <= j2
                            < j && i0 <= i2 < i1) || (j2 == j && i0 <= i2 < i) {
                            texel_step(before.texel(i2, j2), *event, gpu_covers(*c, i2, j2))
                        } else {
                            before.texel(i2, j2)
                        }),
                decreases i1 - i,
            {
                let ghost w = self.width as int;
                let ghost previous = *self;
                proof {
                    lemma_texel_index(w, self.height as int, i as int, j as int);
                }
                assert(self.texel(i as int, j as int) == before.texel(i as int, j as int));
                if reaches(c, i, j) {
                    let at: usize = j as usize * self.width as usize + i as usize;
                    if t >= self.timestamps[at] {
                        self.canvas[at] = color;
                        self.timestamps[at] = t;
                    }
                }
                assert forall|i2: int, j2: int| before.inside(i2, j2) implies #[trigger] self.texel(
                    i2,
                    j2,
                ) == (if i2 == i && j2 == j {
                    texel_step(before.texel(i2, j2), *event, gpu_covers(*c, i2, j2))
                } else {
                    previous.texel(i2, j2)
                }) by {
                    lemma_texel_index(w, self.height as int, i2, j2);
                    if i2 != i || j2 != j {
                        lemma_texel_index_distinct(w, i as int, j as int, i2, j2);
                    }
                }
                i += 1;
            }
            j += 1;
        }
        assert forall|i: int, j: int| old(self).inside(i, j) implies #[trigger] self.texel(i, j)
            == texel_step(old(self).texel(i, j), *event, gpu_covers(event.coordinate, i, j)) by {
            if !(j0 <= j < j1 && i0 <= i < i1) {
                assert(!gpu_covers(*c, i, j));
            }
        }
    }
}


impl UpdateTexturePipeline {
    /// Makes the canvas white and the timestamp map zero.
    fn clear(&mut self)
        ensures
            final(self).width() == old(self).width(),
            final(self).height() == old(self).height(),
            final(self).must_clear() == old(self).must_clear(),
            forall|i: int, j: int| old(self).inside(i, j) ==> final(self).texel(i, j) == blank(),
    {
        proof {
            use_type_invariant(&*self);
        }
        let texels: usize = self.canvas.len();
        self.canvas = vec![Rgba { r: 255, g: 255, b: 255, a: 255 }; texels];
        self.timestamps = vec![0u32; texels];
        assert forall|i: int, j: int| old(self).inside(i, j) implies self.texel(i, j)
            == blank() by {
            lemma_texel_index(self.width as int, self.height as int, i, j);
        }
    }

    /// One dispatch of the pass: clears the canvas if this is the first, then
    /// applies the batch, every texel ending as if the events had run one
    /// after the other in the order of the batch. An empty batch applies
    /// nothing.
    pub fn compute(&mut self, data: &Vec<PixelData>)
        requires
            data.len() as int % WORKGROUP_SIZE as int == 0,
            data.len() <= MAX_PIXEL_UPDATES,
        ensures
            final(self).width() == old(self).width(),
            final(self).height() == old(self).height(),
            !final(self).must_clear(),
            forall|i: int, j: int|
                old(self).inside(i, j) ==> #[trigger] final(self).texel(i, j) == texel_after(
                    old(self).base_texel(i, j),
                    gpu_batch(data@),
                    i,
                    j,
                ),
    {
        if self.should_clear_canvas {
            self.clear();
            proof {
                use_type_invariant(&*self);
            }
            self.should_clear_canvas = false;
        }
        let ghost batch = gpu_batch(data@);
        let mut k: usize = 0;
        assert(batch.take(0) =~= Seq::<GpuPixelData>::empty());
        while k < data.len()
            invariant
                k <= data.len(),
                batch == gpu_batch(data@),
                self.width() == old(self).width(),
                self.height() == old(self).height(),
                !self.must_clear(),
                forall|i: int, j: int|
                    old(self).inside(i, j) ==> #[trigger] self.texel(i, j) == texel_after(
                        old(self).base_texel(i, j),
                        batch.take(k as int),
                        i,
                        j,
                    ),
            decreases data.len() - k,
        {
            let event = GpuPixelData::from(data[k]);
            assert(event == batch[k as int]);
            assert(batch.take(k + 1).drop_last() =~= batch.take(k as int));
            assert(batch.take(k + 1).last() == event);
            self.apply(&event);
            k += 1;
        }
        assert(batch.take(k as int) =~= batch);
    }
}

/// How many workgroups a dispatch of `events` events takes.
pub fn workgroups(events: usize) -> (groups: u32)
    requires
        events as int % WORKGROUP_SIZE as int == 0,
        events <= MAX_PIXEL_UPDATES,
    ensures
        groups * WORKGROUP_SIZE == events,
{
    (events / 256) as u32
}

/// A shape in the layout of the pass reaches the texels that the shape
/// itself reaches.
pub proof fn lemma_gpu_covers(c: Coordinate, i: int, j: int)
    ensures
        gpu_covers(gpu_coordinate(c), i, j) == covers(c, i, j),
{
}

/// Events that do not reach a texel leave it as it was. So a batch whose
/// events all fall outside the canvas changes no texel of it.
pub proof fn clipped_events_change_nothing(t: Texel, events: Seq<GpuPixelData>, i: int, j: int)
    requires
        forall|k: int|
            0 <= k < events.len() ==> !gpu_covers((#[trigger] events[k]).coordinate, i, j),
    ensures
        texel_after(t, events, i, j) == t,
    decreases events.len(),
{
    if events.len() > 0 {
        assert forall|k: int| 0 <= k < events.drop_last().len() implies !gpu_covers(
            (#[trigger] events.drop_last()[k]).coordinate,
            i,
            j,
        ) by {
            assert(events.drop_last()[k] == events[k]);
        }
        clipped_events_change_nothing(t, events.drop_last(), i, j);
        assert(events.last() == events[events.len() - 1]);
    }
}

/// Whether `events[k]` reaches the texel `(i, j)`.
pub open spec fn hits(events: Seq<GpuPixelData>, k: int, i: int, j: int) -> bool {
    0 <= k < events.len() && gpu_covers(events[k].coordinate, i, j)
}

/// Whether `events[k]` reaches the texel `(i, j)`, is not older than what the
/// texel holds, and has behind it only older events that reach the texel.
pub open spec fn is_last_writer(
    t: Texel,
    events: Seq<GpuPixelData>,
    k: int,
    i: int,
    j: int,
) -> bool {
    &&& hits(events, k, i, j)
    &&& t.stamp <= events[k].miliseconds_since_first_pixel
    &&& forall|m: int|
        k < m && #[trigger] hits(events, m, i, j) ==> events[m].miliseconds_since_first_pixel
            < events[k].miliseconds_since_first_pixel
}

/// What a run of events makes of a texel. The stored timestamp does not go
/// back, and no event that reaches the texel is later than it. And either
/// the texel is as it was, every event that reaches it being older than it,
/// or it has the timestamp and the colour of an event that reaches it, behind
/// which only older events reach it.
pub proof fn texel_shows_latest(t: Texel, events: Seq<GpuPixelData>, i: int, j: int)
    ensures
        ({
            let r = texel_after(t, events, i, j);
            &&& t.stamp <= r.stamp
            &&& forall|k: int|
                #[trigger] hits(events, k, i, j) ==> events[k].miliseconds_since_first_pixel
                    <= r.stamp
            &&& (r == t && forall|k: int|
                #[trigger] hits(events, k, i, j) ==> events[k].miliseconds_since_first_pixel
                    < t.stamp) || (exists|k: int|
                {
                    &&& #[trigger] is_last_writer(t, events, k, i, j)
                    &&& r.stamp == events[k].miliseconds_since_first_pixel
                    &&& r.color == color_of(events[k])
                })
        }),
    decreases events.len(),
{
    if events.len() > 0 {
        let head = events.drop_last();
        let last = events.last();
        let n = events.len() - 1;
        texel_shows_latest(t, head, i, j);
        let m = texel_after(t, head, i, j);
        let r = texel_after(t, events, i, j);
        assert(last == events[n]);
        assert forall|k: int| 0 <= k < head.len() implies head[k] == events[k] by {}
        assert forall|k: int| k != n implies hits(head, k, i, j) == hits(events, k, i, j) by {}
        let hit = gpu_covers(last.coordinate, i, j);
        assert(hit == hits(events, n, i, j));
        assert(r == texel_step(m, last, hit));
        if hit && last.miliseconds_since_first_pixel >= m.stamp {
            assert(is_last_writer(t, events, n, i, j));
        } else if m == t && forall|k: int|
            #[trigger] hits(head, k, i, j) ==> head[k].miliseconds_since_first_pixel < t.stamp {
            assert forall|k: int| #[trigger] hits(events, k, i, j) implies events[k]
                .miliseconds_since_first_pixel < t.stamp by {
                if k != n {
                    assert(hits(head, k, i, j));
                }
            }
        } else {
            let k = choose|k: int|
                {
                    &&& #[trigger] is_last_writer(t, head, k, i, j)
                    &&& m.stamp == head[k].miliseconds_since_first_pixel
                    &&& m.color == color_of(head[k])
                };
            assert(hits(head, k, i, j));
            assert forall|m2: int| k < m2 && #[trigger] hits(events, m2, i, j) implies events[m2]
                .miliseconds_since_first_pixel < events[k].miliseconds_since_first_pixel by {
                if m2 != n {
                    assert(hits(head, m2, i, j));
                }
            }
            assert(is_last_writer(t, events, k, i, j));
        }
    }
}

/// Whether the timestamps of a log never go back.
pub open spec fn monotonic(events: Seq<GpuPixelData>) -> bool {
    forall|a: int, b: int|
        0 <= a <= b < events.len() ==> (#[trigger] events[a]).miliseconds_since_first_pixel <= (
        #[trigger] events[b]).miliseconds_since_first_pixel
}

/// On a log whose timestamps never go back, a texel that was never written
/// before shows the last event of the log that reaches it.
pub proof fn texel_shows_last_writer(events: Seq<GpuPixelData>, i: int, j: int, last: int)
    requires
        monotonic(events),
        hits(events, last, i, j),
        forall|m: int| last < m ==> !#[trigger] hits(events, m, i, j),
    ensures
        texel_after(blank(), events, i, j) == (Texel {
            color: color_of(events[last]),
            stamp: events[last].miliseconds_since_first_pixel,
        }),
{
    texel_shows_latest(blank(), events, i, j);
    let r = texel_after(blank(), events, i, j);
    assert(events[last].miliseconds_since_first_pixel <= r.stamp);
    let k = choose|k: int|
        {
            &&& #[trigger] is_last_writer(blank(), events, k, i, j)
            &&& r.stamp == events[k].miliseconds_since_first_pixel
            &&& r.color == color_of(events[k])
        };
    assert(hits(events, k, i, j));
    if k < last {
        assert(events[k].miliseconds_since_first_pixel
            <= events[last].miliseconds_since_first_pixel);
    }
}

/// The last writer wins, in whatever order a batch runs. Let `a` and `b` hold
/// the same events in two orders, and let `a[latest]` reach the texel
/// `(i, j)`, no event that reaches the texel being later than it, nor the
/// texel itself. Then after `a` and after `b` alike the texel has the
/// timestamp of `a[latest]` and the colour of an event of that timestamp that
/// reaches it.
pub proof fn last_writer_wins(
    t: Texel,
    a: Seq<GpuPixelData>,
    b: Seq<GpuPixelData>,
    i: int,
    j: int,
    latest: int,
)
    requires
        a.to_multiset() == b.to_multiset(),
        hits(a, latest, i, j),
        forall|k: int|
            #[trigger] hits(a, k, i, j) ==> a[k].miliseconds_since_first_pixel
                <= a[latest].miliseconds_since_first_pixel,
        t.stamp <= a[latest].miliseconds_since_first_pixel,
    ensures
        texel_after(t, a, i, j).stamp == a[latest].miliseconds_since_first_pixel,
        texel_after(t, b, i, j).stamp == a[latest].miliseconds_since_first_pixel,
        exists|k: int|
            #[trigger] hits(a, k, i, j) && a[k].miliseconds_since_first_pixel
                == a[latest].miliseconds_since_first_pixel && texel_after(t, a, i, j).color
                == color_of(a[k]),
        exists|k: int|
            #[trigger] hits(b, k, i, j) && b[k].miliseconds_since_first_pixel
                == a[latest].miliseconds_since_first_pixel && texel_after(t, b, i, j).color
                == color_of(b[k]),
{
    a.to_multiset_ensures();
    b.to_multiset_ensures();
    let top = a[latest].miliseconds_since_first_pixel;
    assert forall|k: int| #[trigger] hits(b, k, i, j) implies b[k].miliseconds_since_first_pixel
        <= top by {
        assert(b.contains(b[k]));
        assert(b.to_multiset().count(b[k]) > 0);
        assert(a.to_multiset().count(b[k]) > 0);
        assert(a.contains(b[k]));
        let n = choose|n: int| 0 <= n < a.len() && a[n] == b[k];
        assert(hits(a, n, i, j));
    }
    assert(a.contains(a[latest]));
    assert(a.to_multiset().count(a[latest]) > 0);
    assert(b.to_multiset().count(a[latest]) > 0);
    assert(b.contains(a[latest]));
    let at = choose|n: int| 0 <= n < b.len() && b[n] == a[latest];
    assert(hits(b, at, i, j));
    texel_shows_latest(t, a, i, j);
    texel_shows_latest(t, b, i, j);
    let ra = texel_after(t, a, i, j);
    let rb = texel_after(t, b, i, j);
    assert(a[latest].miliseconds_since_first_pixel <= ra.stamp);
    assert(b[at].miliseconds_since_first_pixel <= rb.stamp);
    let ka = choose|k: int|
        {
            &&& #[trigger] is_last_writer(t, a, k, i, j)
            &&& ra.stamp == a[k].miliseconds_since_first_pixel
            &&& ra.color == color_of(a[k])
        };
    assert(hits(a, ka, i, j));
    let kb = choose|k: int|
        {
            &&& #[trigger] is_last_writer(t, b, k, i, j)
            &&& rb.stamp == b[k].miliseconds_since_first_pixel
            &&& rb.color == color_of(b[k])
        };
    assert(hits(b, kb, i, j));
}

} // verus!
