//! Playback: pacing the log against the clock, cutting it into batches, and
//! applying the batches to the canvas.

pub mod data;
pub mod draw_quad;
pub mod update_texture;

use crate::codec::CodecError;
use crate::data::PixelData;
use crate::mapping::{CANVAS_HEIGHT, CANVAS_WIDTH};
use crate::parse::GzippedBinPixelDataReader;
use crate::renderer::data::GpuPixelData;
use crate::renderer::draw_quad::{quad_scale, quad_vertices, DrawQuadPipeline};
use crate::renderer::update_texture::{blank, gpu_batch, texel_after, Texel};
use crate::renderer::update_texture::UpdateTexturePipeline;
use vstd::prelude::*;

verus! {

/// The bytes that one event takes in the staging buffer.
pub const GPU_EVENT_SIZE: u64 = 64;

/// The size of the staging buffer: 128 MiB.
pub const EVENT_BUFFER_BYTES: u64 = 134217728;

/// The most invocations one dispatch can have: 65535 workgroups of 256.
pub const DISPATCH_CEILING: u64 = 16776960;

/// The most events one batch can have: what the staging buffer holds, which
/// is less than a dispatch can run.
pub const BATCH_CEILING: usize = 2097152;

/// The length of the batch that is cut from `pending` events: the largest
/// multiple of 256 that is not above `pending` nor above the ceiling.
pub open spec fn batch_len(pending: int) -> int {
    let aligned = pending / 256 * 256;
    if aligned > BATCH_CEILING {
        BATCH_CEILING as int
    } else {
        aligned
    }
}

/// The batch is whole workgroups, fits the staging buffer and a dispatch,
/// and no longer run of the pending events does.
pub proof fn batch_len_is_largest(pending: int, m: int)
    requires
        0 <= pending,
    ensures
        0 <= batch_len(pending) <= pending,
        batch_len(pending) % 256 == 0,
        batch_len(pending) * GPU_EVENT_SIZE <= EVENT_BUFFER_BYTES,
        batch_len(pending) <= DISPATCH_CEILING,
        0 <= m <= pending && m % 256 == 0 && m * GPU_EVENT_SIZE <= EVENT_BUFFER_BYTES && m
            <= DISPATCH_CEILING ==> m <= batch_len(pending),
{
}

/// How many of `pending` events the next batch takes.
pub fn batch_length(pending: usize) -> (n: usize)
    ensures
        n == batch_len(pending as int),
{
    let aligned: usize = pending / 256 * 256;
    if aligned > BATCH_CEILING {
        BATCH_CEILING
    } else {
        aligned
    }
}

/// The event time that has been reached when `wall_ms` milliseconds have
/// passed on the clock: that many times the playback speed, or the largest
/// event time where that is beyond it.
pub open spec fn elapsed_event_ms(wall_ms: int, playback_speed: int) -> u32 {
    if wall_ms * playback_speed > u32::MAX {
        u32::MAX
    } else {
        (wall_ms * playback_speed) as u32
    }
}

pub fn elapsed_ms(wall_ms: u128, playback_speed: u32) -> (r: u32)
    ensures
        r == elapsed_event_ms(wall_ms as int, playback_speed as int),
{
    if playback_speed == 0 {
        assert(wall_ms * 0 == 0);
        0
    } else if wall_ms > 0xffff_ffff {
        assert(wall_ms * playback_speed > u32::MAX) by (nonlinear_arith)
            requires
                wall_ms > 0xffff_ffff,
                playback_speed >= 1,
        ;
        0xffff_ffff
    } else {
        assert(0 <= wall_ms * playback_speed <= 0xffff_ffff * 0xffff_ffff) by (nonlinear_arith)
            requires
                0 <= wall_ms <= 0xffff_ffff,
                0 <= playback_speed <= 0xffff_ffff,
        ;
        let product: u64 = wall_ms as u64 * playback_speed as u64;
        if product > 0xffff_ffff {
            0xffff_ffff
        } else {
            product as u32
        }
    }
}

/// Whether more events are wanted in a buffer: it is not above the ceiling,
/// and it is empty or its newest event is due.
pub open spec fn wants_more(buffer: Seq<PixelData>, elapsed: u32) -> bool {
    buffer.len() <= BATCH_CEILING && (buffer.len() == 0
        || buffer.last().miliseconds_since_first_pixel <= elapsed)
}

/// How many events are pulled from `upcoming` into `buffer` at one redraw:
/// one after the other while more are wanted and there are any. The first
/// event that is not yet due is pulled too, and stays in the buffer.
pub open spec fn pulled(buffer: Seq<PixelData>, upcoming: Seq<PixelData>, elapsed: u32) -> nat
    decreases upcoming.len(),
{
    if upcoming.len() == 0 || !wants_more(buffer, elapsed) {
        0
    } else {
        1 + pulled(buffer.push(upcoming.first()), upcoming.drop_first(), elapsed)
    }
}

/// What playback holds between redraws: the events that were read but not
/// yet dispatched, oldest first; the events of the log that were not read
/// yet; and the error that lies behind those, if the log goes wrong.
pub struct Playback {
    pub buffer: Seq<PixelData>,
    pub upcoming: Seq<PixelData>,
    pub ending: Option<CodecError>,
}

/// The buffer as a redraw fills it.
pub open spec fn filled(p: Playback, elapsed: u32) -> Seq<PixelData> {
    p.buffer + p.upcoming.take(pulled(p.buffer, p.upcoming, elapsed) as int)
}

/// Whether a redraw reads the log to its end and still wants more.
pub open spec fn reaches_end(p: Playback, elapsed: u32) -> bool {
    pulled(p.buffer, p.upcoming, elapsed) == p.upcoming.len() && wants_more(
        filled(p, elapsed),
        elapsed,
    )
}

/// The batch that a redraw dispatches: the longest run that a batch can be,
/// from the front of the filled buffer.
pub open spec fn batch_of(p: Playback, elapsed: u32) -> Seq<PixelData> {
    filled(p, elapsed).take(batch_len(filled(p, elapsed).len() as int))
}

/// The error that a redraw reports: that of the log, in the redraw that
/// reaches its end.
pub open spec fn error_of(p: Playback, elapsed: u32) -> Option<CodecError> {
    if reaches_end(p, elapsed) {
        p.ending
    } else {
        None
    }
}

/// What playback holds after a redraw. Once the end of the log was reached,
/// its error is not reported again.
pub open spec fn after_redraw(p: Playback, elapsed: u32) -> Playback {
    Playback {
        buffer: filled(p, elapsed).skip(batch_len(filled(p, elapsed).len() as int)),
        upcoming: p.upcoming.skip(pulled(p.buffer, p.upcoming, elapsed) as int),
        ending: if reaches_end(p, elapsed) {
            None
        } else {
            p.ending
        },
    }
}

/// Once the log is read to its end and less than a workgroup is left in the
/// buffer, a redraw dispatches nothing, reports nothing and changes nothing.
pub proof fn exhausted_playback_idles(p: Playback, elapsed: u32)
    requires
        p.upcoming.len() == 0,
        p.ending is None,
        p.buffer.len() < 256,
    ensures
        batch_of(p, elapsed) == Seq::<PixelData>::empty(),
        error_of(p, elapsed) is None,
        after_redraw(p, elapsed) == p,
{
    assert(p.upcoming.take(0) =~= Seq::<PixelData>::empty());
    assert(filled(p, elapsed) =~= p.buffer);
    assert(batch_of(p, elapsed) =~= Seq::<PixelData>::empty());
    assert(after_redraw(p, elapsed).buffer =~= p.buffer);
    assert(after_redraw(p, elapsed).upcoming =~= p.upcoming);
}

/// The state of playback between redraws, over a log and at a playback
/// speed.
pub struct Scheduler {
    reader: GzippedBinPixelDataReader,
    buffer: Vec<PixelData>,
    playback_speed: u32,
}

impl View for Scheduler {
    type V = Playback;

    closed spec fn view(&self) -> Playback {
        Playback {
            buffer: self.buffer@,
            upcoming: self.reader.pending().0,
            ending: self.reader.pending().1,
        }
    }
}

impl Scheduler {
    pub closed spec fn speed(&self) -> u32 {
        self.playback_speed
    }

    /// Playback of a log from where `reader` stands.
    pub fn new(reader: GzippedBinPixelDataReader, playback_speed: u32) -> (scheduler: Self)
        ensures
            scheduler@ == (Playback {
                buffer: Seq::empty(),
                upcoming: reader.pending().0,
                ending: reader.pending().1,
            }),
            scheduler.speed() == playback_speed,
    {
        Scheduler { reader, buffer: Vec::new(), playback_speed }
    }

    /// Pulls events from the log into the buffer until no more are wanted or
    /// the log ends. Reports the error of the log if its end is bad and was
    /// reached; from then on the log counts as ended.
    pub fn fill(&mut self, elapsed: u32) -> (error: Option<CodecError>)
        ensures
            final(self).speed() == old(self).speed(),
            final(self)@.buffer == filled(old(self)@, elapsed),
            final(self)@.upcoming == after_redraw(old(self)@, elapsed).upcoming,
            final(self)@.ending == after_redraw(old(self)@, elapsed).ending,
            error == error_of(old(self)@, elapsed),
    {
        let ghost start = old(self)@.buffer;
        let ghost all = old(self)@.upcoming;
        let ghost ending = old(self)@.ending;
        let ghost mut k: int = 0;
        assert(all.take(0) =~= Seq::<PixelData>::empty());
        assert(start + all.take(0) =~= start);
        assert(all.skip(0) =~= all);
        loop
            invariant
                0 <= k <= all.len(),
                start == old(self)@.buffer,
                all == old(self)@.upcoming,
                ending == old(self)@.ending,
                self.playback_speed == old(self).playback_speed,
                self.buffer@ == start + all.take(k),
                self.reader.pending() == (all.skip(k), ending),
                pulled(start, all, elapsed) == k + pulled(self.buffer@, all.skip(k), elapsed),
            decreases all.len() - k,
        {
            let len: usize = self.buffer.len();
            let more: bool = len <= BATCH_CEILING && (len == 0 || self.buffer[len
                - 1].miliseconds_since_first_pixel <= elapsed);
            assert(more == wants_more(self.buffer@, elapsed));
            if !more {
                return None;
            }
            match self.reader.next() {
                Some(Ok(event)) => {
                    proof {
                        let rest = all.skip(k);
                        assert(rest.first() == all[k]);
                        assert(rest.drop_first() =~= all.skip(k + 1));
                        assert(all.take(k).push(all[k]) =~= all.take(k + 1));
                        assert(start + all.take(k + 1) =~= (start + all.take(k)).push(event));
                        k = k + 1;
                    }
                    self.buffer.push(event);
                },
                Some(Err(e)) => {
                    assert(all.skip(k).len() == 0);
                    return Some(e);
                },
                None => {
                    assert(all.skip(k).len() == 0);
                    return None;
                },
            }
        }
    }

    /// Cuts the next batch from the front of the buffer.
    pub fn take_batch(&mut self) -> (batch: Vec<PixelData>)
        ensures
            final(self).speed() == old(self).speed(),
            final(self)@.upcoming == old(self)@.upcoming,
            final(self)@.ending == old(self)@.ending,
            batch@ == old(self)@.buffer.take(batch_len(old(self)@.buffer.len() as int)),
            final(self)@.buffer == old(self)@.buffer.skip(
                batch_len(old(self)@.buffer.len() as int),
            ),
            batch.len() as int % 256 == 0,
            batch.len() <= BATCH_CEILING,
    {
        let n: usize = batch_length(self.buffer.len());
        let mut batch: Vec<PixelData> = Vec::new();
        std::mem::swap(&mut batch, &mut self.buffer);
        let rest = batch.split_off(n);
        self.buffer = rest;
        assert(batch@ =~= old(self)@.buffer.take(n as int));
        assert(self.buffer@ =~= old(self)@.buffer.skip(n as int));
        batch
    }

    /// One redraw, `wall_ms` milliseconds after playback began: pulls the
    /// events that have become due and cuts the batch to dispatch. Gives the
    /// batch, and the error of the log if its bad end was reached just now.
    pub fn on_redraw(&mut self, wall_ms: u128) -> (r: (Vec<PixelData>, Option<CodecError>))
        ensures
            final(self).speed() == old(self).speed(),
            final(self)@ == after_redraw(
                old(self)@,
                elapsed_event_ms(wall_ms as int, old(self).speed() as int),
            ),
            r.0@ == batch_of(
                old(self)@,
                elapsed_event_ms(wall_ms as int, old(self).speed() as int),
            ),
            r.1 == error_of(
                old(self)@,
                elapsed_event_ms(wall_ms as int, old(self).speed() as int),
            ),
            r.0.len() as int % 256 == 0,
            r.0.len() <= BATCH_CEILING,
    {
        let elapsed: u32 = elapsed_ms(wall_ms, self.playback_speed);
        let error = self.fill(elapsed);
        let batch = self.take_batch();
        (batch, error)
    }
}


/// The events that a run of redraws dispatches, in the order of dispatch.
/// `redraws` holds, for each redraw, the milliseconds on the clock since
/// playback began.
pub open spec fn replayed(p: Playback, speed: u32, redraws: Seq<u128>) -> Seq<PixelData>
    decreases redraws.len(),
{
    if redraws.len() == 0 {
        Seq::empty()
    } else {
        let elapsed = elapsed_event_ms(redraws.first() as int, speed as int);
        batch_of(p, elapsed) + replayed(after_redraw(p, elapsed), speed, redraws.drop_first())
    }
}

/// The error that a run of redraws reports: that of the first redraw that
/// reports one.
pub open spec fn replay_error(p: Playback, speed: u32, redraws: Seq<u128>) -> Option<CodecError>
    decreases redraws.len(),
{
    if redraws.len() == 0 {
        None
    } else {
        let elapsed = elapsed_event_ms(redraws.first() as int, speed as int);
        match error_of(p, elapsed) {
            Some(e) => Some(e),
            None => replay_error(after_redraw(p, elapsed), speed, redraws.drop_first()),
        }
    }
}

/// Applying one run of events and then another is applying the two as one.
pub proof fn lemma_texel_after_concat(
    t: Texel,
    a: Seq<GpuPixelData>,
    b: Seq<GpuPixelData>,
    i: int,
    j: int,
)
    ensures
        texel_after(t, a + b, i, j) == texel_after(texel_after(t, a, i, j), b, i, j),
    decreases b.len(),
{
    if b.len() == 0 {
        assert(a + b =~= a);
    } else {
        assert((a + b).drop_last() =~= a + b.drop_last());
        assert((a + b).last() == b.last());
        lemma_texel_after_concat(t, a, b.drop_last(), i, j);
    }
}

pub proof fn lemma_gpu_batch_concat(a: Seq<PixelData>, b: Seq<PixelData>)
    ensures
        gpu_batch(a + b) == gpu_batch(a) + gpu_batch(b),
{
    assert(gpu_batch(a + b) =~= gpu_batch(a) + gpu_batch(b));
}

/// The viewer without its window: the pass that keeps the canvas and the
/// pass that shows it.
pub struct App {
    update_texture_pipeline: UpdateTexturePipeline,
    draw_quad_pipeline: DrawQuadPipeline,
}

impl App {
    pub closed spec fn canvas(&self) -> UpdateTexturePipeline {
        self.update_texture_pipeline
    }

    pub closed spec fn presentation(&self) -> DrawQuadPipeline {
        self.draw_quad_pipeline
    }

    /// A viewer with a blank canvas of 3000 by 2000 texels, fitted to a window
    /// of 1280 by 720.
    pub fn new() -> (app: Self)
        ensures
            app.canvas().width() == CANVAS_WIDTH,
            app.canvas().height() == CANVAS_HEIGHT,
            app.canvas().must_clear(),
            forall|i: int, j: int|
                app.canvas().inside(i, j) ==> app.canvas().texel(i, j) == blank(),
            app.presentation().texture() == (CANVAS_WIDTH, CANVAS_HEIGHT),
            app.presentation().quad() == quad_vertices(
                quad_scale((1280, 720), (CANVAS_WIDTH, CANVAS_HEIGHT)),
            ),
    {
        App {
            update_texture_pipeline: UpdateTexturePipeline::new((CANVAS_WIDTH, CANVAS_HEIGHT)),
            draw_quad_pipeline: DrawQuadPipeline::new(
                (1280, 720),
                (CANVAS_WIDTH, CANVAS_HEIGHT),
            ),
        }
    }

    /// The pass that keeps the canvas.
    pub fn update_texture_pipeline(&self) -> (pipeline: &UpdateTexturePipeline)
        ensures
            *pipeline == self.canvas(),
    {
        &self.update_texture_pipeline
    }

    /// The pass that shows the canvas.
    pub fn draw_quad_pipeline(&self) -> (pipeline: &DrawQuadPipeline)
        ensures
            *pipeline == self.presentation(),
    {
        &self.draw_quad_pipeline
    }

    /// The window has a new size: the quad is fitted to it. A window without
    /// width or height shows nothing, and the quad stays as it is.
    pub fn on_resize(&mut self, width: u32, height: u32)
        ensures
            final(self).canvas() == old(self).canvas(),
            final(self).presentation().texture() == old(self).presentation().texture(),
            final(self).presentation().quad() == (if width > 0 && height > 0 {
                quad_vertices(quad_scale((width, height), old(self).presentation().texture()))
            } else {
                old(self).presentation().quad()
            }),
    {
        if width > 0 && height > 0 {
            self.draw_quad_pipeline.update_window_aspect_ratio((width, height));
        }
    }

    /// Plays a log at the given speed through the given redraws: at each
    /// redraw the events that have become due are cut into a batch and the
    /// batch is applied to the canvas. In the end the canvas holds the events
    /// that were dispatched, applied in the order of the log. Gives the error
    /// of the log if a redraw reached its bad end.
    pub fn run(
        &mut self,
        data_reader: GzippedBinPixelDataReader,
        playback_speed: u32,
        redraws: &Vec<u128>,
    ) -> (error: Option<CodecError>)
        ensures
            final(self).presentation() == old(self).presentation(),
            final(self).canvas().width() == old(self).canvas().width(),
            final(self).canvas().height() == old(self).canvas().height(),
            redraws.len() == 0 ==> final(self).canvas() == old(self).canvas(),
            redraws.len() > 0 ==> !final(self).canvas().must_clear(),
            redraws.len() > 0 ==> forall|i: int, j: int|
                old(self).canvas().inside(i, j) ==> #[trigger] final(self).canvas().texel(i, j)
                    == texel_after(
                    old(self).canvas().base_texel(i, j),
                    gpu_batch(
                        replayed(
                            Playback {
                                buffer: Seq::empty(),
                                upcoming: data_reader.pending().0,
                                ending: data_reader.pending().1,
                            },
                            playback_speed,
                            redraws@,
                        ),
                    ),
                    i,
                    j,
                ),
            error == replay_error(
                Playback {
                    buffer: Seq::empty(),
                    upcoming: data_reader.pending().0,
                    ending: data_reader.pending().1,
                },
                playback_speed,
                redraws@,
            ),
    {
        let ghost start = Playback {
            buffer: Seq::empty(),
            upcoming: data_reader.pending().0,
            ending: data_reader.pending().1,
        };
        let mut scheduler = Scheduler::new(data_reader, playback_speed);
        let mut error: Option<CodecError> = None;
        let ghost mut done: Seq<PixelData> = Seq::empty();
        let mut k: usize = 0;
        assert(redraws@.skip(0) =~= redraws@);
        assert(done + replayed(scheduler@, playback_speed, redraws@.skip(0)) =~= replayed(
            start,
            playback_speed,
            redraws@,
        ));
        while k < redraws.len()
            invariant
                k <= redraws.len(),
                scheduler.speed() == playback_speed,
                self.draw_quad_pipeline == old(self).draw_quad_pipeline,
                self.canvas().width() == old(self).canvas().width(),
                self.canvas().height() == old(self).canvas().height(),
                k == 0 ==> self.update_texture_pipeline == old(self).update_texture_pipeline,
                k == 0 ==> done.len() == 0,
                k > 0 ==> !self.canvas().must_clear(),
                k > 0 ==> forall|i: int, j: int|
                    old(self).canvas().inside(i, j) ==> #[trigger] self.canvas().texel(i, j)
                        == texel_after(old(self).canvas().base_texel(i, j), gpu_batch(done), i, j),
                replayed(start, playback_speed, redraws@) == done + replayed(
                    scheduler@,
                    playback_speed,
                    redraws@.skip(k as int),
                ),
                replay_error(start, playback_speed, redraws@) == (match error {
                    Some(e) => Some(e),
                    None => replay_error(scheduler@, playback_speed, redraws@.skip(k as int)),
                }),
            decreases redraws.len() - k,
        {
            let ghost before = scheduler@;
            let ghost rest = redraws@.skip(k as int);
            let ghost canvas = self.update_texture_pipeline;
            assert(rest.first() == redraws[k as int]);
            assert(rest.drop_first() =~= redraws@.skip(k + 1));
            let (batch, reported) = scheduler.on_redraw(redraws[k]);
            self.update_texture_pipeline.compute(&batch);
            proof {
                lemma_gpu_batch_concat(done, batch@);
                assert forall|i: int, j: int|
                    old(self).canvas().inside(i, j) implies #[trigger] self.canvas().texel(
                    i,
                    j,
                ) == texel_after(
                    old(self).canvas().base_texel(i, j),
                    gpu_batch(done + batch@),
                    i,
                    j,
                ) by {
                    if k == 0 {
                        assert(done + batch@ =~= batch@);
                    } else {
                        lemma_texel_after_concat(
                            old(self).canvas().base_texel(i, j),
                            gpu_batch(done),
                            gpu_batch(batch@),
                            i,
                            j,
                        );
                    }
                }
                assert(done + batch@ + replayed(scheduler@, playback_speed, rest.drop_first())
                    =~= done + (batch@ + replayed(scheduler@, playback_speed, rest.drop_first())));
                done = done + batch@;
            }
            if error.is_none() {
                error = reported;
            }
            k += 1;
        }
        assert(redraws@.skip(k as int) =~= Seq::<u128>::empty());
        assert(done + Seq::<PixelData>::empty() =~= done);
        error
    }
}

/// What the host tells the viewer.
#[derive(Debug, Clone, Copy, PartialEq, Eq, Structural)]
pub enum HostEvent {
    CloseRequested,
    EscapePressed,
    Resized { width: u32, height: u32 },
    /// The scale factor changed; the window has the given size.
    ScaleFactorChanged { width: u32, height: u32 },
    Occluded { occluded: bool },
    RedrawRequested,
    AboutToWait,
    Other,
}

/// What the viewer does about it.
#[derive(Debug, Clone, Copy, PartialEq, Eq, Structural)]
pub enum Action {
    /// Leave the event loop.
    Exit,
    /// Configure the surface for the given size and fit the quad to it.
    Resize { width: u32, height: u32 },
    /// Dispatch the next batch, draw the canvas and present.
    Redraw,
    /// Ask the host for a redraw.
    RequestRedraw,
    Nothing,
}

/// The answer to an event. A close request and the escape key end the loop; a
/// new size and a new scale factor resize alike; when the host is about to
/// wait a redraw is asked for, unless the window is occluded.
pub open spec fn action_for(occluded: bool, event: HostEvent) -> Action {
    match event {
        HostEvent::CloseRequested => Action::Exit,
        HostEvent::EscapePressed => Action::Exit,
        HostEvent::Resized { width, height } => Action::Resize { width, height },
        HostEvent::ScaleFactorChanged { width, height } => Action::Resize { width, height },
        HostEvent::Occluded { .. } => Action::Nothing,
        HostEvent::RedrawRequested => Action::Redraw,
        HostEvent::AboutToWait => if occluded {
            Action::Nothing
        } else {
            Action::RequestRedraw
        },
        HostEvent::Other => Action::Nothing,
    }
}

/// Whether the window is occluded after an event.
pub open spec fn occluded_after(occluded: bool, event: HostEvent) -> bool {
    match event {
        HostEvent::Occluded { occluded: now } => now,
        _ => occluded,
    }
}

/// What the viewer remembers between events of the host.
pub struct EventLoop {
    occluded: bool,
}

impl EventLoop {
    pub closed spec fn occluded(&self) -> bool {
        self.occluded
    }

    /// The state of a viewer whose window is in sight.
    pub fn new() -> (state: Self)
        ensures
            !state.occluded(),
    {
        EventLoop { occluded: false }
    }

    /// Takes an event of the host and says what to do.
    pub fn handle(&mut self, event: HostEvent) -> (action: Action)
        ensures
            action == action_for(old(self).occluded(), event),
            final(self).occluded() == occluded_after(old(self).occluded(), event),
    {
        match event {
            HostEvent::CloseRequested => Action::Exit,
            HostEvent::EscapePressed => Action::Exit,
            HostEvent::Resized { width, height } => Action::Resize { width, height },
            HostEvent::ScaleFactorChanged { width, height } => Action::Resize { width, height },
            HostEvent::Occluded { occluded } => {
                self.occluded = occluded;
                Action::Nothing
            },
            HostEvent::RedrawRequested => Action::Redraw,
            HostEvent::AboutToWait => if self.occluded {
                Action::Nothing
            } else {
                Action::RequestRedraw
            },
            HostEvent::Other => Action::Nothing,
        }
    }
}

/// What went wrong with the device while a frame was rendered.
#[derive(Debug, Clone, Copy, PartialEq, Eq, Structural)]
pub enum RenderError {
    DeviceLost,
    OutOfMemory,
    TransientRender,
}

/// What to do about it.
#[derive(Debug, Clone, Copy, PartialEq, Eq, Structural)]
pub enum Recovery {
    /// Configure the surface again at its size and render the next frame.
    Reconfigure,
    /// End the process.
    Terminate,
    /// Log the error and leave this frame out.
    SkipFrame,
}

/// A lost device is recovered from, a lack of memory is fatal, and any other
/// error costs one frame.
pub fn recover(error: RenderError) -> (recovery: Recovery)
    ensures
        recovery == match error {
            RenderError::DeviceLost => Recovery::Reconfigure,
            RenderError::OutOfMemory => Recovery::Terminate,
            RenderError::TransientRender => Recovery::SkipFrame,
        },
{
    match error {
        RenderError::DeviceLost => Recovery::Reconfigure,
        RenderError::OutOfMemory => Recovery::Terminate,
        RenderError::TransientRender => Recovery::SkipFrame,
    }
}

} // verus!
