use place_replay::codec::{encode_events, CodecError};
use place_replay::data::{Coordinate, PixelColor, PixelData};
use place_replay::parse::{write_to_bin, GzippedBinPixelDataReader, ReadError};
use place_replay::renderer::update_texture::Rgba;
use place_replay::renderer::{
    batch_length, elapsed_ms, recover, Action, App, EventLoop, HostEvent, Recovery, RenderError,
    Scheduler, BATCH_CEILING, DISPATCH_CEILING, EVENT_BUFFER_BYTES, GPU_EVENT_SIZE,
};
use place_replay::{find_never_updated_pixels, get_max_min_coord, quad_circle, run, PLAYBACK_SPEED};

const WHITE: Rgba = Rgba {
    r: 255,
    g: 255,
    b: 255,
    a: 255,
};

fn point(t: u32, x: i16, y: i16) -> PixelData {
    PixelData {
        miliseconds_since_first_pixel: t,
        coordinate: Coordinate::Simple { x, y },
        pixel_color: PixelColor { r: 9, g: 8, b: 7 },
    }
}

fn shape(coordinate: Coordinate) -> PixelData {
    PixelData {
        miliseconds_since_first_pixel: 0,
        coordinate,
        pixel_color: PixelColor { r: 0, g: 0, b: 0 },
    }
}

fn scheduler_over(events: &Vec<PixelData>, speed: u32) -> Scheduler {
    Scheduler::new(GzippedBinPixelDataReader::from_bytes(encode_events(events)), speed)
}

#[test]
fn batch_is_whole_workgroups_under_the_ceiling() {
    assert_eq!(GPU_EVENT_SIZE, 64);
    assert_eq!(EVENT_BUFFER_BYTES, 128 * 1024 * 1024);
    assert_eq!(DISPATCH_CEILING, 65535 * 256);
    assert_eq!(BATCH_CEILING as u64, EVENT_BUFFER_BYTES / GPU_EVENT_SIZE);
    assert_eq!(batch_length(0), 0);
    assert_eq!(batch_length(255), 0);
    assert_eq!(batch_length(256), 256);
    assert_eq!(batch_length(511), 256);
    assert_eq!(batch_length(1000), 768);
    assert_eq!(batch_length(2_097_152), 2_097_152);
    assert_eq!(batch_length(2_097_153), 2_097_152);
    assert_eq!(batch_length(usize::MAX), 2_097_152);
}

#[test]
fn elapsed_time_scales_and_saturates() {
    assert_eq!(elapsed_ms(0, 10000), 0);
    assert_eq!(elapsed_ms(16, 10000), 160_000);
    assert_eq!(elapsed_ms(429_496, 10000), 4_294_960_000);
    assert_eq!(elapsed_ms(429_497, 10000), u32::MAX);
    assert_eq!(elapsed_ms(u128::MAX, 1), u32::MAX);
    assert_eq!(elapsed_ms(u128::MAX, 0), 0);
    assert_eq!(elapsed_ms(4_294_967_295, 1), u32::MAX);
    assert_eq!(elapsed_ms(4_294_967_296, 1), u32::MAX);
    assert_eq!(elapsed_ms(7, u32::MAX), u32::MAX);
}

#[test]
fn redraw_pulls_what_is_due_and_one_more() {
    let events: Vec<PixelData> = (0..1000u32).map(|k| point(k * 10, 0, 0)).collect();
    let mut scheduler = scheduler_over(&events, 1);
    // At 2995 ms the events up to 2990 are due: 300 of them, and the one at
    // 3000 is pulled as well. 256 are dispatched, 45 stay.
    let (batch, error) = scheduler.on_redraw(2995);
    assert_eq!(error, None);
    assert_eq!(batch, events[..256].to_vec());
    // Nothing new is due: the newest event in the buffer is still ahead.
    let (batch, error) = scheduler.on_redraw(2999);
    assert_eq!((batch.len(), error), (0, None));
    // At 5120 ms the events up to 5120 are due, which makes 513 read in all,
    // and the one at 5130 is pulled: 514 - 256 = 258 in the buffer.
    let (batch, _) = scheduler.on_redraw(5120);
    assert_eq!(batch, events[256..512].to_vec());
    // The rest becomes due; 1000 - 512 = 488 pending, 256 dispatched.
    let (batch, error) = scheduler.on_redraw(1_000_000);
    assert_eq!(error, None);
    assert_eq!(batch, events[512..768].to_vec());
    // 232 are left, which never make a workgroup.
    let (batch, error) = scheduler.on_redraw(2_000_000);
    assert_eq!((batch.len(), error), (0, None));
}

#[test]
fn redraw_stops_pulling_above_the_ceiling() {
    let events: Vec<PixelData> = (0..2_200_000u32).map(|k| point(k / 1000, 0, 0)).collect();
    let mut scheduler = scheduler_over(&events, 1);
    let (batch, error) = scheduler.on_redraw(1_000_000);
    assert_eq!(error, None);
    assert_eq!(batch.len(), 2_097_152);
    assert_eq!(batch[2_097_151], events[2_097_151]);
    // One event was pulled above the ceiling; the next redraw pulls the rest.
    let (batch, _) = scheduler.on_redraw(1_000_000);
    assert_eq!(batch.len(), (2_200_000 - 2_097_152) / 256 * 256);
    assert_eq!(batch[0], events[2_097_152]);
}

#[test]
fn bad_end_of_the_log_is_reported_once() {
    let events: Vec<PixelData> = (0..300u32).map(|k| point(k, 0, 0)).collect();
    let mut raw = encode_events(&events);
    raw.extend_from_slice(&[0, 5]);
    let mut scheduler = Scheduler::new(GzippedBinPixelDataReader::from_bytes(raw), 1);
    assert_eq!(scheduler.on_redraw(100).1, None);
    let (batch, error) = scheduler.on_redraw(1000);
    assert_eq!(batch.len(), 256);
    assert_eq!(error, Some(CodecError::UnknownShape { tag: 5 }));
    assert_eq!(scheduler.on_redraw(2000), (Vec::new(), None));
}

#[test]
fn empty_log_leaves_the_canvas_white() {
    let file = write_to_bin(&Vec::new());
    let redraws: Vec<u128> = (0..100).map(|k| k * 16).collect();
    let (app, error) = run(&file, &redraws).unwrap();
    assert_eq!(error, None);
    let canvas = app.update_texture_pipeline();
    assert_eq!(canvas.canvas_size(), (3000, 2000));
    assert!(canvas.canvas_image().iter().all(|c| *c == WHITE));
}

#[test]
fn run_without_redraws_shows_nothing() {
    let events: Vec<PixelData> = (0..512u32).map(|k| point(0, k as i16, 0)).collect();
    let (app, error) = run(&write_to_bin(&events), &Vec::new()).unwrap();
    assert_eq!(error, None);
    assert!(app.update_texture_pipeline().canvas_image().iter().all(|c| *c == WHITE));
}

#[test]
fn run_of_a_file_that_is_no_log() {
    assert!(matches!(run(&[1, 2, 3], &vec![0, 16]), Err(ReadError::Io)));
}

#[test]
fn run_shows_the_events_that_were_dispatched() {
    assert_eq!(PLAYBACK_SPEED, 10000);
    // One event every 100 s of the log, each on a texel of its own.
    let events: Vec<PixelData> = (0..600u32).map(|k| point(k * 100_000, k as i16, 1)).collect();
    let file = write_to_bin(&events);
    // After 3 s on the clock 30000 s of the log have passed: 301 events are
    // due, 302 are pulled, 256 are dispatched.
    let (app, _) = run(&file, &vec![3000]).unwrap();
    let canvas = app.update_texture_pipeline();
    let painted = canvas.canvas_image().iter().filter(|c| **c != WHITE).count();
    assert_eq!(painted, 256);
    assert_eq!(canvas.pixel(1500 + 255, 998), Rgba { r: 9, g: 8, b: 7, a: 255 });
    assert_eq!(canvas.timestamp(1500 + 255, 998), 25_500_000);
    assert_eq!(canvas.pixel(1500 + 256, 998), WHITE);
    // A second redraw much later dispatches the next 256; 88 never leave.
    let (app, _) = run(&file, &vec![3000, 100_000, 200_000]).unwrap();
    let canvas = app.update_texture_pipeline();
    let painted = canvas.canvas_image().iter().filter(|c| **c != WHITE).count();
    assert_eq!(painted, 512);
}

#[test]
fn viewer_starts_fitted_to_its_default_window() {
    let mut app = App::new();
    let first = app.draw_quad_pipeline().vertices();
    assert_eq!(first[1].position.0.num * 1280 * 2000, first[1].position.0.den * 720 * 3000);
    app.on_resize(0, 600);
    assert_eq!(app.draw_quad_pipeline().vertices(), first);
    app.on_resize(1000, 1000);
    assert_eq!((first[1].position.1.num, first[1].position.1.den), (1, 1));
    let second = app.draw_quad_pipeline().vertices();
    assert_eq!((second[1].position.0.num, second[1].position.0.den), (1, 1));
    assert_eq!(second[1].position.1.num * 3, second[1].position.1.den * 2);
}

#[test]
fn host_events_and_answers() {
    let mut state = EventLoop::new();
    assert_eq!(state.handle(HostEvent::AboutToWait), Action::RequestRedraw);
    assert_eq!(state.handle(HostEvent::RedrawRequested), Action::Redraw);
    assert_eq!(
        state.handle(HostEvent::Resized {
            width: 800,
            height: 600
        }),
        Action::Resize {
            width: 800,
            height: 600
        }
    );
    assert_eq!(
        state.handle(HostEvent::ScaleFactorChanged {
            width: 1600,
            height: 1200
        }),
        Action::Resize {
            width: 1600,
            height: 1200
        }
    );
    assert_eq!(state.handle(HostEvent::Other), Action::Nothing);
    assert_eq!(state.handle(HostEvent::Occluded { occluded: true }), Action::Nothing);
    assert_eq!(state.handle(HostEvent::AboutToWait), Action::Nothing);
    assert_eq!(state.handle(HostEvent::RedrawRequested), Action::Redraw);
    assert_eq!(state.handle(HostEvent::Occluded { occluded: false }), Action::Nothing);
    assert_eq!(state.handle(HostEvent::AboutToWait), Action::RequestRedraw);
    assert_eq!(state.handle(HostEvent::EscapePressed), Action::Exit);
    assert_eq!(state.handle(HostEvent::CloseRequested), Action::Exit);
}

#[test]
fn device_errors_and_recovery() {
    assert_eq!(recover(RenderError::DeviceLost), Recovery::Reconfigure);
    assert_eq!(recover(RenderError::OutOfMemory), Recovery::Terminate);
    assert_eq!(recover(RenderError::TransientRender), Recovery::SkipFrame);
}

#[test]
fn extent_of_the_two_corner_points() {
    let events = vec![point(0, -1500, -1000), point(1, 1499, 999)];
    assert_eq!(get_max_min_coord(&events), ((-1500, -1000), (1499, 999)));
    assert_eq!(find_never_updated_pixels(&events), 6_000_000 - 2);
}

#[test]
fn extent_looks_at_points_only() {
    let events = vec![
        shape(Coordinate::Circle {
            x: -3000,
            y: 3000,
            radius: 9,
        }),
        point(0, 5, -7),
        shape(Coordinate::Rectangle {
            x1: -9,
            y1: -9,
            x2: 9,
            y2: 9,
        }),
        point(1, -2, 3),
    ];
    assert_eq!(get_max_min_coord(&events), ((-2, -7), (5, 3)));
    assert_eq!(
        get_max_min_coord(&Vec::new()),
        ((i16::MAX, i16::MAX), (i16::MIN, i16::MIN))
    );
}

#[test]
fn never_updated_counts_what_no_shape_reached() {
    assert_eq!(find_never_updated_pixels(&Vec::new()), 6_000_000);
    let events = vec![
        shape(Coordinate::Rectangle {
            x1: -2,
            y1: -2,
            x2: 2,
            y2: 2,
        }),
        shape(Coordinate::Circle {
            x: 0,
            y: 0,
            radius: 3,
        }),
        shape(Coordinate::Simple { x: 100, y: 100 }),
        shape(Coordinate::Simple { x: 100, y: 100 }),
        shape(Coordinate::Simple { x: 3000, y: 0 }),
    ];
    // The disc has the 25 texels of the columns 1498 to 1502 and the rows 997
    // to 1001; the 16 texels of the block are among them.
    assert_eq!(find_never_updated_pixels(&events), 6_000_000 - 25 - 1);
}

#[test]
fn never_updated_skips_shapes_anchored_off_the_canvas() {
    let events = vec![
        // One corner is off the canvas: the whole rectangle is left out.
        shape(Coordinate::Rectangle {
            x1: -1501,
            y1: 0,
            x2: 0,
            y2: 10,
        }),
        shape(Coordinate::Rectangle {
            x1: 0,
            y1: 0,
            x2: 10,
            y2: 1000,
        }),
        // The centre is off the canvas: the whole disc is left out.
        shape(Coordinate::Circle {
            x: 1500,
            y: 0,
            radius: 50,
        }),
    ];
    assert_eq!(find_never_updated_pixels(&events), 6_000_000);
    let events = vec![shape(Coordinate::Circle {
        x: 1499,
        y: 0,
        radius: 2,
    })];
    // Of the 9 texels of the disc, the 3 of the column 3000 lie off the
    // canvas.
    assert_eq!(find_never_updated_pixels(&events), 6_000_000 - 6);
}

#[test]
fn large_shapes_are_listed_in_order() {
    let big_disc = Coordinate::Circle {
        x: 1,
        y: 2,
        radius: 11,
    };
    let big_block = Coordinate::Rectangle {
        x1: 0,
        y1: 0,
        x2: 11,
        y2: 11,
    };
    let far_block = Coordinate::Rectangle {
        x1: i16::MIN,
        y1: i16::MIN,
        x2: i16::MAX,
        y2: i16::MAX,
    };
    let events = vec![
        shape(Coordinate::Simple { x: 100, y: 100 }),
        shape(big_disc),
        shape(Coordinate::Circle {
            x: 1,
            y: 2,
            radius: 10,
        }),
        shape(Coordinate::Rectangle {
            x1: 0,
            y1: 0,
            x2: 10,
            y2: 100,
        }),
        shape(Coordinate::Rectangle {
            x1: 0,
            y1: 0,
            x2: 100,
            y2: 10,
        }),
        shape(big_block),
        shape(far_block),
        shape(Coordinate::Rectangle {
            x1: i16::MAX,
            y1: i16::MAX,
            x2: i16::MIN,
            y2: i16::MIN,
        }),
    ];
    assert_eq!(quad_circle(&events), vec![big_disc, big_block, far_block]);
}
