use place_replay::data::{Coordinate, PixelColor, PixelData};
use place_replay::renderer::data::{from_lane, GpuCoordinate, GpuPixelData};
use place_replay::renderer::draw_quad::{fit_quad, DrawQuadPipeline, Fraction};
use place_replay::renderer::update_texture::{
    workgroups, Rgba, UpdateTexturePipeline, MAX_PIXEL_UPDATES, WORKGROUP_SIZE,
};

const WHITE: Rgba = Rgba {
    r: 255,
    g: 255,
    b: 255,
    a: 255,
};
const RED: Rgba = Rgba {
    r: 255,
    g: 0,
    b: 0,
    a: 255,
};
const GREEN: Rgba = Rgba {
    r: 0,
    g: 255,
    b: 0,
    a: 255,
};
const BLUE: Rgba = Rgba {
    r: 0,
    g: 0,
    b: 255,
    a: 255,
};

fn event(t: u32, coordinate: Coordinate, rgb: (u8, u8, u8)) -> PixelData {
    PixelData {
        miliseconds_since_first_pixel: t,
        coordinate,
        pixel_color: PixelColor {
            r: rgb.0,
            g: rgb.1,
            b: rgb.2,
        },
    }
}

fn gpu(t: u32, coordinate: Coordinate, rgb: (u8, u8, u8)) -> GpuPixelData {
    GpuPixelData::from(event(t, coordinate, rgb))
}

fn count_not_white(canvas: &UpdateTexturePipeline) -> usize {
    canvas.canvas_image().iter().filter(|c| **c != WHITE).count()
}

fn value(f: Fraction) -> f32 {
    f.num as f32 / f.den as f32
}

#[test]
fn gpu_layout_of_shapes() {
    assert_eq!(
        GpuCoordinate::from(Coordinate::Simple { x: 0, y: 0 }),
        GpuCoordinate {
            tag: 0,
            data: [1500, 999, 0, 0]
        }
    );
    assert_eq!(
        GpuCoordinate::from(Coordinate::Rectangle {
            x1: -1500,
            y1: -1000,
            x2: 1499,
            y2: 999
        }),
        GpuCoordinate {
            tag: 1,
            data: [0, 1999, 2999, 0]
        }
    );
    assert_eq!(
        GpuCoordinate::from(Coordinate::Circle {
            x: 10,
            y: -10,
            radius: 7
        }),
        GpuCoordinate {
            tag: 2,
            data: [1510, 1009, 7, 0]
        }
    );
}

#[test]
fn gpu_layout_keeps_negative_numbers() {
    let c = GpuCoordinate::from(Coordinate::Circle {
        x: -1501,
        y: 1000,
        radius: -3,
    });
    assert_eq!(c.data, [u32::MAX, u32::MAX, u32::MAX - 2, 0]);
    assert_eq!(from_lane(c.data[0]), -1);
    assert_eq!(from_lane(c.data[1]), -1);
    assert_eq!(from_lane(c.data[2]), -3);
    assert_eq!(from_lane(0x7fff_ffff), i32::MAX);
    assert_eq!(from_lane(0x8000_0000), i32::MIN);
}

#[test]
fn gpu_layout_of_an_event() {
    let e = GpuPixelData::from(event(77, Coordinate::Simple { x: 1, y: 2 }, (3, 4, 5)));
    assert_eq!(e.miliseconds_since_first_pixel, 77);
    assert_eq!(e.coordinate.data, [1501, 997, 0, 0]);
    assert_eq!(e.color, [3, 4, 5]);
    let lanes: [u32; 3] = PixelColor { r: 255, g: 0, b: 128 }.into();
    assert_eq!(lanes, [255, 0, 128]);
}

#[test]
fn new_canvas_is_white_and_never_written() {
    let canvas = UpdateTexturePipeline::new((3000, 2000));
    assert_eq!(canvas.canvas_size(), (3000, 2000));
    assert_eq!(canvas.canvas_image().len(), 6_000_000);
    assert_eq!(count_not_white(&canvas), 0);
    assert_eq!(canvas.timestamp(0, 0), 0);
    assert_eq!(canvas.timestamp(2999, 1999), 0);
}

#[test]
fn one_point_paints_one_texel() {
    let mut canvas = UpdateTexturePipeline::new((3000, 2000));
    canvas.apply(&gpu(0, Coordinate::Simple { x: 0, y: 0 }, (255, 0, 0)));
    assert_eq!(canvas.pixel(1500, 999), RED);
    assert_eq!(count_not_white(&canvas), 1);
}

#[test]
fn later_event_wins_in_either_order() {
    let red = gpu(10, Coordinate::Simple { x: 0, y: 0 }, (255, 0, 0));
    let blue = gpu(5, Coordinate::Simple { x: 0, y: 0 }, (0, 0, 255));
    let mut canvas = UpdateTexturePipeline::new((3000, 2000));
    canvas.apply(&red);
    canvas.apply(&blue);
    assert_eq!(canvas.pixel(1500, 999), RED);
    assert_eq!(canvas.timestamp(1500, 999), 10);
    let mut canvas = UpdateTexturePipeline::new((3000, 2000));
    canvas.apply(&blue);
    assert_eq!(canvas.pixel(1500, 999), BLUE);
    canvas.apply(&red);
    assert_eq!(canvas.pixel(1500, 999), RED);
    assert_eq!(canvas.timestamp(1500, 999), 10);
}

#[test]
fn equal_timestamps_let_the_later_in_order_write() {
    let a = gpu(5, Coordinate::Simple { x: 0, y: 0 }, (255, 0, 0));
    let b = gpu(5, Coordinate::Simple { x: 0, y: 0 }, (0, 0, 255));
    let mut canvas = UpdateTexturePipeline::new((4000, 2000));
    canvas.apply(&a);
    canvas.apply(&b);
    assert_eq!(canvas.pixel(1500, 999), BLUE);
}

#[test]
fn every_order_of_a_batch_ends_alike() {
    let mut batch = Vec::new();
    for k in 0..1024u32 {
        let t = (k * 7919) % 1021;
        let rgb = ((t % 256) as u8, (t / 256) as u8, 9);
        batch.push(event(t, Coordinate::Simple { x: 3, y: 4 }, rgb));
    }
    // The largest timestamp, 1020, is held by one event only.
    let expected = Rgba {
        r: (1020 % 256) as u8,
        g: (1020 / 256) as u8,
        b: 9,
        a: 255,
    };
    let orders: [u32; 4] = [1, 3, 5, 1023];
    for step in orders.iter() {
        let mut order = Vec::new();
        for k in 0..1024u32 {
            order.push(batch[((k * step) % 1024) as usize]);
        }
        let mut canvas = UpdateTexturePipeline::new((3000, 2000));
        canvas.compute(&order);
        assert_eq!(canvas.pixel(1503, 995), expected);
        assert_eq!(canvas.timestamp(1503, 995), 1020);
        assert_eq!(count_not_white(&canvas), 1);
    }
}

#[test]
fn rectangle_paints_a_block() {
    let mut canvas = UpdateTexturePipeline::new((3000, 2000));
    canvas.apply(&gpu(
        1,
        Coordinate::Rectangle {
            x1: -2,
            y1: -2,
            x2: 2,
            y2: 2,
        },
        (0, 255, 0),
    ));
    assert_eq!(count_not_white(&canvas), 16);
    for i in 1498..1502u32 {
        for j in 997..1001u32 {
            assert_eq!(canvas.pixel(i, j), GREEN);
            assert_eq!(canvas.timestamp(i, j), 1);
        }
    }
    assert_eq!(canvas.pixel(1497, 997), WHITE);
    assert_eq!(canvas.pixel(1502, 1000), WHITE);
    assert_eq!(canvas.pixel(1498, 996), WHITE);
    assert_eq!(canvas.pixel(1501, 1001), WHITE);
}

#[test]
fn rectangle_without_area_paints_nothing() {
    let mut canvas = UpdateTexturePipeline::new((3000, 2000));
    let shapes = [
        Coordinate::Rectangle {
            x1: 2,
            y1: -2,
            x2: -2,
            y2: 2,
        },
        Coordinate::Rectangle {
            x1: -2,
            y1: 2,
            x2: 2,
            y2: -2,
        },
        Coordinate::Rectangle {
            x1: 0,
            y1: 0,
            x2: 0,
            y2: 5,
        },
    ];
    for shape in shapes.iter() {
        canvas.apply(&gpu(1, *shape, (0, 255, 0)));
    }
    assert_eq!(count_not_white(&canvas), 0);
}

#[test]
fn disc_paints_strictly_inside_its_radius() {
    let mut canvas = UpdateTexturePipeline::new((3000, 2000));
    canvas.apply(&gpu(
        1,
        Coordinate::Circle {
            x: 0,
            y: 0,
            radius: 3,
        },
        (0, 0, 255),
    ));
    let mut painted = 0;
    for i in 0..3000i64 {
        for j in 0..2000i64 {
            let inside = (i - 1500) * (i - 1500) + (j - 999) * (j - 999) < 9;
            let expected = if inside { BLUE } else { WHITE };
            assert_eq!(canvas.pixel(i as u32, j as u32), expected);
            if inside {
                painted += 1;
            }
        }
    }
    assert_eq!(painted, 25);
    assert_eq!(canvas.pixel(1503, 999), WHITE);
    assert_eq!(canvas.pixel(1502, 999), BLUE);
}

#[test]
fn disc_of_radius_zero_paints_nothing() {
    let mut canvas = UpdateTexturePipeline::new((3000, 2000));
    canvas.apply(&gpu(1, Coordinate::Circle { x: 0, y: 0, radius: 0 }, (0, 0, 255)));
    assert_eq!(count_not_white(&canvas), 0);
    canvas.apply(&gpu(1, Coordinate::Circle { x: 0, y: 0, radius: 1 }, (0, 0, 255)));
    assert_eq!(count_not_white(&canvas), 1);
}

#[test]
fn shapes_are_clipped_to_the_canvas() {
    let mut canvas = UpdateTexturePipeline::new((3000, 2000));
    canvas.apply(&gpu(
        1,
        Coordinate::Circle {
            x: -1500,
            y: 999,
            radius: 3,
        },
        (0, 0, 255),
    ));
    // The quarter of the disc that is on the canvas: the texels (i, j) from
    // (0, 0) to (2, 2), the farthest of which has 4 + 4 < 9.
    assert_eq!(count_not_white(&canvas), 9);
    assert_eq!(canvas.pixel(0, 0), BLUE);
    assert_eq!(canvas.pixel(2, 0), BLUE);
    assert_eq!(canvas.pixel(0, 2), BLUE);
    assert_eq!(canvas.pixel(2, 2), BLUE);
    assert_eq!(canvas.pixel(3, 0), WHITE);
    let mut canvas = UpdateTexturePipeline::new((3000, 2000));
    canvas.apply(&gpu(
        1,
        Coordinate::Rectangle {
            x1: -2000,
            y1: 990,
            x2: -1498,
            y2: 2000,
        },
        (0, 255, 0),
    ));
    assert_eq!(count_not_white(&canvas), 2 * 9);
    assert_eq!(canvas.pixel(0, 0), GREEN);
    assert_eq!(canvas.pixel(1, 8), GREEN);
    assert_eq!(canvas.pixel(2, 0), WHITE);
    assert_eq!(canvas.pixel(0, 9), WHITE);
}

#[test]
fn events_off_the_canvas_change_nothing() {
    let mut canvas = UpdateTexturePipeline::new((3000, 2000));
    let shapes = [
        Coordinate::Simple { x: 1500, y: 0 },
        Coordinate::Simple { x: 0, y: 1000 },
        Coordinate::Simple { x: -1501, y: -1001 },
        Coordinate::Simple {
            x: i16::MIN,
            y: i16::MAX,
        },
        Coordinate::Rectangle {
            x1: 1500,
            y1: 0,
            x2: 3000,
            y2: 100,
        },
        Coordinate::Rectangle {
            x1: -3000,
            y1: 1000,
            x2: 3000,
            y2: 3000,
        },
        Coordinate::Circle {
            x: 1510,
            y: 0,
            radius: 10,
        },
        Coordinate::Circle {
            x: i16::MAX,
            y: i16::MIN,
            radius: i16::MAX,
        },
    ];
    for shape in shapes.iter() {
        canvas.apply(&gpu(9, *shape, (1, 2, 3)));
    }
    assert_eq!(count_not_white(&canvas), 0);
    assert!((0..2000).all(|j| (0..3000).all(|i| canvas.timestamp(i, j) == 0)));
}

#[test]
fn unknown_tag_changes_nothing() {
    let mut canvas = UpdateTexturePipeline::new((3000, 2000));
    canvas.apply(&GpuPixelData {
        miliseconds_since_first_pixel: 5,
        coordinate: GpuCoordinate {
            tag: 3,
            data: [1500, 999, 10, 10],
        },
        color: [1, 2, 3],
    });
    assert_eq!(count_not_white(&canvas), 0);
}

#[test]
fn colour_lanes_saturate() {
    let mut canvas = UpdateTexturePipeline::new((10, 10));
    canvas.apply(&GpuPixelData {
        miliseconds_since_first_pixel: 5,
        coordinate: GpuCoordinate {
            tag: 0,
            data: [1, 2, 0, 0],
        },
        color: [256, 7, u32::MAX],
    });
    assert_eq!(
        canvas.pixel(1, 2),
        Rgba {
            r: 255,
            g: 7,
            b: 255,
            a: 255
        }
    );
}

#[test]
fn first_dispatch_clears_and_later_ones_do_not() {
    let mut canvas = UpdateTexturePipeline::new((3000, 2000));
    canvas.apply(&gpu(3, Coordinate::Simple { x: 5, y: 5 }, (255, 0, 0)));
    assert_eq!(count_not_white(&canvas), 1);
    canvas.compute(&Vec::new());
    assert_eq!(count_not_white(&canvas), 0);
    assert_eq!(canvas.timestamp(1505, 994), 0);
    let batch: Vec<PixelData> = (0..256)
        .map(|k| event(k, Coordinate::Simple { x: k as i16, y: 0 }, (0, 255, 0)))
        .collect();
    canvas.compute(&batch);
    assert_eq!(count_not_white(&canvas), 256);
    canvas.compute(&Vec::new());
    assert_eq!(count_not_white(&canvas), 256);
    assert_eq!(canvas.pixel(1755, 999), GREEN);
    assert_eq!(canvas.timestamp(1755, 999), 255);
}

#[test]
fn timestamps_last_across_dispatches() {
    let mut canvas = UpdateTexturePipeline::new((3000, 2000));
    let late: Vec<PixelData> = (0..256)
        .map(|_| event(100, Coordinate::Simple { x: 0, y: 0 }, (255, 0, 0)))
        .collect();
    let early: Vec<PixelData> = (0..256)
        .map(|_| event(50, Coordinate::Simple { x: 0, y: 0 }, (0, 0, 255)))
        .collect();
    canvas.compute(&late);
    canvas.compute(&early);
    assert_eq!(canvas.pixel(1500, 999), RED);
    assert_eq!(canvas.timestamp(1500, 999), 100);
}

#[test]
fn dispatch_sizes() {
    assert_eq!(WORKGROUP_SIZE, 256);
    assert_eq!(MAX_PIXEL_UPDATES, 128 * 1024 * 1024 / 64);
    assert_eq!(workgroups(0), 0);
    assert_eq!(workgroups(256), 1);
    assert_eq!(workgroups(2_097_152), 8192);
}

#[test]
fn draw_quad_test_fit_quad() {
    let vertices = fit_quad((1920, 1080), (3000, 2000));
    assert_eq!(
        [value(vertices[0].position.0), value(vertices[0].position.1)],
        [-0.84375, 1.0]
    );
}

#[test]
fn presentation_test_fit_quad() {
    let pipeline = DrawQuadPipeline::new((1920, 1080), (3000, 2000));
    let vertices = pipeline.vertices();
    assert_eq!(
        [value(vertices[0].position.0), value(vertices[0].position.1)],
        [-0.84375, 1.0]
    );
}

#[test]
fn quad_is_a_strip_with_texture_corners() {
    let v = fit_quad((1280, 720), (3000, 2000));
    let corners: Vec<(f32, f32, u8, u8)> = v
        .iter()
        .map(|c| (value(c.position.0), value(c.position.1), c.uv.0, c.uv.1))
        .collect();
    assert_eq!(
        corners,
        vec![
            (-0.84375, 1.0, 0, 0),
            (0.84375, 1.0, 1, 0),
            (-0.84375, -1.0, 0, 1),
            (0.84375, -1.0, 1, 1),
        ]
    );
}

#[test]
fn quad_fills_one_axis() {
    // A window narrower than the texture: bars above and below.
    let v = fit_quad((1000, 1000), (3000, 2000));
    assert_eq!(value(v[1].position.0), 1.0);
    assert!((value(v[1].position.1) - 2.0 / 3.0).abs() < 1e-6);
    // A window of the texture's own shape: no bars.
    let v = fit_quad((1500, 1000), (3000, 2000));
    assert_eq!((value(v[1].position.0), value(v[1].position.1)), (1.0, 1.0));
    // The largest sizes there are.
    let v = fit_quad((u32::MAX, 1), (1, u32::MAX));
    assert_eq!(value(v[1].position.1), 1.0);
    assert!(value(v[1].position.0) > 0.0);
}

#[test]
fn quad_follows_the_window() {
    let mut pipeline = DrawQuadPipeline::new((1280, 720), (3000, 2000));
    pipeline.update_window_aspect_ratio((1000, 1000));
    assert_eq!(pipeline.vertices(), fit_quad((1000, 1000), (3000, 2000)));
}

#[test]
fn staging_layout_of_an_event() {
    let e = gpu(
        77,
        Coordinate::Rectangle {
            x1: -1500,
            y1: -1000,
            x2: 1499,
            y2: 999,
        },
        (3, 4, 5),
    );
    assert_eq!(
        e.to_words(),
        [77, 0, 0, 0, 1, 0, 0, 0, 0, 1999, 2999, 0, 3, 4, 5, 0]
    );
    assert_eq!(std::mem::size_of_val(&e.to_words()), 64);
}

#[test]
fn one_draw_of_four_vertices() {
    let pipeline = DrawQuadPipeline::new((1280, 720), (3000, 2000));
    let call = pipeline.draw();
    assert_eq!(
        (
            call.vertex_count,
            call.instance_count,
            call.first_vertex,
            call.first_instance
        ),
        (4, 1, 0, 0)
    );
    assert_eq!(pipeline.vertices().len(), 4);
}
