//! The quad on which the canvas is shown, fitted to the window so that the
//! canvas keeps its aspect ratio.

use vstd::prelude::*;

verus! {

/// A number as a fraction; the denominator is positive.
#[derive(Debug, Clone, Copy, PartialEq, Eq, Structural)]
pub struct Fraction {
    pub num: i128,
    pub den: i128,
}

/// A corner of the quad: where it stands in the window, both axes running
/// from -1 to 1, and which corner of the texture it shows.
#[derive(Debug, Clone, Copy, PartialEq, Eq)]
pub struct TexturedVertex {
    pub position: (Fraction, Fraction),
    pub uv: (u8, u8),
}

/// How far the quad reaches along each axis, as fractions of the window.
pub struct QuadScale {
    pub x: Fraction,
    pub y: Fraction,
}

/// Whether the texture is wider, for its height, than the window.
pub open spec fn texture_is_wider(window: (u32, u32), texture: (u32, u32)) -> bool {
    texture.0 * window.1 > window.0 * texture.1
}

/// The scale that fits the texture into the window: where the texture is the
/// wider of the two it fills the width and leaves bars above and below,
/// otherwise it fills the height and leaves bars at the sides.
pub open spec fn quad_scale(window: (u32, u32), texture: (u32, u32)) -> QuadScale {
    if texture_is_wider(window, texture) {
        QuadScale {
            x: Fraction { num: 1, den: 1 },
            y: Fraction {
                num: (window.0 * texture.1) as i128,
                den: (window.1 * texture.0) as i128,
            },
        }
    } else {
        QuadScale {
            x: Fraction {
                num: (texture.0 * window.1) as i128,
                den: (texture.1 * window.0) as i128,
            },
            y: Fraction { num: 1, den: 1 },
        }
    }
}

pub open spec fn negated(f: Fraction) -> Fraction {
    Fraction { num: (-f.num) as i128, den: f.den }
}

/// The four corners of a quad of the given scale, as a triangle strip: top
/// left, top right, bottom left, bottom right.
pub open spec fn quad_vertices(scale: QuadScale) -> Seq<TexturedVertex> {
    seq![
        TexturedVertex { position: (negated(scale.x), scale.y), uv: (0, 0) },
        TexturedVertex { position: (scale.x, scale.y), uv: (1, 0) },
        TexturedVertex { position: (negated(scale.x), negated(scale.y)), uv: (0, 1) },
        TexturedVertex { position: (scale.x, negated(scale.y)), uv: (1, 1) },
    ]
}

pub open spec fn positive(size: (u32, u32)) -> bool {
    size.0 > 0 && size.1 > 0
}

/// The fitted quad fills one axis of the window and does not leave the
/// other, and on the screen it has the aspect ratio of the texture.
pub proof fn fit_keeps_aspect(window: (u32, u32), texture: (u32, u32))
    requires
        positive(window),
        positive(texture),
    ensures
        ({
            let s = quad_scale(window, texture);
            &&& 0 < s.x.num <= s.x.den
            &&& 0 < s.y.num <= s.y.den
            &&& texture_is_wider(window, texture) ==> s.x.num == s.x.den
            &&& !texture_is_wider(window, texture) ==> s.y.num == s.y.den
            &&& (s.x.num * window.0) * (s.y.den * texture.1) == (s.y.num * window.1) * (s.x.den
                * texture.0)
        }),
{
    let ww = window.0 as int;
    let wh = window.1 as int;
    let tw = texture.0 as int;
    let th = texture.1 as int;
    assert(0 < ww * th <= 0xffff_ffff * 0xffff_ffff) by (nonlinear_arith)
        requires
            0 < ww <= 0xffff_ffff,
            0 < th <= 0xffff_ffff,
    ;
    assert(0 < wh * tw <= 0xffff_ffff * 0xffff_ffff) by (nonlinear_arith)
        requires
            0 < wh <= 0xffff_ffff,
            0 < tw <= 0xffff_ffff,
    ;
    assert(tw * wh == wh * tw && th * ww == ww * th) by (nonlinear_arith);
    let s = quad_scale(window, texture);
    if tw * wh > ww * th {
        assert(s.x.num == 1 && s.x.den == 1 && s.y.num == ww * th && s.y.den == wh * tw);
        assert((1 * ww) * ((wh * tw) * th) == ((ww * th) * wh) * (1 * tw)) by (nonlinear_arith);
    } else {
        assert(s.y.num == 1 && s.y.den == 1 && s.x.num == tw * wh && s.x.den == th * ww);
        assert(((tw * wh) * ww) * (1 * th) == (1 * wh) * ((th * ww) * tw)) by (nonlinear_arith);
    }
}

/// Fits a quad that shows a texture of the given size to a window of the
/// given size. Both sizes are width, then height.
pub fn fit_quad(window: (u32, u32), texture: (u32, u32)) -> (vertices: [TexturedVertex; 4])
    requires
        positive(window),
        positive(texture),
    ensures
        vertices@ == quad_vertices(quad_scale(window, texture)),
{
    let ww: i128 = window.0 as i128;
    let wh: i128 = window.1 as i128;
    let tw: i128 = texture.0 as i128;
    let th: i128 = texture.1 as i128;
    assert(0 < ww * th <= 0xffff_ffff * 0xffff_ffff) by (nonlinear_arith)
        requires
            0 < ww <= 0xffff_ffff,
            0 < th <= 0xffff_ffff,
    ;
    assert(0 < wh * tw <= 0xffff_ffff * 0xffff_ffff) by (nonlinear_arith)
        requires
            0 < wh <= 0xffff_ffff,
            0 < tw <= 0xffff_ffff,
    ;
    assert(tw * wh == wh * tw && th * ww == ww * th) by (nonlinear_arith);
    let one = Fraction { num: 1, den: 1 };
    let (x, y) = if tw * wh > ww * th {
        (one, Fraction { num: ww * th, den: wh * tw })
    } else {
        (Fraction { num: tw * wh, den: th * ww }, one)
    };
    let left = Fraction { num: -x.num, den: x.den };
    let down = Fraction { num: -y.num, den: y.den };
    let vertices = [
        TexturedVertex { position: (left, y), uv: (0, 0) },
        TexturedVertex { position: (x, y), uv: (1, 0) },
        TexturedVertex { position: (left, down), uv: (0, 1) },
        TexturedVertex { position: (x, down), uv: (1, 1) },
    ];
    assert(vertices@ =~= quad_vertices(quad_scale(window, texture)));
    vertices
}

/// What one draw of the quad asks of the device.
#[derive(Debug, Clone, Copy, PartialEq, Eq, Structural)]
pub struct DrawCall {
    pub vertex_count: u32,
    pub instance_count: u32,
    pub first_vertex: u32,
    pub first_instance: u32,
}

/// The state of the pass that shows the canvas: the size of the texture it
/// samples and the quad that is drawn.
pub struct DrawQuadPipeline {
    texture: (u32, u32),
    vertices: [TexturedVertex; 4],
}

impl DrawQuadPipeline {
    #[verifier::type_invariant]
    spec fn well_formed(self) -> bool {
        positive(self.texture)
    }

    /// The size of the texture that is shown: width, then height.
    pub closed spec fn texture(&self) -> (u32, u32) {
        self.texture
    }

    /// The quad as it is fitted.
    pub closed spec fn quad(&self) -> Seq<TexturedVertex> {
        self.vertices@
    }

    /// A pass that shows a texture of the given size in a window of the given
    /// size.
    pub fn new(window: (u32, u32), texture: (u32, u32)) -> (pipeline: Self)
        requires
            positive(window),
            positive(texture),
        ensures
            pipeline.texture() == texture,
            pipeline.quad() == quad_vertices(quad_scale(window, texture)),
    {
        DrawQuadPipeline { texture, vertices: fit_quad(window, texture) }
    }

    /// Fits the quad to a window of a new size.
    pub fn update_window_aspect_ratio(&mut self, window: (u32, u32))
        requires
            positive(window),
        ensures
            final(self).texture() == old(self).texture(),
            final(self).quad() == quad_vertices(quad_scale(window, old(self).texture())),
    {
        proof {
            use_type_invariant(&*self);
        }
        self.vertices = fit_quad(window, self.texture);
    }

    /// The one draw that shows the canvas: the four vertices of the quad, as
    /// one instance.
    pub fn draw(&self) -> (call: DrawCall)
        ensures
            call == (DrawCall {
                vertex_count: 4,
                instance_count: 1,
                first_vertex: 0,
                first_instance: 0,
            }),
            call.vertex_count == self.quad().len(),
    {
        DrawCall { vertex_count: 4, instance_count: 1, first_vertex: 0, first_instance: 0 }
    }

    /// The quad as it is drawn.
    pub fn vertices(&self) -> (vertices: [TexturedVertex; 4])
        ensures
            vertices@ == self.quad(),
    {
        self.vertices
    }
}

} // verus!
