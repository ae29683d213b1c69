//! One draw call, stage by stage: transformed vertices are grouped into
//! triangles, triangles are rasterized into fragments, and fragments are
//! shaded and offered to the framebuffer under the depth test.

use vstd::prelude::*;
use crate::color::Color;
use crate::framebuffer::{Framebuffer, FramebufferView, Pixel, commit_all, lemma_index_in_range};
use crate::raster::{Fragment, Vertex, triangle, triangle_fragments};
use crate::shaders::{Signals, shade, shade_color};

verus! {

/// Three transformed vertices, in the order of the vertex array.
#[derive(Debug, Clone, Copy, PartialEq, Eq, Structural)]
pub struct Triangle {
    pub v1: Vertex,
    pub v2: Vertex,
    pub v3: Vertex,
}

/// A fragment together with the signals its material reads there.
#[derive(Debug, Clone, Copy)]
pub struct ShadingInput {
    pub fragment: Fragment,
    pub signals: Signals,
}

/// The triangles of the first `count` triples of a vertex sequence. A
/// vertex that the transform stage could not place is missing, and a
/// triple with a missing vertex gives no triangle.
pub open spec fn triangles_upto(vertices: Seq<Option<Vertex>>, count: nat) -> Seq<Triangle>
    decreases count,
{
    if count == 0 {
        Seq::empty()
    } else {
        let rest = triangles_upto(vertices, (count - 1) as nat);
        let k = 3 * (count - 1);
        match (vertices[k], vertices[k + 1], vertices[k + 2]) {
            (Some(v1), Some(v2), Some(v3)) => rest.push(Triangle { v1, v2, v3 }),
            _ => rest,
        }
    }
}

/// The triangles of a vertex sequence: consecutive triples that do not
/// overlap, in order. One or two vertices left over at the end belong to none.
pub open spec fn triangles_of(vertices: Seq<Option<Vertex>>) -> Seq<Triangle> {
    triangles_upto(vertices, (vertices.len() / 3) as nat)
}

/// The fragments of a sequence of triangles: those of each triangle in
/// scan order, triangle after triangle.
pub open spec fn fragments_of(triangles: Seq<Triangle>, width: int, height: int) -> Seq<Fragment>
    decreases triangles.len(),
{
    if triangles.len() == 0 {
        Seq::empty()
    } else {
        fragments_of(triangles.drop_last(), width, height) + triangle_fragments(
            triangles.last().v1,
            triangles.last().v2,
            triangles.last().v3,
            width,
            height,
        )
    }
}

/// What a shaded fragment offers to its pixel.
pub open spec fn offer(shader_index: int, input: ShadingInput) -> Pixel {
    Pixel {
        color: shade_color(shader_index, input.fragment, input.signals).hex() as u32,
        depth: input.fragment.depth,
        emission: 0,
    }
}

/// The framebuffer after one fragment has been drawn: a fragment on the
/// screen is shaded, its color becomes the drawing color, and it is offered
/// to its pixel; a fragment off the screen changes nothing.
pub open spec fn draw_one(v: FramebufferView, shader_index: int, input: ShadingInput) -> FramebufferView {
    if v.in_bounds(input.fragment.x as int, input.fragment.y as int) {
        (FramebufferView { current: offer(shader_index, input).color, ..v }).commit(
            input.fragment.x as int,
            input.fragment.y as int,
            offer(shader_index, input),
        )
    } else {
        v
    }
}

/// The framebuffer after the fragments have been drawn one after another.
pub open spec fn draw_all(v: FramebufferView, shader_index: int, inputs: Seq<ShadingInput>) -> FramebufferView
    decreases inputs.len(),
{
    if inputs.len() == 0 {
        v
    } else {
        draw_one(draw_all(v, shader_index, inputs.drop_last()), shader_index, inputs.last())
    }
}

/// Groups the vertices into triangles, three by three in order. A
/// triple with a missing vertex is skipped, and a remainder of one or two
/// vertices is dropped.
pub fn assemble(vertices: &Vec<Option<Vertex>>) -> (triangles: Vec<Triangle>)
    ensures
        triangles@ == triangles_of(vertices@),
{
    let n: usize = vertices.len();
    let mut triangles: Vec<Triangle> = Vec::new();
    let mut i: usize = 0;
    let mut count: usize = 0;
    while n - i >= 3
        invariant
            n == vertices@.len(),
            i == 3 * count,
            i <= n,
            triangles@ == triangles_upto(vertices@, count as nat),
        decreases n - i,
    {
        match (vertices[i], vertices[i + 1], vertices[i + 2]) {
            (Some(v1), Some(v2), Some(v3)) => {
                triangles.push(Triangle { v1, v2, v3 });
            },
            _ => {},
        }
        i = i + 3;
        count = count + 1;
    }
    triangles
}

/// Rasterizes the triangles in order onto a screen of the given size.
pub fn rasterize(triangles: &Vec<Triangle>, width: usize, height: usize) -> (fragments: Vec<Fragment>)
    ensures
        fragments@ == fragments_of(triangles@, width as int, height as int),
{
    let mut fragments: Vec<Fragment> = Vec::new();
    let mut i: usize = 0;
    while i < triangles.len()
        invariant
            i <= triangles@.len(),
            fragments@ == fragments_of(triangles@.take(i as int), width as int, height as int),
        decreases triangles@.len() - i,
    {
        let t: &Triangle = &triangles[i];
        let mut more: Vec<Fragment> = triangle(&t.v1, &t.v2, &t.v3, width, height);
        fragments.append(&mut more);
        proof {
            assert(triangles@.take(i + 1).drop_last() =~= triangles@.take(i as int));
            assert(triangles@.take(i + 1).last() == triangles@[i as int]);
        }
        i = i + 1;
    }
    assert(triangles@.take(i as int) =~= triangles@);
    fragments
}

/// Shades each fragment with the material that `shader_index` selects and
/// offers it to the framebuffer, in order. Fragments off the screen are
/// dropped; an index that selects no material draws black.
pub fn render(framebuffer: &mut Framebuffer, inputs: &Vec<ShadingInput>, shader_index: usize)
    requires
        old(framebuffer).wf(),
    ensures
        final(framebuffer).wf(),
        final(framebuffer)@ == draw_all(old(framebuffer)@, shader_index as int, inputs@),
{
    let mut i: usize = 0;
    while i < inputs.len()
        invariant
            i <= inputs@.len(),
            framebuffer.wf(),
            framebuffer@ == draw_all(old(framebuffer)@, shader_index as int, inputs@.take(i as int)),
        decreases inputs@.len() - i,
    {
        let input: &ShadingInput = &inputs[i];
        let x: usize = input.fragment.x;
        let y: usize = input.fragment.y;
        if x < framebuffer.width() && y < framebuffer.height() {
            let color: Color = shade(shader_index, &input.fragment, &input.signals);
            framebuffer.set_current_color(color.to_hex());
            framebuffer.point_with_emission(x, y, input.fragment.depth, 0);
        }
        proof {
            assert(inputs@.take(i + 1).drop_last() =~= inputs@.take(i as int));
            assert(inputs@.take(i + 1).last() == inputs@[i as int]);
        }
        i = i + 1;
    }
    assert(inputs@.take(i as int) =~= inputs@);
}

/// What the fragments offer to the pixel at `(x, y)`, in order.
pub open spec fn offers_at(shader_index: int, inputs: Seq<ShadingInput>, x: int, y: int) -> Seq<Pixel>
    decreases inputs.len(),
{
    if inputs.len() == 0 {
        Seq::empty()
    } else {
        let rest = offers_at(shader_index, inputs.drop_last(), x, y);
        if inputs.last().fragment.x == x && inputs.last().fragment.y == y {
            rest.push(offer(shader_index, inputs.last()))
        } else {
            rest
        }
    }
}

/// Two different pixels of a screen have different places in the row-major order.
pub proof fn lemma_index_injective(width: int, height: int, x1: int, y1: int, x2: int, y2: int)
    requires
        0 <= x1 < width,
        0 <= y1 < height,
        0 <= x2 < width,
        0 <= y2 < height,
        y1 * width + x1 == y2 * width + x2,
    ensures
        x1 == x2,
        y1 == y2,
{
    if y1 < y2 {
        assert(y1 * width + width <= y2 * width) by (nonlinear_arith)
            requires
                y1 + 1 <= y2,
                width > 0,
        ;
    } else if y2 < y1 {
        assert(y2 * width + width <= y1 * width) by (nonlinear_arith)
            requires
                y2 + 1 <= y1,
                width > 0,
        ;
    }
}

/// Drawing changes neither the size of the framebuffer nor its
/// background, and each pixel ends as the depth test leaves it after the
/// offers made to that pixel, in their order, whatever was drawn elsewhere
/// in between.
pub proof fn lemma_draw_all_pixel(
    v: FramebufferView,
    shader_index: int,
    inputs: Seq<ShadingInput>,
    x: int,
    y: int,
)
    requires
        v.pixels.len() == v.width * v.height,
        v.in_bounds(x, y),
    ensures
        draw_all(v, shader_index, inputs).width == v.width,
        draw_all(v, shader_index, inputs).height == v.height,
        draw_all(v, shader_index, inputs).background == v.background,
        draw_all(v, shader_index, inputs).pixels.len() == v.pixels.len(),
        draw_all(v, shader_index, inputs).pixels[v.index(x, y)] == commit_all(
            v.pixels[v.index(x, y)],
            offers_at(shader_index, inputs, x, y),
        ),
    decreases inputs.len(),
{
    if inputs.len() > 0 {
        let front = inputs.drop_last();
        let last = inputs.last();
        let before = draw_all(v, shader_index, front);
        lemma_draw_all_pixel(v, shader_index, front, x, y);
        lemma_index_in_range(x, y, v.width as int, v.height as int);
        let fx = last.fragment.x as int;
        let fy = last.fragment.y as int;
        if before.in_bounds(fx, fy) {
            lemma_index_in_range(fx, fy, v.width as int, v.height as int);
            if fx != x || fy != y {
                if v.index(fx, fy) == v.index(x, y) {
                    lemma_index_injective(v.width as int, v.height as int, fx, fy, x, y);
                }
            } else {
                let offers = offers_at(shader_index, inputs, x, y);
                assert(offers.drop_last() =~= offers_at(shader_index, front, x, y));
            }
        }
    }
}

} // verus!
