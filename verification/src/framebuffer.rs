//! The pixel store: color, depth and emission per pixel, written only
//! through a strict nearer-wins depth test.

use vstd::prelude::*;
use crate::color::Color;

verus! {

/// The depth of a pixel that nothing has been drawn on: farther than
/// every depth a fragment can win with.
pub const DEPTH_INFINITY: i64 = 0x7fff_ffff_ffff_ffff;

/// What one pixel holds, and equally what one fragment offers to a pixel.
pub struct Pixel {
    pub color: u32,
    pub depth: i64,
    pub emission: u32,
}

/// The depth test: the offered sample replaces the pixel exactly when it
/// is strictly nearer, and then replaces all three values at once.
pub open spec fn commit_pixel(p: Pixel, s: Pixel) -> Pixel {
    if s.depth < p.depth {
        s
    } else {
        p
    }
}

/// The pixel after the samples have been offered to it one after another.
pub open spec fn commit_all(p: Pixel, samples: Seq<Pixel>) -> Pixel
    decreases samples.len(),
{
    if samples.len() == 0 {
        p
    } else {
        commit_pixel(commit_all(p, samples.drop_last()), samples.last())
    }
}

/// The least of a pixel's depth and the depths of the samples.
pub open spec fn min_depth(depth: int, samples: Seq<Pixel>) -> int
    decreases samples.len(),
{
    if samples.len() == 0 {
        depth
    } else {
        let rest = min_depth(depth, samples.drop_last());
        if samples.last().depth < rest {
            samples.last().depth as int
        } else {
            rest
        }
    }
}

/// A cleared pixel of the given background.
pub open spec fn blank(background: u32) -> Pixel {
    Pixel { color: background, depth: DEPTH_INFINITY, emission: 0 }
}

/// The abstract state of a framebuffer: its pixels in row-major order,
/// origin at the top left.
pub struct FramebufferView {
    pub width: nat,
    pub height: nat,
    pub pixels: Seq<Pixel>,
    pub background: u32,
    pub current: u32,
}

impl FramebufferView {
    /// Whether the pixel coordinates lie inside the buffer.
    pub open spec fn in_bounds(self, x: int, y: int) -> bool {
        0 <= x < self.width && 0 <= y < self.height
    }

    /// The place of a pixel in the row-major order.
    pub open spec fn index(self, x: int, y: int) -> int {
        y * self.width + x
    }

    /// The state after a sample has been offered at the given pixel;
    /// outside the buffer nothing changes.
    pub open spec fn commit(self, x: int, y: int, s: Pixel) -> FramebufferView {
        if self.in_bounds(x, y) {
            FramebufferView {
                pixels: self.pixels.update(
                    self.index(x, y),
                    commit_pixel(self.pixels[self.index(x, y)], s),
                ),
                ..self
            }
        } else {
            self
        }
    }
}

pub struct Framebuffer {
    width: usize,
    height: usize,
    buffer: Vec<u32>,
    zbuffer: Vec<i64>,
    emission_buffer: Vec<u32>,
    background_color: u32,
    current_color: u32,
}

/// A pixel index inside the buffer stays below the pixel count.
pub proof fn lemma_index_in_range(x: int, y: int, width: int, height: int)
    requires
        0 <= x < width,
        0 <= y < height,
    ensures
        0 <= y * width + x < width * height,
{
    assert(y * width + x < width * height && y * width >= 0) by (nonlinear_arith)
        requires
            0 <= x < width,
            0 <= y < height,
    ;
}

impl View for Framebuffer {
    type V = FramebufferView;

    closed spec fn view(&self) -> FramebufferView {
        FramebufferView {
            width: self.width as nat,
            height: self.height as nat,
            pixels: Seq::new(
                self.buffer@.len(),
                |i: int|
                    Pixel {
                        color: self.buffer@[i],
                        depth: self.zbuffer@[i],
                        emission: self.emission_buffer@[i],
                    },
            ),
            background: self.background_color,
            current: self.current_color,
        }
    }
}

impl Framebuffer {
    /// The three planes hold one entry per pixel. Every buffer that this
    /// module hands out is well formed, and every method keeps it so.
    pub closed spec fn wf(&self) -> bool {
        &&& self.buffer@.len() == self.width * self.height
        &&& self.zbuffer@.len() == self.width * self.height
        &&& self.emission_buffer@.len() == self.width * self.height
    }

    /// A buffer of `width` by `height` pixels, black, with nothing drawn;
    /// the drawing color starts as white.
    pub fn new(width: usize, height: usize) -> (fb: Framebuffer)
        requires
            width * height <= usize::MAX,
        ensures
            fb.wf(),
            fb@.width == width,
            fb@.height == height,
            fb@.pixels == Seq::new((width * height) as nat, |i: int| blank(0)),
            fb@.background == 0,
            fb@.current == 0xFF_FFFF,
    {
        let n: usize = width * height;
        let fb = Framebuffer {
            width,
            height,
            buffer: vec![0u32; n],
            zbuffer: vec![DEPTH_INFINITY; n],
            emission_buffer: vec![0u32; n],
            background_color: 0x00_0000,
            current_color: 0xFF_FFFF,
        };
        assert(fb@.pixels =~= Seq::new((width * height) as nat, |i: int| blank(0)));
        fb
    }

    /// A well-formed buffer holds exactly `width * height` pixels.
    pub proof fn lemma_pixel_count(&self)
        requires
            self.wf(),
        ensures
            self@.pixels.len() == self@.width * self@.height,
    {
    }

    pub fn width(&self) -> (w: usize)
        ensures
            w == self@.width,
    {
        self.width
    }

    pub fn height(&self) -> (h: usize)
        ensures
            h == self@.height,
    {
        self.height
    }

    /// The packed colors in row-major order, for a display surface.
    pub fn buffer(&self) -> (pixels: &Vec<u32>)
        ensures
            pixels@.len() == self@.pixels.len(),
            forall|i: int| 0 <= i < pixels@.len() ==> pixels@[i] == (#[trigger] self@.pixels[i]).color,
    {
        &self.buffer
    }

    /// What the pixel holds, or nothing outside the buffer.
    pub fn pixel(&self, x: usize, y: usize) -> (p: Option<Pixel>)
        requires
            self.wf(),
        ensures
            self@.in_bounds(x as int, y as int) ==> p == Some(
                self@.pixels[self@.index(x as int, y as int)],
            ),
            !self@.in_bounds(x as int, y as int) ==> p is None,
    {
        if x < self.width && y < self.height {
            let count: usize = self.buffer.len();
            proof {
                lemma_index_in_range(x as int, y as int, self.width as int, self.height as int);
                assert(self.width * self.height == count);
            }
            let index: usize = y * self.width + x;
            Some(
                Pixel {
                    color: self.buffer[index],
                    depth: self.zbuffer[index],
                    emission: self.emission_buffer[index],
                },
            )
        } else {
            None
        }
    }

    /// Resets every pixel to the background color, infinitely far, with
    /// no emission.
    pub fn clear(&mut self)
        requires
            old(self).wf(),
        ensures
            final(self).wf(),
            final(self)@.pixels == Seq::new(
                old(self)@.pixels.len(),
                |i: int| blank(old(self)@.background),
            ),
            final(self)@.width == old(self)@.width,
            final(self)@.height == old(self)@.height,
            final(self)@.background == old(self)@.background,
            final(self)@.current == old(self)@.current,
    {
        let n: usize = self.buffer.len();
        let mut i: usize = 0;
        while i < n
            invariant
                i <= n,
                self.width == old(self).width,
                self.height == old(self).height,
                self.background_color == old(self).background_color,
                self.current_color == old(self).current_color,
                n == self.width * self.height,
                self.buffer@.len() == n,
                self.zbuffer@.len() == n,
                self.emission_buffer@.len() == n,
                forall|j: int|
                    0 <= j < i ==> self.buffer@[j] == self.background_color && self.zbuffer@[j]
                        == DEPTH_INFINITY && self.emission_buffer@[j] == 0,
            decreases n - i,
        {
            self.buffer.set(i, self.background_color);
            self.zbuffer.set(i, DEPTH_INFINITY);
            self.emission_buffer.set(i, 0);
            i = i + 1;
        }
        assert(self@.pixels =~= Seq::new(
            old(self)@.pixels.len(),
            |i: int| blank(old(self)@.background),
        ));
    }

    /// Paints every pixel with the given color and resets its depth and
    /// emission, so that anything drawn afterwards lies in front of it. The
    /// background color that `clear` uses stays as it is.
    pub fn clear_color(&mut self, color: Color)
        requires
            old(self).wf(),
        ensures
            final(self).wf(),
            final(self)@ == (FramebufferView {
                pixels: Seq::new(old(self)@.pixels.len(), |i: int| blank(color.hex() as u32)),
                ..old(self)@
            }),
    {
        let background: u32 = self.background_color;
        self.background_color = color.to_hex();
        self.clear();
        self.background_color = background;
    }

    pub fn set_background_color(&mut self, color: u32)
        ensures
            old(self).wf() ==> final(self).wf(),
            final(self)@ == (FramebufferView { background: color, ..old(self)@ }),
    {
        self.background_color = color;
    }

    pub fn set_current_color(&mut self, color: u32)
        ensures
            old(self).wf() ==> final(self).wf(),
            final(self)@ == (FramebufferView { current: color, ..old(self)@ }),
    {
        self.current_color = color;
    }

    /// Offers a sample of the current drawing color to the pixel at
    /// `(x, y)`: it is taken, color, depth and emission together, exactly
    /// when `depth` is strictly less than the depth the pixel holds.
    /// Outside the buffer nothing happens.
    pub fn point_with_emission(&mut self, x: usize, y: usize, depth: i64, emission: u32)
        requires
            old(self).wf(),
        ensures
            final(self).wf(),
            final(self)@ == old(self)@.commit(
                x as int,
                y as int,
                (Pixel { color: old(self)@.current, depth, emission }),
            ),
    {
        if x < self.width && y < self.height {
            let count: usize = self.buffer.len();
            proof {
                lemma_index_in_range(x as int, y as int, self.width as int, self.height as int);
                assert(self.width * self.height == count);
            }
            let index: usize = y * self.width + x;
            if self.zbuffer[index] > depth {
                self.buffer.set(index, self.current_color);
                self.emission_buffer.set(index, emission);
                self.zbuffer.set(index, depth);
            }
            assert(self@.pixels =~= old(self)@.commit(
                x as int,
                y as int,
                Pixel { color: old(self)@.current, depth, emission },
            ).pixels);
        }
    }

    /// Offers a sample of the given color to the pixel at `(x, y)` under
    /// the same depth test; the drawing color becomes that color.
    pub fn commit(&mut self, x: usize, y: usize, depth: i64, color: Color, emission: u32)
        requires
            old(self).wf(),
        ensures
            final(self).wf(),
            final(self)@ == (FramebufferView { current: color.hex() as u32, ..old(self)@ }).commit(
                x as int,
                y as int,
                (Pixel { color: color.hex() as u32, depth, emission }),
            ),
    {
        self.set_current_color(color.to_hex());
        self.point_with_emission(x, y, depth, emission);
    }
}

/// Whether no two samples share a depth while differing in what they carry.
pub open spec fn ties_agree(samples: Seq<Pixel>) -> bool {
    forall|i: int, j: int|
        0 <= i < samples.len() && 0 <= j < samples.len() && samples[i].depth == samples[j].depth
            ==> samples[i] == samples[j]
}

/// After any run of samples the pixel's depth is the least depth it was
/// ever offered, its own starting depth included.
pub proof fn lemma_commit_all_depth(p: Pixel, samples: Seq<Pixel>)
    ensures
        commit_all(p, samples).depth == min_depth(p.depth as int, samples),
    decreases samples.len(),
{
    if samples.len() > 0 {
        lemma_commit_all_depth(p, samples.drop_last());
    }
}

/// After any run of samples the pixel is either untouched, and then no
/// sample was strictly nearer than it, or it is one of the samples, strictly
/// nearer than the starting pixel, with no sample nearer than it and
/// every earlier sample strictly farther.
pub proof fn lemma_commit_all_winner(p: Pixel, samples: Seq<Pixel>)
    ensures
        ({
            let r = commit_all(p, samples);
            ||| (r == p && forall|j: int| 0 <= j < samples.len() ==> samples[j].depth >= p.depth)
            ||| exists|i: int|
                {
                    &&& 0 <= i < samples.len()
                    &&& r == #[trigger] samples[i]
                    &&& r.depth < p.depth
                    &&& forall|j: int| 0 <= j < samples.len() ==> samples[j].depth >= r.depth
                    &&& forall|j: int| 0 <= j < i ==> samples[j].depth > r.depth
                }
        }),
    decreases samples.len(),
{
    if samples.len() > 0 {
        let front = samples.drop_last();
        let last = samples.last();
        let before = commit_all(p, front);
        let r = commit_all(p, samples);
        lemma_commit_all_winner(p, front);
        assert(forall|j: int| 0 <= j < front.len() ==> front[j] == samples[j]);
        if last.depth < before.depth {
            let i = samples.len() - 1;
            assert(r == samples[i]);
            assert(forall|j: int| 0 <= j < i ==> samples[j].depth > r.depth);
        } else {
            if before == p && (forall|j: int| 0 <= j < front.len() ==> front[j].depth >= p.depth) {
                assert(forall|j: int| 0 <= j < samples.len() ==> samples[j].depth >= p.depth);
            } else {
                let i = choose|i: int|
                    {
                        &&& 0 <= i < front.len()
                        &&& before == #[trigger] front[i]
                        &&& before.depth < p.depth
                        &&& forall|j: int| 0 <= j < front.len() ==> front[j].depth >= before.depth
                        &&& forall|j: int| 0 <= j < i ==> front[j].depth > before.depth
                    };
                assert(r == samples[i]);
                assert(forall|j: int| 0 <= j < samples.len() ==> samples[j].depth >= r.depth);
                assert(forall|j: int| 0 <= j < i ==> samples[j].depth > r.depth);
            }
        }
    }
}

/// The depth test makes the outcome independent of submission order: two
/// runs that offer the same samples, in whatever order, leave the same
/// pixel, provided samples of equal depth carry equal values.
pub proof fn lemma_commit_order_independent(p: Pixel, first: Seq<Pixel>, second: Seq<Pixel>)
    requires
        first.to_multiset() == second.to_multiset(),
        ties_agree(first),
    ensures
        commit_all(p, first) == commit_all(p, second),
        commit_all(p, first).depth == min_depth(p.depth as int, first),
{
    let r1 = commit_all(p, first);
    let r2 = commit_all(p, second);
    lemma_commit_all_winner(p, first);
    lemma_commit_all_winner(p, second);
    lemma_commit_all_depth(p, first);
    first.to_multiset_ensures();
    second.to_multiset_ensures();
    assert(forall|s: Pixel| first.contains(s) <==> second.contains(s)) by {
        assert(forall|s: Pixel| first.contains(s) <==> first.to_multiset().count(s) > 0);
        assert(forall|s: Pixel| second.contains(s) <==> second.to_multiset().count(s) > 0);
    }
    assert(forall|j: int| 0 <= j < second.len() ==> first.contains(#[trigger] second[j]));
    assert(forall|j: int| 0 <= j < first.len() ==> second.contains(#[trigger] first[j]));
    let first_untouched = r1 == p && forall|j: int|
        0 <= j < first.len() ==> first[j].depth >= p.depth;
    let second_untouched = r2 == p && forall|j: int|
        0 <= j < second.len() ==> second[j].depth >= p.depth;
    if first_untouched {
        if !second_untouched {
            let k = choose|k: int|
                0 <= k < second.len() && r2 == #[trigger] second[k] && r2.depth < p.depth;
            assert(first.contains(second[k]));
            let m = choose|m: int| 0 <= m < first.len() && first[m] == second[k];
            assert(first[m].depth >= p.depth);
        }
    } else {
        let i = choose|i: int|
            {
                &&& 0 <= i < first.len()
                &&& r1 == #[trigger] first[i]
                &&& r1.depth < p.depth
                &&& forall|j: int| 0 <= j < first.len() ==> first[j].depth >= r1.depth
                &&& forall|j: int| 0 <= j < i ==> first[j].depth > r1.depth
            };
        assert(second.contains(first[i]));
        let n = choose|n: int| 0 <= n < second.len() && second[n] == first[i];
        if second_untouched {
            assert(second[n].depth >= p.depth);
        } else {
            let k = choose|k: int|
                {
                    &&& 0 <= k < second.len()
                    &&& r2 == #[trigger] second[k]
                    &&& r2.depth < p.depth
                    &&& forall|j: int| 0 <= j < second.len() ==> second[j].depth >= r2.depth
                    &&& forall|j: int| 0 <= j < k ==> second[j].depth > r2.depth
                };
            assert(second[n].depth >= r2.depth);
            assert(first.contains(second[k]));
            let m = choose|m: int| 0 <= m < first.len() && first[m] == second[k];
            assert(first[m].depth >= r1.depth);
            assert(first[m].depth == first[i].depth);
        }
    }
}

} // verus!
