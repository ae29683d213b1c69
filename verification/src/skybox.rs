//! The backdrop behind everything that is drawn.

use vstd::prelude::*;
use crate::color::Color;
use crate::framebuffer::{Framebuffer, FramebufferView, blank};

verus! {

/// The sky: one flat color of deep blue-grey.
#[derive(Debug, Clone, Copy, PartialEq, Eq, Structural)]
pub struct Skybox {}

impl Skybox {
    /// The color of the sky.
    pub open spec fn sky() -> Color {
        Color { r: 30, g: 30, b: 50 }
    }

    /// The sky for the assets under `_path`. The sky has no texture, so
    /// the path is not read.
    pub fn load(_path: &str) -> (sky: Skybox)
        ensures
            sky == (Skybox {  }),
    {
        Skybox {  }
    }

    /// Paints the sky over the whole framebuffer, behind anything that
    /// is drawn afterwards.
    pub fn render(&self, framebuffer: &mut Framebuffer)
        requires
            old(framebuffer).wf(),
        ensures
            final(framebuffer).wf(),
            final(framebuffer)@ == (FramebufferView {
                pixels: Seq::new(
                    old(framebuffer)@.pixels.len(),
                    |i: int| blank(Skybox::sky().hex() as u32),
                ),
                ..old(framebuffer)@
            }),
    {
        framebuffer.clear_color(Color::new(30, 30, 50));
    }
}

} // verus!
