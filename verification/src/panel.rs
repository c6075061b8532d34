//! The compositing surface: a logical width x height drawing rectangle
//! backed by the fixed 1024x512 physical frame, with alpha-blended pixel
//! writes, a clear operation, an image blit with flips, and a bridge to the
//! packet builder. The first physical row is the device's control row and
//! is never written.

use crate::linsn::{MacAddr, Pixel, ETHERNET_HEADER_SIZE, HEADER_SIZE, PAYLOAD_SIZE_SENDER};
use crate::sender::{build_frame_packets, spec_chunk_packet};
use vstd::arithmetic::div_mod::{
    lemma_div_is_ordered, lemma_fundamental_div_mod, lemma_fundamental_div_mod_converse,
};
use vstd::prelude::*;

verus! {

/// Pixels of the physical frame backing every surface.
pub const FRAME_PIXELS: usize = 1024 * 512;

/// An RGB pixel with a transient alpha, consumed by a blit and resolved on
/// write.
#[derive(Debug, Clone, Copy, PartialEq, Eq, Structural)]
pub struct Rgba {
    pub r: u8,
    pub g: u8,
    pub b: u8,
    pub a: u8,
}

impl Rgba {
    pub fn new(r: u8, g: u8, b: u8, a: u8) -> (p: Rgba)
        ensures
            p == (Rgba { r, g, b, a }),
    {
        Rgba { r, g, b, a }
    }
}

/// One channel of `out = old * (1 - a/255) + new * (a/255)`, carried out in
/// integer arithmetic as `(old * (255 - a) + new * a) / 255`.
pub open spec fn spec_blend_channel(old: u8, new: u8, a: u8) -> u8 {
    (((old * (255 - a) + new * a) / 255) as u8)
}

/// Blends one channel of a new value over an old one with alpha `a`.
pub fn blend_channel(old: u8, new: u8, a: u8) -> (r: u8)
    ensures
        r == spec_blend_channel(old, new, a),
{
    proof {
        assert((old as int) * (255 - a as int) + (new as int) * (a as int) <= 255 * 255)
            by (nonlinear_arith)
            requires
                old <= 255 && new <= 255 && a <= 255,
        ;
        lemma_div_is_ordered(
            (old as int) * (255 - a as int) + (new as int) * (a as int),
            65025int,
            255,
        );
    }
    (((old as u32) * (255u32 - a as u32) + (new as u32) * (a as u32)) / 255) as u8
}

/// The pixel a write leaves behind: alpha 0 keeps the old value, alpha 255
/// overwrites, anything between blends channel-wise.
pub open spec fn composite(old: Pixel, px: Rgba) -> Pixel {
    if px.a == 0 {
        old
    } else if px.a == 0xFF {
        Pixel { r: px.r, g: px.g, b: px.b }
    } else {
        Pixel {
            r: spec_blend_channel(old.r, px.r, px.a),
            g: spec_blend_channel(old.g, px.g, px.a),
            b: spec_blend_channel(old.b, px.b, px.a),
        }
    }
}

/// Physical buffer index of logical coordinate (x, y): one row down to
/// spare the control row.
pub open spec fn target_index(x: int, y: int) -> int {
    (y + 1) * 1024 + x
}

/// A write at (x, y) lands iff `0 <= x < w` and `0 <= y <= h`; note the
/// asymmetry: `y == h` is in range because writes sit one row down.
pub open spec fn write_in_bounds(w: int, h: int, x: int, y: int) -> bool {
    0 <= x && 0 <= y && x < w && y <= h
}

/// What one `set_pixel` call does to the buffer it writes.
pub open spec fn spec_set_pixel(buf: Seq<Pixel>, w: int, h: int, x: int, y: int, px: Rgba) -> Seq<
    Pixel,
> {
    if write_in_bounds(w, h, x, y) && px.a != 0 {
        buf.update(target_index(x, y), composite(buf[target_index(x, y)], px))
    } else {
        buf
    }
}

pub proof fn lemma_cell_index(x: int, y: int)
    requires
        0 <= x < 1024,
        0 <= y,
    ensures
        target_index(x, y) / 1024 == y + 1,
        target_index(x, y) % 1024 == x,
{
    lemma_fundamental_div_mod_converse((y + 1) * 1024 + x, 1024, y + 1, x);
}

/// A `set_pixel` call leaves the buffer untouched if and only if the
/// coordinate is out of range or the alpha is zero — except that a write
/// whose blended result happens to equal the stored pixel is also
/// invisible.
pub proof fn lemma_set_pixel_noop(buf: Seq<Pixel>, w: int, h: int, x: int, y: int, px: Rgba)
    requires
        buf.len() == FRAME_PIXELS,
        0 <= w <= 1024,
        0 <= h <= 510,
    ensures
        (x < 0 || y < 0 || x >= w || y > h || px.a == 0) ==> spec_set_pixel(buf, w, h, x, y, px)
            == buf,
        (write_in_bounds(w, h, x, y) && px.a != 0 && composite(buf[target_index(x, y)], px)
            != buf[target_index(x, y)]) ==> spec_set_pixel(buf, w, h, x, y, px) != buf,
{
    if write_in_bounds(w, h, x, y) && px.a != 0 {
        let idx = target_index(x, y);
        assert(0 <= idx < buf.len());
        if composite(buf[idx], px) != buf[idx] {
            assert(spec_set_pixel(buf, w, h, x, y, px)[idx] == composite(buf[idx], px));
        }
    }
}

/// A source image for a blit: RGBA pixels in row-major order. Scaling
/// happens before an `Image` is built; the blit itself only flips and
/// composites.
#[derive(Debug, Clone)]
pub struct Image {
    pub width: usize,
    pub height: usize,
    pub pixels: Vec<Rgba>,
}

impl Image {
    /// The pixel vector covers the full rectangle.
    pub open spec fn wf(self) -> bool {
        self.pixels@.len() == self.width * self.height
    }

    /// The source pixel feeding target cell (i, row) of the blit, after
    /// the optional horizontal and vertical flips.
    pub open spec fn sample(self, i: int, row: int, flip_x: bool, flip_y: bool) -> Rgba {
        let sx = if flip_x {
            self.width - 1 - i
        } else {
            i
        };
        let sy = if flip_y {
            self.height - 1 - row
        } else {
            row
        };
        self.pixels@[sy * self.width + sx]
    }

    /// Wraps a pixel vector; rejects a vector that does not cover the
    /// rectangle.
    pub fn new(width: usize, height: usize, pixels: Vec<Rgba>) -> (r: Option<Image>)
        ensures
            r is Some <==> pixels@.len() == width * height,
            match r {
                Some(img) => img.width == width && img.height == height && img.pixels@ == pixels@
                    && img.wf(),
                None => pixels@.len() != width * height,
            },
    {
        let n = pixels.len();
        if width == 0 || height == 0 {
            if n == 0 {
                proof {
                    assert(width * height == 0) by (nonlinear_arith)
                        requires
                            width == 0 || height == 0,
                    ;
                    assert(pixels@.len() == width * height);
                }
                Some(Image { width, height, pixels })
            } else {
                proof {
                    assert(width * height == 0) by (nonlinear_arith)
                        requires
                            width == 0 || height == 0,
                    ;
                }
                None
            }
        } else if width <= usize::MAX / height {
            proof {
                lemma_fundamental_div_mod(usize::MAX as int, height as int);
                let q = usize::MAX as int / height as int;
                let rem = usize::MAX as int % height as int;
                assert(width * height <= usize::MAX) by (nonlinear_arith)
                    requires
                        height > 0,
                        width <= q,
                        usize::MAX as int == height as int * q + rem,
                        0 <= rem,
                ;
            }
            let expected = width * height;
            if n == expected {
                proof {
                    assert(pixels@.len() == width * height);
                }
                Some(Image { width, height, pixels })
            } else {
                None
            }
        } else {
            proof {
                lemma_fundamental_div_mod(usize::MAX as int, height as int);
                let q = usize::MAX as int / height as int;
                let rem = usize::MAX as int % height as int;
                assert(usize::MAX < width * height) by (nonlinear_arith)
                    requires
                        height > 0,
                        q + 1 <= width,
                        usize::MAX as int == height as int * q + rem,
                        0 <= rem < height,
                ;
                assert(n < width * height);
            }
            None
        }
    }
}

/// The target cells a blit at (dx, dy) of an `iw` x `ih` image reaches:
/// inside the image rectangle and inside the surface's writable range.
pub open spec fn blit_hit(w: int, h: int, dx: int, dy: int, iw: int, ih: int, tx: int, ty: int) -> bool {
    dx <= tx < dx + iw && dy <= ty < dy + ih && write_in_bounds(w, h, tx, ty)
}

/// The buffer cell at `idx` after a blit: the composite of the old value
/// and the flipped source sample where the blit hits, untouched elsewhere.
pub open spec fn blit_cell(
    old: Seq<Pixel>,
    w: int,
    h: int,
    dx: int,
    dy: int,
    img: Image,
    flip_x: bool,
    flip_y: bool,
    idx: int,
) -> Pixel {
    let tx = idx % 1024;
    let ty = idx / 1024 - 1;
    if blit_hit(w, h, dx, dy, img.width as int, img.height as int, tx, ty) {
        composite(old[idx], img.sample(tx - dx, ty - dy, flip_x, flip_y))
    } else {
        old[idx]
    }
}

/// The buffer cell at `idx` after a clear of the logical `w` x `h`
/// rectangle: black in rows 1..=h at columns below `w`, untouched
/// elsewhere — in particular in the control row 0.
pub open spec fn cleared_cell(old: Seq<Pixel>, w: int, h: int, idx: int) -> Pixel {
    if 1 <= idx / 1024 <= h && idx % 1024 < w {
        Pixel { r: 0, g: 0, b: 0 }
    } else {
        old[idx]
    }
}

/// The compositing surface. The two buffers always hold the full physical
/// frame; writes land in the inactive buffer when double-buffering is on,
/// in the active buffer otherwise.
#[derive(Debug)]
pub struct Panel {
    pub width: usize,
    pub height: usize,
    pub image_buffer_active: Vec<Pixel>,
    pub image_buffer_inactive: Vec<Pixel>,
    pub double_buffering: bool,
    pub flip: bool,
}

impl Panel {
    /// Both buffers span the physical frame and the logical rectangle fits
    /// inside it, sparing the control row.
    pub open spec fn wf(self) -> bool {
        &&& self.image_buffer_active@.len() == FRAME_PIXELS
        &&& self.image_buffer_inactive@.len() == FRAME_PIXELS
        &&& self.width <= 1024
        &&& self.height <= 510
    }

    /// The buffer writes land in.
    pub open spec fn written_view(self) -> Seq<Pixel> {
        if self.double_buffering {
            self.image_buffer_inactive@
        } else {
            self.image_buffer_active@
        }
    }

    /// The buffer writes spare.
    pub open spec fn untouched_view(self) -> Seq<Pixel> {
        if self.double_buffering {
            self.image_buffer_active@
        } else {
            self.image_buffer_inactive@
        }
    }

    /// Builds a surface over freshly allocated buffers: the active one
    /// holds the traditional magenta-ish boot colour, the inactive one
    /// black.
    pub fn new(width: usize, height: usize, double_buffering: bool, flip: bool) -> (panel: Panel)
        requires
            width <= 1024,
            height <= 510,
        ensures
            panel.wf(),
            panel.width == width,
            panel.height == height,
            panel.double_buffering == double_buffering,
            panel.flip == flip,
            forall|i: int|
                0 <= i < FRAME_PIXELS ==> panel.image_buffer_active@[i] == (Pixel {
                    r: 0x69,
                    g: 0x20,
                    b: 0x69,
                }),
            forall|i: int|
                0 <= i < FRAME_PIXELS ==> panel.image_buffer_inactive@[i] == (Pixel {
                    r: 0,
                    g: 0,
                    b: 0,
                }),
    {
        let image_buffer_active = filled_buffer(Pixel { r: 0x69, g: 0x20, b: 0x69 });
        let image_buffer_inactive = filled_buffer(Pixel { r: 0, g: 0, b: 0 });
        Panel { width, height, image_buffer_active, image_buffer_inactive, double_buffering, flip }
    }

    /// Writes one pixel at (x, y): ignored outside the logical rectangle or
    /// at alpha 0, stored directly at alpha 255, blended otherwise. The
    /// write goes one row down into the buffer selected by the
    /// double-buffering flag.
    pub fn set_pixel(&mut self, dest_x: i32, dest_y: i32, pixel: Rgba)
        requires
            old(self).wf(),
        ensures
            final(self).wf(),
            final(self).width == old(self).width,
            final(self).height == old(self).height,
            final(self).double_buffering == old(self).double_buffering,
            final(self).flip == old(self).flip,
            final(self).written_view() == spec_set_pixel(
                old(self).written_view(),
                old(self).width as int,
                old(self).height as int,
                dest_x as int,
                dest_y as int,
                pixel,
            ),
            final(self).untouched_view() == old(self).untouched_view(),
    {
        if dest_x < 0 || dest_y < 0 || dest_x >= self.width as i32 || dest_y > self.height as i32 {
            return ;
        }
        let alpha = pixel.a;
        if alpha == 0 {
            return ;
        }
        let x = dest_x as usize;
        let y = dest_y as usize;
        let idx = (y + 1) * 1024 + x;
        assert(idx < FRAME_PIXELS);
        if self.double_buffering {
            let old_px = self.image_buffer_inactive[idx];
            let npx = if alpha != 0xFF {
                Pixel {
                    r: blend_channel(old_px.r, pixel.r, alpha),
                    g: blend_channel(old_px.g, pixel.g, alpha),
                    b: blend_channel(old_px.b, pixel.b, alpha),
                }
            } else {
                Pixel { r: pixel.r, g: pixel.g, b: pixel.b }
            };
            self.image_buffer_inactive[idx] = npx;
        } else {
            let old_px = self.image_buffer_active[idx];
            let npx = if alpha != 0xFF {
                Pixel {
                    r: blend_channel(old_px.r, pixel.r, alpha),
                    g: blend_channel(old_px.g, pixel.g, alpha),
                    b: blend_channel(old_px.b, pixel.b, alpha),
                }
            } else {
                Pixel { r: pixel.r, g: pixel.g, b: pixel.b }
            };
            self.image_buffer_active[idx] = npx;
        }
    }

    /// Fills the logical rectangle with opaque black, column by column.
    pub fn clear(&mut self)
        requires
            old(self).wf(),
        ensures
            final(self).wf(),
            final(self).width == old(self).width,
            final(self).height == old(self).height,
            final(self).double_buffering == old(self).double_buffering,
            final(self).flip == old(self).flip,
            final(self).untouched_view() == old(self).untouched_view(),
            final(self).written_view().len() == FRAME_PIXELS,
            forall|idx: int|
                0 <= idx < FRAME_PIXELS ==> final(self).written_view()[idx] == cleared_cell(
                    old(self).written_view(),
                    old(self).width as int,
                    old(self).height as int,
                    idx,
                ),
    {
        let w = self.width;
        let h = self.height;
        let ghost ow = old(self).written_view();
        for i in 0..w
            invariant
                self.wf(),
                w == self.width,
                h == self.height,
                self.width == old(self).width,
                self.height == old(self).height,
                self.double_buffering == old(self).double_buffering,
                self.flip == old(self).flip,
                self.untouched_view() == old(self).untouched_view(),
                ow == old(self).written_view(),
                ow.len() == FRAME_PIXELS,
                forall|idx: int|
                    0 <= idx < FRAME_PIXELS ==> self.written_view()[idx] == (if 1 <= idx / 1024
                        <= h as int && idx % 1024 < i as int {
                        Pixel { r: 0, g: 0, b: 0 }
                    } else {
                        ow[idx]
                    }),
        {
            for y in 0..h
                invariant
                    self.wf(),
                    w == self.width,
                    h == self.height,
                    i < w,
                    self.width == old(self).width,
                    self.height == old(self).height,
                    self.double_buffering == old(self).double_buffering,
                    self.flip == old(self).flip,
                    self.untouched_view() == old(self).untouched_view(),
                    ow == old(self).written_view(),
                    ow.len() == FRAME_PIXELS,
                    forall|idx: int|
                        0 <= idx < FRAME_PIXELS ==> self.written_view()[idx] == (if 1 <= idx / 1024
                            <= h as int && idx % 1024 < i as int {
                            Pixel { r: 0, g: 0, b: 0 }
                        } else if idx % 1024 == i as int && 1 <= idx / 1024 <= y as int {
                            Pixel { r: 0, g: 0, b: 0 }
                        } else {
                            ow[idx]
                        }),
            {
                let ghost prev = self.written_view();
                self.set_pixel(i as i32, y as i32, Rgba { r: 0, g: 0, b: 0, a: 0xFF });
                proof {
                    lemma_cell_index(i as int, y as int);
                    let idx0 = target_index(i as int, y as int);
                    assert forall|idx: int| 0 <= idx < FRAME_PIXELS implies self.written_view()[idx]
                        == (if 1 <= idx / 1024 <= h as int && idx % 1024 < i as int {
                        Pixel { r: 0, g: 0, b: 0 }
                    } else if idx % 1024 == i as int && 1 <= idx / 1024 <= y as int + 1 {
                        Pixel { r: 0, g: 0, b: 0 }
                    } else {
                        ow[idx]
                    }) by {
                        lemma_fundamental_div_mod(idx, 1024);
                        if idx != idx0 {
                            assert(self.written_view()[idx] == prev[idx]);
                        }
                    }
                }
            }
        }
    }

    /// Blits an image at (dest_x, dest_y): an optional horizontal flip, a
    /// vertical flip that is the XOR of the argument and the surface's
    /// global flip, then a per-pixel composited write. Cells outside the
    /// surface's writable range are silently skipped.
    pub fn draw_image(&mut self, dest_x: i32, dest_y: i32, image: &Image, flip_x: bool, flip_y: bool)
        requires
            old(self).wf(),
            image.wf(),
            image.width <= i32::MAX,
            image.height <= i32::MAX,
            dest_x + image.width <= i32::MAX,
            dest_y + image.height <= i32::MAX,
        ensures
            final(self).wf(),
            final(self).width == old(self).width,
            final(self).height == old(self).height,
            final(self).double_buffering == old(self).double_buffering,
            final(self).flip == old(self).flip,
            final(self).untouched_view() == old(self).untouched_view(),
            final(self).written_view().len() == FRAME_PIXELS,
            forall|idx: int|
                0 <= idx < FRAME_PIXELS ==> final(self).written_view()[idx] == blit_cell(
                    old(self).written_view(),
                    old(self).width as int,
                    old(self).height as int,
                    dest_x as int,
                    dest_y as int,
                    *image,
                    flip_x,
                    flip_y != old(self).flip,
                    idx,
                ),
    {
        let fy = flip_y != self.flip;
        let iw = image.width;
        let ih = image.height;
        let w = self.width;
        let h = self.height;
        let n = image.pixels.len();
        let ghost ow = old(self).written_view();
        for row in 0..ih
            invariant
                self.wf(),
                w == self.width,
                h == self.height,
                iw == image.width,
                ih == image.height,
                n == image.pixels@.len(),
                image.wf(),
                fy == (flip_y != old(self).flip),
                self.width == old(self).width,
                self.height == old(self).height,
                self.double_buffering == old(self).double_buffering,
                self.flip == old(self).flip,
                self.untouched_view() == old(self).untouched_view(),
                ow == old(self).written_view(),
                ow.len() == FRAME_PIXELS,
                iw <= i32::MAX,
                ih <= i32::MAX,
                dest_x + iw <= i32::MAX,
                dest_y + ih <= i32::MAX,
                forall|idx: int|
                    0 <= idx < FRAME_PIXELS ==> self.written_view()[idx] == (if idx / 1024 - 1
                        < dest_y as int + row as int {
                        blit_cell(
                            ow,
                            w as int,
                            h as int,
                            dest_x as int,
                            dest_y as int,
                            *image,
                            flip_x,
                            fy,
                            idx,
                        )
                    } else {
                        ow[idx]
                    }),
        {
            for i in 0..iw
                invariant
                    self.wf(),
                    w == self.width,
                    h == self.height,
                    iw == image.width,
                    ih == image.height,
                    n == image.pixels@.len(),
                    image.wf(),
                    row < ih,
                    fy == (flip_y != old(self).flip),
                    self.width == old(self).width,
                    self.height == old(self).height,
                    self.double_buffering == old(self).double_buffering,
                    self.flip == old(self).flip,
                    self.untouched_view() == old(self).untouched_view(),
                    ow == old(self).written_view(),
                    ow.len() == FRAME_PIXELS,
                    iw <= i32::MAX,
                    ih <= i32::MAX,
                    dest_x + iw <= i32::MAX,
                    dest_y + ih <= i32::MAX,
                    forall|idx: int|
                        0 <= idx < FRAME_PIXELS ==> self.written_view()[idx] == (if idx / 1024 - 1
                            < dest_y as int + row as int || (idx / 1024 - 1 == dest_y as int
                            + row as int && idx % 1024 < dest_x as int + i as int) {
                            blit_cell(
                                ow,
                                w as int,
                                h as int,
                                dest_x as int,
                                dest_y as int,
                                *image,
                                flip_x,
                                fy,
                                idx,
                            )
                        } else {
                            ow[idx]
                        }),
            {
                let sx = if flip_x {
                    iw - 1 - i
                } else {
                    i
                };
                let sy = if fy {
                    ih - 1 - row
                } else {
                    row
                };
                proof {
                    assert(sy as int * iw as int + sx < iw as int * ih as int)
                        by (nonlinear_arith)
                        requires
                            sx < iw,
                            sy < ih,
                    ;
                }
                let px = image.pixels[sy * iw + sx];
                let ghost prev = self.written_view();
                self.set_pixel(dest_x + i as i32, dest_y + row as i32, px);
                proof {
                    let dx = dest_x as int;
                    let dy = dest_y as int;
                    let tx0 = dx + i as int;
                    let ty0 = dy + row as int;
                    assert(px == image.sample(i as int, row as int, flip_x, fy));
                    assert forall|idx: int| 0 <= idx < FRAME_PIXELS implies self.written_view()[idx]
                        == (if idx / 1024 - 1 < dy + row as int || (idx / 1024 - 1 == dy
                        + row as int && idx % 1024 < dx + i as int + 1) {
                        blit_cell(ow, w as int, h as int, dx, dy, *image, flip_x, fy, idx)
                    } else {
                        ow[idx]
                    }) by {
                        lemma_fundamental_div_mod(idx, 1024);
                        let tx = idx % 1024;
                        let ty = idx / 1024 - 1;
                        if tx == tx0 && ty == ty0 {
                            assert(idx == target_index(tx0, ty0));
                            if write_in_bounds(w as int, h as int, tx0, ty0) && px.a != 0 {
                                assert(self.written_view()[idx] == composite(prev[idx], px));
                                assert(prev[idx] == ow[idx]);
                            } else {
                                assert(self.written_view()[idx] == prev[idx]);
                            }
                        } else {
                            assert(self.written_view()[idx] == prev[idx]);
                        }
                    }
                }
            }
            proof {
                assert forall|idx: int| 0 <= idx < FRAME_PIXELS implies self.written_view()[idx]
                    == (if idx / 1024 - 1 < dest_y as int + row as int + 1 {
                    blit_cell(
                        ow,
                        w as int,
                        h as int,
                        dest_x as int,
                        dest_y as int,
                        *image,
                        flip_x,
                        fy,
                        idx,
                    )
                } else {
                    ow[idx]
                }) by {
                    lemma_fundamental_div_mod(idx, 1024);
                }
            }
        }
        proof {
            assert forall|idx: int| 0 <= idx < FRAME_PIXELS implies self.written_view()[idx]
                == blit_cell(
                ow,
                w as int,
                h as int,
                dest_x as int,
                dest_y as int,
                *image,
                flip_x,
                fy,
                idx,
            ) by {
                lemma_fundamental_div_mod(idx, 1024);
            }
        }
    }

    /// Builds the packet burst for the current active buffer. The
    /// double-buffered variant of sending is deliberately unsupported:
    /// callers must not ask for it.
    pub fn send_packets(&self, src_mac: MacAddr, dst_mac: MacAddr) -> (packets: Vec<Vec<u8>>)
        requires
            self.wf(),
            !self.double_buffering,
        ensures
            packets@.len() == 1093,
            forall|c: int|
                0 <= c < packets@.len() ==> packets@[c]@ == spec_chunk_packet(
                    self.image_buffer_active@,
                    c,
                    src_mac,
                    dst_mac,
                ),
            forall|c: int|
                0 <= c < packets@.len() ==> packets@[c]@.len() == ETHERNET_HEADER_SIZE
                    + HEADER_SIZE + PAYLOAD_SIZE_SENDER,
    {
        build_frame_packets(&self.image_buffer_active, src_mac, dst_mac)
    }

    /// Read access to the buffer the socket would transmit.
    pub fn active_buffer(&self) -> (buf: &Vec<Pixel>)
        ensures
            buf@ == self.image_buffer_active@,
    {
        &self.image_buffer_active
    }

    /// Read access to the buffer a producer would fill under
    /// double-buffering.
    pub fn inactive_buffer(&self) -> (buf: &Vec<Pixel>)
        ensures
            buf@ == self.image_buffer_inactive@,
    {
        &self.image_buffer_inactive
    }
}

/// A physical frame's worth of one repeated pixel.
fn filled_buffer(p: Pixel) -> (buf: Vec<Pixel>)
    ensures
        buf@.len() == FRAME_PIXELS,
        forall|i: int| 0 <= i < FRAME_PIXELS ==> buf@[i] == p,
{
    let mut buf: Vec<Pixel> = Vec::new();
    for k in 0..FRAME_PIXELS
        invariant
            buf@.len() == k,
            forall|i: int| 0 <= i < k as int ==> buf@[i] == p,
    {
        buf.push(p);
    }
    buf
}

} // verus!
