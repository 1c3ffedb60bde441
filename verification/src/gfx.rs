//! Pixels and the frame buffer that occupied cells are projected onto.
//!
//! Rendering stays outside the simulation core: the occupancy oracle is
//! a logical grid, and these types only carry colors to the windowing
//! shell.  One pixel value doubles as the transparency marker, which the
//! sprite routines skip.

use crate::automata::Automata;
use crate::common::lemma_area_fits;
use crate::common::min_val;
use crate::rng::random_u8;
use crate::ufb::Resolution;
use vstd::arithmetic::div_mod::lemma_fundamental_div_mod;
use vstd::arithmetic::div_mod::lemma_mod_division_less_than_divisor;
use vstd::prelude::*;

verus! {

/// One RGB pixel.
#[derive(Clone, Copy, Debug, PartialEq, Eq, Structural)]
pub struct Pixel {
    r: u8,
    g: u8,
    b: u8,
}

impl View for Pixel {
    type V = (u8, u8, u8);

    closed spec fn view(&self) -> (u8, u8, u8) {
        (self.r, self.g, self.b)
    }
}

/// The channel triple of the pixel that marks transparency.
pub open spec fn alpha_channels() -> (u8, u8, u8) {
    (0xff, 0, 0xba)
}

impl Pixel {
    pub fn new(r: u8, g: u8, b: u8) -> (p: Self)
        ensures
            p@ == ((r, g, b)),
    {
        Self { r, g, b }
    }

    /// The transparency marker: blit and set_pixel skip pixels of this
    /// value.
    pub fn alpha() -> (p: Self)
        ensures
            p@ == alpha_channels(),
    {
        Self::new(0xff, 0, 0xba)
    }

    pub fn black() -> (p: Self)
        ensures
            p@ == ((0u8, 0u8, 0u8)),
    {
        Self::new(0, 0, 0)
    }

    pub fn white() -> (p: Self)
        ensures
            p@ == ((255u8, 255u8, 255u8)),
    {
        Self::new(255, 255, 255)
    }

    /// The pixel's channel triple.
    pub fn rgb(&self) -> (c: (u8, u8, u8))
        ensures
            c == self@,
    {
        (self.r, self.g, self.b)
    }
}

impl Default for Pixel {
    /// The default pixel is the transparency marker.
    fn default() -> (p: Self)
        ensures
            p@ == alpha_channels(),
    {
        Self::alpha()
    }
}

/// A position on the frame buffer, in pixels from the top-left corner.
#[derive(Clone, Copy, Debug)]
pub struct FramebufferCoordinates(pub (u16, u16));

impl View for FramebufferCoordinates {
    type V = (int, int);

    open spec fn view(&self) -> (int, int) {
        (self.0.0 as int, self.0.1 as int)
    }
}

impl From<(u16, u16)> for FramebufferCoordinates {
    fn from(coords: (u16, u16)) -> (r: Self) {
        Self(coords)
    }
}

impl vstd::std_specs::convert::FromSpecImpl<(u16, u16)> for FramebufferCoordinates {
    open spec fn obeys_from_spec() -> bool {
        true
    }

    open spec fn from_spec(coords: (u16, u16)) -> FramebufferCoordinates {
        FramebufferCoordinates(coords)
    }
}

impl FramebufferCoordinates {
    /// The coordinate pair.
    pub fn xy_pair(&self) -> (r: (u16, u16))
        ensures
            r.0 == self@.0,
            r.1 == self@.1,
    {
        self.0
    }
}

/// The coordinates of a row-major frame-buffer offset.
pub fn xy(index: usize, resolution: Resolution) -> (r: FramebufferCoordinates)
    requires
        index < resolution.width * resolution.height,
    ensures
        r@.0 == (index as int) % (resolution.width as int),
        r@.1 == (index as int) / (resolution.width as int),
{
    let w: usize = resolution.width as usize;
    proof {
        assert(w > 0) by (nonlinear_arith)
            requires
                index < resolution.width * resolution.height,
                w == resolution.width,
                index >= 0,
        ;
        lemma_mod_division_less_than_divisor(index as int, w as int);
        lemma_fundamental_div_mod(index as int, w as int);
        assert((index as int) / (w as int) < resolution.height as int) by (nonlinear_arith)
            requires
                w > 0,
                index < w * resolution.height,
                index as int == (w as int) * ((index as int) / (w as int)) + (index as int) % (w as int),
                (index as int) % (w as int) >= 0,
        ;
    }
    let x: u16 = (index % w) as u16;
    let y: u16 = (index / w) as u16;
    FramebufferCoordinates((x, y))
}


/// The pixel of a row-major frame of width `w` at `(x, y)`.
pub open spec fn pixel_at(s: Seq<Pixel>, w: int, x: int, y: int) -> Pixel {
    s[y * w + x]
}

/// The visible region of a blit: the sprite rectangle clipped to the
/// frame.
pub open spec fn blit_visible(
    bw: int,
    bh: int,
    ox: int,
    oy: int,
    sw: int,
    sh: int,
    x: int,
    y: int,
) -> bool {
    ox <= x < min_val(bw, ox + sw) && oy <= y < min_val(bh, oy + sh)
}

/// The sprite offset a visible cell `(x, y)` is read from: the sprite is
/// walked row-major with the clipped width.
pub open spec fn blit_sprite_index(bw: int, ox: int, oy: int, sw: int, x: int, y: int) -> int {
    (y - oy) * (min_val(bw, ox + sw) - ox) + (x - ox)
}

/// How many leading sprite offsets a blit reads: everything beyond them
/// keeps its value.
pub open spec fn blit_touched(bw: int, bh: int, ox: int, oy: int, sw: int, sh: int) -> int {
    let right = min_val(bw, ox + sw);
    let down = min_val(bh, oy + sh);
    if right > ox && down > oy {
        (down - oy) * (right - ox)
    } else {
        0
    }
}

/// Two distinct cells of one frame never share a row-major offset.
proof fn lemma_frame_offset_unique(w: int, x1: int, y1: int, x2: int, y2: int)
    requires
        0 <= x1 < w,
        0 <= x2 < w,
        y1 * w + x1 == y2 * w + x2,
    ensures
        x1 == x2 && y1 == y2,
{
    assert(y1 == y2) by (nonlinear_arith)
        requires
            0 <= x1 < w,
            0 <= x2 < w,
            y1 * w + x1 == y2 * w + x2,
    ;
}

/// Row-major sprite offsets grow along the scan order.
proof fn lemma_sprite_offset_lt(visw: int, ox: int, oy: int, x1: int, y1: int, x2: int, y2: int)
    requires
        0 < visw,
        ox <= x1 < ox + visw,
        ox <= x2,
        oy <= y1,
        y1 < y2 || (y1 == y2 && x1 < x2),
    ensures
        (y1 - oy) * visw + (x1 - ox) < (y2 - oy) * visw + (x2 - ox),
{
    if y1 < y2 {
        assert((y1 - oy) * visw + visw <= (y2 - oy) * visw) by (nonlinear_arith)
            requires
                0 < visw,
                y1 < y2,
        ;
    }
}

/// A width-by-height frame of pixels, row-major.
pub struct PixelBuffer {
    bounds: Resolution,
    buffer: Vec<Pixel>,
}

impl PixelBuffer {
    /// The backing vector covers the whole frame.
    pub closed spec fn wf(self) -> bool {
        self.buffer@.len() == self.bounds.width * self.bounds.height
    }

    pub closed spec fn spec_bounds(self) -> Resolution {
        self.bounds
    }

    /// The frame's pixels, row-major.
    pub closed spec fn pixels(self) -> Seq<Pixel> {
        self.buffer@
    }

    /// A fresh frame, every pixel black.
    pub fn new(resolution: Resolution) -> (r: Self)
        ensures
            r.wf(),
            r.spec_bounds() == resolution,
            r.pixels().len() == resolution.width * resolution.height,
            forall|i: int| 0 <= i < r.pixels().len() ==> (#[trigger] r.pixels()[i])@ == ((0u8, 0u8,
            0u8)),
    {
        let area: usize = resolution.area();
        let mut buffer: Vec<Pixel> = Vec::new();
        let mut i: usize = 0;
        while i < area
            invariant
                i <= area,
                buffer@.len() == i,
                forall|j: int| 0 <= j < i ==> (#[trigger] buffer@[j])@ == ((0u8, 0u8, 0u8)),
            decreases area - i,
        {
            buffer.push(Pixel::black());
            i = i + 1;
        }
        PixelBuffer { bounds: resolution, buffer }
    }

    /// Write one pixel.  The transparency marker is skipped, and so is
    /// any offset beyond the backing vector; everything else lands at
    /// the pixel's row-major offset.
    pub fn set_pixel(&mut self, coords: FramebufferCoordinates, pixel: Pixel)
        requires
            old(self).wf(),
        ensures
            final(self).wf(),
            final(self).spec_bounds() == old(self).spec_bounds(),
            ({
                let idx = coords@.0 + coords@.1 * old(self).spec_bounds().width;
                final(self).pixels() == (if pixel@ == alpha_channels() || idx
                    >= old(self).pixels().len() {
                    old(self).pixels()
                } else {
                    old(self).pixels().update(idx, pixel)
                })
            }),
    {
        if pixel == Pixel::alpha() {
            proof {
                assert(pixel@ == alpha_channels());
            }
            return ;
        }
        proof {
            assert(pixel@ != alpha_channels());
            lemma_area_fits(self.bounds.width as int, self.bounds.height as int);
            assert(coords@.0 + coords@.1 * self.bounds.width as int <= 0xffff + 0xffff * 0xffff)
                by (nonlinear_arith)
                requires
                    0 <= coords@.0 <= 0xffff,
                    0 <= coords@.1 <= 0xffff,
                    0 < self.bounds.width as int <= 0xffff || self.bounds.width as int == 0,
            ;
        }
        let (x, y) = coords.xy_pair();
        let idx: usize = (x as usize) + (y as usize) * (self.bounds.width as usize);
        if idx < self.buffer.len() {
            self.buffer.set(idx, pixel);
        }
    }


    /// Copy a sprite into the frame at `top_left`, clipped to the
    /// frame's extent.  Within the visible region the frame pixel and
    /// the sprite pixel are swapped (the sprite keeps what the frame
    /// held), except where the sprite holds the transparency marker;
    /// every other frame pixel and every sprite offset beyond the
    /// visible region keeps its value.
    pub fn blit(
        &mut self,
        top_left: FramebufferCoordinates,
        sprite_size: Resolution,
        sprite: &mut Vec<Pixel>,
    )
        requires
            old(self).wf(),
            top_left@.0 + sprite_size.width <= 0xffff,
            top_left@.1 + sprite_size.height <= 0xffff,
            old(sprite)@.len() >= sprite_size.width * sprite_size.height,
        ensures
            final(self).wf(),
            final(self).spec_bounds() == old(self).spec_bounds(),
            final(self).pixels().len() == old(self).pixels().len(),
            final(sprite)@.len() == old(sprite)@.len(),
            ({
                let bw = old(self).spec_bounds().width as int;
                let bh = old(self).spec_bounds().height as int;
                let ox = top_left@.0;
                let oy = top_left@.1;
                let sw = sprite_size.width as int;
                let sh = sprite_size.height as int;
                &&& forall|x: int, y: int|
                    blit_visible(bw, bh, ox, oy, sw, sh, x, y) ==> ({
                        let si = blit_sprite_index(bw, ox, oy, sw, x, y);
                        if (old(sprite)@[si])@ == alpha_channels() {
                            &&& #[trigger] pixel_at(final(self).pixels(), bw, x, y) == pixel_at(
                                old(self).pixels(),
                                bw,
                                x,
                                y,
                            )
                            &&& final(sprite)@[si] == old(sprite)@[si]
                        } else {
                            &&& pixel_at(final(self).pixels(), bw, x, y) == old(sprite)@[si]
                            &&& final(sprite)@[si] == pixel_at(old(self).pixels(), bw, x, y)
                        }
                    })
                &&& forall|x: int, y: int|
                    0 <= x < bw && 0 <= y < bh && !blit_visible(bw, bh, ox, oy, sw, sh, x, y)
                        ==> #[trigger] pixel_at(final(self).pixels(), bw, x, y) == pixel_at(
                        old(self).pixels(),
                        bw,
                        x,
                        y,
                    )
                &&& forall|i: int|
                    blit_touched(bw, bh, ox, oy, sw, sh) <= i < old(sprite)@.len()
                        ==> #[trigger] final(sprite)@[i] == old(sprite)@[i]
            }),
    {
        let (ox, oy) = top_left.xy_pair();
        let sw: u16 = sprite_size.width;
        let sh: u16 = sprite_size.height;
        let bw: u16 = self.bounds.width;
        let bh: u16 = self.bounds.height;
        let right: u16 = if bw < ox + sw {
            bw
        } else {
            ox + sw
        };
        let down: u16 = if bh < oy + sh {
            bh
        } else {
            oy + sh
        };
        if right <= ox || down <= oy {
            return ;
        }
        let visw: u16 = right - ox;
        let ghost buf0: Seq<Pixel> = self.buffer@;
        let ghost spr0: Seq<Pixel> = sprite@;
        proof {
            lemma_area_fits(bw as int, bh as int);
            lemma_area_fits(sw as int, sh as int);
        }
        let mut by: u16 = oy;
        while by < down
            invariant
                self.wf(),
                self.bounds == old(self).bounds,
                self.buffer@.len() == buf0.len(),
                sprite@.len() == spr0.len(),
                buf0 == old(self).buffer@,
                spr0 == old(sprite)@,
                bw == self.bounds.width,
                bh == self.bounds.height,
                ox == top_left@.0,
                oy == top_left@.1,
                sw == sprite_size.width,
                sh == sprite_size.height,
                ox + sw <= 0xffff,
                oy + sh <= 0xffff,
                right == min_val(bw as int, ox + sw),
                down == min_val(bh as int, oy + sh),
                ox < right <= bw,
                oy < down <= bh,
                visw == right - ox,
                spr0.len() >= sw * sh,
                oy <= by <= down,
                forall|x: int, y: int|
                    blit_visible(bw as int, bh as int, ox as int, oy as int, sw as int, sh as int, x, y)
                        && y < by ==> ({
                        let si = blit_sprite_index(bw as int, ox as int, oy as int, sw as int, x, y);
                        if (spr0[si])@ == alpha_channels() {
                            &&& #[trigger] pixel_at(self.buffer@, bw as int, x, y) == pixel_at(
                                buf0,
                                bw as int,
                                x,
                                y,
                            )
                            &&& sprite@[si] == spr0[si]
                        } else {
                            &&& pixel_at(self.buffer@, bw as int, x, y) == spr0[si]
                            &&& sprite@[si] == pixel_at(buf0, bw as int, x, y)
                        }
                    }),
                forall|x: int, y: int|
                    0 <= x < bw && 0 <= y < bh && !(blit_visible(
                        bw as int,
                        bh as int,
                        ox as int,
                        oy as int,
                        sw as int,
                        sh as int,
                        x,
                        y,
                    ) && y < by) ==> #[trigger] pixel_at(self.buffer@, bw as int, x, y) == pixel_at(
                        buf0,
                        bw as int,
                        x,
                        y,
                    ),
                forall|i: int|
                    (by - oy) * (visw as int) <= i < spr0.len() ==> #[trigger] sprite@[i] == spr0[i],
            decreases down as int - by,
        {
            let mut bx: u16 = ox;
            while bx < right
                invariant
                    self.wf(),
                    self.bounds == old(self).bounds,
                    self.buffer@.len() == buf0.len(),
                    sprite@.len() == spr0.len(),
                    buf0 == old(self).buffer@,
                    spr0 == old(sprite)@,
                    bw == self.bounds.width,
                    bh == self.bounds.height,
                    ox == top_left@.0,
                    oy == top_left@.1,
                    sw == sprite_size.width,
                    sh == sprite_size.height,
                    ox + sw <= 0xffff,
                    oy + sh <= 0xffff,
                    right == min_val(bw as int, ox + sw),
                    down == min_val(bh as int, oy + sh),
                    ox < right <= bw,
                    oy < down <= bh,
                    visw == right - ox,
                    spr0.len() >= sw * sh,
                    oy <= by < down,
                    ox <= bx <= right,
                    forall|x: int, y: int|
                        blit_visible(bw as int, bh as int, ox as int, oy as int, sw as int, sh as int, x, y)
                            && (y < by || (y == by && x < bx)) ==> ({
                            let si = blit_sprite_index(bw as int, ox as int, oy as int, sw as int, x, y);
                            if (spr0[si])@ == alpha_channels() {
                                &&& #[trigger] pixel_at(self.buffer@, bw as int, x, y) == pixel_at(
                                    buf0,
                                    bw as int,
                                    x,
                                    y,
                                )
                                &&& sprite@[si] == spr0[si]
                            } else {
                                &&& pixel_at(self.buffer@, bw as int, x, y) == spr0[si]
                                &&& sprite@[si] == pixel_at(buf0, bw as int, x, y)
                            }
                        }),
                    forall|x: int, y: int|
                        0 <= x < bw && 0 <= y < bh && !(blit_visible(
                            bw as int,
                            bh as int,
                            ox as int,
                            oy as int,
                            sw as int,
                            sh as int,
                            x,
                            y,
                        ) && (y < by || (y == by && x < bx))) ==> #[trigger] pixel_at(
                            self.buffer@,
                            bw as int,
                            x,
                            y,
                        ) == pixel_at(buf0, bw as int, x, y),
                    forall|i: int|
                        (by - oy) * (visw as int) + (bx - ox) <= i < spr0.len()
                            ==> #[trigger] sprite@[i] == spr0[i],
                decreases right as int - bx,
            {
                proof {
                    assert((by - oy) * (visw as int) + (bx - ox) < (sh as int) * (sw as int))
                        by (nonlinear_arith)
                        requires
                            oy <= by < down,
                            ox <= bx < right,
                            down - oy <= sh,
                            visw == right - ox,
                            visw <= sw,
                            0 < visw,
                    ;
                    assert((by - oy) * (visw as int) >= 0) by (nonlinear_arith)
                        requires
                            oy <= by,
                            0 < visw,
                    ;
                    assert((sh as int) * (sw as int) <= 0xfffe0001) by (nonlinear_arith)
                        requires
                            sh <= 0xffff,
                            sw <= 0xffff,
                    ;
                    assert((sh as int) * (sw as int) == (sw as int) * (sh as int))
                        by (nonlinear_arith);
                    assert((bx as int) + (by as int) * (bw as int) < (bw as int) * (bh as int))
                        by (nonlinear_arith)
                        requires
                            0 <= bx < bw,
                            0 <= by < bh,
                    ;
                    assert((bw as int) * (bh as int) <= 0xfffe0001) by (nonlinear_arith)
                        requires
                            bw <= 0xffff,
                            bh <= 0xffff,
                    ;
                }
                let si: usize = ((by - oy) as usize) * (visw as usize) + ((bx - ox) as usize);
                let bi: usize = (bx as usize) + (by as usize) * (bw as usize);
                proof {
                    assert(si == (by - oy) * (visw as int) + (bx - ox));
                    assert(si < sprite@.len());
                    assert(bi < self.buffer@.len());
                }
                let sp: Pixel = sprite[si];
                let ghost buf_prev: Seq<Pixel> = self.buffer@;
                let ghost spr_prev: Seq<Pixel> = sprite@;
                if !(sp == Pixel::alpha()) {
                    let bp: Pixel = self.buffer[bi];
                    self.buffer.set(bi, sp);
                    sprite.set(si, bp);
                }
                proof {
                    let bwi = bw as int;
                    let sii = (by - oy) * (visw as int) + (bx - ox);
                    assert(sii == blit_sprite_index(bwi, ox as int, oy as int, sw as int, bx as int, by as int));
                    // The current cell still holds its pre-loop values:
                    // nothing before this iteration wrote to it.
                    assert(pixel_at(buf_prev, bwi, bx as int, by as int) == pixel_at(buf0, bwi, bx as int, by as int));
                    assert(spr_prev[sii] == spr0[sii]);
                    // A write to the current cell leaves every other
                    // frame cell and every other sprite offset alone.
                    assert forall|x: int, y: int|
                        0 <= x < bwi && 0 <= y < bh && !(x == bx as int && y == by as int) implies #[trigger] pixel_at(
                        self.buffer@,
                        bwi,
                        x,
                        y,
                    ) == pixel_at(buf_prev, bwi, x, y) by {
                        assert(0 <= y * bwi + x < bwi * (bh as int)) by (nonlinear_arith)
                            requires
                                0 <= x < bwi,
                                0 <= y < bh as int,
                        ;
                        assert((bwi) * (bh as int) == (bh as int) * (bwi)) by (nonlinear_arith);
                        if y * bwi + x == (by as int) * bwi + (bx as int) {
                            lemma_frame_offset_unique(bwi, x, y, bx as int, by as int);
                        }
                    }
                    // Sprite offsets of earlier visible cells lie below
                    // the current one, so the write leaves them alone.
                    assert forall|x: int, y: int|
                        blit_visible(bwi, bh as int, ox as int, oy as int, sw as int, sh as int, x, y)
                            && (y < by as int || (y == by as int && x < bx as int)) implies (#[trigger] blit_sprite_index(
                        bwi,
                        ox as int,
                        oy as int,
                        sw as int,
                        x,
                        y,
                    )) < sii && 0 <= blit_sprite_index(bwi, ox as int, oy as int, sw as int, x, y)
                        && sprite@[blit_sprite_index(bwi, ox as int, oy as int, sw as int, x, y)]
                        == spr_prev[blit_sprite_index(bwi, ox as int, oy as int, sw as int, x, y)] by {
                        lemma_sprite_offset_lt(
                            visw as int,
                            ox as int,
                            oy as int,
                            x,
                            y,
                            bx as int,
                            by as int,
                        );
                        assert((y - oy) * (visw as int) >= 0) by (nonlinear_arith)
                            requires
                                oy as int <= y,
                                0 < visw as int,
                        ;
                    }
                }
                proof {
                    let bwi = bw as int;
                    let sii = (by - oy) * (visw as int) + (bx - ox);
                    assert forall|x: int, y: int|
                        blit_visible(bwi, bh as int, ox as int, oy as int, sw as int, sh as int, x, y)
                            && (y < by as int || (y == by as int && x < bx as int + 1)) implies ({
                            let si2 = blit_sprite_index(bwi, ox as int, oy as int, sw as int, x, y);
                            if (spr0[si2])@ == alpha_channels() {
                                &&& pixel_at(self.buffer@, bwi, x, y) == pixel_at(buf0, bwi, x, y)
                                &&& sprite@[si2] == spr0[si2]
                            } else {
                                &&& pixel_at(self.buffer@, bwi, x, y) == spr0[si2]
                                &&& sprite@[si2] == pixel_at(buf0, bwi, x, y)
                            }
                        }) by {
                        let si2 = blit_sprite_index(bwi, ox as int, oy as int, sw as int, x, y);
                        if x == bx as int && y == by as int {
                            assert(si2 == sii);
                            assert(sp == spr0[si2]);
                            if (spr0[si2])@ == alpha_channels() {
                                assert(sp@ == alpha_channels());
                                assert(pixel_at(self.buffer@, bwi, x, y) == pixel_at(
                                    buf0,
                                    bwi,
                                    x,
                                    y,
                                ));
                                assert(sprite@[si2] == spr0[si2]);
                            } else {
                                assert(pixel_at(self.buffer@, bwi, x, y) == spr0[si2]);
                                assert(sprite@[si2] == pixel_at(buf0, bwi, x, y));
                            }
                        } else {
                            assert(pixel_at(self.buffer@, bwi, x, y) == pixel_at(
                                buf_prev,
                                bwi,
                                x,
                                y,
                            ));
                            assert(sprite@[si2] == spr_prev[si2]);
                        }
                    }
                }
                bx = bx + 1;
                proof {
                    assert((by - oy) * (visw as int) + (bx - ox) == (by - oy) * (visw as int) + (bx
                        - 1 - ox) + 1);
                }
            }
            by = by + 1;
            proof {
                assert(((by - oy)) * (visw as int) == ((by - 1 - oy)) * (visw as int) + (visw as int))
                    by (nonlinear_arith);
            }
        }
    }

    /// Hand the frame's pixels out, consuming the buffer.
    pub fn get_buffer(self) -> (r: Vec<Pixel>)
        ensures
            r@ == self.pixels(),
    {
        self.buffer
    }
}

/// The color a committed particle is drawn with: a fixed species hue
/// with one randomly jittered channel.
pub fn species_pixel(species: Automata, rng: &mut fastrand::Rng) -> (p: Pixel)
    ensures
        species is RandomWalker ==> p@.0 == 170 && 180 <= p@.1 < 220 && p@.2 == 220,
        species is Water ==> p@.0 == 100 && p@.1 == 100 && 180 <= p@.2 < 255,
        species is Sand ==> 120 <= p@.0 < 200 && p@.1 == 90 && p@.2 == 70,
{
    match species {
        Automata::RandomWalker => Pixel::new(170, random_u8(rng, 180, 219), 220),
        Automata::Water => Pixel::new(100, 100, random_u8(rng, 180, 254)),
        Automata::Sand => Pixel::new(random_u8(rng, 120, 199), 90, 70),
    }
}

} // verus!
