//! Pixel-buffer bookkeeping for the renderer.
//!
//! The surface is premultiplied 4-byte pixels, row after row, `row_bytes`
//! apart, so all-zero bytes are fully transparent. Erasing a rectangle by
//! zeroing its bytes is cheaper and more predictable than a clear-mode draw.

use vstd::prelude::*;

use crate::geom::{fits_i32, IRect};

verus! {

/// The rectangle `clear_rect` erases: `rect` clipped to the surface.
pub open spec fn clear_area(rect: IRect, width: i32, height: i32) -> IRect {
    rect.clamp_spec(width, height)
}

/// Byte `k` of the buffer is one `clear_rect` zeroes: it lies in a row of the
/// clipped rectangle that fits in the buffer, between its left and right
/// edges.
pub open spec fn cleared(k: int, r: IRect, row_bytes: int, len: int) -> bool {
    let row = k / row_bytes;
    let col = k % row_bytes;
    &&& !r.empty_spec()
    &&& r.y <= row < r.bottom_spec()
    &&& 4 * r.x <= col < 4 * r.right_spec()
    &&& row * row_bytes + 4 * r.right_spec() <= len
}

proof fn lemma_byte_position(row: int, col: int, rb: int)
    requires
        rb > 0,
        row >= 0,
        0 <= col < rb,
    ensures
        (row * rb + col) / rb == row,
        (row * rb + col) % rb == col,
{
    vstd::arithmetic::div_mod::lemma_fundamental_div_mod_converse(row * rb + col, rb, row, col);
}

/// Zero the bytes of `rect`, clipped to a `width` x `height` surface whose
/// rows are `row_bytes` apart. A row that would run past the end of the
/// buffer is left alone.
pub fn clear_rect(pixels: &mut [u8], row_bytes: usize, width: i32, height: i32, rect: IRect)
    requires
        rect.clamp_fits(width, height),
        4 * width <= row_bytes,
        height * row_bytes + 4 * width <= usize::MAX,
    ensures
        final(pixels)@.len() == old(pixels)@.len(),
        forall|k: int|
            0 <= k < old(pixels)@.len() ==> #[trigger] final(pixels)@[k] == (if cleared(
                k,
                clear_area(rect, width, height),
                row_bytes as int,
                old(pixels)@.len() as int,
            ) {
                0u8
            } else {
                old(pixels)@[k]
            }),
{
    let r = rect.clamp_to(width, height);
    if r.is_empty() {
        return;
    }
    let ghost len = pixels@.len() as int;
    let ghost rb = row_bytes as int;
    assert(row_bytes > 0);
    let start_x = r.x as usize * 4;
    let span = r.width as usize * 4;
    let bottom = r.bottom();
    let mut row: i32 = r.y;
    while row < bottom
        invariant
            !r.empty_spec(),
            r == clear_area(rect, width, height),
            0 <= r.y <= row <= bottom,
            bottom == r.bottom_spec(),
            bottom <= height,
            0 <= r.x,
            r.right_spec() <= width,
            start_x == 4 * r.x,
            span == 4 * r.width,
            rb == row_bytes,
            rb > 0,
            4 * width <= rb,
            height * row_bytes + 4 * width <= usize::MAX,
            len == old(pixels)@.len(),
            pixels@.len() == len,
            forall|k: int|
                0 <= k < len ==> #[trigger] pixels@[k] == (if cleared(k, r, rb, len) && k / rb < row {
                    0u8
                } else {
                    old(pixels)@[k]
                }),
        decreases bottom - row,
    {
        assert(row as int * rb <= height as int * rb) by (nonlinear_arith)
            requires
                row <= height,
                rb >= 0,
        ;
        let offset = row as usize * row_bytes + start_x;
        if offset + span <= pixels.len() {
            let mut i: usize = 0;
            while i < span
                invariant
                    0 <= r.y <= row < bottom,
                    !r.empty_spec(),
                    offset == row * rb + 4 * r.x,
                    offset + span <= len,
                    span == 4 * r.width,
                    i <= span,
                    rb == row_bytes,
                    rb > 0,
                    0 <= r.x,
                    r.right_spec() <= width,
                    4 * width <= rb,
                    pixels@.len() == len,
                    forall|k: int|
                        0 <= k < len ==> #[trigger] pixels@[k] == (if (cleared(k, r, rb, len) && k / rb
                            < row) || (offset <= k < offset + i) {
                            0u8
                        } else {
                            old(pixels)@[k]
                        }),
                decreases span - i,
            {
                pixels[offset + i] = 0;
                i += 1;
            }
            proof {
                assert forall|k: int| 0 <= k < len implies #[trigger] pixels@[k] == (if cleared(k, r, rb, len) && k
                    / rb < row + 1 {
                    0u8
                } else {
                    old(pixels)@[k]
                }) by {
                    let kr = k / rb;
                    let kc = k % rb;
                    vstd::arithmetic::div_mod::lemma_fundamental_div_mod(k, rb);
                    vstd::arithmetic::div_mod::lemma_mod_pos_bound(k, rb);
                    if offset <= k < offset + span {
                        lemma_byte_position(row as int, k - row * rb, rb);
                        assert(k == row * rb + (k - row * rb));
                    }
                    if kr == row as int && 4 * r.x <= kc < 4 * r.right_spec() {
                        assert(k == rb * kr + kc);
                        assert(rb * kr == kr * rb) by (nonlinear_arith);
                    }
                }
            }
        } else {
            proof {
                assert forall|k: int| 0 <= k < len implies #[trigger] pixels@[k] == (if cleared(k, r, rb, len) && k
                    / rb < row + 1 {
                    0u8
                } else {
                    old(pixels)@[k]
                }) by {
                    if cleared(k, r, rb, len) && k / rb == row as int {
                        assert(row as int * rb + 4 * r.right_spec() <= len);
                    }
                }
            }
        }
        row += 1;
    }
}

/// What the renderer last drew, in surface coordinates, and against which
/// viewport origin: enough to erase a sprite where it was and to report as
/// damage only what changed.
pub struct DamageTracker {
    prev_crab: IRect,
    prev_menu: IRect,
    prev_origin: (i32, i32),
}

/// Where the crab shows on a `width` x `height` surface when it is asked to
/// stand at `dst`: there, or nowhere once it lies wholly off the surface.
pub open spec fn shown_crab(dst: IRect, width: i32, height: i32) -> IRect {
    if dst.clamp_spec(width, height).empty_spec() {
        IRect { x: 0, y: 0, width: 0, height: 0 }
    } else {
        dst
    }
}

impl DamageTracker {
    /// Where the crab was last drawn (empty when nowhere).
    pub closed spec fn crab_spec(&self) -> IRect {
        self.prev_crab
    }

    /// Where the menu was last drawn (empty when nowhere).
    pub closed spec fn menu_spec(&self) -> IRect {
        self.prev_menu
    }

    /// The viewport origin of the last frame.
    pub closed spec fn origin_spec(&self) -> (i32, i32) {
        self.prev_origin
    }

    pub fn new() -> (d: DamageTracker)
        ensures
            d.crab_spec() == IRect::new_spec(0, 0, 0, 0),
            d.menu_spec() == IRect::new_spec(0, 0, 0, 0),
            d.origin_spec() == (0i32, 0i32),
    {
        DamageTracker { prev_crab: IRect::empty(), prev_menu: IRect::empty(), prev_origin: (0, 0) }
    }

    /// Forget what was drawn, so the next frame repaints everything.
    pub fn invalidate(&mut self)
        ensures
            final(self).crab_spec() == IRect::new_spec(0, 0, 0, 0),
            final(self).menu_spec() == IRect::new_spec(0, 0, 0, 0),
            final(self).origin_spec() == old(self).origin_spec(),
    {
        self.prev_crab = IRect::empty();
        self.prev_menu = IRect::empty();
    }

    pub fn previous_crab(&self) -> (r: IRect)
        ensures
            r == self.crab_spec(),
    {
        self.prev_crab
    }

    pub fn previous_menu(&self) -> (r: IRect)
        ensures
            r == self.menu_spec(),
    {
        self.prev_menu
    }

    /// Start a frame against the viewport `origin`. Returns whether the
    /// viewport scrolled: then every pixel drawn belongs somewhere else, the
    /// caller clears the whole surface, and nothing counts as drawn.
    pub fn begin(&mut self, origin: (i32, i32)) -> (scrolled: bool)
        ensures
            scrolled == (origin != old(self).origin_spec()),
            final(self).origin_spec() == origin,
            scrolled ==> final(self).crab_spec() == IRect::new_spec(0, 0, 0, 0) && final(self).menu_spec()
                == IRect::new_spec(0, 0, 0, 0),
            !scrolled ==> final(self).crab_spec() == old(self).crab_spec() && final(self).menu_spec()
                == old(self).menu_spec(),
    {
        if origin.0 == self.prev_origin.0 && origin.1 == self.prev_origin.1 {
            return false;
        }
        self.prev_origin = origin;
        self.prev_crab = IRect::empty();
        self.prev_menu = IRect::empty();
        true
    }

    /// The crab is to stand at `dst` on a `width` x `height` surface.
    /// Returns whether to draw it there, and the damage: its old and new
    /// footprints together, clipped to the surface. The caller erases the
    /// old footprint, and the new one before drawing into it.
    pub fn place_crab(&mut self, dst: IRect, width: i32, height: i32) -> (r: (bool, IRect))
        requires
            dst.clamp_fits(width, height),
            old(self).crab_spec().clamp_fits(width, height),
            dst.union_fits(old(self).crab_spec()),
            dst.union_spec(old(self).crab_spec()).clamp_fits(width, height),
        ensures
            r.0 == !dst.clamp_spec(width, height).empty_spec(),
            r.1 == shown_crab(dst, width, height).union_spec(old(self).crab_spec()).clamp_spec(
                width,
                height,
            ),
            final(self).crab_spec() == shown_crab(dst, width, height),
            final(self).menu_spec() == old(self).menu_spec(),
            final(self).origin_spec() == old(self).origin_spec(),
    {
        let visible = !dst.clamp_to(width, height).is_empty();
        let shown = if visible {
            dst
        } else {
            IRect::empty()
        };
        let damage = shown.union(&self.prev_crab).clamp_to(width, height);
        self.prev_crab = shown;
        (visible, damage)
    }

    /// The menu is closed. Returns the damage: where it was, clipped to the
    /// surface, or nothing when it was not drawn. The caller erases it.
    pub fn close_menu(&mut self, width: i32, height: i32) -> (r: IRect)
        requires
            old(self).menu_spec().clamp_fits(width, height),
        ensures
            r == (if old(self).menu_spec().empty_spec() {
                IRect::new_spec(0, 0, 0, 0)
            } else {
                old(self).menu_spec().clamp_spec(width, height)
            }),
            final(self).menu_spec() == IRect::new_spec(0, 0, 0, 0),
            final(self).crab_spec() == old(self).crab_spec(),
            final(self).origin_spec() == old(self).origin_spec(),
    {
        if self.prev_menu.is_empty() {
            self.prev_menu = IRect::empty();
            return IRect::empty();
        }
        let gone = self.prev_menu;
        self.prev_menu = IRect::empty();
        gone.clamp_to(width, height)
    }

    /// The menu is open with its panel at `panel`. Returns `None` when the
    /// panel lies wholly off the surface (nothing to draw, nothing changes);
    /// otherwise the damage, the old and new panels together clipped to
    /// the surface. The caller erases the old panel, and the new one before
    /// drawing into it.
    pub fn place_menu(&mut self, panel: IRect, width: i32, height: i32) -> (r: Option<IRect>)
        requires
            panel.clamp_fits(width, height),
            panel.union_fits(old(self).menu_spec()),
            panel.union_spec(old(self).menu_spec()).clamp_fits(width, height),
        ensures
            panel.clamp_spec(width, height).empty_spec() ==> r is None && final(self).menu_spec() == old(
                self,
            ).menu_spec(),
            !panel.clamp_spec(width, height).empty_spec() ==> r == Some(
                panel.union_spec(old(self).menu_spec()).clamp_spec(width, height),
            ) && final(self).menu_spec() == panel,
            final(self).crab_spec() == old(self).crab_spec(),
            final(self).origin_spec() == old(self).origin_spec(),
    {
        if panel.clamp_to(width, height).is_empty() {
            return None;
        }
        let damage = panel.union(&self.prev_menu).clamp_to(width, height);
        self.prev_menu = panel;
        Some(damage)
    }
}

/// The rectangles a frame reports, in order: the crab's damage, then the
/// menu's, each only when it is not empty.
pub open spec fn damage_list_spec(crab: IRect, menu: IRect) -> Seq<IRect> {
    let c = if crab.empty_spec() {
        Seq::empty()
    } else {
        seq![crab]
    };
    if menu.empty_spec() {
        c
    } else {
        c.push(menu)
    }
}

/// `r` lies wholly on a `width` x `height` surface.
pub open spec fn within_surface(r: IRect, width: i32, height: i32) -> bool {
    &&& r.x >= 0
    &&& r.y >= 0
    &&& r.right_spec() <= width
    &&& r.bottom_spec() <= height
}

/// The damage a frame reports, from the crab's and the menu's: the ones
/// that are not empty, the crab's first.
pub fn damage_list(crab: IRect, menu: IRect) -> (r: Vec<IRect>)
    ensures
        r@ == damage_list_spec(crab, menu),
{
    let mut r: Vec<IRect> = Vec::new();
    if !crab.is_empty() {
        r.push(crab);
    }
    if !menu.is_empty() {
        r.push(menu);
    }
    r
}

/// A frame's damage never escapes the surface: when the crab's and the
/// menu's damage each lie on the surface or are empty (as every placement
/// reports it, see `law_damage_inside_surface`), the frame reports at most
/// two rectangles, the crab's before the menu's, each non-empty and on the
/// surface.
pub proof fn law_frame_damage_inside_surface(crab: IRect, menu: IRect, width: i32, height: i32)
    requires
        crab.empty_spec() || within_surface(crab, width, height),
        menu.empty_spec() || within_surface(menu, width, height),
    ensures
        damage_list_spec(crab, menu).len() <= 2,
        forall|i: int|
            0 <= i < damage_list_spec(crab, menu).len() ==> !(#[trigger] damage_list_spec(crab, menu)[i]).empty_spec()
                && within_surface(damage_list_spec(crab, menu)[i], width, height),
        damage_list_spec(crab, menu).len() == 2 ==> damage_list_spec(crab, menu)[0] == crab
            && damage_list_spec(crab, menu)[1] == menu,
{
}

/// Damage never escapes the surface: whatever a placement reports lies
/// within the `width` x `height` surface.
pub proof fn law_damage_inside_surface(r: IRect, width: i32, height: i32)
    requires
        r.clamp_fits(width, height),
    ensures
        r.clamp_spec(width, height).x >= 0,
        r.clamp_spec(width, height).y >= 0,
        !r.clamp_spec(width, height).empty_spec() ==> r.clamp_spec(width, height).right_spec() <= width
            && r.clamp_spec(width, height).bottom_spec() <= height,
        r.clamp_spec(width, height).empty_spec() || within_surface(r.clamp_spec(width, height), width, height),
{
}

/// Moving the crab damages both where it was and where it now is: every
/// surface pixel of either footprint lies in the reported damage, so the
/// old position is repainted and no smear is left behind.
pub proof fn law_crab_damage_covers_old_and_new(
    prev: IRect,
    dst: IRect,
    width: i32,
    height: i32,
    px: int,
    py: int,
)
    requires
        dst.clamp_fits(width, height),
        dst.union_fits(prev),
        dst.union_spec(prev).clamp_fits(width, height),
        0 <= px < width,
        0 <= py < height,
        prev.covers(px, py) || shown_crab(dst, width, height).covers(px, py),
    ensures
        shown_crab(dst, width, height).union_spec(prev).clamp_spec(width, height).covers(px, py),
{
    let shown = shown_crab(dst, width, height);
    assert(shown.union_fits(prev));
    assert(shown.union_spec(prev).covers(px, py));
}

/// A crab drawn on the surface is drawn where it was asked to stand, and
/// every one of its pixels on the surface is damage.
pub proof fn law_visible_crab_is_damaged(prev: IRect, dst: IRect, width: i32, height: i32, px: int, py: int)
    requires
        dst.clamp_fits(width, height),
        dst.union_fits(prev),
        dst.union_spec(prev).clamp_fits(width, height),
        !dst.clamp_spec(width, height).empty_spec(),
        dst.covers(px, py),
        0 <= px < width,
        0 <= py < height,
    ensures
        shown_crab(dst, width, height) == dst,
        dst.union_spec(prev).clamp_spec(width, height).covers(px, py),
{
}

} // verus!
