//! What the two window backends decide without talking to a window system:
//! which backend a session asks for, what layout each gives the core, how
//! pixels are reordered for a Wayland buffer, and when an input region is
//! worth re-sending.

use vstd::prelude::*;

use crate::app::{Button, Layout};
use crate::geom::IRect;
use crate::text::str_eq;

verus! {

/// Which backend to use.
#[derive(Debug, Clone, Copy, PartialEq, Eq, Structural)]
pub enum Backend {
    /// A wlr-layer-shell surface spanning the screen.
    LayerShell,
    /// A small always-on-top window that follows the crab.
    Floating,
}

impl Backend {
    pub fn layout(self) -> (l: Layout)
        ensures
            l == (match self {
                Backend::LayerShell => Layout::FullStrip,
                Backend::Floating => Layout::FollowCrab,
            }),
    {
        match self {
            Backend::LayerShell => Layout::FullStrip,
            Backend::Floating => Layout::FollowCrab,
        }
    }
}

/// The backend an override value names: "floating" or "layer-shell".
/// Anything else names none.
pub fn backend_override(value: &str) -> (b: Option<Backend>)
    ensures
        b == (if value@ == "floating"@ {
            Some(Backend::Floating)
        } else if value@ == "layer-shell"@ {
            Some(Backend::LayerShell)
        } else {
            None::<Backend>
        }),
{
    if str_eq(value, "floating") {
        Some(Backend::Floating)
    } else if str_eq(value, "layer-shell") {
        Some(Backend::LayerShell)
    } else {
        None
    }
}

/// Copy RGBA-ordered pixels into a little-endian ARGB8888 (BGRA-byte)
/// canvas: red and blue swap places, green and alpha stay. As many whole
/// pixels are copied as both buffers hold; the rest of `dst` is untouched.
pub fn copy_rgba_to_bgra(src: &[u8], dst: &mut [u8])
    ensures
        final(dst)@.len() == old(dst)@.len(),
        forall|p: int, c: int|
            #![trigger final(dst)@[4 * p + c]]
            0 <= p < src@.len() / 4 && p < old(dst)@.len() / 4 && 0 <= c < 4 ==> final(dst)@[4 * p
                + c] == src@[4 * p + (if c == 0 {
                2
            } else if c == 2 {
                0
            } else {
                c
            })],
        forall|k: int|
            #![trigger final(dst)@[k]]
            0 <= k < old(dst)@.len() && !(k / 4 < src@.len() / 4 && k / 4 < old(dst)@.len() / 4)
                ==> final(dst)@[k] == old(dst)@[k],
{
    let sl = src.len();
    let n = if sl / 4 < dst.len() / 4 {
        sl / 4
    } else {
        dst.len() / 4
    };
    let mut p: usize = 0;
    while p < n
        invariant
            p <= n,
            sl == src@.len(),
            n == (if src@.len() / 4 < old(dst)@.len() / 4 {
                src@.len() / 4
            } else {
                old(dst)@.len() / 4
            }),
            dst@.len() == old(dst)@.len(),
            forall|q: int, c: int|
                0 <= q < p && 0 <= c < 4 ==> #[trigger] dst@[4 * q + c] == src@[4 * q + (if c == 0 {
                    2
                } else if c == 2 {
                    0
                } else {
                    c
                })],
            forall|k: int| 4 * p <= k < dst@.len() ==> #[trigger] dst@[k] == old(dst)@[k],
        decreases n - p,
    {
        let b = 4 * p;
        dst[b] = src[b + 2];
        dst[b + 1] = src[b + 1];
        dst[b + 2] = src[b];
        dst[b + 3] = src[b + 3];
        p += 1;
    }
    proof {
        assert forall|k: int|
            0 <= k < old(dst)@.len() && !(k / 4 < src@.len() / 4 && k / 4 < old(dst)@.len() / 4)
                implies #[trigger] dst@[k] == old(dst)@[k] by {
            assert(k >= 4 * n);
        }
    }
}

/// Position changes smaller than this, in pixels, are not worth a new input
/// region and a commit.
/// Where byte `c` of a pixel row takes its value from when red and blue
/// swap places: the first and third byte of each pixel trade.
pub open spec fn swap_rb(c: int) -> int {
    if c % 4 == 0 {
        c + 2
    } else if c % 4 == 2 {
        c - 2
    } else {
        c
    }
}

/// Byte `k` of the canvas is copied row by row: its row is one of the
/// first `rows`, that row lies whole in both buffers, and the byte is part of
/// a whole pixel of the row.
pub open spec fn row_copied(src_len: int, src_stride: int, dst_len: int, dst_stride: int, rows: int, k: int) -> bool {
    &&& dst_stride > 0
    &&& k / dst_stride < rows
    &&& (k / dst_stride) * src_stride + dst_stride <= src_len
    &&& (k / dst_stride) * dst_stride + dst_stride <= dst_len
    &&& k % dst_stride < 4 * (dst_stride / 4)
}

/// Byte `k` of a canvas `dst` after `copy_frame` from `src`: with equal
/// strides and enough source the canvas is copied whole; otherwise row by
/// row, each row where it fits. Red and blue swap either way.
pub open spec fn framed(src: Seq<u8>, src_stride: int, dst: Seq<u8>, dst_stride: int, rows: int, k: int) -> u8 {
    if src_stride == dst_stride && src.len() >= dst.len() {
        if k < 4 * (dst.len() / 4) {
            src[swap_rb(k)]
        } else {
            dst[k]
        }
    } else if row_copied(src.len() as int, src_stride, dst.len() as int, dst_stride, rows, k) {
        src[(k / dst_stride) * src_stride + swap_rb(k % dst_stride)]
    } else {
        dst[k]
    }
}

proof fn lemma_split(k: int, n: int)
    requires
        n > 0,
        k >= 0,
    ensures
        k == (k / n) * n + k % n,
        0 <= k % n < n,
        k / n >= 0,
{
    vstd::arithmetic::div_mod::lemma_fundamental_div_mod(k, n);
    vstd::arithmetic::div_mod::lemma_mod_pos_bound(k, n);
    assert((k / n) * n == n * (k / n)) by (nonlinear_arith);
    vstd::arithmetic::div_mod::lemma_div_pos_is_pos(k, n);
}

proof fn lemma_join(r: int, c: int, n: int)
    requires
        n > 0,
        r >= 0,
        0 <= c < n,
    ensures
        (r * n + c) / n == r,
        (r * n + c) % n == c,
{
    vstd::arithmetic::div_mod::lemma_fundamental_div_mod_converse(r * n + c, n, r, c);
}

proof fn lemma_swap_in_pixel(c: int)
    requires
        c >= 0,
    ensures
        swap_rb(c) / 4 == c / 4,
        0 <= swap_rb(c),
        swap_rb(c) == 4 * (c / 4) + (if c % 4 == 0 {
            2
        } else if c % 4 == 2 {
            0
        } else {
            c % 4
        }),
{
    lemma_split(c, 4);
    let p = c / 4;
    let q = c % 4;
    let d = swap_rb(c);
    let e = if q == 0 {
        2
    } else if q == 2 {
        0
    } else {
        q
    };
    assert(d == p * 4 + e);
    lemma_join(p, e, 4);
    assert(4 * p == p * 4);
}

/// Copy a frame of RGBA rows, `src_stride` bytes apart, into a canvas of
/// little-endian ARGB8888 rows, `dst_stride` bytes apart, swapping red and
/// blue. With equal strides and enough source the canvas is copied whole;
/// otherwise each of the first `rows` rows that lies whole in both buffers.
/// Every other byte of the canvas keeps its value.
pub fn copy_frame(src: &[u8], src_stride: usize, dst: &mut [u8], dst_stride: usize, rows: usize)
    ensures
        final(dst)@.len() == old(dst)@.len(),
        forall|k: int|
            0 <= k < old(dst)@.len() ==> #[trigger] final(dst)@[k] == framed(
                src@,
                src_stride as int,
                old(dst)@,
                dst_stride as int,
                rows as int,
                k,
            ),
{
    if src_stride == dst_stride && src.len() >= dst.len() {
        copy_rgba_to_bgra(src, dst);
        proof {
            assert forall|k: int| 0 <= k < old(dst)@.len() implies #[trigger] dst@[k] == framed(
                src@,
                src_stride as int,
                old(dst)@,
                dst_stride as int,
                rows as int,
                k,
            ) by {
                lemma_split(k, 4);
                lemma_swap_in_pixel(k);
                let p = k / 4;
                let c = k % 4;
                assert(k == 4 * p + c);
                if k < 4 * (old(dst)@.len() / 4) {
                    assert(p < old(dst)@.len() / 4);
                    assert(src@.len() / 4 >= old(dst)@.len() / 4) by {
                        vstd::arithmetic::div_mod::lemma_div_is_ordered(
                            old(dst)@.len() as int,
                            src@.len() as int,
                            4,
                        );
                    }
                    assert(dst@[4 * p + c] == src@[4 * p + (if c == 0 {
                        2
                    } else if c == 2 {
                        0
                    } else {
                        c
                    })]);
                } else {
                    assert(p >= old(dst)@.len() / 4) by {
                        if p < old(dst)@.len() / 4 {
                            assert(4 * p + 4 <= 4 * (old(dst)@.len() / 4));
                        }
                    }
                }
            }
        }
        return;
    }
    if dst_stride == 0 {
        return;
    }
    let pixels = dst_stride / 4;
    let dl = dst.len();
    let sl = src.len();
    let mut row: usize = 0;
    while row < rows
        invariant
            dst_stride > 0,
            pixels == dst_stride / 4,
            dl == old(dst)@.len(),
            sl == src@.len(),
            dst@.len() == dl,
            row <= rows,
            !(src_stride == dst_stride && src@.len() >= old(dst)@.len()),
            forall|k: int|
                0 <= k < dl ==> #[trigger] dst@[k] == (if k / (dst_stride as int) < row {
                    framed(src@, src_stride as int, old(dst)@, dst_stride as int, rows as int, k)
                } else {
                    old(dst)@[k]
                }),
        decreases rows - row,
    {
        let ghost n = dst_stride as int;
        let s_opt = row.checked_mul(src_stride);
        let d_opt = row.checked_mul(dst_stride);
        let mut fits = false;
        let mut s: usize = 0;
        let mut d: usize = 0;
        match (s_opt, d_opt) {
            (Some(s0), Some(d0)) => {
                if s0 <= sl && dst_stride <= sl - s0 && d0 <= dl && dst_stride <= dl - d0 {
                    fits = true;
                    s = s0;
                    d = d0;
                }
            },
            _ => {},
        }
        proof {
            let r = row as int;
            assert(r * src_stride >= 0 && r * n >= 0) by (nonlinear_arith)
                requires
                    r >= 0,
                    src_stride >= 0,
                    n >= 0,
            ;
            assert(fits == (r * src_stride + n <= sl && r * n + n <= dl));
            if fits {
                assert(s == r * src_stride && d == r * n);
            }
        }
        if fits {
            let mut p: usize = 0;
            while p < pixels
                invariant
                    dst_stride > 0,
                    pixels == dst_stride / 4,
                    dl == old(dst)@.len(),
                    sl == src@.len(),
                    dst@.len() == dl,
                    row < rows,
                    s == row * src_stride,
                    d == row * dst_stride,
                    s + dst_stride <= sl,
                    d + dst_stride <= dl,
                    p <= pixels,
                    n == dst_stride as int,
                    !(src_stride == dst_stride && src@.len() >= old(dst)@.len()),
                    forall|k: int|
                        0 <= k < dl ==> #[trigger] dst@[k] == (if k / (dst_stride as int) < row || (d <= k
                            < d + 4 * p) {
                            framed(src@, src_stride as int, old(dst)@, dst_stride as int, rows as int, k)
                        } else {
                            old(dst)@[k]
                        }),
                decreases pixels - p,
            {
                proof {
                    assert(4 * p + 4 <= 4 * pixels);
                    assert(4 * pixels <= dst_stride) by {
                        lemma_split(dst_stride as int, 4);
                    }
                }
                let b = d + 4 * p;
                let a = s + 4 * p;
                let ghost before = dst@;
                dst[b] = src[a + 2];
                dst[b + 1] = src[a + 1];
                dst[b + 2] = src[a];
                dst[b + 3] = src[a + 3];
                proof {
                    let r = row as int;
                    assert forall|k: int| 0 <= k < dl implies #[trigger] dst@[k] == (if k / n < row || (d <= k
                        < d + 4 * (p + 1)) {
                        framed(src@, src_stride as int, old(dst)@, n, rows as int, k)
                    } else {
                        old(dst)@[k]
                    }) by {
                        if b <= k < b + 4 {
                            let c = k - d;
                            lemma_join(r, c, n);
                            assert(k == r * n + c);
                            lemma_swap_in_pixel(c);
                            lemma_split(c, 4);
                            assert(c / 4 == p as int);
                            assert(k % n < 4 * (n / 4));
                            assert(row_copied(src@.len() as int, src_stride as int, old(dst)@.len() as int, n, rows as int, k));
                        } else {
                            assert(dst@[k] == before[k]);
                        }
                    }
                }
                p += 1;
            }
            proof {
                let r = row as int;
                assert forall|k: int| 0 <= k < dl implies #[trigger] dst@[k] == (if k / n < row + 1 {
                    framed(src@, src_stride as int, old(dst)@, n, rows as int, k)
                } else {
                    old(dst)@[k]
                }) by {
                    lemma_split(k, n);
                    lemma_split(n, 4);
                    let q = k / n;
                    let c = k % n;
                    assert(d == r * n);
                    if q == r {
                        assert(k == r * n + c);
                        if !(d <= k < d + 4 * pixels) {
                            assert(c >= 4 * (n / 4));
                            assert(!row_copied(src@.len() as int, src_stride as int, old(dst)@.len() as int, n, rows as int, k));
                        }
                    } else if q > r {
                        assert(q * n >= (r + 1) * n) by (nonlinear_arith)
                            requires
                                q >= r + 1,
                                n > 0,
                        ;
                        assert((r + 1) * n == r * n + n) by (nonlinear_arith);
                        assert(!(d <= k < d + 4 * pixels));
                    }
                }
            }
        } else {
            proof {
                let r = row as int;
                assert forall|k: int| 0 <= k < dl implies #[trigger] dst@[k] == (if k / n < row + 1 {
                    framed(src@, src_stride as int, old(dst)@, n, rows as int, k)
                } else {
                    old(dst)@[k]
                }) by {
                    if k / n == r {
                        assert(!row_copied(src@.len() as int, src_stride as int, old(dst)@.len() as int, n, rows as int, k));
                    }
                }
            }
        }
        row += 1;
    }
    proof {
        assert forall|k: int| 0 <= k < dl implies #[trigger] dst@[k] == framed(
            src@,
            src_stride as int,
            old(dst)@,
            dst_stride as int,
            rows as int,
            k,
        ) by {
            if k / (dst_stride as int) >= rows {
                assert(!row_copied(src@.len() as int, src_stride as int, old(dst)@.len() as int, dst_stride as int, rows as int, k));
            }
        }
    }
}

/// The Linux input event codes of the left and right mouse buttons.
pub const BTN_LEFT: u32 = 0x110;

pub const BTN_RIGHT: u32 = 0x111;

/// The button a Wayland pointer event's code names.
pub fn button_for_code(code: u32) -> (b: Button)
    ensures
        b == (if code == BTN_LEFT {
            Button::Left
        } else if code == BTN_RIGHT {
            Button::Right
        } else {
            Button::Other
        }),
{
    if code == BTN_LEFT {
        Button::Left
    } else if code == BTN_RIGHT {
        Button::Right
    } else {
        Button::Other
    }
}

/// The logical size to lay the strip out in, from a layer-surface
/// configure: a zero dimension leaves the choice to the client, which
/// assumes a 1920x1080 output.
pub fn configured_size(width: u32, height: u32) -> (r: (u32, u32))
    ensures
        r.0 == (if width == 0 { 1920 } else { width }),
        r.1 == (if height == 0 { 1080 } else { height }),
{
    (if width == 0 {
        1920
    } else {
        width
    }, if height == 0 {
        1080
    } else {
        height
    })
}

/// A new output scale is taken only when it differs from the current one
/// and is positive.
pub fn scale_changes(current: i32, new: i32) -> (r: bool)
    ensures
        r == (new != current && new > 0),
{
    new != current && new > 0
}

pub const REGION_MOVE_THRESHOLD: i32 = 6;

pub open spec fn abs(v: int) -> int {
    if v < 0 {
        -v
    } else {
        v
    }
}

pub open spec fn region_update_spec(set: bool, current: IRect, wanted: IRect) -> bool {
    ||| !set
    ||| wanted.width != current.width || wanted.height != current.height
    ||| abs(wanted.x - current.x) + abs(wanted.y - current.y) >= REGION_MOVE_THRESHOLD
}

/// Whether the input region must be re-sent: always the first time and on a
/// change of size, but on a move only past the threshold, so a walking crab
/// does not commit a new region every frame.
pub fn region_needs_update(set: bool, current: IRect, wanted: IRect) -> (r: bool)
    ensures
        r == region_update_spec(set, current, wanted),
{
    let resized = wanted.width != current.width || wanted.height != current.height;
    let dx = wanted.x as i64 - current.x as i64;
    let dy = wanted.y as i64 - current.y as i64;
    let adx = if dx < 0 {
        -dx
    } else {
        dx
    };
    let ady = if dy < 0 {
        -dy
    } else {
        dy
    };
    let moved = adx + ady >= REGION_MOVE_THRESHOLD as i64;
    !set || resized || moved
}

} // verus!
