//! Row-major pixel buffers and the dirty rectangle between two of them.
use vstd::prelude::*;

verus! {

/// Inclusive rectangle `x0..=x1` by `y0..=y1` of panel coordinates.
#[derive(Clone, Copy, Debug, PartialEq, Eq, Structural)]
pub struct Window {
    pub x0: u16,
    pub y0: u16,
    pub x1: u16,
    pub y1: u16,
}

/// Column of the pixel stored at index `k` of a buffer `w` pixels wide.
pub open spec fn col(k: int, w: nat) -> int {
    k % (w as int)
}

/// Row of the pixel stored at index `k` of a buffer `w` pixels wide.
pub open spec fn row(k: int, w: nat) -> int {
    k / (w as int)
}

/// Whether the pixel at index `k` lies inside `b`.
pub open spec fn in_window(b: Window, k: int, w: nat) -> bool {
    b.x0 <= col(k, w) <= b.x1 && b.y0 <= row(k, w) <= b.y1
}

/// Whether the two buffers hold different colours at index `k`.
pub open spec fn differs(sent: Seq<u16>, current: Seq<u16>, k: int) -> bool {
    sent[k] != current[k]
}

/// `b` is a well-formed window of a `w` by `h` panel.
pub open spec fn window_fits(b: Window, w: nat, h: nat) -> bool {
    b.x0 <= b.x1 < w && b.y0 <= b.y1 < h
}

/// `b` holds every pixel where the buffers differ.
pub open spec fn covers_changes(sent: Seq<u16>, current: Seq<u16>, w: nat, b: Window) -> bool {
    forall|k: int|
        0 <= k < sent.len() && #[trigger] differs(sent, current, k) ==> in_window(b, k, w)
}

/// Each edge of `b` passes through a pixel where the buffers differ.
pub open spec fn edges_touch_changes(
    sent: Seq<u16>,
    current: Seq<u16>,
    w: nat,
    b: Window,
) -> bool {
    &&& exists|k: int|
        0 <= k < sent.len() && #[trigger] differs(sent, current, k) && col(k, w) == b.x0
    &&& exists|k: int|
        0 <= k < sent.len() && #[trigger] differs(sent, current, k) && col(k, w) == b.x1
    &&& exists|k: int|
        0 <= k < sent.len() && #[trigger] differs(sent, current, k) && row(k, w) == b.y0
    &&& exists|k: int|
        0 <= k < sent.len() && #[trigger] differs(sent, current, k) && row(k, w) == b.y1
}

/// `b` is the bounding box of the pixels where the buffers differ.
pub open spec fn is_dirty_box(
    sent: Seq<u16>,
    current: Seq<u16>,
    w: nat,
    h: nat,
    b: Window,
) -> bool {
    &&& window_fits(b, w, h)
    &&& covers_changes(sent, current, w, b)
    &&& edges_touch_changes(sent, current, w, b)
}

/// Two `w` by `h` buffers, small enough that every coordinate is a `u16`.
pub open spec fn buffers_ok(sent: Seq<u16>, current: Seq<u16>, w: nat, h: nat) -> bool {
    &&& 0 < w <= 0x10000
    &&& 0 < h <= 0x10000
    &&& sent.len() == w * h
    &&& current.len() == w * h
}

pub proof fn lemma_index_split(k: int, w: nat, h: nat)
    requires
        0 <= k < w * h,
        w > 0,
    ensures
        0 <= col(k, w) < w,
        0 <= row(k, w) < h,
        k == row(k, w) * w + col(k, w),
{
    vstd::arithmetic::div_mod::lemma_fundamental_div_mod(k, w as int);
    vstd::arithmetic::div_mod::lemma_mod_bound(k, w as int);
    vstd::arithmetic::div_mod::lemma_div_pos_is_pos(k, w as int);
    let q = row(k, w);
    assert(k == q * w + col(k, w)) by (nonlinear_arith)
        requires k == (w as int) * q + col(k, w);
    assert(q < h) by {
        if q >= h {
            assert(q * w >= h * w) by (nonlinear_arith)
                requires q >= h, w > 0;
            assert(h * w == w * h) by (nonlinear_arith);
        }
    }
}

/// The pixel at column `x`, row `y` is stored at index `y * w + x`.
pub proof fn lemma_index_of(x: int, y: int, w: nat)
    requires
        0 <= x < w,
        0 <= y,
    ensures
        col(y * w + x, w) == x,
        row(y * w + x, w) == y,
{
    vstd::arithmetic::div_mod::lemma_fundamental_div_mod_converse(y * w + x, w as int, y, x);
}

/// Bounding box of the pixels where `sent` and `current` differ, found in a
/// single scan; `None` when they are equal.
pub fn dirty_box(sent: &Vec<u16>, current: &Vec<u16>, width: usize, height: usize) -> (r: Option<
    Window,
>)
    requires
        buffers_ok(sent@, current@, width as nat, height as nat),
    ensures
        r is None <==> sent@ == current@,
        r matches Some(b) ==> is_dirty_box(sent@, current@, width as nat, height as nat, b),
{
    let ghost w = width as nat;
    let ghost h = height as nat;
    let n = sent.len();
    let mut found = false;
    let mut x0: usize = 0;
    let mut x1: usize = 0;
    let mut y0: usize = 0;
    let mut y1: usize = 0;
    let ghost mut wx0: int = 0;
    let ghost mut wx1: int = 0;
    let ghost mut wy0: int = 0;
    let ghost mut wy1: int = 0;
    let mut x: usize = 0;
    let mut y: usize = 0;
    let mut i: usize = 0;
    while i < n
        invariant
            buffers_ok(sent@, current@, w, h),
            w == width as nat,
            h == height as nat,
            n == sent@.len(),
            i <= n,
            i < n ==> x == col(i as int, w) && y == row(i as int, w),
            x < width,
            !found ==> forall|k: int| 0 <= k < i ==> !#[trigger] differs(sent@, current@, k),
            found ==> {
                &&& x0 <= x1 < width
                &&& y0 <= y1 < height
                &&& forall|k: int|
                    0 <= k < i && #[trigger] differs(sent@, current@, k) ==> x0 <= col(k, w) <= x1
                        && y0 <= row(k, w) <= y1
                &&& 0 <= wx0 < i && differs(sent@, current@, wx0) && col(wx0, w) == x0
                &&& 0 <= wx1 < i && differs(sent@, current@, wx1) && col(wx1, w) == x1
                &&& 0 <= wy0 < i && differs(sent@, current@, wy0) && row(wy0, w) == y0
                &&& 0 <= wy1 < i && differs(sent@, current@, wy1) && row(wy1, w) == y1
            },
        decreases n - i,
    {
        proof {
            lemma_index_split(i as int, w, h);
        }
        if sent[i] != current[i] {
            if !found {
                found = true;
                x0 = x;
                x1 = x;
                y0 = y;
                y1 = y;
                proof {
                    wx0 = i as int;
                    wx1 = i as int;
                    wy0 = i as int;
                    wy1 = i as int;
                }
            } else {
                if x < x0 {
                    x0 = x;
                    proof {
                        wx0 = i as int;
                    }
                }
                if x > x1 {
                    x1 = x;
                    proof {
                        wx1 = i as int;
                    }
                }
                if y < y0 {
                    y0 = y;
                    proof {
                        wy0 = i as int;
                    }
                }
                if y > y1 {
                    y1 = y;
                    proof {
                        wy1 = i as int;
                    }
                }
            }
        }
        proof {
            if i + 1 < n {
                lemma_index_split(i + 1, w, h);
                if x + 1 < width {
                    lemma_index_of(x + 1, y as int, w);
                } else {
                    assert(y * w + x + 1 == (y + 1) * w + 0) by (nonlinear_arith)
                        requires x + 1 == w;
                    lemma_index_of(0, y + 1, w);
                }
            }
        }
        if x + 1 < width {
            x = x + 1;
        } else {
            x = 0;
            y = y + 1;
        }
        i = i + 1;
    }
    if found {
        let b = Window { x0: x0 as u16, y0: y0 as u16, x1: x1 as u16, y1: y1 as u16 };
        proof {
            assert(differs(sent@, current@, wx0));
            assert(sent@ != current@);
            assert(edges_touch_changes(sent@, current@, w, b));
        }
        Some(b)
    } else {
        proof {
            assert(sent@ =~= current@) by {
                assert forall|k: int| 0 <= k < sent@.len() implies sent@[k] == current@[k] by {
                    assert(!differs(sent@, current@, k));
                }
            }
        }
        None
    }
}

/// Number of columns of `b`.
pub open spec fn window_width(b: Window) -> nat {
    (b.x1 - b.x0 + 1) as nat
}

/// Number of rows of `b`.
pub open spec fn window_height(b: Window) -> nat {
    (b.y1 - b.y0 + 1) as nat
}

/// The pixels of `buf` inside `b`, row by row, each row left to right: the
/// order in which the panel fills a window.
pub open spec fn window_seq(buf: Seq<u16>, w: nat, b: Window) -> Seq<u16> {
    Seq::new(
        window_width(b) * window_height(b),
        |k: int|
            buf[(b.y0 + k / (window_width(b) as int)) * w + b.x0 + k % (window_width(b) as int)],
    )
}

/// The whole of a `w` by `h` panel.
pub open spec fn full_window(w: nat, h: nat) -> Window {
    Window { x0: 0, y0: 0, x1: (w - 1) as u16, y1: (h - 1) as u16 }
}

proof fn lemma_window_area(b: Window, w: nat, h: nat)
    requires
        window_fits(b, w, h),
    ensures
        window_width(b) * window_height(b) <= w * h,
{
    let ww = window_width(b);
    let wh = window_height(b);
    assert(ww <= w && wh <= h);
    assert(ww * wh <= w * h) by (nonlinear_arith)
        requires ww <= w, wh <= h;
}

/// Copies the pixels of `buf` inside `b`, row-major.
pub fn window_pixels(buf: &Vec<u16>, width: usize, height: usize, b: Window) -> (r: Vec<u16>)
    requires
        0 < width,
        buf@.len() == width * height,
        width * height <= usize::MAX,
        window_fits(b, width as nat, height as nat),
    ensures
        r@ == window_seq(buf@, width as nat, b),
{
    let ghost w = width as nat;
    let ghost spec_seq = window_seq(buf@, w, b);
    let ww: usize = (b.x1 - b.x0) as usize + 1;
    let wh: usize = (b.y1 - b.y0) as usize + 1;
    proof {
        lemma_window_area(b, w, height as nat);
    }
    let n: usize = ww * wh;
    let mut out: Vec<u16> = Vec::with_capacity(n);
    let mut x: usize = b.x0 as usize;
    let mut y: usize = b.y0 as usize;
    while out.len() < n
        invariant
            ww == window_width(b),
            wh == window_height(b),
            n == ww * wh,
            spec_seq == window_seq(buf@, w, b),
            w == width as nat,
            buf@.len() == width * height,
            width * height <= usize::MAX,
            window_fits(b, w, height as nat),
            out@.len() <= n,
            out@.len() < n ==> {
                &&& b.x0 <= x <= b.x1
                &&& b.y0 <= y <= b.y1
                &&& out@.len() == (y - b.y0) * ww + (x - b.x0)
            },
            forall|k: int| 0 <= k < out@.len() ==> out@[k] == spec_seq[k],
        decreases n - out@.len(),
    {
        let ghost k = out@.len() as int;
        proof {
            lemma_index_of(x - b.x0, y - b.y0, ww as nat);
            assert(y * width + x < width * height) by (nonlinear_arith)
                requires y < height, x < width;
        }
        out.push(buf[y * width + x]);
        proof {
            assert(out@[k] == spec_seq[k]);
            if out@.len() < n {
                if x < b.x1 {
                    assert((y - b.y0) * ww + (x + 1 - b.x0) == k + 1);
                } else {
                    assert((y + 1 - b.y0) * ww + 0 == (y - b.y0) * ww + ww) by (nonlinear_arith);
                    assert(y < b.y1) by {
                        if y >= b.y1 {
                            assert((y - b.y0) * ww + ww == n) by (nonlinear_arith)
                                requires y == b.y1, n == ww * wh, wh == b.y1 - b.y0 + 1;
                        }
                    }
                }
            }
        }
        if x < b.x1 as usize {
            x = x + 1;
        } else {
            x = b.x0 as usize;
            y = y + 1;
        }
    }
    assert(out@ =~= spec_seq);
    out
}

/// The dirty box is the smallest window holding every changed pixel: any
/// window that holds them all holds the dirty box.
pub proof fn lemma_dirty_box_is_smallest(
    sent: Seq<u16>,
    current: Seq<u16>,
    w: nat,
    h: nat,
    b: Window,
    other: Window,
)
    requires
        buffers_ok(sent, current, w, h),
        is_dirty_box(sent, current, w, h, b),
        covers_changes(sent, current, w, other),
    ensures
        other.x0 <= b.x0,
        b.x1 <= other.x1,
        other.y0 <= b.y0,
        b.y1 <= other.y1,
{
}

/// `b` widened to hold column `x`, row `y`.
pub open spec fn grow(b: Option<Window>, x: int, y: int) -> Window {
    match b {
        None => Window { x0: x as u16, y0: y as u16, x1: x as u16, y1: y as u16 },
        Some(b) => Window {
            x0: if x < b.x0 { x as u16 } else { b.x0 },
            y0: if y < b.y0 { y as u16 } else { b.y0 },
            x1: if x > b.x1 { x as u16 } else { b.x1 },
            y1: if y > b.y1 { y as u16 } else { b.y1 },
        },
    }
}

/// Bounding box of the changed pixels among the first `n`.
pub open spec fn prefix_box(sent: Seq<u16>, current: Seq<u16>, w: nat, n: nat) -> Option<Window>
    decreases n,
{
    if n == 0 {
        None
    } else {
        let prev = prefix_box(sent, current, w, (n - 1) as nat);
        if differs(sent, current, n - 1) {
            Some(grow(prev, col(n - 1, w), row(n - 1, w)))
        } else {
            prev
        }
    }
}

/// `b` is the bounding box of the changed pixels among the first `n`.
pub open spec fn is_prefix_box(
    sent: Seq<u16>,
    current: Seq<u16>,
    w: nat,
    h: nat,
    n: nat,
    b: Window,
) -> bool {
    &&& window_fits(b, w, h)
    &&& forall|k: int|
        0 <= k < n && #[trigger] differs(sent, current, k) ==> in_window(b, k, w)
    &&& exists|k: int| 0 <= k < n && #[trigger] differs(sent, current, k) && col(k, w) == b.x0
    &&& exists|k: int| 0 <= k < n && #[trigger] differs(sent, current, k) && col(k, w) == b.x1
    &&& exists|k: int| 0 <= k < n && #[trigger] differs(sent, current, k) && row(k, w) == b.y0
    &&& exists|k: int| 0 <= k < n && #[trigger] differs(sent, current, k) && row(k, w) == b.y1
}

proof fn lemma_prefix_box(sent: Seq<u16>, current: Seq<u16>, w: nat, h: nat, n: nat)
    requires
        buffers_ok(sent, current, w, h),
        n <= w * h,
    ensures
        prefix_box(sent, current, w, n) is None <==> forall|k: int|
            0 <= k < n ==> !#[trigger] differs(sent, current, k),
        prefix_box(sent, current, w, n) matches Some(b) ==> is_prefix_box(
            sent,
            current,
            w,
            h,
            n,
            b,
        ),
    decreases n,
{
    if n > 0 {
        let m = (n - 1) as nat;
        lemma_prefix_box(sent, current, w, h, m);
        lemma_index_split(m as int, w, h);
        let prev = prefix_box(sent, current, w, m);
        if differs(sent, current, m as int) {
            let b = grow(prev, col(m as int, w), row(m as int, w));
            assert(in_window(b, m as int, w));
            if prev is None {
                assert(forall|k: int| 0 <= k < n && #[trigger] differs(sent, current, k) ==> k
                    == m);
            } else {
                let p = prev->0;
                let k0 = choose|k: int|
                    0 <= k < m && #[trigger] differs(sent, current, k) && col(k, w) == p.x0;
                let k1 = choose|k: int|
                    0 <= k < m && #[trigger] differs(sent, current, k) && col(k, w) == p.x1;
                let k2 = choose|k: int|
                    0 <= k < m && #[trigger] differs(sent, current, k) && row(k, w) == p.y0;
                let k3 = choose|k: int|
                    0 <= k < m && #[trigger] differs(sent, current, k) && row(k, w) == p.y1;
                assert(differs(sent, current, k0) && differs(sent, current, k1));
                assert(differs(sent, current, k2) && differs(sent, current, k3));
                assert(differs(sent, current, m as int));
            }
            assert(!(forall|k: int| 0 <= k < n ==> !#[trigger] differs(sent, current, k)));
        } else {
            if prev is Some {
                let p = prev->0;
                let k0 = choose|k: int|
                    0 <= k < m && #[trigger] differs(sent, current, k) && col(k, w) == p.x0;
                let k1 = choose|k: int|
                    0 <= k < m && #[trigger] differs(sent, current, k) && col(k, w) == p.x1;
                let k2 = choose|k: int|
                    0 <= k < m && #[trigger] differs(sent, current, k) && row(k, w) == p.y0;
                let k3 = choose|k: int|
                    0 <= k < m && #[trigger] differs(sent, current, k) && row(k, w) == p.y1;
                assert(differs(sent, current, k0) && differs(sent, current, k1));
                assert(differs(sent, current, k2) && differs(sent, current, k3));
                assert(!(forall|k: int| 0 <= k < n ==> !#[trigger] differs(sent, current, k)));
            }
        }
    }
}

/// Buffers that differ somewhere have a dirty box.
pub proof fn lemma_dirty_box_exists(sent: Seq<u16>, current: Seq<u16>, w: nat, h: nat)
    requires
        buffers_ok(sent, current, w, h),
        sent != current,
    ensures
        exists|b: Window| is_dirty_box(sent, current, w, h, b),
{
    lemma_prefix_box(sent, current, w, h, w * h);
    if prefix_box(sent, current, w, w * h) is None {
        assert(sent =~= current) by {
            assert forall|k: int| 0 <= k < sent.len() implies sent[k] == current[k] by {
                assert(!differs(sent, current, k));
            }
        }
    }
    let b = prefix_box(sent, current, w, w * h)->0;
    assert(is_dirty_box(sent, current, w, h, b));
}

} // verus!
