//! The virtual screen: the rectangle spanning all monitors, and the canvas
//! that the monitors' captures are painted onto, encoded as PNG.
use vstd::prelude::*;
use crate::region_capture::{bytes_result_view, encode_png, encoded_png, image_wf, RgbaImage};
use crate::text::{chars_of, push_str, str_to_string, string_of};

verus! {

/// A monitor's rectangle on the virtual screen.
#[derive(Debug, Clone, Copy, PartialEq, Eq, Structural)]
pub struct MonitorRect {
    pub x: i32,
    pub y: i32,
    pub width: u32,
    pub height: u32,
}

/// The rectangle spanning all monitors: its top-left corner (negative where
/// a monitor lies left of or above the primary one) and its size.
#[derive(Debug, Clone, Copy, PartialEq, Eq, Structural)]
pub struct VirtualScreenInfo {
    pub offset_x: i32,
    pub offset_y: i32,
    pub total_width: u32,
    pub total_height: u32,
}

/// The smaller of two integers.
pub open spec fn min_int(a: int, b: int) -> int {
    if a <= b {
        a
    } else {
        b
    }
}

/// The larger of two integers.
pub open spec fn max_int(a: int, b: int) -> int {
    if a >= b {
        a
    } else {
        b
    }
}

/// The leftmost edge of the monitors.
pub open spec fn left_edge(ms: Seq<MonitorRect>) -> int
    decreases ms.len(),
{
    if ms.len() <= 1 {
        if ms.len() == 1 {
            ms[0].x as int
        } else {
            0
        }
    } else {
        min_int(left_edge(ms.drop_last()), ms.last().x as int)
    }
}

/// The topmost edge of the monitors.
pub open spec fn top_edge(ms: Seq<MonitorRect>) -> int
    decreases ms.len(),
{
    if ms.len() <= 1 {
        if ms.len() == 1 {
            ms[0].y as int
        } else {
            0
        }
    } else {
        min_int(top_edge(ms.drop_last()), ms.last().y as int)
    }
}

/// The rightmost edge of the monitors.
pub open spec fn right_edge(ms: Seq<MonitorRect>) -> int
    decreases ms.len(),
{
    if ms.len() <= 1 {
        if ms.len() == 1 {
            ms[0].x + ms[0].width
        } else {
            0
        }
    } else {
        max_int(right_edge(ms.drop_last()), ms.last().x + ms.last().width)
    }
}

/// The bottom edge of the monitors.
pub open spec fn bottom_edge(ms: Seq<MonitorRect>) -> int
    decreases ms.len(),
{
    if ms.len() <= 1 {
        if ms.len() == 1 {
            ms[0].y + ms[0].height
        } else {
            0
        }
    } else {
        max_int(bottom_edge(ms.drop_last()), ms.last().y + ms.last().height)
    }
}

/// The monitors' coordinates are those the virtual screen can be computed
/// in: each edge and the screen's span fit in an `i32`.
pub open spec fn monitors_fit(ms: Seq<MonitorRect>) -> bool {
    &&& forall|j: int|
        0 <= j < ms.len() ==> #[trigger] ms[j].width <= i32::MAX && ms[j].height <= i32::MAX && ms[j].x
            + ms[j].width <= i32::MAX && ms[j].y + ms[j].height <= i32::MAX
    &&& right_edge(ms) - left_edge(ms) <= i32::MAX
    &&& bottom_edge(ms) - top_edge(ms) <= i32::MAX
}

/// The virtual screen of the monitors; none without monitors.
pub open spec fn virtual_screen(ms: Seq<MonitorRect>) -> Option<VirtualScreenInfo> {
    if ms.len() == 0 {
        None
    } else {
        Some(
            VirtualScreenInfo {
                offset_x: left_edge(ms) as i32,
                offset_y: top_edge(ms) as i32,
                total_width: (right_edge(ms) - left_edge(ms)) as u32,
                total_height: (bottom_edge(ms) - top_edge(ms)) as u32,
            },
        )
    }
}

/// Every monitor lies within the edges.
proof fn lemma_edges_bound(ms: Seq<MonitorRect>)
    ensures
        forall|j: int|
            0 <= j < ms.len() ==> left_edge(ms) <= (#[trigger] ms[j]).x && ms[j].x + ms[j].width <= right_edge(
                ms,
            ) && top_edge(ms) <= ms[j].y && ms[j].y + ms[j].height <= bottom_edge(ms),
        ms.len() > 0 ==> i32::MIN <= left_edge(ms) <= i32::MAX && i32::MIN <= top_edge(ms) <= i32::MAX,
    decreases ms.len(),
{
    if ms.len() > 1 {
        let init = ms.drop_last();
        lemma_edges_bound(init);
        assert forall|j: int| 0 <= j < ms.len() implies left_edge(ms) <= (#[trigger] ms[j]).x && ms[j].x
            + ms[j].width <= right_edge(ms) && top_edge(ms) <= ms[j].y && ms[j].y + ms[j].height <= bottom_edge(
            ms,
        ) by {
            if j < ms.len() - 1 {
                assert(ms[j] == init[j]);
            }
        }
    }
}

/// The four edges of the monitors, computed in one pass.
fn edges(monitors: &Vec<MonitorRect>) -> (r: (i32, i32, i32, i32))
    requires
        monitors@.len() > 0,
        monitors_fit(monitors@),
    ensures
        r.0 == left_edge(monitors@),
        r.1 == top_edge(monitors@),
        r.2 == right_edge(monitors@),
        r.3 == bottom_edge(monitors@),
{
    let ghost ms = monitors@;
    let first = monitors[0];
    assert(ms.take(1).len() == 1 && ms.take(1)[0] == ms[0]);
    let mut min_x: i32 = first.x;
    let mut min_y: i32 = first.y;
    let mut max_x: i32 = first.x + first.width as i32;
    let mut max_y: i32 = first.y + first.height as i32;
    let mut i: usize = 1;
    while i < monitors.len()
        invariant
            1 <= i <= monitors@.len(),
            ms == monitors@,
            monitors_fit(ms),
            min_x == left_edge(ms.take(i as int)),
            min_y == top_edge(ms.take(i as int)),
            max_x == right_edge(ms.take(i as int)),
            max_y == bottom_edge(ms.take(i as int)),
        decreases monitors@.len() - i,
    {
        let m = monitors[i];
        assert(ms.take(i + 1).drop_last() =~= ms.take(i as int));
        assert(ms.take(i + 1).last() == ms[i as int]);
        assert(m.width <= i32::MAX && m.x + m.width <= i32::MAX);
        assert(m.height <= i32::MAX && m.y + m.height <= i32::MAX);
        if m.x < min_x {
            min_x = m.x;
        }
        if m.y < min_y {
            min_y = m.y;
        }
        let right = m.x + m.width as i32;
        if right > max_x {
            max_x = right;
        }
        let bottom = m.y + m.height as i32;
        if bottom > max_y {
            max_y = bottom;
        }
        i = i + 1;
    }
    assert(ms.take(ms.len() as int) =~= ms);
    (min_x, min_y, max_x, max_y)
}

/// The virtual screen spanning `monitors`; refused without monitors.
pub fn virtual_screen_info(monitors: &Vec<MonitorRect>) -> (r: Result<VirtualScreenInfo, String>)
    requires
        monitors_fit(monitors@),
    ensures
        match virtual_screen(monitors@) {
            Some(v) => r == Ok::<VirtualScreenInfo, String>(v),
            None => r is Err && r->Err_0@ == "No screens found"@,
        },
{
    if monitors.len() == 0 {
        return Err(str_to_string("No screens found"));
    }
    let (min_x, min_y, max_x, max_y) = edges(monitors);
    proof {
        lemma_edges_bound(monitors@);
        assert(left_edge(monitors@) <= monitors@[0].x);
        assert(monitors@[0].x + monitors@[0].width <= right_edge(monitors@));
        assert(top_edge(monitors@) <= monitors@[0].y);
        assert(monitors@[0].y + monitors@[0].height <= bottom_edge(monitors@));
    }
    Ok(
        VirtualScreenInfo {
            offset_x: min_x,
            offset_y: min_y,
            total_width: (max_x - min_x) as u32,
            total_height: (max_y - min_y) as u32,
        },
    )
}

/// A monitor's capture: where the monitor stands and what it showed.
#[derive(Debug)]
pub struct CapturedScreen {
    pub rect: MonitorRect,
    pub image: RgbaImage,
}

/// The monitors of the captures.
pub open spec fn rects_of(ss: Seq<CapturedScreen>) -> Seq<MonitorRect> {
    Seq::new(ss.len(), |j: int| ss[j].rect)
}

/// A capture placed on the canvas: its offset from the canvas's corner, its
/// width and height, and its RGBA bytes.
pub type Placed = (int, int, int, int, Seq<u8>);

/// The captures placed on a canvas whose corner is at (`left`, `top`).
pub open spec fn placed(ss: Seq<CapturedScreen>, left: int, top: int) -> Seq<Placed> {
    Seq::new(
        ss.len(),
        |j: int|
            (
                ss[j].rect.x - left,
                ss[j].rect.y - top,
                ss[j].image.width as int,
                ss[j].image.height as int,
                ss[j].image.pixels@,
            ),
    )
}

/// Byte `k` of canvas pixel (`cx`, `cy`) after the first `n` captures are
/// painted: from the last of them that covers the pixel, zero where none
/// does.
pub open spec fn canvas_byte(ps: Seq<Placed>, n: int, cx: int, cy: int, k: int) -> u8
    decreases n,
{
    if n <= 0 || n > ps.len() {
        0
    } else {
        let p = ps[n - 1];
        if p.0 <= cx < p.0 + p.2 && p.1 <= cy < p.1 + p.3 {
            p.4[((cy - p.1) * p.2 + (cx - p.0)) * 4 + k]
        } else {
            canvas_byte(ps, n - 1, cx, cy, k)
        }
    }
}

/// The RGBA bytes of a `width` by `height` canvas with the captures painted
/// on it in turn, later ones over earlier ones.
pub open spec fn canvas(width: nat, height: nat, ps: Seq<Placed>) -> Seq<u8> {
    Seq::new(
        width * height * 4,
        |i: int| canvas_byte(ps, ps.len() as int, (i / 4) % (width as int), (i / 4) / (width as int), i % 4),
    )
}

/// Every capture's bytes fit its size.
pub open spec fn captures_wf(ss: Seq<CapturedScreen>) -> bool {
    forall|j: int|
        0 <= j < ss.len() ==> image_wf(
            (#[trigger] ss[j]).image.width,
            ss[j].image.height,
            ss[j].image.pixels@,
        )
}

/// Byte `k` of canvas pixel (`cx`, `cy`): the captures are searched from the
/// last one.
fn pixel_byte(
    screens: &Vec<CapturedScreen>,
    xs: &Vec<u32>,
    ys: &Vec<u32>,
    cx: u32,
    cy: u32,
    k: usize,
    Ghost(ps): Ghost<Seq<Placed>>,
) -> (r: u8)
    requires
        k < 4,
        xs@.len() == screens@.len(),
        ys@.len() == screens@.len(),
        ps.len() == screens@.len(),
        captures_wf(screens@),
        forall|j: int|
            0 <= j < ps.len() ==> #[trigger] ps[j] == (
                xs@[j] as int,
                ys@[j] as int,
                screens@[j].image.width as int,
                screens@[j].image.height as int,
                screens@[j].image.pixels@,
            ),
    ensures
        r == canvas_byte(ps, ps.len() as int, cx as int, cy as int, k as int),
{
    let mut j: usize = screens.len();
    while j > 0
        invariant
            0 <= j <= screens@.len(),
            k < 4,
            xs@.len() == screens@.len(),
            ys@.len() == screens@.len(),
            ps.len() == screens@.len(),
            captures_wf(screens@),
            forall|a: int|
                0 <= a < ps.len() ==> #[trigger] ps[a] == (
                    xs@[a] as int,
                    ys@[a] as int,
                    screens@[a].image.width as int,
                    screens@[a].image.height as int,
                    screens@[a].image.pixels@,
                ),
            canvas_byte(ps, ps.len() as int, cx as int, cy as int, k as int) == canvas_byte(
                ps,
                j as int,
                cx as int,
                cy as int,
                k as int,
            ),
        decreases j,
    {
        let p = j - 1;
        let ox = xs[p];
        let oy = ys[p];
        let img = &screens[p].image;
        assert(ps[p as int] == (ox as int, oy as int, img.width as int, img.height as int, img.pixels@));
        if ox <= cx && cx - ox < img.width && oy <= cy && cy - oy < img.height {
            let dx = (cx - ox) as usize;
            let dy = (cy - oy) as usize;
            let w = img.width as usize;
            let ghost h = img.height as int;
            let plen = img.pixels.len();
            proof {
                assert(image_wf(img.width, img.height, img.pixels@));
                assert((dy * w + dx) * 4 + k < w * h * 4) by (nonlinear_arith)
                    requires
                        dy < h,
                        dx < w,
                        k < 4,
                ;
                assert(dy * w <= (dy * w + dx) * 4 + k) by (nonlinear_arith)
                    requires
                        dy >= 0,
                        w >= 0,
                ;
                assert(plen == w * h * 4);
            }
            let idx = (dy * w + dx) * 4 + k;
            return img.pixels[idx];
        }
        j = p;
    }
    0
}

/// The placement of each capture.
pub open spec fn placement_matches(
    ps: Seq<Placed>,
    screens: Seq<CapturedScreen>,
    xs: Seq<u32>,
    ys: Seq<u32>,
) -> bool {
    &&& xs.len() == screens.len()
    &&& ys.len() == screens.len()
    &&& ps.len() == screens.len()
    &&& forall|j: int|
        0 <= j < ps.len() ==> #[trigger] ps[j] == (
            xs[j] as int,
            ys[j] as int,
            screens[j].image.width as int,
            screens[j].image.height as int,
            screens[j].image.pixels@,
        )
}

/// Paints the captures, placed at (`xs[j]`, `ys[j]`), on a blank canvas of
/// the given size.
fn paint_canvas(
    width: u32,
    height: u32,
    screens: &Vec<CapturedScreen>,
    xs: &Vec<u32>,
    ys: &Vec<u32>,
    Ghost(ps): Ghost<Seq<Placed>>,
) -> (r: Vec<u8>)
    requires
        width * height * 4 <= usize::MAX,
        captures_wf(screens@),
        placement_matches(ps, screens@, xs@, ys@),
    ensures
        r@ == canvas(width as nat, height as nat, ps),
{
    let w = width as usize;
    let h = height as usize;
    let ghost target = canvas(width as nat, height as nat, ps);
    let mut out: Vec<u8> = Vec::new();
    let mut row: usize = 0;
    while row < h
        invariant
            0 <= row <= h,
            w == width,
            h == height,
            w * h * 4 <= usize::MAX,
            captures_wf(screens@),
            placement_matches(ps, screens@, xs@, ys@),
            target == canvas(width as nat, height as nat, ps),
            out@.len() == row * w * 4,
            forall|i: int| 0 <= i < out@.len() ==> #[trigger] out@[i] == target[i],
        decreases h - row,
    {
        let mut col: usize = 0;
        while col < w
            invariant
                0 <= row < h,
                0 <= col <= w,
                w == width,
                h == height,
                w * h * 4 <= usize::MAX,
                captures_wf(screens@),
                placement_matches(ps, screens@, xs@, ys@),
                target == canvas(width as nat, height as nat, ps),
                out@.len() == (row * w + col) * 4,
                forall|i: int| 0 <= i < out@.len() ==> #[trigger] out@[i] == target[i],
            decreases w - col,
        {
            let mut k: usize = 0;
            while k < 4
                invariant
                    0 <= row < h,
                    0 <= col < w,
                    0 <= k <= 4,
                    w == width,
                    h == height,
                    w * h * 4 <= usize::MAX,
                    captures_wf(screens@),
                    placement_matches(ps, screens@, xs@, ys@),
                    target == canvas(width as nat, height as nat, ps),
                    out@.len() == (row * w + col) * 4 + k,
                    forall|i: int| 0 <= i < out@.len() ==> #[trigger] out@[i] == target[i],
                decreases 4 - k,
            {
                let b = pixel_byte(screens, xs, ys, col as u32, row as u32, k, Ghost(ps));
                let ghost idx = (row * w + col) * 4 + k;
                proof {
                    assert(idx < w * h * 4) by (nonlinear_arith)
                        requires
                            idx == (row * w + col) * 4 + k,
                            row < h,
                            col < w,
                            k < 4,
                    ;
                    assert(idx / 4 == row * w + col) by (nonlinear_arith)
                        requires
                            idx == (row * w + col) * 4 + k,
                            k < 4,
                    ;
                    assert(idx % 4 == k) by (nonlinear_arith)
                        requires
                            idx == (row * w + col) * 4 + k,
                            k < 4,
                    ;
                    assert((row * w + col) / (w as int) == row) by (nonlinear_arith)
                        requires
                            col < w,
                    ;
                    assert((row * w + col) % (w as int) == col) by (nonlinear_arith)
                        requires
                            col < w,
                    ;
                    assert(target[idx] == b);
                }
                out.push(b);
                k = k + 1;
            }
            col = col + 1;
        }
        proof {
            assert((row * w + w) * 4 == (row + 1) * w * 4) by (nonlinear_arith);
        }
        row = row + 1;
    }
    assert(h * w * 4 == w * h * 4) by (nonlinear_arith);
    assert(out@ =~= target);
    out
}

/// What capturing all monitors gives for the captures: the PNG bytes of the
/// canvas spanning them and the virtual screen, or why not.
pub open spec fn capture_result(ss: Seq<CapturedScreen>) -> Result<(Seq<u8>, VirtualScreenInfo), Seq<char>> {
    match virtual_screen(rects_of(ss)) {
        None => Err("No screens found"@),
        Some(v) => match encoded_png(
            v.total_width,
            v.total_height,
            canvas(
                v.total_width as nat,
                v.total_height as nat,
                placed(ss, v.offset_x as int, v.offset_y as int),
            ),
        ) {
            Ok(b) => Ok((b, v)),
            Err(e) => Err("Failed to encode PNG: "@ + e),
        },
    }
}

/// Model of the outcome of a capture.
pub open spec fn capture_view(r: Result<(Vec<u8>, VirtualScreenInfo), String>) -> Result<
    (Seq<u8>, VirtualScreenInfo),
    Seq<char>,
> {
    match r {
        Ok((b, v)) => Ok((b@, v)),
        Err(e) => Err(e@),
    }
}

/// Combines the captures of all monitors into one PNG image of the virtual
/// screen, once each monitor is captured: the canvas
/// spans every monitor, each capture is painted at its monitor's place,
/// cut at the canvas's edge, later ones over earlier ones, and the rest is
/// transparent black.
pub fn capture_all_monitors(screens: &Vec<CapturedScreen>) -> (r: Result<(Vec<u8>, VirtualScreenInfo), String>)
    requires
        monitors_fit(rects_of(screens@)),
        captures_wf(screens@),
        (right_edge(rects_of(screens@)) - left_edge(rects_of(screens@))) * (bottom_edge(rects_of(screens@))
            - top_edge(rects_of(screens@))) * 4 <= usize::MAX,
    ensures
        capture_view(r) == capture_result(screens@),
{
    let ghost ss = screens@;
    let mut rects: Vec<MonitorRect> = Vec::new();
    let mut i: usize = 0;
    while i < screens.len()
        invariant
            0 <= i <= screens@.len(),
            ss == screens@,
            rects@ =~= rects_of(ss).take(i as int),
        decreases screens@.len() - i,
    {
        rects.push(screens[i].rect);
        i = i + 1;
    }
    assert(rects@ =~= rects_of(ss));
    let info = match virtual_screen_info(&rects) {
        Ok(v) => v,
        Err(e) => return Err(e),
    };
    let ghost left = info.offset_x as int;
    let ghost top = info.offset_y as int;
    proof {
        lemma_edges_bound(rects@);
    }
    let mut xs: Vec<u32> = Vec::new();
    let mut ys: Vec<u32> = Vec::new();
    let mut j: usize = 0;
    while j < screens.len()
        invariant
            0 <= j <= screens@.len(),
            ss == screens@,
            rects@ == rects_of(ss),
            monitors_fit(rects@),
            rects@.len() > 0,
            left == left_edge(rects@),
            top == top_edge(rects@),
            info.offset_x == left,
            info.offset_y == top,
            forall|a: int|
                0 <= a < rects@.len() ==> left_edge(rects@) <= (#[trigger] rects@[a]).x && rects@[a].x
                    + rects@[a].width <= right_edge(rects@) && top_edge(rects@) <= rects@[a].y && rects@[a].y
                    + rects@[a].height <= bottom_edge(rects@),
            xs@.len() == j,
            ys@.len() == j,
            forall|a: int| 0 <= a < j ==> #[trigger] xs@[a] as int == ss[a].rect.x - left,
            forall|a: int| 0 <= a < j ==> #[trigger] ys@[a] as int == ss[a].rect.y - top,
        decreases screens@.len() - j,
    {
        let r = screens[j].rect;
        assert(rects@[j as int] == r);
        xs.push((r.x - info.offset_x) as u32);
        ys.push((r.y - info.offset_y) as u32);
        j = j + 1;
    }
    let ghost ps = placed(ss, left, top);
    assert(placement_matches(ps, ss, xs@, ys@));
    let w = info.total_width;
    let h = info.total_height;
    let pixels = paint_canvas(w, h, screens, &xs, &ys, Ghost(ps));
    match encode_png(w, h, pixels.as_slice()) {
        Ok(b) => Ok((b, info)),
        Err(e) => {
            let mut m = chars_of("Failed to encode PNG: ");
            push_str(&mut m, e.as_str());
            Err(string_of(m.as_slice()))
        },
    }
}

} // verus!
