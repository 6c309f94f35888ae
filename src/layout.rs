//! Layout decisions of the setup screens: scaling, the scroll window, and
//! greedy word wrapping against a measured text width.
use vstd::prelude::*;

verus! {

/// Drawing scale for a display of height `h`.
pub open spec fn scale_of(h: u32) -> u32 {
    if h > 1440 { 4 } else if h > 720 { 2 } else { 1 }
}

/// Drawing scale for a display of height `h`.
pub fn scale(h: u32) -> (r: u32)
    ensures
        r == scale_of(h),
{
    if h > 1440 { 4 } else if h > 720 { 2 } else { 1 }
}

/// Rows of the scroll window between `top_y` and `bottom_y`, each row
/// `line_height + margin` high.
pub open spec fn window_rows(top_y: int, bottom_y: int, line_height: int, margin: int) -> nat {
    if bottom_y > top_y && line_height + margin > 0 {
        ((bottom_y - top_y) / (line_height + margin)) as nat
    } else {
        0
    }
}

/// Rows of the scroll window between `top_y` and `bottom_y`.
pub fn window_size(top_y: i32, bottom_y: i32, line_height: i32, margin: i32) -> (r: usize)
    ensures
        r == window_rows(top_y as int, bottom_y as int, line_height as int, margin as int),
{
    let span: i64 = bottom_y as i64 - top_y as i64;
    let row: i64 = line_height as i64 + margin as i64;
    if span > 0 && row > 0 {
        let q: i64 = span / row;
        assert(0 <= q <= span) by (nonlinear_arith)
            requires span > 0, row > 0, q == span / row;
        q as u32 as usize
    } else {
        0
    }
}

/// Whether some measurement of words `s..e` is at most `width`.
pub open spec fn fits<F: Fn(usize, usize) -> u32>(measure: F, s: usize, e: usize, width: u32) -> bool {
    exists|w: u32| #[trigger] measure.ensures((s, e), w) && w <= width
}

/// Whether some measurement of words `s..e` exceeds `width`.
pub open spec fn overflows<F: Fn(usize, usize) -> u32>(measure: F, s: usize, e: usize, width: u32) -> bool {
    exists|w: u32| #[trigger] measure.ensures((s, e), w) && w > width
}

/// Whether `line` is a line of a greedy wrapping of `n` words: either it fits
/// and the next word would not, or it is a single word too wide to fit.
pub open spec fn greedy_line<F: Fn(usize, usize) -> u32>(measure: F, line: (usize, usize), n: usize, width: u32) -> bool {
    let (s, e) = line;
    &&& s < e <= n
    &&& {
        ||| fits(measure, s, e, width) && (e < n ==> overflows(measure, s, (e + 1) as usize, width))
        ||| e == s + 1 && overflows(measure, s, e, width)
    }
}

/// Whether `lines` wrap `n` words greedily: one after another, from the
/// first word to the last, each line a greedy one.
pub open spec fn is_greedy_wrap<F: Fn(usize, usize) -> u32>(measure: F, lines: Seq<(usize, usize)>, n: usize, width: u32) -> bool {
    &&& (lines.len() == 0 <==> n == 0)
    &&& lines.len() > 0 ==> lines[0].0 == 0 && lines.last().1 == n
    &&& forall|k: int| 0 <= k < lines.len() - 1 ==> (#[trigger] lines[k]).1 == lines[k + 1].0
    &&& forall|k: int| 0 <= k < lines.len() ==> greedy_line(measure, #[trigger] lines[k], n, width)
}

/// Splits `n` words into lines of at most `width`: words are added to a line
/// while the measured line fits; a word too wide on its own gets a line of
/// its own. `measure(s, e)` is the width of words `s..e` set on one line.
pub fn wrap_words<F: Fn(usize, usize) -> u32>(n: usize, width: u32, measure: F) -> (r: Vec<(usize, usize)>)
    requires
        forall|s: usize, e: usize| measure.requires((s, e)),
    ensures
        is_greedy_wrap(measure, r@, n, width),
{
    let mut lines: Vec<(usize, usize)> = Vec::new();
    let mut s: usize = 0;
    let mut i: usize = 0;
    while i < n
        invariant
            s <= i <= n,
            forall|s: usize, e: usize| measure.requires((s, e)),
            s < i ==> fits(measure, s, i, width),
            lines@.len() == 0 ==> s == 0,
            lines@.len() > 0 ==> lines@[0].0 == 0 && lines@.last().1 == s,
            forall|k: int| 0 <= k < lines@.len() - 1 ==> (#[trigger] lines@[k]).1 == lines@[k + 1].0,
            forall|k: int| 0 <= k < lines@.len() ==> greedy_line(measure, #[trigger] lines@[k], n, width),
        decreases 2 * (n - i) + if s < i { 1int } else { 0int },
    {
        let w = measure(s, i + 1);
        if w > width {
            assert(overflows(measure, s, (i + 1) as usize, width));
            if s < i {
                lines.push((s, i));
                s = i;
            } else {
                lines.push((i, i + 1));
                i = i + 1;
                s = i;
            }
        } else {
            assert(fits(measure, s, (i + 1) as usize, width));
            i = i + 1;
        }
    }
    if s < i {
        lines.push((s, i));
    }
    lines
}

} // verus!
