use vstd::prelude::*;

verus! {

/// The frame of the progress animation shown for step `k` (taken modulo six).
pub open spec fn throbber_frame(k: nat) -> Seq<char> {
    let m = k % 6;
    if m == 0 {
        "  ."@
    } else if m == 1 {
        " .."@
    } else if m == 2 {
        "..."@
    } else if m == 3 {
        ".. "@
    } else if m == 4 {
        ".  "@
    } else {
        "   "@
    }
}

/// A small text animation for progress output: six frames of three characters,
/// cycling with `x`.
pub fn throbber(x: usize) -> (r: &'static str)
    ensures
        r@ == throbber_frame(x as nat),
{
    let m = x % 6;
    if m == 0 {
        "  ."
    } else if m == 1 {
        " .."
    } else if m == 2 {
        "..."
    } else if m == 3 {
        ".. "
    } else if m == 4 {
        ".  "
    } else {
        "   "
    }
}

/// The share of an image's scanlines that are done, in whole percent (rounded down),
/// when scanline `j` of `height` is next: scanlines are rendered from `height - 1`
/// down to 0, so `height - j` of them are then done or under way.
pub fn percent_done(height: usize, j: usize) -> (r: usize)
    requires
        j < height,
    ensures
        r == (height - j) * 100 / height as int,
        r <= 100,
{
    let done = (height - j) as u128;
    let pct = done * 100 / (height as u128);
    assert(pct <= 100) by (nonlinear_arith)
        requires
            pct == done * 100 / (height as int),
            done <= height,
            height > 0,
    ;
    pct as usize
}

} // verus!
