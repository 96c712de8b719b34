use vstd::prelude::*;

verus! {

/// Width of each of `count` bars in a chart `width` cells wide, one cell
/// apart: the even share of what the gaps leave, one less when the bars
/// and gaps would fill the width exactly.
pub open spec fn bar_width_of(width: int, count: int) -> int {
    let w = if width >= count {
        (width - count) / count
    } else {
        0
    };
    if w > 0 && w * count + count == width {
        w - 1
    } else {
        w
    }
}

/// Width of each of `count` bars in a chart `width` cells wide.
pub fn bar_width(width: u16, count: u16) -> (r: u16)
    requires
        count > 0,
    ensures
        r == bar_width_of(width as int, count as int),
{
    let w = if width >= count {
        (width - count) / count
    } else {
        0
    };
    let wide_w = w as u64;
    let wide_count = count as u64;
    assert(wide_w * wide_count <= 65535 * 65535) by (nonlinear_arith)
        requires
            wide_w <= 65535,
            wide_count <= 65535,
    ;
    if w > 0 && wide_w * wide_count + wide_count == width as u64 {
        w - 1
    } else {
        w
    }
}

} // verus!
