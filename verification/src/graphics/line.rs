//! The geometry of a rasterised line.
//!
//! A line from `(x1, y1)` towards `(x2, y2)` has one pixel for each step along
//! its longer axis, the end point excluded. At step `k` the line has advanced
//! `k` along the longer axis and `k * minor / major`, rounded to the nearest
//! integer, along the shorter one; a tie rounds towards the start. This is
//! what the integer Bresenham walk visits, and the lemmas here prove it from
//! the walk's error term.

use vstd::prelude::*;

verus! {

/// The distance between two coordinates.
pub open spec fn abs_diff(a: int, b: int) -> int {
    if a < b {
        b - a
    } else {
        a - b
    }
}

/// The coordinate `k` steps from `from` in the direction of `to`.
pub open spec fn toward(from: int, to: int, k: int) -> int {
    if from < to {
        from + k
    } else {
        from - k
    }
}

/// The number of pixels of the line: the length of its longer axis.
pub open spec fn line_length(x1: int, y1: int, x2: int, y2: int) -> int {
    if abs_diff(x1, x2) >= abs_diff(y1, y2) {
        abs_diff(x1, x2)
    } else {
        abs_diff(y1, y2)
    }
}

/// How far a line has advanced along its shorter axis after `k` steps along
/// its longer one: `k * minor / major` rounded to the nearest integer, a tie
/// rounded down.
pub open spec fn minor_advance(k: int, minor: int, major: int) -> int {
    (2 * k * minor + major - 1) / (2 * major)
}

/// The pixel of the line at step `k`.
pub open spec fn line_point(x1: int, y1: int, x2: int, y2: int, k: int) -> (int, int) {
    let dx = abs_diff(x1, x2);
    let dy = abs_diff(y1, y2);
    if dx >= dy {
        (toward(x1, x2, k), toward(y1, y2, minor_advance(k, dy, dx)))
    } else {
        (toward(x1, x2, minor_advance(k, dx, dy)), toward(y1, y2, k))
    }
}

/// The first `n` pixels of the line.
pub open spec fn line_upto(x1: int, y1: int, x2: int, y2: int, n: int) -> spec_fn(int, int) -> bool {
    |a: int, b: int| exists|k: int| 0 <= k < n && #[trigger] line_point(x1, y1, x2, y2, k) == (a, b)
}

/// The pixels of the line from `(x1, y1)` to `(x2, y2)`: the start is one of
/// them, the end is not.
pub open spec fn line(x1: int, y1: int, x2: int, y2: int) -> spec_fn(int, int) -> bool {
    line_upto(x1, y1, x2, y2, line_length(x1, y1, x2, y2))
}

/// The state of the Bresenham walk after `k` iterations, for a line of extent
/// `dx` by `dy`: it has taken `a` steps in x and `b` steps in y, and `err` is
/// its error term. The bounds on `err` are what makes the walk step along the
/// longer axis in every iteration.
pub open spec fn walk_state(dx: int, dy: int, k: int, a: int, b: int, err: int) -> bool {
    &&& 0 <= dx
    &&& 0 <= dy
    &&& 0 <= k
    &&& err == dx - dy - a * dy + b * dx
    &&& if dx >= dy {
        &&& k <= dx
        &&& a == k
        &&& 2 * err < 3 * dx - 2 * dy
        &&& 2 * err >= dx - 2 * dy
        &&& (dx > 0 ==> 2 * err > -dy)
    } else {
        &&& k <= dy
        &&& b == k
        &&& 2 * err <= 2 * dx - dy
        &&& 2 * err > 2 * dx - 3 * dy
        &&& 2 * err < dx
    }
}

/// The walk starts in a valid state.
pub proof fn lemma_walk_starts(dx: int, dy: int)
    requires
        0 <= dx,
        0 <= dy,
        dx > 0 || dy > 0,
    ensures
        walk_state(dx, dy, 0, 0, 0, dx - dy),
{
    assert(0 * dy == 0 && 0 * dx == 0);
}

/// One iteration of the walk: from a valid state before the end of the line
/// it steps along the longer axis, and perhaps along the shorter one, into a
/// valid state.
pub proof fn lemma_walk_steps(dx: int, dy: int, k: int, a: int, b: int, err: int)
    requires
        walk_state(dx, dy, k, a, b, err),
        k < dx || k < dy,
    ensures
        walk_state(
            dx,
            dy,
            k + 1,
            if 2 * err > -dy {
                a + 1
            } else {
                a
            },
            if 2 * err < dx {
                b + 1
            } else {
                b
            },
            err - (if 2 * err > -dy {
                dy
            } else {
                0
            }) + (if 2 * err < dx {
                dx
            } else {
                0
            }),
        ),
        dx >= dy ==> 2 * err > -dy,
        dx < dy ==> 2 * err < dx,
{
    assert((a + 1) * dy == a * dy + dy) by (nonlinear_arith);
    assert((b + 1) * dx == b * dx + dx) by (nonlinear_arith);
}

/// Where the walk stands in a valid state: on the pixel that the line has at
/// step `k`, between the start and the end; and at the end once `k` is the
/// length of the line.
pub proof fn lemma_walk_position(dx: int, dy: int, k: int, a: int, b: int, err: int)
    requires
        walk_state(dx, dy, k, a, b, err),
        dx > 0 || dy > 0,
    ensures
        0 <= a <= dx,
        0 <= b <= dy,
        dx >= dy ==> a == k && b == minor_advance(k, dy, dx),
        dx < dy ==> b == k && a == minor_advance(k, dx, dy),
        (dx >= dy && k == dx) || (dx < dy && k == dy) ==> a == dx && b == dy,
{
    if dx >= dy {
        lemma_rounded_ratio(k, dy, dx, b, a * dy, b * dx);
    } else {
        lemma_rounded_ratio(k, dx, dy, a, b * dx, a * dy);
    }
}

/// The integer `r` with `2 * k * minor - major <= 2 * r * major < 2 * k *
/// minor + major` is `k * minor / major` rounded to the nearest integer.
proof fn lemma_rounded_ratio(k: int, minor: int, major: int, r: int, km: int, rm: int)
    requires
        0 <= minor <= major,
        0 < major,
        0 <= k <= major,
        km == k * minor,
        rm == r * major,
        2 * km - major <= 2 * rm < 2 * km + major,
    ensures
        r == minor_advance(k, minor, major),
        0 <= r <= minor,
        k == major ==> r == minor,
{
    let n = 2 * k * minor + major - 1;
    assert(2 * k * minor == 2 * km) by (nonlinear_arith)
        requires
            km == k * minor,
    ;
    assert(r * (2 * major) == 2 * rm) by (nonlinear_arith)
        requires
            rm == r * major,
    ;
    vstd::arithmetic::div_mod::lemma_fundamental_div_mod_converse(
        n,
        2 * major,
        r,
        n - r * (2 * major),
    );
    assert(0 <= r) by (nonlinear_arith)
        requires
            rm == r * major,
            0 < major,
            -major < 2 * rm,
    ;
    assert(km <= major * minor) by (nonlinear_arith)
        requires
            km == k * minor,
            0 <= k <= major,
            0 <= minor,
    ;
    assert(r <= minor) by (nonlinear_arith)
        requires
            rm == r * major,
            0 < major,
            2 * rm < 2 * (major * minor) + major,
    ;
    if k == major {
        assert(r == minor) by (nonlinear_arith)
            requires
                rm == r * major,
                km == major * minor,
                0 < major,
                2 * km - major <= 2 * rm < 2 * km + major,
        ;
    }
}

/// The first `n + 1` pixels of a line are its first `n` pixels and the pixel
/// at step `n`.
pub proof fn lemma_line_grows(x1: int, y1: int, x2: int, y2: int, n: int)
    requires
        0 <= n,
    ensures
        forall|a: int, b: int| #[trigger]
            line_upto(x1, y1, x2, y2, n + 1)(a, b) == (line_upto(x1, y1, x2, y2, n)(a, b)
                || line_point(x1, y1, x2, y2, n) == (a, b)),
        forall|a: int, b: int| !#[trigger] line_upto(x1, y1, x2, y2, 0)(a, b),
{
    assert forall|a: int, b: int| #[trigger]
        line_upto(x1, y1, x2, y2, n + 1)(a, b) == (line_upto(x1, y1, x2, y2, n)(a, b)
            || line_point(x1, y1, x2, y2, n) == (a, b)) by {
        if line_upto(x1, y1, x2, y2, n + 1)(a, b) {
            let k = choose|k: int| 0 <= k < n + 1 && #[trigger] line_point(x1, y1, x2, y2, k) == (a, b);
            if k < n {
                assert(line_upto(x1, y1, x2, y2, n)(a, b));
            }
        }
        if line_upto(x1, y1, x2, y2, n)(a, b) {
            let k = choose|k: int| 0 <= k < n && #[trigger] line_point(x1, y1, x2, y2, k) == (a, b);
            assert(0 <= k < n + 1 && line_point(x1, y1, x2, y2, k) == (a, b));
        }
        if line_point(x1, y1, x2, y2, n) == (a, b) {
            assert(0 <= n < n + 1 && line_point(x1, y1, x2, y2, n) == (a, b));
        }
    }
}

/// A horizontal line is the run of pixels from its start to just before its
/// end, all on its own row.
pub proof fn lemma_horizontal_line(x1: int, x2: int, y: int, a: int, b: int)
    ensures
        line(x1, y, x2, y)(a, b) <==> b == y && if x1 < x2 {
            x1 <= a < x2
        } else {
            x2 < a <= x1
        },
{
    let dx = abs_diff(x1, x2);
    assert forall|k: int| 0 <= k < dx implies #[trigger] line_point(x1, y, x2, y, k) == (
        toward(x1, x2, k),
        y,
    ) by {
        assert(2 * k * 0 == 0);
        vstd::arithmetic::div_mod::lemma_fundamental_div_mod_converse(dx - 1, 2 * dx, 0, dx - 1);
    }
    if b == y && (if x1 < x2 {
        x1 <= a < x2
    } else {
        x2 < a <= x1
    }) {
        let k = abs_diff(x1, a);
        assert(0 <= k < dx && line_point(x1, y, x2, y, k) == (a, b));
    }
}

/// A vertical line is the run of pixels from its start to just before its
/// end, all in its own column.
pub proof fn lemma_vertical_line(x: int, y1: int, y2: int, a: int, b: int)
    ensures
        line(x, y1, x, y2)(a, b) <==> a == x && if y1 < y2 {
            y1 <= b < y2
        } else {
            y2 < b <= y1
        },
{
    let dy = abs_diff(y1, y2);
    assert forall|k: int| 0 <= k < dy implies #[trigger] line_point(x, y1, x, y2, k) == (
        x,
        toward(y1, y2, k),
    ) by {
        assert(2 * k * 0 == 0);
        vstd::arithmetic::div_mod::lemma_fundamental_div_mod_converse(dy - 1, 2 * dy, 0, dy - 1);
    }
    if a == x && (if y1 < y2 {
        y1 <= b < y2
    } else {
        y2 < b <= y1
    }) {
        let k = abs_diff(y1, b);
        assert(0 <= k < dy && line_point(x, y1, x, y2, k) == (a, b));
    }
}

/// Rounding `k * minor / major` never runs ahead of `k`: it is zero at the
/// start, stays within the shorter axis, and from one step to the next it
/// grows by one or not at all.
pub proof fn lemma_minor_advance_steps(k: int, minor: int, major: int)
    requires
        0 <= minor <= major,
        0 < major,
        0 <= k,
    ensures
        minor_advance(0, minor, major) == 0,
        0 <= minor_advance(k, minor, major) <= k,
        k <= major ==> minor_advance(k, minor, major) <= minor,
        minor_advance(k, minor, major) <= minor_advance(k + 1, minor, major) <= minor_advance(
            k,
            minor,
            major,
        ) + 1,
{
    let d = 2 * major;
    let n0 = 2 * k * minor + major - 1;
    let n1 = 2 * (k + 1) * minor + major - 1;
    let r0 = n0 / d;
    let r1 = n1 / d;
    assert(2 * 0 * minor == 0) by (nonlinear_arith);
    vstd::arithmetic::div_mod::lemma_fundamental_div_mod_converse(major - 1, d, 0, major - 1);
    vstd::arithmetic::div_mod::lemma_fundamental_div_mod(n0, d);
    vstd::arithmetic::div_mod::lemma_fundamental_div_mod(n1, d);
    vstd::arithmetic::div_mod::lemma_mod_bound(n0, d);
    vstd::arithmetic::div_mod::lemma_mod_bound(n1, d);
    assert(n1 == n0 + 2 * minor) by (nonlinear_arith)
        requires
            n0 == 2 * k * minor + major - 1,
            n1 == 2 * (k + 1) * minor + major - 1,
    ;
    assert(0 <= 2 * k * minor <= 2 * k * major) by (nonlinear_arith)
        requires
            0 <= k,
            0 <= minor <= major,
    ;
    assert(0 <= r0 <= k) by (nonlinear_arith)
        requires
            n0 == d * r0 + n0 % d,
            0 <= n0 % d < d,
            d == 2 * major,
            0 < major,
            0 <= n0 < 2 * k * major + major,
    ;
    assert(r0 <= r1 <= r0 + 1) by (nonlinear_arith)
        requires
            n0 == d * r0 + n0 % d,
            n1 == d * r1 + n1 % d,
            0 <= n0 % d < d,
            0 <= n1 % d < d,
            n1 == n0 + 2 * minor,
            0 <= 2 * minor <= d,
    ;
    if k <= major {
        assert(2 * k * minor <= 2 * major * minor) by (nonlinear_arith)
            requires
                0 <= k <= major,
                0 <= minor,
        ;
        assert(r0 <= minor) by (nonlinear_arith)
            requires
                n0 == d * r0 + n0 % d,
                0 <= n0 % d < d,
                d == 2 * major,
                0 < major,
                n0 < 2 * major * minor + major,
        ;
    }
}

/// A line with any pixels begins on its start point.
pub proof fn lemma_line_includes_start(x1: int, y1: int, x2: int, y2: int)
    requires
        x1 != x2 || y1 != y2,
    ensures
        line_point(x1, y1, x2, y2, 0) == (x1, y1),
        line(x1, y1, x2, y2)(x1, y1),
{
    let dx = abs_diff(x1, x2);
    let dy = abs_diff(y1, y2);
    if dx >= dy {
        lemma_minor_advance_steps(0, dy, dx);
    } else {
        lemma_minor_advance_steps(0, dx, dy);
    }
    assert(0 <= 0 < line_length(x1, y1, x2, y2) && line_point(x1, y1, x2, y2, 0) == (x1, y1));
}

/// The end point is not a pixel of the line.
pub proof fn lemma_line_excludes_end(x1: int, y1: int, x2: int, y2: int)
    ensures
        !line(x1, y1, x2, y2)(x2, y2),
{
    assert forall|k: int| 0 <= k < line_length(x1, y1, x2, y2) implies #[trigger] line_point(
        x1,
        y1,
        x2,
        y2,
        k,
    ) != (x2, y2) by {}
}

/// The line is connected and stays between its end points: each pixel lies in
/// the box spanned by start and end, and the next pixel is one step further
/// along the longer axis and at most one step further along the shorter one.
pub proof fn lemma_line_is_connected(x1: int, y1: int, x2: int, y2: int, k: int)
    requires
        0 <= k < line_length(x1, y1, x2, y2),
    ensures
        ({
            let (a, b) = line_point(x1, y1, x2, y2, k);
            let (c, d) = line_point(x1, y1, x2, y2, k + 1);
            &&& abs_diff(x1, a) <= abs_diff(x1, x2) && abs_diff(a, x2) <= abs_diff(x1, x2)
            &&& abs_diff(y1, b) <= abs_diff(y1, y2) && abs_diff(b, y2) <= abs_diff(y1, y2)
            &&& abs_diff(a, c) <= 1
            &&& abs_diff(b, d) <= 1
            &&& (a, b) != (c, d)
        }),
        line_point(x1, y1, x2, y2, line_length(x1, y1, x2, y2)) == (x2, y2),
{
    let dx = abs_diff(x1, x2);
    let dy = abs_diff(y1, y2);
    let n = line_length(x1, y1, x2, y2);
    if dx >= dy {
        lemma_minor_advance_steps(k, dy, dx);
        lemma_minor_advance_steps(n, dy, dx);
        lemma_end_of_line(dy, dx);
    } else {
        lemma_minor_advance_steps(k, dx, dy);
        lemma_minor_advance_steps(n, dx, dy);
        lemma_end_of_line(dx, dy);
    }
}

/// After as many steps as the longer axis is long, the line has covered the
/// whole of the shorter axis.
proof fn lemma_end_of_line(minor: int, major: int)
    requires
        0 <= minor <= major,
        0 < major,
    ensures
        minor_advance(major, minor, major) == minor,
{
    assert(2 * major * minor + major - 1 == minor * (2 * major) + (major - 1))
        by (nonlinear_arith);
    vstd::arithmetic::div_mod::lemma_fundamental_div_mod_converse(
        2 * major * minor + major - 1,
        2 * major,
        minor,
        major - 1,
    );
}

} // verus!
