//! The xterm palette of 256 colours.

use vstd::prelude::*;

verus! {

/// The level of a channel in the palette's cube, by its step from 0 to 5.
pub open spec fn level(step: int) -> int {
    if step == 0 {
        0
    } else {
        55 + 40 * step
    }
}

/// A colour of the palette's cube, by the steps of its channels.
pub open spec fn cube_index(r: int, g: int, b: int) -> int {
    16 + 36 * r + 6 * g + b
}

/// A colour of the palette: its cube from 16 on, and its greys from 232 on.
pub open spec fn palette_color(index: int) -> (int, int, int) {
    if index < 232 {
        let at = index - 16;
        (level(at / 36), level((at / 6) % 6), level(at % 6))
    } else {
        let grey = 8 + 10 * (index - 232);
        (grey, grey, grey)
    }
}

/// How far apart two levels are, squared.
pub open spec fn apart(a: int, b: int) -> int {
    (a - b) * (a - b)
}

/// How far a colour of the palette is from another, squared.
pub open spec fn distance(r: u8, g: u8, b: u8, index: int) -> int {
    let color = palette_color(index);
    (apart(r as int, color.0) + apart(g as int, color.1)) + apart(b as int, color.2)
}

/// Whether no colour of the cube is nearer, and none before this one as near.
pub open spec fn is_nearest_cube(r: u8, g: u8, b: u8, index: int) -> bool {
    &&& 16 <= index < 232
    &&& forall|other: int|
        16 <= other < 232 ==> distance(r, g, b, index) < #[trigger] distance(r, g, b, other) || (
        distance(r, g, b, index) == distance(r, g, b, other) && index <= other)
}

/// Whether no grey is nearer, and none after this one as near.
pub open spec fn is_nearest_grey(r: u8, g: u8, b: u8, index: int) -> bool {
    &&& 232 <= index < 256
    &&& forall|other: int|
        232 <= other < 256 ==> distance(r, g, b, index) < #[trigger] distance(r, g, b, other) || (
        distance(r, g, b, index) == distance(r, g, b, other) && other <= index)
}

/// Whether a step is the first of those nearest to a value.
spec fn is_nearest_step(value: int, step: int) -> bool {
    &&& 0 <= step < 6
    &&& forall|other: int|
        0 <= other < 6 ==> apart(value, level(step)) < #[trigger] apart(value, level(other)) || (
        apart(value, level(step)) == apart(value, level(other)) && step <= other)
}

fn level_of(step: u8) -> (value: u8)
    requires
        step < 6,
    ensures
        value == level(step as int),
{
    if step == 0 {
        0
    } else {
        55 + 40 * step
    }
}

/// A step is nearest between the middles of the gaps on either side of it.
proof fn nearest_between_middles(value: int, step: int)
    requires
        0 <= value < 256,
        0 <= step < 6,
        step == 0 || 2 * value > level(step - 1) + level(step),
        step == 5 || 2 * value <= level(step) + level(step + 1),
    ensures
        is_nearest_step(value, step),
{
    assert forall|other: int| 0 <= other < 6 implies apart(value, level(step))
        < #[trigger] apart(value, level(other)) || (apart(value, level(step)) == apart(
        value,
        level(other),
    ) && step <= other) by {
        let l = level(step);
        let m = level(other);
        assert(apart(value, m) - apart(value, l) == (m - l) * (m + l - 2 * value))
            by (nonlinear_arith)
            requires
                apart(value, m) == (value - m) * (value - m),
                apart(value, l) == (value - l) * (value - l),
        ;
        if other > step {
            assert((m - l) * (m + l - 2 * value) >= 0) by (nonlinear_arith)
                requires
                    m - l > 0,
                    m + l - 2 * value >= 0,
            ;
        } else if other < step {
            assert((m - l) * (m + l - 2 * value) > 0) by (nonlinear_arith)
                requires
                    m - l < 0,
                    m + l - 2 * value < 0,
            ;
        }
    }
}

fn nearest_step(value: u8) -> (step: u8)
    ensures
        step < 6,
        is_nearest_step(value as int, step as int),
{
    let mut step: u8 = 0;
    while step < 5 && (value as u16) * 2 > level_of(step) as u16 + level_of(step + 1) as u16
        invariant
            step <= 5,
            step == 0 || 2 * (value as int) > level(step as int - 1) + level(step as int),
        decreases 5 - step,
    {
        step += 1;
    }
    proof {
        nearest_between_middles(value as int, step as int);
    }
    step
}

fn squared(a: u8, b: u8) -> (square: u32)
    ensures
        square == apart(a as int, b as int),
        square <= 65025,
{
    let gap: u32 = if a > b {
        (a - b) as u32
    } else {
        (b - a) as u32
    };
    assert(gap * gap == apart(a as int, b as int) && gap * gap <= 65025) by (nonlinear_arith)
        requires
            gap <= 255,
            gap == a - b || gap == b - a,
            apart(a as int, b as int) == (a - b) * (a - b),
    ;
    gap * gap
}

proof fn steps_make_the_nearest_cube(r: u8, g: u8, b: u8, ri: int, gi: int, bi: int)
    requires
        is_nearest_step(r as int, ri),
        is_nearest_step(g as int, gi),
        is_nearest_step(b as int, bi),
    ensures
        is_nearest_cube(r, g, b, cube_index(ri, gi, bi)),
        palette_color(cube_index(ri, gi, bi)) == (level(ri), level(gi), level(bi)),
{
    let index = cube_index(ri, gi, bi);
    assert((index - 16) / 36 == ri);
    assert(((index - 16) / 6) % 6 == gi);
    assert((index - 16) % 6 == bi);
    assert forall|other: int| 16 <= other < 232 implies distance(r, g, b, index)
        < #[trigger] distance(r, g, b, other) || (distance(r, g, b, index) == distance(
        r,
        g,
        b,
        other,
    ) && index <= other) by {
        let at = other - 16;
        let (ro, go, bo) = (at / 36, (at / 6) % 6, at % 6);
        assert(other == cube_index(ro, go, bo));
        assert(0 <= ro < 6 && 0 <= go < 6 && 0 <= bo < 6);
        assert(apart(r as int, level(ri)) <= apart(r as int, level(ro)));
        assert(apart(g as int, level(gi)) <= apart(g as int, level(go)));
        assert(apart(b as int, level(bi)) <= apart(b as int, level(bo)));
    }
}

proof fn the_average_makes_the_nearest_grey(r: u8, g: u8, b: u8, grey: int)
    requires
        0 <= grey < 24,
        grey == 0 || (r + g + b) / 3 >= 10 * grey + 3,
        grey == 23 || (r + g + b) / 3 <= 10 * grey + 12,
    ensures
        is_nearest_grey(r, g, b, 232 + grey),
{
    let index = 232 + grey;
    let sum = r + g + b;
    assert forall|other: int| 232 <= other < 256 implies distance(r, g, b, index)
        < #[trigger] distance(r, g, b, other) || (distance(r, g, b, index) == distance(
        r,
        g,
        b,
        other,
    ) && other <= index) by {
        let l = 8 + 10 * grey;
        let m = 8 + 10 * (other - 232);
        assert(distance(r, g, b, other) - distance(r, g, b, index) == (m - l) * (3 * (m + l) - 2
            * sum)) by (nonlinear_arith)
            requires
                distance(r, g, b, other) == ((r - m) * (r - m) + (g - m) * (g - m)) + (b - m) * (b
                    - m),
                distance(r, g, b, index) == ((r - l) * (r - l) + (g - l) * (g - l)) + (b - l) * (b
                    - l),
                sum == r + g + b,
        ;
        if other > index {
            assert((m - l) * (3 * (m + l) - 2 * sum) > 0) by (nonlinear_arith)
                requires
                    m - l > 0,
                    3 * (m + l) - 2 * sum > 0,
            ;
        } else if other < index {
            assert((m - l) * (3 * (m + l) - 2 * sum) >= 0) by (nonlinear_arith)
                requires
                    m - l < 0,
                    3 * (m + l) - 2 * sum <= 0,
            ;
        }
    }
}

/// Whether a colour of the palette is the nearest: a grey only where one is nearer than any of
/// the cube.
pub open spec fn is_xterm_256(r: u8, g: u8, b: u8, index: int) -> bool {
    exists|cube: int, grey: int| #[trigger]
        is_nearest_cube(r, g, b, cube) && #[trigger] is_nearest_grey(r, g, b, grey) && index
            == if distance(r, g, b, grey) < distance(r, g, b, cube) {
            grey
        } else {
            cube
        }
}

/// The nearest colour in the xterm palette: its cube or its greys, a grey only where it is
/// nearer. The 16 system colours are left out, since each terminal picks its own.
pub fn xterm_256(r: u8, g: u8, b: u8) -> (index: u8)
    ensures
        is_xterm_256(r, g, b, index as int),
{
    let ri: u8 = nearest_step(r);
    let gi: u8 = nearest_step(g);
    let bi: u8 = nearest_step(b);
    proof {
        steps_make_the_nearest_cube(r, g, b, ri as int, gi as int, bi as int);
    }
    let cube: u8 = 16 + 36 * ri + 6 * gi + bi;
    let cube_distance: u32 = squared(r, level_of(ri)) + squared(g, level_of(gi)) + squared(
        b,
        level_of(bi),
    );
    let average: u32 = (r as u32 + g as u32 + b as u32) / 3;
    // Greys run 8, 18, … 238.
    let above: u32 = if average > 3 {
        average - 3
    } else {
        0
    };
    let grey: u8 = if above / 10 < 23 {
        (above / 10) as u8
    } else {
        23
    };
    proof {
        the_average_makes_the_nearest_grey(r, g, b, grey as int);
    }
    let shade: u8 = 8 + 10 * grey;
    let grey_distance: u32 = squared(r, shade) + squared(g, shade) + squared(b, shade);
    assert(is_nearest_cube(r, g, b, cube as int) && is_nearest_grey(r, g, b, 232 + grey as int));
    if grey_distance < cube_distance {
        232 + grey
    } else {
        cube
    }
}

/// No colour of the palette is nearer than the one given.
pub proof fn no_colour_is_nearer(r: u8, g: u8, b: u8, index: int, other: int)
    requires
        is_xterm_256(r, g, b, index),
        16 <= other < 256,
    ensures
        16 <= index < 256,
        distance(r, g, b, index) <= distance(r, g, b, other),
{
}

/// The six steps of the cube rise from nothing to all, and each colour of the palette is nearest to
/// itself: a colour is at no distance from one of the palette only where it is that one.
pub proof fn a_palette_colour_is_nearest_to_itself(r: u8, g: u8, b: u8, index: int)
    requires
        16 <= index < 256,
    ensures
        distance(r, g, b, index) >= 0,
        distance(r, g, b, index) == 0 <==> palette_color(index) == (r as int, g as int, b as int),
        level(0) == 0,
        level(1) == 95,
        level(2) == 135,
        level(3) == 175,
        level(4) == 215,
        level(5) == 255,
        palette_color(232) == (8int, 8int, 8int),
        palette_color(255) == (238int, 238int, 238int),
{
    let c = palette_color(index);
    assert(forall|x: int, y: int| (#[trigger] apart(x, y)) >= 0 && (apart(x, y) == 0 <==> x == y)) by {
        assert forall|x: int, y: int| (#[trigger] apart(x, y)) >= 0 && (apart(x, y) == 0 <==> x
            == y) by {
            let d = x - y;
            assert(d * d >= 0 && (d * d == 0 <==> d == 0)) by (nonlinear_arith);
        }
    }
    assert(apart(r as int, c.0) >= 0 && apart(g as int, c.1) >= 0 && apart(b as int, c.2) >= 0);
}

/// The cube's colours are numbered by their steps of red, green and blue, and the greys after them
/// rise by ten.
pub proof fn the_palette_is_numbered_by_steps(r: int, g: int, b: int, grey: int)
    requires
        0 <= r < 6,
        0 <= g < 6,
        0 <= b < 6,
        232 <= grey < 255,
    ensures
        palette_color(16 + 36 * r + 6 * g + b) == (level(r), level(g), level(b)),
        cube_index(r, g, b) == 16 + 36 * r + 6 * g + b,
        palette_color(grey + 1).0 == palette_color(grey).0 + 10,
        palette_color(grey).0 == palette_color(grey).1,
        palette_color(grey).1 == palette_color(grey).2,
{
}

} // verus!
