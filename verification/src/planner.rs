//! Shot planning: where to move the pointer before and after a strike.

use vstd::prelude::*;
use crate::error::Error;
use crate::geometry::{Point, Region};

verus! {

/// Length of an aim where nothing else is asked for.
pub const DEFAULT_AIM_LENGTH: u32 = 125;

/// Width of the playfield in pixels, where nothing else is asked for.
pub const DEFAULT_GAME_WIDTH: u32 = 400;

/// Height of the playfield in pixels, where nothing else is asked for.
pub const DEFAULT_GAME_HEIGHT: u32 = 720;

/// How far above the playfield the click lands that gives the game window
/// the focus.
pub const FOCUS_MARGIN: i32 = 5;

/// The kind of a shot.
#[derive(Clone, Copy, Debug, PartialEq, Eq, Structural)]
pub enum ShotType {
    /// Struck from the middle of the playfield.
    Center,
    /// Struck from near the far edge of the playfield.
    Lob,
    /// Struck from where the pointer is.
    Manual,
}

/// What the operator asks for.
#[derive(Clone, Copy, Debug, PartialEq, Eq, Structural)]
pub enum Command {
    /// Aim at the ball, then strike from the middle.
    Auto,
    /// Strike from the middle.
    Center,
    /// Strike from near the far edge.
    Lob,
    /// Strike from where the pointer is.
    Manual,
    /// Leave.
    Quit,
}

/// The command that the word `word` stands for: one of the letters `a`,
/// `c`, `l`, `m`, `q`, alone.
pub open spec fn command_of(word: Seq<u8>) -> Option<Command> {
    if word.len() != 1 {
        None
    } else if word[0] == 0x61 {
        Some(Command::Auto)
    } else if word[0] == 0x63 {
        Some(Command::Center)
    } else if word[0] == 0x6c {
        Some(Command::Lob)
    } else if word[0] == 0x6d {
        Some(Command::Manual)
    } else if word[0] == 0x71 {
        Some(Command::Quit)
    } else {
        None
    }
}

/// Reads a command from a word of input, given without the white space
/// around it.
pub fn parse_command(word: &[u8]) -> (command: Option<Command>)
    ensures
        command == command_of(word@),
{
    if word.len() != 1 {
        return None;
    }
    let letter: u8 = word[0];
    if letter == 0x61 {
        Some(Command::Auto)
    } else if letter == 0x63 {
        Some(Command::Center)
    } else if letter == 0x6c {
        Some(Command::Lob)
    } else if letter == 0x6d {
        Some(Command::Manual)
    } else if letter == 0x71 {
        Some(Command::Quit)
    } else {
        None
    }
}

impl Command {
    /// The shot that the command ends with, if it ends with one.
    pub open spec fn spec_shot(self) -> Option<ShotType> {
        match self {
            Command::Auto => Some(ShotType::Center),
            Command::Center => Some(ShotType::Center),
            Command::Lob => Some(ShotType::Lob),
            Command::Manual => Some(ShotType::Manual),
            Command::Quit => None,
        }
    }

    /// The shot that the command ends with, if it ends with one.
    #[verifier::when_used_as_spec(spec_shot)]
    pub fn shot(self) -> (shot: Option<ShotType>)
        ensures
            shot == self.spec_shot(),
    {
        match self {
            Command::Auto => Some(ShotType::Center),
            Command::Center => Some(ShotType::Center),
            Command::Lob => Some(ShotType::Lob),
            Command::Manual => Some(ShotType::Manual),
            Command::Quit => None,
        }
    }

    /// Whether the command aims at the ball before it strikes.
    pub fn aims_first(self) -> (aims: bool)
        ensures
            aims == (self == Command::Auto),
    {
        match self {
            Command::Auto => true,
            _ => false,
        }
    }
}

/// Whether a playfield of `width` by `height` pixels at `origin`, with a
/// target of radius `target_radius`, can be played: it has pixels, all of
/// them and the point of the focus click have screen coordinates, and the
/// target is less high than the playfield.
pub open spec fn valid_playfield(
    origin: Point,
    width: u32,
    height: u32,
    target_radius: u32,
) -> bool {
    &&& width > 0
    &&& height > 0
    &&& origin.x + width <= i32::MAX + 1
    &&& origin.y + height <= i32::MAX + 1
    &&& origin.y - FOCUS_MARGIN >= i32::MIN
    &&& target_radius < height
}

/// The playfield of the game: where its window lies on the screen, and how
/// large it and the target are.
#[derive(Clone, Copy, Debug)]
pub struct Playfield {
    origin: Point,
    width: u32,
    height: u32,
    target_radius: u32,
}

impl Playfield {
    #[verifier::type_invariant]
    pub closed spec fn inv(&self) -> bool {
        valid_playfield(self.origin, self.width, self.height, self.target_radius)
    }

    /// Screen position of the top-left pixel.
    pub closed spec fn spec_origin(&self) -> Point {
        self.origin
    }

    /// Width in pixels.
    pub closed spec fn spec_width(&self) -> u32 {
        self.width
    }

    /// Height in pixels.
    pub closed spec fn spec_height(&self) -> u32 {
        self.height
    }

    /// Radius of the target in pixels.
    pub closed spec fn spec_target_radius(&self) -> u32 {
        self.target_radius
    }

    /// The column through the middle of the playfield.
    pub open spec fn spec_center_x(&self) -> int {
        self.spec_origin().x + self.spec_width() / 2
    }

    /// Where the pointer goes for a shot from the middle: on the middle
    /// column, eleven sixteenths of the height below the top.
    pub open spec fn spec_center_shot(&self) -> Point {
        Point {
            x: self.spec_center_x() as i32,
            y: (self.spec_origin().y + 11 * self.spec_height() / 16) as i32,
        }
    }

    /// Where the pointer goes for a lob: on the middle column, one more than
    /// the target's radius above the bottom edge.
    pub open spec fn spec_lob_shot(&self) -> Point {
        Point {
            x: self.spec_center_x() as i32,
            y: (self.spec_origin().y + self.spec_height() - self.spec_target_radius() - 1) as i32,
        }
    }

    /// Where a click gives the game window the focus: on the middle column,
    /// just above the playfield.
    pub open spec fn spec_focus_point(&self) -> Point {
        Point { x: self.spec_center_x() as i32, y: (self.spec_origin().y - FOCUS_MARGIN) as i32 }
    }

    /// Where the pointer goes for a shot of kind `shot`, when it is at
    /// `pointer`: a manual shot leaves it there.
    pub open spec fn spec_shot_target(&self, shot: ShotType, pointer: Point) -> Point {
        match shot {
            ShotType::Center => self.spec_center_shot(),
            ShotType::Lob => self.spec_lob_shot(),
            ShotType::Manual => pointer,
        }
    }

    /// The playfield with these measures, where it can be played.
    pub fn new(origin: Point, width: u32, height: u32, target_radius: u32) -> (field: Option<
        Playfield,
    >)
        ensures
            field is Some <==> valid_playfield(origin, width, height, target_radius),
            field matches Some(f) ==> f.spec_origin() == origin && f.spec_width() == width
                && f.spec_height() == height && f.spec_target_radius() == target_radius,
    {
        if width == 0 || height == 0 || target_radius >= height {
            return None;
        }
        if origin.x as i64 + width as i64 > i32::MAX as i64 + 1 {
            return None;
        }
        if origin.y as i64 + height as i64 > i32::MAX as i64 + 1 {
            return None;
        }
        if (origin.y as i64) - (FOCUS_MARGIN as i64) < i32::MIN as i64 {
            return None;
        }
        Some(Playfield { origin, width, height, target_radius })
    }

    /// The rectangle of the screen that the playfield takes.
    pub fn region(&self) -> (region: Region)
        ensures
            region == (Region {
                x: self.spec_origin().x,
                y: self.spec_origin().y,
                width: self.spec_width(),
                height: self.spec_height(),
            }),
    {
        Region { x: self.origin.x, y: self.origin.y, width: self.width, height: self.height }
    }

    /// The column through the middle of the playfield.
    pub fn center_x(&self) -> (x: i32)
        ensures
            x == self.spec_center_x(),
    {
        proof {
            use_type_invariant(self);
        }
        (self.origin.x as i64 + (self.width / 2) as i64) as i32
    }

    /// Where the pointer goes for a shot from the middle.
    pub fn center_shot(&self) -> (p: Point)
        ensures
            p == self.spec_center_shot(),
            self.spec_origin().y <= p.y < self.spec_origin().y + self.spec_height(),
    {
        proof {
            use_type_invariant(self);
        }
        let down: u64 = 11 * (self.height as u64) / 16;
        Point { x: self.center_x(), y: (self.origin.y as i64 + down as i64) as i32 }
    }

    /// Where the pointer goes for a lob.
    pub fn lob_shot(&self) -> (p: Point)
        ensures
            p == self.spec_lob_shot(),
            self.spec_origin().y <= p.y < self.spec_origin().y + self.spec_height(),
    {
        proof {
            use_type_invariant(self);
        }
        let down: u32 = self.height - self.target_radius - 1;
        Point { x: self.center_x(), y: (self.origin.y as i64 + down as i64) as i32 }
    }

    /// Where a click gives the game window the focus.
    pub fn focus_point(&self) -> (p: Point)
        ensures
            p == self.spec_focus_point(),
    {
        proof {
            use_type_invariant(self);
        }
        Point { x: self.center_x(), y: self.origin.y - FOCUS_MARGIN }
    }

    /// Where the pointer goes for a shot of kind `shot`, when it is at
    /// `pointer`.
    pub fn shot_target(&self, shot: ShotType, pointer: Point) -> (p: Point)
        ensures
            p == self.spec_shot_target(shot, pointer),
    {
        match shot {
            ShotType::Center => self.center_shot(),
            ShotType::Lob => self.lob_shot(),
            ShotType::Manual => pointer,
        }
    }
}

/// `x` times `x`.
pub open spec fn square(x: int) -> int {
    x * x
}

/// Distance of `x` from zero.
pub open spec fn magnitude(x: int) -> int {
    if x >= 0 {
        x
    } else {
        -x
    }
}

/// Whether `r` is the whole part of the square root of `q`.
pub open spec fn is_integer_root(q: int, r: int) -> bool {
    0 <= r && square(r) <= q < square(r + 1)
}

/// Whether `r` is one component `d` of a vector whose squared length is
/// `norm2`, after the vector was scaled to `length` and the part behind the
/// point was dropped: `r` points the way `d` does, and its size is the
/// largest whole number that is at most `|d| * length / sqrt(norm2)`.
pub open spec fn is_scaled_component(d: int, norm2: int, length: int, r: int) -> bool {
    &&& d >= 0 ==> r >= 0
    &&& d <= 0 ==> r <= 0
    &&& square(r) * norm2 <= square(d * length)
    &&& square(d * length) < square(magnitude(r) + 1) * norm2
}

/// What an aim from `origin` toward `target` with `length` has to return:
/// `DegenerateVector` where the two coincide, else both components of the
/// scaled vector.
pub open spec fn is_aim(
    origin: Point,
    target: Point,
    length: u32,
    aim: Result<(i64, i64), Error>,
) -> bool {
    let dx = target.x - origin.x;
    let dy = target.y - origin.y;
    if origin == target {
        aim == Err::<(i64, i64), Error>(Error::DegenerateVector)
    } else {
        let norm2 = square(dx) + square(dy);
        aim matches Ok(v) && is_scaled_component(dx, norm2, length as int, v.0 as int)
            && is_scaled_component(dy, norm2, length as int, v.1 as int)
    }
}

proof fn lemma_square_monotonic(a: int, b: int)
    by (nonlinear_arith)
    requires
        0 <= a <= b,
    ensures
        square(a) <= square(b),
{
}

/// The whole part of the square root of `q`.
pub fn integer_root(q: u128) -> (r: u64)
    ensures
        is_integer_root(q as int, r as int),
{
    let mut low: u128 = 0;
    let mut high: u128 = 0x1_0000_0000_0000_0000;
    proof {
        assert(square(0x1_0000_0000_0000_0000) == 0x1_0000_0000_0000_0000_0000_0000_0000_0000)
            by (nonlinear_arith);
    }
    while high - low > 1
        invariant
            low < high <= 0x1_0000_0000_0000_0000,
            square(low as int) <= q < square(high as int),
        decreases high - low,
    {
        let mid: u128 = low + (high - low) / 2;
        proof {
            lemma_square_monotonic(mid as int, 0xffff_ffff_ffff_ffff);
            assert(square(0xffff_ffff_ffff_ffff) < 0x1_0000_0000_0000_0000_0000_0000_0000_0000)
                by (nonlinear_arith);
        }
        if mid * mid <= q {
            low = mid;
        } else {
            high = mid;
        }
    }
    low as u64
}

proof fn lemma_scaling(a: int, length: int, norm2: int, q: int, r: int)
    by (nonlinear_arith)
    requires
        0 <= a,
        0 <= length,
        0 < norm2,
        square(a) <= norm2,
        q == square(a * length) / norm2,
        is_integer_root(q, r),
    ensures
        square(r) * norm2 <= square(a * length),
        square(a * length) < square(r + 1) * norm2,
        r <= length,
{
    let p = square(a * length);
    assert(q * norm2 <= p < (q + 1) * norm2) by {
        assert(p == norm2 * (p / norm2) + p % norm2 && 0 <= p % norm2 < norm2) by {
            vstd::arithmetic::div_mod::lemma_fundamental_div_mod(p, norm2);
            vstd::arithmetic::div_mod::lemma_mod_bound(p, norm2);
        }
    }
    assert(square(r) * norm2 <= q * norm2);
    assert(square(r + 1) >= q + 1);
    assert(square(r + 1) * norm2 >= (q + 1) * norm2);
    assert(p == square(a) * square(length));
    assert(p <= norm2 * square(length));
    if r > length {
        assert(square(r) >= square(length + 1));
        assert(square(length + 1) > square(length));
        assert(square(r) * norm2 > square(length) * norm2);
    }
}

/// One component of the scaled vector.
fn scaled_component(d: i64, norm2: u128, length: u32) -> (r: i64)
    requires
        -0xffff_ffff <= d <= 0xffff_ffff,
        0 < norm2,
        square(d as int) <= norm2,
    ensures
        is_scaled_component(d as int, norm2 as int, length as int, r as int),
        -length <= r <= length,
{
    let size: u64 = if d >= 0 {
        d as u64
    } else {
        (-d) as u64
    };
    proof {
        assert(size * length <= 0xffff_fffe_0000_0001) by (nonlinear_arith)
            requires
                0 <= size <= 0xffff_ffff,
                0 <= length <= 0xffff_ffff,
        ;
    }
    let product: u128 = size as u128 * length as u128;
    proof {
        lemma_square_monotonic(product as int, 0xffff_fffe_0000_0001);
        assert(square(0xffff_fffe_0000_0001) < 0x1_0000_0000_0000_0000_0000_0000_0000_0000)
            by (nonlinear_arith);
        assert(square(size as int) == square(d as int)) by (nonlinear_arith)
            requires
                size == d || size == -d,
        ;
        assert(square(size * length) == square(d * length)) by (nonlinear_arith)
            requires
                size == d || size == -d,
        ;
    }
    let quotient: u128 = (product * product) / norm2;
    let root: u64 = integer_root(quotient);
    proof {
        lemma_scaling(size as int, length as int, norm2 as int, quotient as int, root as int);
        assert(square(-(root as int)) == square(root as int)) by (nonlinear_arith);
        assert(d == 0 ==> root == 0) by (nonlinear_arith)
            requires
                0 <= root,
                square(root as int) * norm2 <= square(d * length),
                norm2 > 0,
        ;
    }
    if d >= 0 {
        root as i64
    } else {
        -(root as i64)
    }
}

/// Plans an aim: the vector from `origin` toward `target`, scaled to
/// `desired_length`.
///
/// Each component keeps its direction and is cut to a whole number toward
/// zero. Where `origin` and `target` coincide there is no direction to keep,
/// and the answer is `DegenerateVector`.
pub fn plan_aim(origin: Point, target: Point, desired_length: u32) -> (aim: Result<
    (i64, i64),
    Error,
>)
    ensures
        is_aim(origin, target, desired_length, aim),
{
    let dx: i64 = target.x as i64 - origin.x as i64;
    let dy: i64 = target.y as i64 - origin.y as i64;
    if dx == 0 && dy == 0 {
        return Err(Error::DegenerateVector);
    }
    proof {
        lemma_square_monotonic(magnitude(dx as int), 0xffff_ffff);
        lemma_square_monotonic(magnitude(dy as int), 0xffff_ffff);
        assert(square(magnitude(dx as int)) == square(dx as int)) by (nonlinear_arith);
        assert(square(magnitude(dy as int)) == square(dy as int)) by (nonlinear_arith);
        assert(square(0xffff_ffff) == 0xffff_fffe_0000_0001) by (nonlinear_arith);
        assert(square(dx as int) >= 0 && square(dy as int) >= 0) by (nonlinear_arith);
        assert(dx != 0 ==> square(dx as int) > 0) by (nonlinear_arith);
        assert(dy != 0 ==> square(dy as int) > 0) by (nonlinear_arith);
    }
    let norm2: u128 = (dx as i128 * dx as i128) as u128 + (dy as i128 * dy as i128) as u128;
    let x: i64 = scaled_component(dx, norm2, desired_length);
    let y: i64 = scaled_component(dy, norm2, desired_length);
    Ok((x, y))
}

/// Only one number is a given component of a given scaled vector.
pub proof fn lemma_scaled_component_is_unique(d: int, norm2: int, length: int, a: int, b: int)
    requires
        norm2 > 0,
        is_scaled_component(d, norm2, length, a),
        is_scaled_component(d, norm2, length, b),
    ensures
        a == b,
{
    let p = square(d * length);
    assert(square(magnitude(a)) == square(a) && square(magnitude(b)) == square(b))
        by (nonlinear_arith);
    assert(magnitude(a) < magnitude(b) + 1) by (nonlinear_arith)
        requires
            norm2 > 0,
            0 <= magnitude(a),
            0 <= magnitude(b),
            square(magnitude(a)) * norm2 <= p,
            p < square(magnitude(b) + 1) * norm2,
    ;
    assert(magnitude(b) < magnitude(a) + 1) by (nonlinear_arith)
        requires
            norm2 > 0,
            0 <= magnitude(a),
            0 <= magnitude(b),
            square(magnitude(b)) * norm2 <= p,
            p < square(magnitude(a) + 1) * norm2,
    ;
}

/// An aim is as long as was asked for, up to the rounding of its components:
/// it is never longer, and it would be longer if each component were one
/// larger in size.
pub proof fn lemma_aim_length(origin: Point, target: Point, length: u32, v: (i64, i64))
    requires
        origin != target,
        is_aim(origin, target, length, Ok(v)),
    ensures
        square(v.0 as int) + square(v.1 as int) <= square(length as int),
        square(length as int) < square(magnitude(v.0 as int) + 1) + square(
            magnitude(v.1 as int) + 1,
        ),
{
    let dx = target.x - origin.x;
    let dy = target.y - origin.y;
    let n = square(dx) + square(dy);
    let l = length as int;
    let x = v.0 as int;
    let y = v.1 as int;
    assert(n > 0) by (nonlinear_arith)
        requires
            n == square(dx) + square(dy),
            dx != 0 || dy != 0,
    ;
    assert(square(dx * l) + square(dy * l) == n * square(l)) by (nonlinear_arith)
        requires
            n == square(dx) + square(dy),
    ;
    assert(square(x) + square(y) <= square(l)) by (nonlinear_arith)
        requires
            n > 0,
            square(x) * n <= square(dx * l),
            square(y) * n <= square(dy * l),
            square(dx * l) + square(dy * l) == n * square(l),
    ;
    assert(square(l) < square(magnitude(x) + 1) + square(magnitude(y) + 1)) by (nonlinear_arith)
        requires
            n > 0,
            square(dx * l) < square(magnitude(x) + 1) * n,
            square(dy * l) < square(magnitude(y) + 1) * n,
            square(dx * l) + square(dy * l) == n * square(l),
    ;
}

} // verus!
