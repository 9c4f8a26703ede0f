//! Template matching: where in a frame a small reference pattern fits best.
//!
//! The frame is searched as a flat run of bytes. A window as long as the
//! template is laid over it at every byte offset, also at offsets that do not
//! start a pixel, and the window that differs least from the template wins.

use vstd::prelude::*;
use crate::error::Error;
use crate::frame::Frame;
use crate::geometry::Point;

verus! {

/// Reference pattern of the ball: one row of twelve pixels through its
/// middle, dark rim to dark rim.
pub const BALL_PATTERN: [u8; 48] = [
    31, 11, 17, 0,
    102, 66, 55, 0,
    255, 255, 255, 0,
    255, 255, 255, 0,
    102, 66, 55, 0,
    102, 66, 55, 0,
    102, 66, 55, 0,
    102, 66, 55, 0,
    255, 255, 255, 0,
    255, 255, 255, 0,
    102, 66, 55, 0,
    31, 11, 17, 0,
];

/// Distance between two byte values.
pub open spec fn byte_distance(a: u8, b: u8) -> nat {
    if a >= b {
        (a - b) as nat
    } else {
        (b - a) as nat
    }
}

/// Summed distance between the first `n` bytes of `template` and the bytes of
/// `frame` that lie under them when the template starts at `offset`.
pub open spec fn prefix_difference(frame: Seq<u8>, template: Seq<u8>, offset: int, n: nat) -> nat
    decreases n,
{
    if n == 0 {
        0
    } else {
        prefix_difference(frame, template, offset, (n - 1) as nat) + byte_distance(
            frame[offset + n - 1],
            template[n - 1],
        )
    }
}

/// Summed distance between `template` and the window of `frame` that starts
/// at `offset`.
pub open spec fn window_difference(frame: Seq<u8>, template: Seq<u8>, offset: int) -> nat {
    prefix_difference(frame, template, offset, template.len())
}

/// Whether a window that starts at `offset` lies within the frame.
pub open spec fn valid_offset(frame: Seq<u8>, template: Seq<u8>, offset: int) -> bool {
    0 <= offset && offset + template.len() <= frame.len()
}

/// Whether `offset` is where the template fits best: no window within the
/// frame differs less, and every earlier window differs more.
pub open spec fn is_first_best(frame: Seq<u8>, template: Seq<u8>, offset: int) -> bool {
    &&& valid_offset(frame, template, offset)
    &&& forall|j: int|
        valid_offset(frame, template, j) ==> window_difference(frame, template, offset)
            <= #[trigger] window_difference(frame, template, j)
    &&& forall|j: int|
        0 <= j < offset ==> window_difference(frame, template, offset)
            < #[trigger] window_difference(frame, template, j)
}

/// Index of the pixel under the middle of a template of `template_len` bytes
/// that starts at byte `offset`.
pub open spec fn centre_pixel(offset: int, template_len: int) -> int {
    (offset + template_len / 2) / 4
}

/// Where a template was found.
#[derive(Clone, Copy, Debug, PartialEq, Eq, Structural)]
pub struct MatchResult {
    /// Screen position of the pixel under the template's middle.
    pub location: Point,
    /// Summed byte distance between the template and the winning window.
    pub score: u128,
    /// Byte offset at which the winning window starts.
    pub offset: usize,
}

/// At most one offset is the first best.
pub proof fn lemma_first_best_is_unique(frame: Seq<u8>, template: Seq<u8>, a: int, b: int)
    requires
        is_first_best(frame, template, a),
        is_first_best(frame, template, b),
    ensures
        a == b,
{
    if a < b {
        assert(window_difference(frame, template, b) < window_difference(frame, template, a));
        assert(window_difference(frame, template, a) <= window_difference(frame, template, b));
    } else if b < a {
        assert(window_difference(frame, template, a) < window_difference(frame, template, b));
        assert(window_difference(frame, template, b) <= window_difference(frame, template, a));
    }
}

fn difference_at(frame: &[u8], template: &[u8], offset: usize) -> (d: u128)
    requires
        valid_offset(frame@, template@, offset as int),
    ensures
        d == window_difference(frame@, template@, offset as int),
{
    let len: usize = template.len();
    let end: usize = frame.len();
    let mut sum: u128 = 0;
    let mut i: usize = 0;
    while i < len
        invariant
            len == template@.len(),
            end == frame@.len(),
            offset + len <= end,
            i <= len,
            sum == prefix_difference(frame@, template@, offset as int, i as nat),
            sum <= 255 * i,
        decreases len - i,
    {
        let a: u8 = frame[offset + i];
        let b: u8 = template[i];
        let d: u8 = if a >= b {
            a - b
        } else {
            b - a
        };
        sum = sum + d as u128;
        i = i + 1;
    }
    sum
}

/// Whether `m` reports the first best fit of `template` in `frame`: its
/// offset is the first best, its score is the summed distance there, and its
/// location is the screen position of the pixel under the template's middle,
/// which lies within the frame.
pub open spec fn is_match_of(frame: &Frame, template: Seq<u8>, m: MatchResult) -> bool {
    &&& is_first_best(frame.bytes(), template, m.offset as int)
    &&& m.score == window_difference(frame.bytes(), template, m.offset as int)
    &&& m.location == frame.position_of(centre_pixel(m.offset as int, template.len() as int))
    &&& frame.spec_origin().x <= m.location.x < frame.spec_origin().x + frame.spec_width()
    &&& frame.spec_origin().y <= m.location.y < frame.spec_origin().y + frame.spec_height()
}

/// What a search for `template` in `frame` has to return: the first best fit,
/// or `InsufficientData` where the frame is shorter than the template.
pub open spec fn is_located(
    frame: &Frame,
    template: Seq<u8>,
    found: Result<MatchResult, Error>,
) -> bool {
    if frame.bytes().len() < template.len() {
        found == Err::<MatchResult, Error>(Error::InsufficientData)
    } else {
        found matches Ok(m) && is_match_of(frame, template, m)
    }
}

/// Finds where `template` fits `frame` best.
///
/// Every byte offset at which the template still lies within the frame is
/// tried. The offset with the least summed byte distance wins, and among
/// equals the earliest. The reported position is that of the pixel under the
/// template's middle.
pub fn locate(frame: &Frame, template: &[u8]) -> (found: Result<MatchResult, Error>)
    ensures
        is_located(frame, template@, found),
{
    let data: &[u8] = frame.data();
    let width: u32 = frame.width();
    let height: u32 = frame.height();
    let origin: Point = frame.origin();
    let n: usize = data.len();
    let m: usize = template.len();
    if n < m {
        return Err(Error::InsufficientData);
    }
    let last: usize = n - m;
    let mut best: usize = 0;
    let mut best_score: u128 = difference_at(data, template, 0);
    let mut k: usize = 0;
    while k < last
        invariant
            n == data@.len(),
            m == template@.len(),
            m <= n,
            last == n - m,
            best <= k <= last,
            best_score == window_difference(data@, template@, best as int),
            forall|j: int|
                0 <= j <= k ==> best_score <= #[trigger] window_difference(data@, template@, j),
            forall|j: int|
                0 <= j < best ==> best_score < #[trigger] window_difference(data@, template@, j),
        decreases last - k,
    {
        k = k + 1;
        let d: u128 = difference_at(data, template, k);
        if d < best_score {
            best = k;
            best_score = d;
        }
    }
    assert(is_first_best(data@, template@, best as int));
    proof {
        if m == 0 {
            assert(window_difference(data@, template@, 0) == 0);
            assert(best == 0);
        }
        assert(4 * width * height == 4 * (width * height) && width * height >= 1)
            by (nonlinear_arith)
            requires
                width > 0,
                height > 0,
        ;
        assert(best + m / 2 < n);
    }
    let pixel: usize = (best + m / 2) / 4;
    let columns: usize = width as usize;
    assert(pixel < width * height);
    assert((pixel as int) / (width as int) < height && 0 <= (pixel as int) % (width as int) < width
        && 0 <= (pixel as int) / (width as int)) by (nonlinear_arith)
        requires
            0 <= pixel < width * height,
            width > 0,
    ;
    let column: usize = pixel % columns;
    let row: usize = pixel / columns;
    let location = Point {
        x: (origin.x as i64 + column as i64) as i32,
        y: (origin.y as i64 + row as i64) as i32,
    };
    Ok(MatchResult { location, score: best_score, offset: best })
}

/// Finds the ball in `frame`: the first best fit of [`BALL_PATTERN`].
pub fn locate_ball(frame: &Frame) -> (found: Result<MatchResult, Error>)
    ensures
        is_located(frame, BALL_PATTERN@, found),
{
    locate(frame, &BALL_PATTERN)
}

} // verus!
