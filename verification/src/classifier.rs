//! Colour classification: which pixels show the colour of a struck target.
//!
//! A pixel is given by its three colour channels, the red-like channel
//! first: channel 2, channel 1, channel 0. In a frame the channels of a pixel
//! lie the other way round, channel 0 first, followed by one unused byte.

use vstd::prelude::*;

verus! {

/// The rule by which a pixel counts as target-coloured.
#[derive(Clone, Copy, Debug, PartialEq, Eq, Structural)]
pub enum ColorRule {
    /// Channel 2 outweighs the other two together. Holds under changing
    /// light, and is the rule where nothing else is asked for.
    Relative,
    /// Channel 2 is bright and the other two are dim, by fixed limits.
    Absolute,
}

/// `a` less `b`, and zero where `b` is the larger.
pub open spec fn clamped_difference(a: int, b: int) -> int {
    if a >= b {
        a - b
    } else {
        0
    }
}

/// The relative rule: something of channel 2 is left after channel 1 and
/// then channel 0 were taken from it, each time stopping at zero.
pub open spec fn relative_rule(c2: u8, c1: u8, c0: u8) -> bool {
    clamped_difference(clamped_difference(c2 as int, c1 as int), c0 as int) > 0
}

/// The absolute rule: channel 2 above 200, channels 1 and 0 below 100.
pub open spec fn absolute_rule(c2: u8, c1: u8, c0: u8) -> bool {
    c2 > 200 && c1 < 100 && c0 < 100
}

/// Whether the channels `c2`, `c1`, `c0` are target-coloured by `rule`.
pub open spec fn rule_holds(rule: ColorRule, c2: u8, c1: u8, c0: u8) -> bool {
    match rule {
        ColorRule::Relative => relative_rule(c2, c1, c0),
        ColorRule::Absolute => absolute_rule(c2, c1, c0),
    }
}

/// Whether pixel `i` of `bytes` is target-coloured by `rule`.
pub open spec fn is_target_at(rule: ColorRule, bytes: Seq<u8>, i: int) -> bool {
    rule_holds(rule, bytes[4 * i + 2], bytes[4 * i + 1], bytes[4 * i])
}

/// How many of the first `pixels` pixels of `bytes` are target-coloured by
/// `rule`.
pub open spec fn target_count(rule: ColorRule, bytes: Seq<u8>, pixels: nat) -> nat
    decreases pixels,
{
    if pixels == 0 {
        0
    } else {
        target_count(rule, bytes, (pixels - 1) as nat) + if is_target_at(rule, bytes, pixels - 1) {
            1nat
        } else {
            0nat
        }
    }
}

/// The relative rule holds exactly where channel 2 exceeds the sum of the
/// other two.
pub proof fn lemma_relative_rule_is_excess(c2: u8, c1: u8, c0: u8)
    ensures
        relative_rule(c2, c1, c0) <==> c2 > c1 + c0,
{
}

/// Raising channel 2 of a pixel that meets the relative rule, with the other
/// two channels kept, gives a pixel that meets it too.
pub proof fn lemma_relative_rule_is_monotonic(c2: u8, raised: u8, c1: u8, c0: u8)
    requires
        relative_rule(c2, c1, c0),
        raised >= c2,
    ensures
        relative_rule(raised, c1, c0),
{
}

/// Whether `pixel`, given as channel 2, channel 1, channel 0, is
/// target-coloured by `rule`.
pub fn is_target_color(rule: ColorRule, pixel: [u8; 3]) -> (hit: bool)
    ensures
        hit == rule_holds(rule, pixel[0], pixel[1], pixel[2]),
{
    match rule {
        ColorRule::Relative => pixel[0].saturating_sub(pixel[1]).saturating_sub(pixel[2]) > 0,
        ColorRule::Absolute => pixel[0] > 200 && pixel[1] < 100 && pixel[2] < 100,
    }
}

/// Counts the pixels of `data` that are target-coloured by `rule`. Bytes
/// behind the last whole pixel are not looked at.
pub fn count_target_pixels(rule: ColorRule, data: &[u8]) -> (count: usize)
    ensures
        count == target_count(rule, data@, data@.len() / 4),
        count <= data@.len() / 4,
{
    let len: usize = data.len();
    let pixels: usize = len / 4;
    let mut count: usize = 0;
    let mut i: usize = 0;
    while i < pixels
        invariant
            len == data@.len(),
            pixels == len / 4,
            i <= pixels,
            count == target_count(rule, data@, i as nat),
            count <= i,
        decreases pixels - i,
    {
        let pixel: [u8; 3] = [data[4 * i + 2], data[4 * i + 1], data[4 * i]];
        if is_target_color(rule, pixel) {
            count = count + 1;
        }
        i = i + 1;
    }
    count
}

} // verus!
