//! Small helpers shared by the layout code: bounded random draws and the
//! clamping of colour channels.

use vstd::prelude::*;

verus! {

/// A colour channel after an adjustment: the sum held inside `[0, 255]`.
pub open spec fn clamp_channel(v: int) -> int {
    if v > 255 {
        255
    } else if v < 0 {
        0
    } else {
        v
    }
}

/// Draws from `rand`'s thread-local generator through
/// `rand::distributions::Range::new(min, max).ind_sample(..)`.
/// `Range::new` panics unless `min < max`; the sample is `min` plus a
/// remainder modulo `max - min`, so it lies in `[min, max)`. Which value of
/// that interval comes back is left open. The generator itself panics where
/// the system offers it no entropy, which no argument decides.
#[verifier::external_body]
fn sample_range(min: u32, max: u32) -> (r: u32)
    requires
        min < max,
    ensures
        min <= r < max,
{
    let mut rng = rand::thread_rng();
    let between: rand::distributions::Range<u32> = rand::distributions::Range::new(min, max);
    rand::distributions::IndependentSample::ind_sample(&between, &mut rng)
}

/// Returns a random number of the half-open interval `[min, max)`.
pub fn roll(min: u32, max: u32) -> (r: u32)
    requires
        min < max,
    ensures
        min <= r < max,
{
    sample_range(min, max)
}

/// The item of a list that a draw picked.
pub fn item_at<'a>(list: &'a [String], pick: u32) -> (item: &'a String)
    requires
        (pick as int) < list@.len(),
    ensures
        *item == list@[pick as int],
{
    &list[pick as usize]
}

/// Returns a random item from a given list, which must hold one and no more
/// than a `u32` can count.
pub fn get_random_item(list: &[String]) -> (item: &String)
    requires
        0 < list@.len() <= u32::MAX,
    ensures
        exists|i: int| 0 <= i < list@.len() && *item == list@[i],
{
    let pick: u32 = roll(0, list.len() as u32);
    item_at(list, pick)
}

/// Adds `b` to the channel `a` and keeps the result within a `u8`.
pub fn border(a: u8, b: i32) -> (r: u8)
    ensures
        r as int == clamp_channel(a as int + b as int),
        (0 <= a as int + b as int <= 255) ==> r as int == a as int + b as int,
{
    let sum: i64 = a as i64 + b as i64;
    if sum > 255 {
        255u8
    } else if sum < 0 {
        0u8
    } else {
        sum as u8
    }
}

} // verus!
