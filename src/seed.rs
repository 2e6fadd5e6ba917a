//! Random seeding: how many cells start alive, and the random coordinates
//! that are drawn to place them.
use vstd::prelude::*;

verus! {

/// The generator that coordinates are drawn from.
#[verifier::external_type_specification]
#[verifier::external_body]
pub struct ExThreadRng(rand::rngs::ThreadRng);

/// Relies on rand::rng: a handle on the thread-local generator; it always returns.
pub assume_specification[ rand::rng ]() -> rand::rngs::ThreadRng;

/// Relies on rand::Rng::random_range on the half-open range `0..bound`: the
/// value lies in that range, and the call panics only when the range is empty.
#[verifier::external_body]
pub(crate) fn random_below(rng: &mut rand::rngs::ThreadRng, bound: i32) -> (r: i32)
    requires
        0 < bound,
    ensures
        0 <= r < bound,
{
    rand::Rng::random_range(rng, 0..bound)
}

/// The number of live cells that seeding places on a `rows` by `cols` board
/// filled to the fraction `num / den`: the floor of `rows * cols * num / den`.
pub open spec fn target_population(rows: int, cols: int, num: int, den: int) -> int {
    rows * cols * num / den
}

/// How many live cells a `row_count` by `col_count` board filled to the
/// fraction `fill_num / fill_den` starts with.
pub fn seed_target(row_count: i32, col_count: i32, fill_num: u32, fill_den: u32) -> (n: u64)
    requires
        0 < row_count,
        0 < col_count,
        0 < fill_den,
        fill_num <= fill_den,
    ensures
        n == target_population(row_count as int, col_count as int, fill_num as int, fill_den as int),
        n <= row_count * col_count,
{
    let r = row_count as u128;
    let c = col_count as u128;
    let num = fill_num as u128;
    let den = fill_den as u128;
    assert(r * c < 0x4000_0000_0000_0000) by (nonlinear_arith)
        requires
            r < 0x8000_0000,
            c < 0x8000_0000,
    ;
    let area: u128 = r * c;
    assert(area * num < 0x4000_0000_0000_0000_0000_0000) by (nonlinear_arith)
        requires
            area < 0x4000_0000_0000_0000,
            num < 0x1_0000_0000,
    ;
    let scaled: u128 = area * num;
    let n: u128 = scaled / den;
    proof {
        assert(area * num <= area * den) by (nonlinear_arith)
            requires
                num <= den,
                0 <= area,
        ;
        vstd::arithmetic::div_mod::lemma_div_is_ordered(
            (area * num) as int,
            (area * den) as int,
            den as int,
        );
        vstd::arithmetic::div_mod::lemma_div_by_multiple(area as int, den as int);
    }
    n as u64
}

} // verus!
