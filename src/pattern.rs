//! A synthetic B,G,R frame for bringing up a panel without a video source.

use vstd::arithmetic::div_mod::lemma_fundamental_div_mod_converse;
use vstd::prelude::*;

verus! {

/// Byte `i` of the test pattern: pixel `i / 3` is `(x, y)` with `x` the
/// outer and `y` the inner coordinate, lit when `x + it == y`.
pub open spec fn pattern_byte(size_y: nat, it: nat, i: int) -> u8 {
    let p = i / 3;
    let x = p / size_y as int;
    let y = p % size_y as int;
    if x + it == y {
        0xFFu8
    } else {
        0u8
    }
}

proof fn lemma_pattern_index(size_y: int, x: int, y: int, k: int)
    requires
        0 <= x,
        0 <= y < size_y,
        0 <= k < 3,
    ensures
        (3 * (x * size_y + y) + k) / 3 == x * size_y + y,
        (x * size_y + y) / size_y == x,
        (x * size_y + y) % size_y == y,
{
    lemma_fundamental_div_mod_converse(3 * (x * size_y + y) + k, 3, x * size_y + y, k);
    lemma_fundamental_div_mod_converse(x * size_y + y, size_y, x, y);
}

/// Generates a `size_x`×`size_y` test pattern of three-byte pixels, walked
/// with `x` outermost: black, with white where `x + it == y`.
pub fn generate_test_pattern(size_x: usize, size_y: usize, it: u32) -> (r: Vec<u8>)
    requires
        size_x * size_y * 3 <= usize::MAX,
    ensures
        r@.len() == size_x * size_y * 3,
        forall|i: int| 0 <= i < r@.len() ==> #[trigger] r@[i] == pattern_byte(size_y as nat, it as nat, i),
{
    let mut pattern: Vec<u8> = Vec::new();
    let mut x: usize = 0;
    while x < size_x
        invariant
            x <= size_x,
            size_x * size_y * 3 <= usize::MAX,
            pattern@.len() == 3 * (x * size_y),
            forall|i: int| 0 <= i < pattern@.len() ==> #[trigger] pattern@[i] == pattern_byte(size_y as nat, it as nat, i),
        decreases size_x - x,
    {
        let mut y: usize = 0;
        while y < size_y
            invariant
                x < size_x,
                y <= size_y,
                size_x * size_y * 3 <= usize::MAX,
                pattern@.len() == 3 * (x * size_y + y),
                forall|i: int| 0 <= i < pattern@.len() ==> #[trigger] pattern@[i] == pattern_byte(size_y as nat, it as nat, i),
            decreases size_y - y,
        {
            let lit = y >= x && y - x == it as usize;
            let v: u8 = if lit { 0xFF } else { 0 };
            let ghost base = pattern@.len() as int;
            proof {
                assert(x * size_y + y < size_x * size_y) by (nonlinear_arith)
                    requires x < size_x, y < size_y;
                assert forall|k: int| 0 <= k < 3 implies #[trigger] pattern_byte(size_y as nat, it as nat, base + k) == v by {
                    lemma_pattern_index(size_y as int, x as int, y as int, k);
                }
            }
            pattern.push(v);
            pattern.push(v);
            pattern.push(v);
            proof {
                assert forall|i: int| 0 <= i < pattern@.len() implies #[trigger] pattern@[i] == pattern_byte(size_y as nat, it as nat, i) by {
                    if i >= base {
                        assert(pattern_byte(size_y as nat, it as nat, base + (i - base)) == v);
                    }
                }
            }
            y = y + 1;
        }
        proof {
            assert(x * size_y + size_y == (x + 1) * size_y) by (nonlinear_arith);
        }
        x = x + 1;
    }
    proof {
        assert(size_x * size_y * 3 == 3 * (size_x * size_y)) by (nonlinear_arith);
    }
    pattern
}

} // verus!
