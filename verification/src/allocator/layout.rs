//! Memory requests: a size and an alignment, and the size a request takes up
//! once it is rounded up to its alignment.

use vstd::arithmetic::div_mod::{
    lemma_fundamental_div_mod, lemma_mod_decreases, lemma_mod_multiples_basic, lemma_small_mod,
};
use vstd::arithmetic::power2::{
    lemma2_to64, lemma_pow2_pos, lemma_pow2_strictly_increases, lemma_pow2_unfold, pow2,
};
use vstd::prelude::*;

verus! {

/// `size` rounded up to a multiple of `align`.
pub open spec fn round_up(size: nat, align: nat) -> nat
    recommends
        align > 0,
{
    if size % align == 0 {
        size
    } else {
        (size - size % align + align) as nat
    }
}

/// `round_up(size, align)` is a multiple of `align` and lies less than
/// `align` above `size`.
pub proof fn lemma_round_up_is_multiple(size: nat, align: nat)
    requires
        align > 0,
    ensures
        round_up(size, align) % align == 0,
        size <= round_up(size, align) < size + align,
{
    let r = round_up(size, align);
    let a = align as int;
    let q = size as int / a;
    lemma_fundamental_div_mod(size as int, a);
    if size % align != 0 {
        assert(r == (q + 1) * a) by (nonlinear_arith)
            requires
                size == a * q + size as int % a,
                r == size - size as int % a + a,
        ;
        lemma_mod_multiples_basic(q + 1, a);
    }
}

/// No multiple of `align` that is at least `size` lies below
/// `round_up(size, align)`.
pub proof fn lemma_round_up_is_least(size: nat, align: nat, multiple: nat)
    requires
        align > 0,
        multiple % align == 0,
        multiple >= size,
    ensures
        round_up(size, align) <= multiple,
{
    let r = round_up(size, align);
    let a = align as int;
    lemma_round_up_is_multiple(size, align);
    if multiple < r {
        let d = (r - multiple) as nat;
        let k = r as int / a - multiple as int / a;
        lemma_fundamental_div_mod(multiple as int, a);
        lemma_fundamental_div_mod(r as int, a);
        assert(d == k * a) by (nonlinear_arith)
            requires
                r == a * (r as int / a),
                multiple == a * (multiple as int / a),
                d == r - multiple,
                k == r as int / a - multiple as int / a,
        ;
        lemma_mod_multiples_basic(k, a);
        lemma_small_mod(d, align);
    }
}

/// A memory request: `size` bytes, aligned to `2^align` bytes.
#[derive(Clone, Copy, Debug)]
pub struct Layout {
    size: usize,
    align: usize,
}

impl Layout {
    /// The requested number of bytes.
    pub closed spec fn spec_size(&self) -> usize {
        self.size
    }

    /// The alignment exponent: the request is aligned to `2^align` bytes.
    pub closed spec fn spec_align(&self) -> usize {
        self.align
    }

    /// The alignment in bytes.
    pub open spec fn alignment(&self) -> nat {
        pow2(self.align() as nat)
    }

    /// The bytes that the request takes up: the smallest multiple of its
    /// alignment that holds `size` bytes.
    pub open spec fn rounded_size(&self) -> nat {
        round_up(self.size() as nat, self.alignment())
    }

    /// A request for `size` bytes aligned to `2^align` bytes.
    pub fn new(size: usize, align: usize) -> (layout: Self)
        ensures
            layout.size() == size,
            layout.align() == align,
    {
        Self { size, align }
    }

    /// The requested number of bytes.
    #[verifier::when_used_as_spec(spec_size)]
    pub fn size(&self) -> (size: usize)
        ensures
            size == self.size(),
    {
        self.size
    }

    /// The alignment exponent.
    #[verifier::when_used_as_spec(spec_align)]
    pub fn align(&self) -> (align: usize)
        ensures
            align == self.align(),
    {
        self.align
    }

    /// The rounded size of the request, unless it exceeds `limit`.
    pub fn rounded_size_within(&self, limit: usize) -> (rounded: Option<usize>)
        ensures
            match rounded {
                Some(bytes) => bytes == self.rounded_size() && bytes <= limit,
                None => self.rounded_size() > limit,
            },
    {
        let size = self.size;
        proof {
            lemma_pow2_pos(self.align as nat);
            lemma_round_up_is_multiple(size as nat, self.alignment());
        }
        if size > limit {
            return None;
        }
        if size == 0 {
            proof {
                lemma_small_mod(0, self.alignment());
            }
            return Some(0);
        }
        match pow2_within(self.align, limit) {
            None => {
                proof {
                    lemma_small_mod(size as nat, self.alignment());
                }
                None
            },
            Some(alignment) => {
                let rem = size % alignment;
                proof {
                    lemma_mod_decreases(size as nat, alignment as nat);
                }
                if rem == 0 {
                    Some(size)
                } else if alignment - rem > limit - size {
                    None
                } else {
                    Some(size - rem + alignment)
                }
            },
        }
    }
}

/// `2^exp`, unless it exceeds `limit`.
fn pow2_within(exp: usize, limit: usize) -> (power: Option<usize>)
    ensures
        match power {
            Some(p) => p == pow2(exp as nat) && p <= limit,
            None => pow2(exp as nat) > limit,
        },
{
    proof {
        lemma_pow2_pos(exp as nat);
    }
    if limit == 0 {
        return None;
    }
    let mut power: usize = 1;
    let mut done: usize = 0;
    proof {
        lemma2_to64();
    }
    while done < exp
        invariant
            done <= exp,
            power == pow2(done as nat),
            1 <= power <= limit,
        decreases exp - done,
    {
        proof {
            lemma_pow2_unfold((done + 1) as nat);
            if done + 1 < exp {
                lemma_pow2_strictly_increases((done + 1) as nat, exp as nat);
            }
        }
        if power > limit / 2 {
            return None;
        }
        power = power * 2;
        done = done + 1;
    }
    Some(power)
}

} // verus!
