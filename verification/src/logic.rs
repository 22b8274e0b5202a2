//! Four-valued logic and the bit-vector decoder: a bit vector is an ordered
//! sequence of logic values, most significant first, and decodes to the
//! unsigned integer whose bit at weight `2^(n-1-i)` is set exactly where the
//! digit at position `i` is driven high.

use vstd::prelude::*;

verus! {

/// One four-valued logic state: driven low, driven high, unknown, or
/// high-impedance.
#[derive(Debug, Clone, Copy, PartialEq, Eq, Structural)]
pub enum Logic {
    L0,
    L1,
    LX,
    LZ,
}

impl DeepView for Logic {
    type V = Logic;

    open spec fn deep_view(&self) -> Logic {
        *self
    }
}

/// The contribution of a single digit: 1 for a driven-high digit, 0 for
/// everything else (low, unknown, high-impedance).
pub open spec fn spec_bit(l: Logic) -> nat {
    if l == Logic::L1 {
        1
    } else {
        0
    }
}

/// The integer a bit vector denotes, most significant digit first.
pub open spec fn spec_decode(v: Seq<Logic>) -> nat
    decreases v.len(),
{
    if v.len() == 0 {
        0
    } else {
        spec_decode(v.drop_last()) * 2 + spec_bit(v.last())
    }
}

/// The canonical driven-only encoding of `n` in `width` digits, most
/// significant first.
pub open spec fn spec_encode(n: nat, width: nat) -> Seq<Logic>
    decreases width,
{
    if width == 0 {
        Seq::empty()
    } else {
        spec_encode(n / 2, (width - 1) as nat).push(if n % 2 == 1 {
            Logic::L1
        } else {
            Logic::L0
        })
    }
}

/// A vector made only of driven digits.
pub open spec fn all_driven(v: Seq<Logic>) -> bool {
    forall|i: int| 0 <= i < v.len() ==> v[i] == Logic::L0 || v[i] == Logic::L1
}

/// The same vector with every unknown or high-impedance digit forced low.
pub open spec fn forced_low(v: Seq<Logic>) -> Seq<Logic> {
    v.map_values(|l: Logic| if l == Logic::L1 { Logic::L1 } else { Logic::L0 })
}

pub proof fn lemma_decode_bound(v: Seq<Logic>)
    ensures
        spec_decode(v) < vstd::arithmetic::power2::pow2(v.len()),
    decreases v.len(),
{
    if v.len() == 0 {
        vstd::arithmetic::power2::lemma2_to64();
    } else {
        vstd::arithmetic::power2::lemma_pow2_unfold(v.len() as nat);
        lemma_decode_bound(v.drop_last());
    }
}

/// Decode a bit vector of width at most 32 to the unsigned integer it
/// denotes; unknown and high-impedance digits contribute nothing.
pub fn decode_bits(v: &Vec<Logic>) -> (r: u32)
    requires
        v@.len() <= 32,
    ensures
        r == spec_decode(v@),
{
    let mut r: u32 = 0;
    let mut i: usize = 0;
    proof {
        assert(v@.take(0int) =~= Seq::<Logic>::empty());
        vstd::arithmetic::power2::lemma2_to64();
    }
    while i < v.len()
        invariant
            0 <= i <= v@.len() <= 32,
            r == spec_decode(v@.take(i as int)),
            r < vstd::arithmetic::power2::pow2(i as nat),
        decreases v@.len() - i,
    {
        proof {
            lemma_decode_bound(v@.take(i as int));
            vstd::arithmetic::power2::lemma_pow2_unfold((i + 1) as nat);
            vstd::arithmetic::power2::lemma_pow2_pos(i as nat);
            if i + 1 < 32 {
                vstd::arithmetic::power2::lemma_pow2_strictly_increases((i + 1) as nat, 32);
            }
            vstd::arithmetic::power2::lemma2_to64();
            assert(v@.take(i + 1).drop_last() =~= v@.take(i as int));
            assert(v@.take(i + 1).last() == v@[i as int]);
        }
        let b: u32 = if v[i] == Logic::L1 {
            1
        } else {
            0
        };
        r = r * 2 + b;
        i = i + 1;
    }
    proof {
        assert(v@.take(v@.len() as int) =~= v@);
    }
    r
}

/// Encode `n` into `width` driven digits, most significant first.
pub fn encode_bits(n: u32, width: usize) -> (r: Vec<Logic>)
    ensures
        r@ == spec_encode(n as nat, width as nat),
        r@.len() == width,
    decreases width,
{
    proof {
        lemma_encode_len(n as nat, width as nat);
    }
    if width == 0 {
        let r: Vec<Logic> = Vec::new();
        proof {
            assert(r@ =~= spec_encode(n as nat, 0));
        }
        r
    } else {
        let mut r = encode_bits(n / 2, width - 1);
        let d = if n % 2 == 1 {
            Logic::L1
        } else {
            Logic::L0
        };
        r.push(d);
        r
    }
}

pub proof fn lemma_encode_len(n: nat, width: nat)
    ensures
        spec_encode(n, width).len() == width,
    decreases width,
{
    if width > 0 {
        lemma_encode_len(n / 2, (width - 1) as nat);
    }
}

/// Law: a vector of driven digits is reproduced exactly by decoding it and
/// re-encoding the result at the same width.
pub proof fn lemma_decode_encode_roundtrip(v: Seq<Logic>)
    requires
        all_driven(v),
    ensures
        spec_encode(spec_decode(v), v.len()) == v,
    decreases v.len(),
{
    if v.len() == 0 {
        assert(spec_encode(spec_decode(v), 0) =~= v);
    } else {
        let p = v.drop_last();
        assert(all_driven(p));
        lemma_decode_encode_roundtrip(p);
        let n = spec_decode(v);
        assert(n == spec_decode(p) * 2 + spec_bit(v.last()));
        assert(n / 2 == spec_decode(p)) by (nonlinear_arith)
            requires
                n == spec_decode(p) * 2 + spec_bit(v.last()),
                spec_bit(v.last()) < 2,
        ;
        assert(n % 2 == spec_bit(v.last())) by (nonlinear_arith)
            requires
                n == spec_decode(p) * 2 + spec_bit(v.last()),
                spec_bit(v.last()) < 2,
        ;
        assert(spec_encode(n, v.len()) =~= v);
    }
}

/// Law: unknown and high-impedance digits decode exactly as driven-low
/// digits do, so a vector decodes to the same integer as its forced-low
/// image.
pub proof fn lemma_decode_forced_low(v: Seq<Logic>)
    ensures
        spec_decode(v) == spec_decode(forced_low(v)),
    decreases v.len(),
{
    if v.len() > 0 {
        lemma_decode_forced_low(v.drop_last());
        assert(forced_low(v).drop_last() =~= forced_low(v.drop_last()));
        assert(forced_low(v).last() == (if v.last() == Logic::L1 {
            Logic::L1
        } else {
            Logic::L0
        }));
    }
}

} // verus!
