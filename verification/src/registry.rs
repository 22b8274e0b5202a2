//! The signal registry: the fixed catalog of tracked signals, laid out as a
//! flat sequence of slots, and the mapping from a trace's compact signal
//! identifiers back to those slots.
//!
//! Slot layout, in catalog order:
//! clock; 32 commit-map entries; 32 rename-map entries; 64 physical
//! registers; 16 x 2 reorder-buffer entries of 4 fields each; 32 issue-queue
//! entries of 10 fields each.

use vstd::prelude::*;
use crate::errors::{DecodeError, HeaderFault};

verus! {

broadcast use vstd::std_specs::hash::group_hash_axioms;

/// Number of slots in the fixed catalog: 1 + 32 + 32 + 64 + 16*2*4 + 32*10.
pub const SLOT_COUNT: usize = 577;

pub open spec fn spec_clock_slot() -> int {
    0
}

pub open spec fn spec_commit_slot(i: int) -> int {
    1 + i
}

pub open spec fn spec_rename_slot(i: int) -> int {
    33 + i
}

pub open spec fn spec_phys_slot(i: int) -> int {
    65 + i
}

/// Reorder-buffer fields in slot order: entry_valid, phys_rd, arch_rd,
/// commit_ready.
pub open spec fn spec_rob_slot(entry: int, bank: int, field: int) -> int {
    129 + (entry * 2 + bank) * 4 + field
}

/// Issue-queue fields in slot order: entry_valid, alu_cmd, op1_valid,
/// op1_data, op2_valid, op2_type, op2_data, phys_rd, bank_addr, rob_addr.
pub open spec fn spec_isq_slot(entry: int, field: int) -> int {
    257 + entry * 10 + field
}

/// An identifier token and declared width, as the header declares a signal.
#[derive(Debug, Clone, PartialEq, Eq)]
pub struct VarInfo {
    pub token: Vec<u8>,
    pub width: u32,
}

/// The mathematical image of one declared signal.
pub ghost struct VarModel {
    pub token: Seq<u8>,
    pub width: u32,
}

impl View for VarInfo {
    type V = VarModel;

    open spec fn view(&self) -> VarModel {
        VarModel { token: self.token@, width: self.width }
    }
}

impl DeepView for VarInfo {
    type V = VarModel;

    open spec fn deep_view(&self) -> VarModel {
        self@
    }
}

/// Where a tracked identifier points: the catalog slot and the declared
/// width of the signal bound there.
#[derive(Debug, Clone, Copy, PartialEq, Eq, Structural)]
pub struct TrackedSlot {
    pub slot: usize,
    pub width: u32,
}

/// The integer key of an identifier token: its bytes read as base-256
/// digits, most significant first. Injective on byte strings without
/// leading zero bytes; identifier tokens hold only ASCII between `!` and
/// `~`, so never a zero byte.
pub open spec fn spec_token_key(t: Seq<u8>) -> nat
    decreases t.len(),
{
    if t.len() == 0 {
        0
    } else {
        spec_token_key(t.drop_last()) * 256 + (t.last() as nat)
    }
}

pub proof fn lemma_token_key_prefix(t: Seq<u8>, j: int)
    requires
        0 <= j <= t.len(),
    ensures
        spec_token_key(t.take(j)) <= spec_token_key(t),
    decreases t.len(),
{
    if j < t.len() {
        assert(t.drop_last().take(j) =~= t.take(j));
        lemma_token_key_prefix(t.drop_last(), j);
        assert(spec_token_key(t.drop_last()) <= spec_token_key(t.drop_last()) * 256)
            by (nonlinear_arith);
    } else {
        assert(t.take(j) =~= t);
    }
}

/// Fold an identifier token into its integer key, or report that it is too
/// long for any key to hold (no conforming trace produces such a token).
pub fn token_key(t: &Vec<u8>) -> (r: Option<u128>)
    ensures
        match r {
            Some(k) => k == spec_token_key(t@) && spec_token_key(t@) <= u128::MAX,
            None => spec_token_key(t@) > u128::MAX,
        },
{
    let mut k: u128 = 0;
    let mut i: usize = 0;
    proof {
        assert(t@.take(0int) =~= Seq::<u8>::empty());
    }
    while i < t.len()
        invariant
            0 <= i <= t@.len(),
            k == spec_token_key(t@.take(i as int)),
        decreases t@.len() - i,
    {
        proof {
            assert(t@.take(i + 1).drop_last() =~= t@.take(i as int));
            assert(t@.take(i + 1).last() == t@[i as int]);
        }
        let shifted = match k.checked_mul(256) {
            Some(s) => s,
            None => {
                proof {
                    lemma_token_key_prefix(t@, i + 1);
                }
                return None;
            },
        };
        k = match shifted.checked_add(t[i] as u128) {
            Some(s) => s,
            None => {
                proof {
                    lemma_token_key_prefix(t@, i + 1);
                }
                return None;
            },
        };
        i = i + 1;
    }
    proof {
        assert(t@.take(t@.len() as int) =~= t@);
    }
    Some(k)
}

/// The key of the binding proposed for catalog slot `i`.
pub open spec fn spec_binding_key(bs: Seq<Option<VarModel>>, i: int) -> nat {
    spec_token_key(bs[i]->Some_0.token)
}

/// A well-formed registry: every tracked identifier points at a catalog
/// slot, with a width the bit-vector decoder accepts.
pub open spec fn registry_wf(m: Map<u128, TrackedSlot>) -> bool {
    forall|k: u128| #[trigger]
        m.contains_key(k) ==> m[k].slot < SLOT_COUNT && m[k].width <= 32
}

/// The resolved signal registry: a direct mapping from each identifier key
/// to the catalog slot it feeds, built once before streaming begins.
pub struct Registry {
    pub lookup: std::collections::HashMap<u128, TrackedSlot>,
}

impl View for Registry {
    type V = Map<u128, TrackedSlot>;

    open spec fn view(&self) -> Map<u128, TrackedSlot> {
        self.lookup@
    }
}

impl Registry {
    pub open spec fn wf(&self) -> bool {
        registry_wf(self@)
    }
}

/// What `build_registry` promises of a successful result: the mapping holds
/// exactly the keys of the proposed bindings, and each key points at the
/// first catalog slot whose binding carries it, with that slot's width.
pub open spec fn registry_matches(m: Map<u128, TrackedSlot>, bs: Seq<Option<VarModel>>) -> bool {
    &&& forall|i: int|
        0 <= i < SLOT_COUNT ==> m.contains_key(#[trigger] spec_binding_key(bs, i) as u128)
    &&& forall|k: u128| #[trigger]
        m.contains_key(k) ==> {
            let s = m[k].slot;
            &&& s < SLOT_COUNT
            &&& spec_binding_key(bs, s as int) == k
            &&& m[k].width == bs[s as int]->Some_0.width
            &&& forall|j: int| 0 <= j < s ==> spec_binding_key(bs, j) != k
        }
}

/// Resolve the catalog against one proposed binding per slot, in catalog
/// order. Fails on the first slot with no binding (`MissingSignal`), a
/// binding wider than 32 bits, or an identifier token too long to key.
pub fn build_registry(bindings: &Vec<Option<VarInfo>>) -> (r: Result<Registry, DecodeError>)
    requires
        bindings@.len() == SLOT_COUNT,
    ensures
        match r {
            Ok(reg) => {
                &&& reg.wf()
                &&& registry_matches(reg@, bindings.deep_view())
                &&& forall|i: int|
                    0 <= i < SLOT_COUNT ==> slot_acceptable(bindings.deep_view(), i)
            },
            Err(e) => resolution_error_matches(e, bindings.deep_view()),
        },
{
    let ghost bs = bindings.deep_view();
    proof {
        assert forall|i: int| 0 <= i < SLOT_COUNT implies bs[i] == bindings@[i].deep_view() by {}
    }
    let mut lookup: std::collections::HashMap<u128, TrackedSlot> =
        std::collections::HashMap::new();
    let mut slot: usize = 0;
    while slot < SLOT_COUNT
        invariant
            0 <= slot <= SLOT_COUNT,
            bindings@.len() == SLOT_COUNT,
            bs == bindings.deep_view(),
            bs.len() == SLOT_COUNT,
            forall|i: int| 0 <= i < SLOT_COUNT ==> bs[i] == bindings@[i].deep_view(),
            forall|j: int| 0 <= j < slot ==> slot_acceptable(bs, j),
            forall|i: int|
                0 <= i < slot ==> lookup@.contains_key(
                    #[trigger] spec_binding_key(bs, i) as u128,
                ),
            forall|k: u128| #[trigger]
                lookup@.contains_key(k) ==> {
                    let s = lookup@[k].slot;
                    &&& s < slot
                    &&& lookup@[k].width <= 32
                    &&& spec_binding_key(bs, s as int) == k
                    &&& lookup@[k].width == bs[s as int]->Some_0.width
                    &&& forall|j: int| 0 <= j < s ==> spec_binding_key(bs, j) != k
                },
        decreases SLOT_COUNT - slot,
    {
        match &bindings[slot] {
            None => {
                return Err(DecodeError::MissingSignal(slot));
            },
            Some(vi) => {
                if vi.width > 32 {
                    return Err(
                        DecodeError::HeaderMalformed(
                            HeaderFault::WidthTooWide { slot, width: vi.width },
                        ),
                    );
                }
                match token_key(&vi.token) {
                    None => {
                        return Err(
                            DecodeError::HeaderMalformed(HeaderFault::OversizedIdentifier { slot }),
                        );
                    },
                    Some(key) => {
                        if !lookup.contains_key(&key) {
                            lookup.insert(key, TrackedSlot { slot, width: vi.width });
                        }
                    },
                }
            },
        }
        slot = slot + 1;
    }
    Ok(Registry { lookup })
}

/// A binding that registry construction accepts for its slot: present, no
/// wider than 32 bits, and with a keyable identifier token.
pub open spec fn slot_acceptable(bs: Seq<Option<VarModel>>, j: int) -> bool {
    &&& bs[j] is Some
    &&& bs[j]->Some_0.width <= 32
    &&& spec_binding_key(bs, j) <= u128::MAX
}

/// How each registry-construction error pins down the bindings: the named
/// slot is the first one the construction cannot accept, for the named
/// reason.
pub open spec fn resolution_error_matches(e: DecodeError, bs: Seq<Option<VarModel>>) -> bool {
    match e {
        DecodeError::MissingSignal(s) => {
            &&& s < SLOT_COUNT
            &&& bs[s as int] is None
            &&& forall|j: int| 0 <= j < s ==> slot_acceptable(bs, j)
        },
        DecodeError::HeaderMalformed(HeaderFault::WidthTooWide { slot, width }) => {
            &&& slot < SLOT_COUNT
            &&& bs[slot as int] is Some
            &&& bs[slot as int]->Some_0.width == width
            &&& width > 32
            &&& forall|j: int| 0 <= j < slot ==> slot_acceptable(bs, j)
        },
        DecodeError::HeaderMalformed(HeaderFault::OversizedIdentifier { slot }) => {
            &&& slot < SLOT_COUNT
            &&& bs[slot as int] is Some
            &&& bs[slot as int]->Some_0.width <= 32
            &&& spec_binding_key(bs, slot as int) > u128::MAX
            &&& forall|j: int| 0 <= j < slot ==> slot_acceptable(bs, j)
        },
        _ => false,
    }
}

/// Law: `registry_matches` pins the registry down completely — any two
/// mappings matching the same bindings are equal. With the decoder's exact
/// replay contract this makes the decoded step history a function of the
/// bindings and the change log alone.
pub proof fn lemma_registry_matches_unique(
    m1: Map<u128, TrackedSlot>,
    m2: Map<u128, TrackedSlot>,
    bs: Seq<Option<VarModel>>,
)
    requires
        registry_matches(m1, bs),
        registry_matches(m2, bs),
    ensures
        m1 == m2,
{
    assert forall|k: u128| #[trigger] m1.contains_key(k) implies m2.contains_key(k) && m1[k]
        == m2[k] by {
        let s1 = m1[k].slot;
        assert(m2.contains_key(spec_binding_key(bs, s1 as int) as u128));
        let s2 = m2[k].slot;
        assert(!(s2 < s1) && !(s1 < s2));
    }
    assert forall|k: u128| #[trigger] m2.contains_key(k) implies m1.contains_key(k) by {
        let s2 = m2[k].slot;
        assert(m1.contains_key(spec_binding_key(bs, s2 as int) as u128));
    }
    assert(m1 =~= m2);
}

} // verus!
