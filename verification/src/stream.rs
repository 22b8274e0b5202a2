//! The live signal store and the change-stream processor: the store holds
//! every tracked signal's current bit vector while the chronological change
//! log streams past, and on each rising edge of the clock a snapshot of the
//! store is appended to the step history.

use vstd::prelude::*;
use crate::errors::{DecodeError, TraceFault};
use crate::logic::{spec_decode, decode_bits, Logic};
use crate::registry::{
    Registry, TrackedSlot, SLOT_COUNT, spec_clock_slot, spec_commit_slot, spec_rename_slot,
    spec_phys_slot, spec_rob_slot, spec_isq_slot, spec_token_key, token_key,
};
use crate::step::{IsqEntry, Regfiles, RobEntry, StepModel, StepSignal};

verus! {

broadcast use vstd::std_specs::hash::group_hash_axioms;

/// One entry of the change log that the decoder acts on: a scalar or vector
/// value change, carrying the changed signal's identifier token.
#[derive(Debug, Clone, PartialEq, Eq)]
pub enum VcdEvent {
    ScalarChange { token: Vec<u8>, value: Logic },
    VectorChange { token: Vec<u8>, bits: Vec<Logic> },
}

/// The mathematical image of one change event.
pub ghost enum EventModel {
    ScalarChange { token: Seq<u8>, value: Logic },
    VectorChange { token: Seq<u8>, bits: Seq<Logic> },
}

impl View for VcdEvent {
    type V = EventModel;

    open spec fn view(&self) -> EventModel {
        match self {
            VcdEvent::ScalarChange { token, value } => EventModel::ScalarChange {
                token: token@,
                value: *value,
            },
            VcdEvent::VectorChange { token, bits } => EventModel::VectorChange {
                token: token@,
                bits: bits@,
            },
        }
    }
}

impl DeepView for VcdEvent {
    type V = EventModel;

    open spec fn deep_view(&self) -> EventModel {
        self@
    }
}

pub open spec fn event_token(ev: EventModel) -> Seq<u8> {
    match ev {
        EventModel::ScalarChange { token, .. } => token,
        EventModel::VectorChange { token, .. } => token,
    }
}

/// The scalar reading of a stored value: the digit itself when the value is
/// a single digit, unknown otherwise.
pub open spec fn scalar_of(s: Seq<Logic>) -> Logic {
    if s.len() == 1 {
        s[0]
    } else {
        Logic::LX
    }
}

/// A flag reads true exactly when its stored value is a single driven-high
/// digit.
pub open spec fn flag_of(s: Seq<Logic>) -> bool {
    scalar_of(s) == Logic::L1
}

/// The integer reading of a stored value; stored values are never wider
/// than 32 digits, on which this is exactly the bit-vector decoding.
pub open spec fn decode_u32(s: Seq<Logic>) -> u32 {
    (spec_decode(s) % 0x1_0000_0000) as u32
}

pub proof fn lemma_decode_fits(s: Seq<Logic>)
    requires
        s.len() <= 32,
    ensures
        decode_u32(s) == spec_decode(s),
{
    crate::logic::lemma_decode_bound(s);
    if s.len() < 32 {
        vstd::arithmetic::power2::lemma_pow2_strictly_increases(s.len() as nat, 32);
    }
    vstd::arithmetic::power2::lemma2_to64();
}

/// The store's contents when streaming begins: the clock reads unknown, and
/// every other tracked signal holds the empty vector, which decodes to zero
/// and reads false.
pub open spec fn init_slots() -> Seq<Seq<Logic>> {
    Seq::new(
        SLOT_COUNT as nat,
        |i: int|
            if i == spec_clock_slot() {
                seq![Logic::LX]
            } else {
                Seq::empty()
            },
    )
}

/// The reorder-buffer entry a snapshot reads for row `e`, bank `b`.
pub open spec fn rob_entry_of(s: Seq<Seq<Logic>>, e: int, b: int) -> RobEntry {
    RobEntry {
        entry_valid: flag_of(s[spec_rob_slot(e, b, 0)]),
        phys_rd: decode_u32(s[spec_rob_slot(e, b, 1)]),
        arch_rd: decode_u32(s[spec_rob_slot(e, b, 2)]),
        commit_ready: flag_of(s[spec_rob_slot(e, b, 3)]),
    }
}

/// The issue-queue entry a snapshot reads for position `i`.
pub open spec fn isq_entry_of(s: Seq<Seq<Logic>>, i: int) -> IsqEntry {
    IsqEntry {
        entry_valid: flag_of(s[spec_isq_slot(i, 0)]),
        alu_cmd: decode_u32(s[spec_isq_slot(i, 1)]),
        op1_valid: flag_of(s[spec_isq_slot(i, 2)]),
        op1_data: decode_u32(s[spec_isq_slot(i, 3)]),
        op2_valid: flag_of(s[spec_isq_slot(i, 4)]),
        op2_type: decode_u32(s[spec_isq_slot(i, 5)]),
        op2_data: decode_u32(s[spec_isq_slot(i, 6)]),
        phys_rd: decode_u32(s[spec_isq_slot(i, 7)]),
        bank_addr: decode_u32(s[spec_isq_slot(i, 8)]),
        rob_addr: decode_u32(s[spec_isq_slot(i, 9)]),
    }
}

/// The snapshot the store yields: every step field read from its fixed
/// catalog slot.
pub open spec fn step_of(s: Seq<Seq<Logic>>) -> StepModel {
    StepModel {
        commit_map_table: Seq::new(32, |i: int| decode_u32(s[spec_commit_slot(i)])),
        rename_map_table: Seq::new(32, |i: int| decode_u32(s[spec_rename_slot(i)])),
        physical_regfile: Seq::new(64, |i: int| decode_u32(s[spec_phys_slot(i)])),
        rob: Seq::new(16, |e: int| Seq::new(2, |b: int| rob_entry_of(s, e, b))),
        isq: Seq::new(32, |i: int| isq_entry_of(s, i)),
    }
}

/// One event's effect on the store: the new store contents, and whether a
/// snapshot is taken (a rising edge of the clock). Events for untracked
/// identifiers change nothing; width mismatches are fatal.
pub open spec fn apply_event(
    m: Map<u128, TrackedSlot>,
    s: Seq<Seq<Logic>>,
    ev: EventModel,
) -> Result<(Seq<Seq<Logic>>, bool), TraceFault> {
    if spec_token_key(event_token(ev)) > u128::MAX {
        Err(TraceFault::OversizedIdentifier)
    } else {
        let key = spec_token_key(event_token(ev)) as u128;
        if !m.contains_key(key) {
            Ok((s, false))
        } else {
            let ts = m[key];
            match ev {
                EventModel::ScalarChange { value, .. } => {
                    if ts.width != 1 {
                        Err(TraceFault::ScalarWidthMismatch { slot: ts.slot, width: ts.width })
                    } else {
                        let emit = ts.slot == spec_clock_slot() && scalar_of(
                            s[spec_clock_slot()],
                        ) == Logic::L0 && value == Logic::L1;
                        Ok((s.update(ts.slot as int, seq![value]), emit))
                    }
                },
                EventModel::VectorChange { bits, .. } => {
                    if bits.len() != ts.width {
                        Err(
                            TraceFault::VectorWidthMismatch {
                                slot: ts.slot,
                                width: ts.width,
                                got: bits.len() as usize,
                            },
                        )
                    } else {
                        Ok((s.update(ts.slot as int, bits), false))
                    }
                },
            }
        }
    }
}

/// The change log replayed from a given store: the final store contents and
/// the step history, one snapshot per rising edge, in log order. The
/// snapshot at an edge shows the store as it stands when the edge arrives,
/// so a change earlier in the log is reflected and a later one is not.
pub open spec fn run_events(
    m: Map<u128, TrackedSlot>,
    s: Seq<Seq<Logic>>,
    evs: Seq<EventModel>,
) -> Result<(Seq<Seq<Logic>>, Seq<StepModel>), TraceFault>
    decreases evs.len(),
{
    if evs.len() == 0 {
        Ok((s, Seq::empty()))
    } else {
        match apply_event(m, s, evs.first()) {
            Err(f) => Err(f),
            Ok(p) => match run_events(m, p.0, evs.drop_first()) {
                Err(f) => Err(f),
                Ok(q) => Ok(
                    (
                        q.0,
                        if p.1 {
                            seq![step_of(s)] + q.1
                        } else {
                            q.1
                        },
                    ),
                ),
            },
        }
    }
}

/// How many rising edges of the clock the change log carries, replayed from
/// a given store.
pub open spec fn rising_edges(
    m: Map<u128, TrackedSlot>,
    s: Seq<Seq<Logic>>,
    evs: Seq<EventModel>,
) -> nat
    decreases evs.len(),
{
    if evs.len() == 0 {
        0
    } else {
        match apply_event(m, s, evs.first()) {
            Err(_) => 0,
            Ok(p) => (if p.1 {
                1nat
            } else {
                0nat
            }) + rising_edges(m, p.0, evs.drop_first()),
        }
    }
}

/// Law: a completed replay yields exactly one step per rising edge, in
/// order.
pub proof fn lemma_steps_match_edges(
    m: Map<u128, TrackedSlot>,
    s: Seq<Seq<Logic>>,
    evs: Seq<EventModel>,
)
    ensures
        run_events(m, s, evs) matches Ok(p) ==> p.1.len() == rising_edges(m, s, evs),
    decreases evs.len(),
{
    if evs.len() > 0 {
        match apply_event(m, s, evs.first()) {
            Ok(p) => {
                lemma_steps_match_edges(m, p.0, evs.drop_first());
            },
            Err(_) => {},
        }
    }
}

/// Law: a change log with no rising edge replays to an empty step history,
/// not to an error on that account.
pub proof fn lemma_no_edges_empty_history(
    m: Map<u128, TrackedSlot>,
    s: Seq<Seq<Logic>>,
    evs: Seq<EventModel>,
)
    requires
        rising_edges(m, s, evs) == 0,
        run_events(m, s, evs) is Ok,
    ensures
        run_events(m, s, evs)->Ok_0.1 == Seq::<StepModel>::empty(),
{
    lemma_steps_match_edges(m, s, evs);
    assert(run_events(m, s, evs)->Ok_0.1 =~= Seq::<StepModel>::empty());
}

/// One command of the change log, as the log determines it: a value
/// change the decoder acts on, a command it passes over (a timestamp, a
/// comment, a directive), or a parse fault, past which nothing is read.
pub ghost enum CommandModel {
    Change(EventModel),
    Other,
    Fault(Seq<char>),
}

/// The change events a command log carries, in order, cut at the first
/// parse fault.
pub open spec fn events_of(cs: Seq<CommandModel>) -> Seq<EventModel>
    decreases cs.len(),
{
    if cs.len() == 0 {
        Seq::empty()
    } else {
        match cs.first() {
            CommandModel::Change(e) => seq![e] + events_of(cs.drop_first()),
            CommandModel::Other => events_of(cs.drop_first()),
            CommandModel::Fault(_) => Seq::empty(),
        }
    }
}

/// The position of the first parse fault of a command log, if any.
pub open spec fn fault_pos(cs: Seq<CommandModel>) -> Option<nat>
    decreases cs.len(),
{
    if cs.len() == 0 {
        None
    } else if cs.first() is Fault {
        Some(0)
    } else {
        match fault_pos(cs.drop_first()) {
            None => None,
            Some(j) => Some((j + 1) as nat),
        }
    }
}

pub proof fn lemma_log_snoc(s: Seq<CommandModel>, c: CommandModel)
    requires
        fault_pos(s) is None,
    ensures
        fault_pos(s.push(c)) == (match c {
            CommandModel::Fault(_) => Some(s.len() as nat),
            _ => None::<nat>,
        }),
        events_of(s.push(c)) == events_of(s) + (match c {
            CommandModel::Change(e) => seq![e],
            _ => Seq::<EventModel>::empty(),
        }),
    decreases s.len(),
{
    let tail = (match c {
        CommandModel::Change(e) => seq![e],
        _ => Seq::<EventModel>::empty(),
    });
    if s.len() == 0 {
        assert(s.push(c).first() == c);
        assert(s.push(c).drop_first() =~= Seq::<CommandModel>::empty());
        assert(events_of(Seq::<CommandModel>::empty()) == Seq::<EventModel>::empty());
        assert(fault_pos(Seq::<CommandModel>::empty()) is None);
        assert(s =~= Seq::<CommandModel>::empty());
        assert(events_of(s.push(c)) =~= events_of(s) + tail);
    } else {
        assert(s.push(c).first() == s.first());
        assert(s.push(c).drop_first() =~= s.drop_first().push(c));
        assert(fault_pos(s.drop_first()) is None);
        lemma_log_snoc(s.drop_first(), c);
        match s.first() {
            CommandModel::Change(e) => {
                assert(events_of(s.push(c)) == seq![e] + (events_of(s.drop_first()) + tail));
                assert(seq![e] + (events_of(s.drop_first()) + tail) =~= (seq![e] + events_of(
                    s.drop_first(),
                )) + tail);
            },
            CommandModel::Other => {},
            CommandModel::Fault(_) => {
                assert(false);
            },
        }
    }
}

pub proof fn lemma_events_split(cs: Seq<CommandModel>, k: int)
    requires
        0 <= k <= cs.len(),
        fault_pos(cs.take(k)) is None,
    ensures
        events_of(cs) == events_of(cs.take(k)) + events_of(cs.skip(k)),
    decreases k,
{
    if k == 0 {
        assert(cs.take(0) =~= Seq::<CommandModel>::empty());
        assert(cs.skip(0) =~= cs);
        assert(events_of(cs.take(0)) + events_of(cs) =~= events_of(cs));
    } else {
        let rest = cs.drop_first();
        assert(cs.take(k).first() == cs.first());
        assert(cs.take(k).drop_first() =~= rest.take(k - 1));
        assert(cs.skip(k) =~= rest.skip(k - 1));
        match cs.first() {
            CommandModel::Fault(_) => {
                assert(fault_pos(cs.take(k)) is Some);
            },
            CommandModel::Other => {
                lemma_events_split(rest, k - 1);
            },
            CommandModel::Change(e) => {
                lemma_events_split(rest, k - 1);
                assert(seq![e] + (events_of(rest.take(k - 1)) + events_of(rest.skip(k - 1)))
                    =~= (seq![e] + events_of(rest.take(k - 1))) + events_of(rest.skip(k - 1)));
            },
        }
    }
}

pub proof fn lemma_fault_cut(cs: Seq<CommandModel>, k: int)
    requires
        0 <= k < cs.len(),
        fault_pos(cs.take(k)) is None,
        cs[k] is Fault,
    ensures
        fault_pos(cs) == Some(k as nat),
        events_of(cs) == events_of(cs.take(k)),
    decreases k,
{
    if k == 0 {
        assert(cs.first() is Fault);
        assert(cs.take(0) =~= Seq::<CommandModel>::empty());
    } else {
        let rest = cs.drop_first();
        assert(cs.take(k).first() == cs.first());
        assert(cs.take(k).drop_first() =~= rest.take(k - 1));
        assert(rest[k - 1] == cs[k]);
        lemma_fault_cut(rest, k - 1);
        match cs.first() {
            CommandModel::Fault(_) => {
                assert(fault_pos(cs.take(k)) is Some);
            },
            CommandModel::Other => {},
            CommandModel::Change(e) => {
                assert(events_of(cs) == seq![e] + events_of(rest));
            },
        }
    }
}

pub proof fn lemma_run_err_extends(
    m: Map<u128, TrackedSlot>,
    s0: Seq<Seq<Logic>>,
    a: Seq<EventModel>,
    b: Seq<EventModel>,
)
    requires
        run_events(m, s0, a) is Err,
    ensures
        run_events(m, s0, a + b) == run_events(m, s0, a),
    decreases a.len(),
{
    assert(a.len() > 0);
    let whole = a + b;
    assert(whole.len() > 0);
    assert(whole.first() == a.first());
    match apply_event(m, s0, a.first()) {
        Err(_) => {},
        Ok(p) => {
            assert(whole.drop_first() =~= a.drop_first() + b);
            lemma_run_err_extends(m, p.0, a.drop_first(), b);
        },
    }
}

/// The live signal store: the current bit vector of every catalog slot.
pub struct LiveStore {
    pub slots: Vec<Vec<Logic>>,
}

impl View for LiveStore {
    type V = Seq<Seq<Logic>>;

    open spec fn view(&self) -> Seq<Seq<Logic>> {
        self.slots.deep_view()
    }
}

impl LiveStore {
    /// Every slot exists and none is wider than the decoder accepts.
    pub open spec fn wf(&self) -> bool {
        &&& self@.len() == SLOT_COUNT
        &&& forall|i: int| 0 <= i < SLOT_COUNT ==> self@[i].len() <= 32
    }

    /// A fresh store, reset for one decode.
    pub fn new() -> (r: LiveStore)
        ensures
            r.wf(),
            r@ == init_slots(),
    {
        let mut slots: Vec<Vec<Logic>> = Vec::new();
        let mut clk: Vec<Logic> = Vec::new();
        clk.push(Logic::LX);
        proof {
            assert(clk@ =~= seq![Logic::LX]);
        }
        slots.push(clk);
        let mut i: usize = 1;
        while i < SLOT_COUNT
            invariant
                1 <= i <= SLOT_COUNT,
                slots.deep_view().len() == i,
                forall|j: int|
                    0 <= j < i ==> slots.deep_view()[j] == (if j == 0 {
                        seq![Logic::LX]
                    } else {
                        Seq::<Logic>::empty()
                    }),
            decreases SLOT_COUNT - i,
        {
            let ghost prev = slots@;
            let ghost prev_deep = slots.deep_view();
            let empty: Vec<Logic> = Vec::new();
            slots.push(empty);
            proof {
                assert forall|j: int|
                    0 <= j < i + 1 implies slots.deep_view()[j] == (if j == 0 {
                    seq![Logic::LX]
                } else {
                    Seq::<Logic>::empty()
                }) by {
                    if j < i {
                        assert(slots@[j] == prev[j]);
                        assert(slots.deep_view()[j] == prev[j].deep_view());
                        assert(prev_deep[j] == prev[j].deep_view());
                    } else {
                        assert(slots@[j] == empty);
                        assert(slots@[j].deep_view() =~= Seq::<Logic>::empty());
                    }
                }
            }
            i = i + 1;
        }
        let r = LiveStore { slots };
        proof {
            assert(r@ =~= init_slots());
        }
        r
    }
}

pub proof fn lemma_bits_deep(v: Vec<Logic>)
    ensures
        v.deep_view() == v@,
{
    assert(v.deep_view() =~= v@);
}

/// The integer reading of one catalog slot.
fn read_u32(store: &LiveStore, slot: usize) -> (r: u32)
    requires
        store.wf(),
        slot < SLOT_COUNT,
    ensures
        r == decode_u32(store@[slot as int]),
{
    proof {
        lemma_bits_deep(store.slots@[slot as int]);
        lemma_decode_fits(store@[slot as int]);
    }
    decode_bits(&store.slots[slot])
}

/// The flag reading of one catalog slot.
fn read_flag(store: &LiveStore, slot: usize) -> (r: bool)
    requires
        store.wf(),
        slot < SLOT_COUNT,
    ensures
        r == flag_of(store@[slot as int]),
{
    proof {
        lemma_bits_deep(store.slots@[slot as int]);
    }
    let s = &store.slots[slot];
    s.len() == 1 && s[0] == Logic::L1
}

/// The integer readings of `count` consecutive catalog slots from `base`.
fn decode_range(store: &LiveStore, base: usize, count: usize) -> (r: Vec<u32>)
    requires
        store.wf(),
        base + count <= SLOT_COUNT,
    ensures
        r@.len() == count,
        forall|i: int| 0 <= i < count ==> r@[i] == decode_u32(store@[base + i]),
{
    let mut r: Vec<u32> = Vec::new();
    let mut i: usize = 0;
    while i < count
        invariant
            0 <= i <= count,
            store.wf(),
            base + count <= SLOT_COUNT,
            r@.len() == i,
            forall|j: int| 0 <= j < i ==> r@[j] == decode_u32(store@[base + j]),
        decreases count - i,
    {
        r.push(read_u32(store, base + i));
        i = i + 1;
    }
    r
}

fn make_rob_entry(store: &LiveStore, e: usize, b: usize) -> (r: RobEntry)
    requires
        store.wf(),
        e < 16,
        b < 2,
    ensures
        r == rob_entry_of(store@, e as int, b as int),
{
    let base: usize = 129 + (e * 2 + b) * 4;
    RobEntry {
        entry_valid: read_flag(store, base),
        phys_rd: read_u32(store, base + 1),
        arch_rd: read_u32(store, base + 2),
        commit_ready: read_flag(store, base + 3),
    }
}

fn make_isq_entry(store: &LiveStore, i: usize) -> (r: IsqEntry)
    requires
        store.wf(),
        i < 32,
    ensures
        r == isq_entry_of(store@, i as int),
{
    let base: usize = 257 + i * 10;
    IsqEntry {
        entry_valid: read_flag(store, base),
        alu_cmd: read_u32(store, base + 1),
        op1_valid: read_flag(store, base + 2),
        op1_data: read_u32(store, base + 3),
        op2_valid: read_flag(store, base + 4),
        op2_type: read_u32(store, base + 5),
        op2_data: read_u32(store, base + 6),
        phys_rd: read_u32(store, base + 7),
        bank_addr: read_u32(store, base + 8),
        rob_addr: read_u32(store, base + 9),
    }
}

/// The snapshot builder: one immutable step assembled from the store's
/// current contents, without mutating the store.
pub fn build_step(store: &LiveStore) -> (r: StepSignal)
    requires
        store.wf(),
    ensures
        r@ == step_of(store@),
{
    let commit_map_table = decode_range(store, 1, 32);
    let rename_map_table = decode_range(store, 33, 32);
    let physical_regfile = decode_range(store, 65, 64);

    let mut rob: Vec<Vec<RobEntry>> = Vec::new();
    let mut e: usize = 0;
    while e < 16
        invariant
            0 <= e <= 16,
            store.wf(),
            rob.deep_view().len() == e,
            forall|j: int|
                0 <= j < e ==> rob.deep_view()[j] == Seq::new(
                    2,
                    |b: int| rob_entry_of(store@, j, b),
                ),
        decreases 16 - e,
    {
        let mut row: Vec<RobEntry> = Vec::new();
        row.push(make_rob_entry(store, e, 0));
        row.push(make_rob_entry(store, e, 1));
        let ghost prev = rob@;
        let ghost prev_deep = rob.deep_view();
        rob.push(row);
        proof {
            assert forall|j: int| 0 <= j < e + 1 implies rob.deep_view()[j] == Seq::new(
                2,
                |b: int| rob_entry_of(store@, j, b),
            ) by {
                if j < e {
                    assert(rob@[j] == prev[j]);
                    assert(rob.deep_view()[j] == prev[j].deep_view());
                    assert(prev_deep[j] == prev[j].deep_view());
                } else {
                    assert(rob@[j] == row);
                    assert(row.deep_view() =~= Seq::new(2, |b: int| rob_entry_of(store@, j, b)));
                }
            }
        }
        e = e + 1;
    }

    let mut isq: Vec<IsqEntry> = Vec::new();
    let mut i: usize = 0;
    while i < 32
        invariant
            0 <= i <= 32,
            store.wf(),
            isq@.len() == i,
            forall|j: int| 0 <= j < i ==> isq@[j] == isq_entry_of(store@, j),
        decreases 32 - i,
    {
        isq.push(make_isq_entry(store, i));
        i = i + 1;
    }

    let r = StepSignal {
        regfiles: Regfiles { commit_map_table, rename_map_table, physical_regfile },
        rob,
        isq,
    };
    proof {
        assert(r@.commit_map_table =~= step_of(store@).commit_map_table);
        assert(r@.rename_map_table =~= step_of(store@).rename_map_table);
        assert(r@.physical_regfile =~= step_of(store@).physical_regfile);
        assert(r@.rob =~= step_of(store@).rob);
        assert(r@.isq =~= step_of(store@).isq);
    }
    r
}

fn copy_bits(bits: &Vec<Logic>) -> (r: Vec<Logic>)
    ensures
        r@ == bits@,
{
    let mut r: Vec<Logic> = Vec::new();
    let mut i: usize = 0;
    while i < bits.len()
        invariant
            0 <= i <= bits@.len(),
            r@ == bits@.take(i as int),
        decreases bits@.len() - i,
    {
        r.push(bits[i]);
        proof {
            assert(r@ =~= bits@.take(i + 1));
        }
        i = i + 1;
    }
    proof {
        assert(bits@.take(bits@.len() as int) =~= bits@);
    }
    r
}

fn event_token_ref<'a>(ev: &'a VcdEvent) -> (t: &'a Vec<u8>)
    ensures
        t@ == event_token(ev@),
{
    match ev {
        VcdEvent::ScalarChange { token, .. } => token,
        VcdEvent::VectorChange { token, .. } => token,
    }
}

/// Sequences of step snapshots, seen mathematically.
pub open spec fn deep_of_steps(s: Seq<StepSignal>) -> Seq<StepModel> {
    Seq::new(s.len(), |i: int| s[i]@)
}

pub proof fn lemma_history_deep(v: Vec<StepSignal>)
    ensures
        v.deep_view() == deep_of_steps(v@),
{
    assert(v.deep_view() =~= deep_of_steps(v@));
}

/// The change-stream processor's single transition: apply one change event
/// to the store, snapshotting on a rising clock edge; exactly the effect
/// `apply_event` gives the event, with a width fault surfacing as
/// `TraceCorrupt`.
pub fn process_event(
    reg: &Registry,
    store: &mut LiveStore,
    history: &mut Vec<StepSignal>,
    ev: &VcdEvent,
) -> (r: Result<(), DecodeError>)
    requires
        reg.wf(),
        old(store).wf(),
    ensures
        final(store).wf(),
        match apply_event(reg@, old(store)@, ev@) {
            Ok(p) => {
                &&& r is Ok
                &&& final(store)@ == p.0
                &&& final(history).deep_view() == old(history).deep_view() + (if p.1 {
                    seq![step_of(old(store)@)]
                } else {
                    Seq::<StepModel>::empty()
                })
            },
            Err(f) => {
                &&& r == Err::<(), DecodeError>(DecodeError::TraceCorrupt(f))
                &&& final(store)@ == old(store)@
                &&& final(history).deep_view() == old(history).deep_view()
            },
        },
{
    let token = event_token_ref(ev);
    let key = match token_key(token) {
        None => {
            return Err(DecodeError::TraceCorrupt(TraceFault::OversizedIdentifier));
        },
        Some(k) => k,
    };
    let ts = match reg.lookup.get(&key) {
        None => {
            proof {
                assert(history.deep_view() =~= history.deep_view() + Seq::<StepModel>::empty());
            }
            return Ok(());
        },
        Some(t) => *t,
    };
    match ev {
        VcdEvent::ScalarChange { value, .. } => {
            if ts.width != 1 {
                return Err(
                    DecodeError::TraceCorrupt(
                        TraceFault::ScalarWidthMismatch { slot: ts.slot, width: ts.width },
                    ),
                );
            }
            if ts.slot == 0 {
                proof {
                    lemma_bits_deep(store.slots@[0]);
                }
                let clk = &store.slots[0];
                if clk.len() == 1 && clk[0] == Logic::L0 && *value == Logic::L1 {
                    let st = build_step(store);
                    history.push(st);
                    proof {
                        lemma_history_deep(*history);
                        assert(history.deep_view() =~= old(history).deep_view() + seq![
                            step_of(old(store)@),
                        ]);
                    }
                }
            }
            let mut nv: Vec<Logic> = Vec::new();
            nv.push(*value);
            let ghost pre_slots = store.slots@;
            store.slots.set(ts.slot, nv);
            proof {
                assert forall|j: int| 0 <= j < SLOT_COUNT implies store@[j] == old(
                    store,
                )@.update(ts.slot as int, seq![*value])[j] by {
                    if j == ts.slot {
                        assert(store.slots@[j].deep_view() =~= seq![*value]);
                    } else {
                        assert(store.slots@[j] == pre_slots[j]);
                    }
                }
                assert(store@ =~= old(store)@.update(ts.slot as int, seq![*value]));
                if !(ts.slot == 0 && scalar_of(old(store)@[0]) == Logic::L0 && *value
                    == Logic::L1) {
                    assert(history.deep_view() =~= old(history).deep_view()
                        + Seq::<StepModel>::empty());
                }
            }
            Ok(())
        },
        VcdEvent::VectorChange { bits, .. } => {
            if bits.len() != ts.width as usize {
                return Err(
                    DecodeError::TraceCorrupt(
                        TraceFault::VectorWidthMismatch {
                            slot: ts.slot,
                            width: ts.width,
                            got: bits.len(),
                        },
                    ),
                );
            }
            let nv = copy_bits(bits);
            let ghost pre_slots = store.slots@;
            store.slots.set(ts.slot, nv);
            proof {
                assert forall|j: int| 0 <= j < SLOT_COUNT implies store@[j] == old(
                    store,
                )@.update(ts.slot as int, bits@)[j] by {
                    if j == ts.slot {
                        assert(store.slots@[j].deep_view() =~= bits@);
                    } else {
                        assert(store.slots@[j] == pre_slots[j]);
                    }
                }
                assert(store@ =~= old(store)@.update(ts.slot as int, bits@));
                assert(history.deep_view() =~= old(history).deep_view()
                    + Seq::<StepModel>::empty());
            }
            Ok(())
        },
    }
}

/// Replay a whole change log against a resolved registry: the step
/// history, one snapshot per rising clock edge in log order, or the first
/// fault. The result is exactly what `run_events` gives the log.
pub fn decode_events(reg: &Registry, events: &Vec<VcdEvent>) -> (r: Result<
    Vec<StepSignal>,
    DecodeError,
>)
    requires
        reg.wf(),
    ensures
        match run_events(reg@, init_slots(), events.deep_view()) {
            Ok(p) => r is Ok && r->Ok_0.deep_view() == p.1,
            Err(f) => r == Err::<Vec<StepSignal>, DecodeError>(DecodeError::TraceCorrupt(f)),
        },
{
    let ghost evs = events.deep_view();
    let mut store = LiveStore::new();
    let mut history: Vec<StepSignal> = Vec::new();
    let mut i: usize = 0;
    proof {
        assert(evs.skip(0) =~= evs);
    }
    while i < events.len()
        invariant
            0 <= i <= events@.len(),
            evs == events.deep_view(),
            evs.len() == events@.len(),
            reg.wf(),
            store.wf(),
            match run_events(reg@, store@, evs.skip(i as int)) {
                Ok(p) => run_events(reg@, init_slots(), evs) == Ok::<_, TraceFault>(
                    (p.0, history.deep_view() + p.1),
                ),
                Err(f) => run_events(reg@, init_slots(), evs) == Err::<
                    (Seq<Seq<Logic>>, Seq<StepModel>),
                    _,
                >(f),
            },
        decreases events@.len() - i,
    {
        let ghost pre_store = store@;
        let ghost pre_hist_deep = history.deep_view();
        let ghost rest = evs.skip(i as int);
        proof {
            assert(events.deep_view()[i as int] == events@[i as int].deep_view());
            assert(rest.first() == evs[i as int]);
            assert(rest.drop_first() =~= evs.skip(i + 1));
        }
        match process_event(reg, &mut store, &mut history, &events[i]) {
            Ok(()) => {
                proof {
                    match apply_event(reg@, pre_store, evs[i as int]) {
                        Ok(p) => {
                            assert(run_events(reg@, pre_store, rest) == (match run_events(
                                reg@,
                                p.0,
                                evs.skip(i + 1),
                            ) {
                                Err(f) => Err(f),
                                Ok(q) => Ok(
                                    (
                                        q.0,
                                        if p.1 {
                                            seq![step_of(pre_store)] + q.1
                                        } else {
                                            q.1
                                        },
                                    ),
                                ),
                            }));
                            match run_events(reg@, store@, evs.skip(i + 1)) {
                                Ok(q) => {
                                    assert(history.deep_view() + q.1 =~= pre_hist_deep + (if p.1 {
                                        seq![step_of(pre_store)] + q.1
                                    } else {
                                        q.1
                                    }));
                                },
                                Err(_) => {},
                            }
                        },
                        Err(_) => {
                            assert(false);
                        },
                    }
                }
                i = i + 1;
            },
            Err(e) => {
                return Err(e);
            },
        }
    }
    proof {
        assert(evs.skip(evs.len() as int) =~= Seq::<EventModel>::empty());
        match run_events(reg@, store@, evs.skip(i as int)) {
            Ok(p) => {
                assert(history.deep_view() + p.1 =~= history.deep_view());
            },
            Err(_) => {
                assert(false);
            },
        }
    }
    Ok(history)
}

} // verus!
