//! The decoder's front door: parse a trace held in memory, resolve the
//! fixed catalog against its header, and stream its change log through the
//! change-stream processor.
//!
//! The `vcd` crate parses the trace behind the trusted items declared
//! here. The parse runs over the in-memory bytes alone, so everything it
//! yields is a function of those bytes; the trusted contracts name those
//! functions (`spec_parse_header`, `header_vars`, `trace_commands`), and
//! every decision taken on what comes back is verified against the names.

use vstd::prelude::*;
use vstd::string::StringExecFns;
use crate::errors::{DecodeError, HeaderFault, TraceFault};
use crate::logic::Logic;
use crate::registry::{
    Registry, SLOT_COUNT, TrackedSlot, VarInfo, VarModel, build_registry,
    lemma_registry_matches_unique, registry_matches, resolution_error_matches, slot_acceptable,
};
use crate::step::{StepModel, StepSignal};
use crate::stream::{
    CommandModel, EventModel, LiveStore, apply_event, events_of, fault_pos, init_slots,
    lemma_events_split, lemma_fault_cut, lemma_log_snoc, lemma_run_err_extends,
    lemma_steps_match_edges, process_event, rising_edges, run_events, step_of, VcdEvent,
};

verus! {

/// vcd::Header, the parsed namespace, carried opaquely between the header
/// parse and the per-path lookups.
#[verifier::external_type_specification]
#[verifier::external_body]
pub struct ExHeader(vcd::Header);

/// vcd::Parser, the trace reader, carried opaquely between pulls.
#[verifier::external_type_specification]
#[verifier::external_body]
#[verifier::reject_recursive_types(R)]
pub struct ExParser<R>(vcd::Parser<R>);

/// vcd::IdCode, a signal's compact identifier, read only through its text
/// form.
#[verifier::external_type_specification]
#[verifier::external_body]
pub struct ExIdCode(vcd::IdCode);

/// vcd::Value, one four-valued logic state of the trace format.
#[verifier::external_type_specification]
#[verifier::external_body]
pub struct ExValue(vcd::Value);

/// vcd::Vector, one multi-bit value of the trace format.
#[verifier::external_type_specification]
#[verifier::external_body]
pub struct ExVector(vcd::Vector);

/// Whether the header section of a trace parses: the parse reads the bytes
/// alone, so its outcome, and on failure its message, is a function of the
/// bytes.
pub uninterp spec fn spec_parse_header(bytes: Seq<u8>) -> Result<(), Seq<char>>;

/// What the header of a trace declares at a hierarchical path: the
/// identifier token and width of the variable there, or nothing. A
/// function of the trace bytes and the path alone.
pub uninterp spec fn header_vars(bytes: Seq<u8>, path: Seq<Seq<char>>) -> Option<VarModel>;

/// The change-log commands that follow a trace's header, in file order,
/// cut at the first parse fault (past which nothing is pulled). A function
/// of the trace bytes alone.
pub uninterp spec fn trace_commands(bytes: Seq<u8>) -> Seq<CommandModel>;

/// What one pull on the change log yields.
pub enum RawCommand {
    /// A scalar or vector value change.
    Change(VcdEvent),
    /// A command the decoder does not act on (a timestamp, a comment, a
    /// simulation directive).
    Skip,
    /// The log is exhausted.
    End,
    /// The log could not be parsed further; carries the parser's message.
    Fault(String),
}

/// How a pulled command realises one command of the log's model.
pub open spec fn command_matches(r: RawCommand, c: CommandModel) -> bool {
    match c {
        CommandModel::Change(ev) => r matches RawCommand::Change(e) && e@ == ev,
        CommandModel::Other => r is Skip,
        CommandModel::Fault(m) => r matches RawCommand::Fault(s) && s@ == m,
    }
}

/// The trace reader: the parser, with the source bytes and the reader's
/// position in the change log carried as ghost state. Only the trusted
/// items below construct or advance one, so the ghost state always
/// describes the parser's true position.
pub struct TraceReader<'a> {
    parser: vcd::Parser<&'a [u8]>,
    src_bytes: Ghost<Seq<u8>>,
    cursor: Ghost<nat>,
    fresh: Ghost<bool>,
    in_body: Ghost<bool>,
}

impl<'a> TraceReader<'a> {
    /// The bytes this reader reads.
    pub closed spec fn src(&self) -> Seq<u8> {
        self.src_bytes@
    }

    /// How many change-log commands have been pulled.
    pub closed spec fn pos(&self) -> nat {
        self.cursor@
    }

    /// No parse has been attempted yet.
    pub closed spec fn fresh(&self) -> bool {
        self.fresh@
    }

    /// The header has been parsed and the change log is being read.
    pub closed spec fn ready(&self) -> bool {
        self.in_body@
    }
}

/// A parsed header, with its source bytes carried as ghost state. Only
/// `parse_header` constructs one, so the lookups below truly concern the
/// bytes named here.
pub struct ParsedHeader {
    header: vcd::Header,
    src_bytes: Ghost<Seq<u8>>,
}

impl ParsedHeader {
    /// The bytes this header was parsed from.
    pub closed spec fn src(&self) -> Seq<u8> {
        self.src_bytes@
    }
}

/// Relies on vcd::Parser::new: a parser over an in-memory byte reader,
/// positioned at the start of those bytes.
#[verifier::external_body]
fn parser_new<'a>(bytes: &'a [u8]) -> vcd::Parser<&'a [u8]> {
    vcd::Parser::new(bytes)
}

/// A fresh reader over the given bytes.
fn open_trace<'a>(bytes: &'a [u8]) -> (r: TraceReader<'a>)
    ensures
        r.src() == bytes@,
        r.pos() == 0,
        r.fresh(),
        !r.ready(),
{
    TraceReader {
        parser: parser_new(bytes),
        src_bytes: Ghost(bytes@),
        cursor: Ghost(0nat),
        fresh: Ghost(true),
        in_body: Ghost(false),
    }
}

/// Relies on vcd::Parser::parse_header: whether the header section parses,
/// and on failure the parser's message, is the named function
/// `spec_parse_header` of the reader's bytes.
#[verifier::external_body]
fn parse_header_raw(t: &mut TraceReader) -> (r: Result<vcd::Header, String>)
    requires
        old(t).fresh(),
    ensures
        final(t).src() == old(t).src(),
        final(t).pos() == 0,
        !final(t).fresh(),
        final(t).ready() == (r is Ok),
        match r {
            Ok(_) => spec_parse_header(old(t).src()) is Ok,
            Err(msg) => spec_parse_header(old(t).src()) matches Err(m) && msg@ == m,
        },
{
    t.parser.parse_header().map_err(|e| e.to_string())
}

/// Parse the header section, pairing the parsed header with the bytes it
/// came from.
fn parse_trace_header(t: &mut TraceReader) -> (r: Result<ParsedHeader, String>)
    requires
        old(t).fresh(),
    ensures
        final(t).src() == old(t).src(),
        final(t).pos() == 0,
        !final(t).fresh(),
        final(t).ready() == (r is Ok),
        match r {
            Ok(h) => h.src() == old(t).src() && spec_parse_header(old(t).src()) is Ok,
            Err(msg) => spec_parse_header(old(t).src()) matches Err(m) && msg@ == m,
        },
{
    let ghost b = t.src();
    match parse_header_raw(t) {
        Ok(h) => Ok(ParsedHeader { header: h, src_bytes: Ghost(b) }),
        Err(msg) => Err(msg),
    }
}

/// Relies on vcd::IdCode's text form: the identifier token the file uses
/// for this code; distinct codes have distinct tokens.
#[verifier::external_body]
fn id_token(i: vcd::IdCode) -> Vec<u8> {
    i.to_string().into_bytes()
}

/// Relies on vcd::Value: carries each of the four logic states over to the
/// library's own, variant for variant.
#[verifier::external_body]
fn logic_of(v: vcd::Value) -> Logic {
    match v {
        vcd::Value::V0 => Logic::L0,
        vcd::Value::V1 => Logic::L1,
        vcd::Value::X => Logic::LX,
        vcd::Value::Z => Logic::LZ,
    }
}

/// Relies on vcd::Vector::iter: reads the vector's digits out in order,
/// most significant first.
#[verifier::external_body]
fn bits_of(v: &vcd::Vector) -> Vec<Logic> {
    v.iter().map(logic_of).collect()
}

/// Relies on vcd::Header::find_var: what the lookup of a path returns is
/// the named function `header_vars` of the header's source bytes and the
/// path; the token is the code's text form, the width the declared size.
#[verifier::external_body]
fn find_var(h: &ParsedHeader, path: &Vec<String>) -> (r: Option<VarInfo>)
    ensures
        r.deep_view() == header_vars(h.src(), path.deep_view()),
{
    let parts: Vec<&str> = path.iter().map(|s| s.as_str()).collect();
    h.header.find_var(&parts).map(
        |v| VarInfo { token: v.code.to_string().into_bytes(), width: v.size },
    )
}

/// Relies on vcd::Parser's `Iterator`: the change-log commands of the same
/// bytes are the named sequence `trace_commands`; each pull yields the
/// next one in order, and a faultless log is followed by its end.
#[verifier::external_body]
fn next_command(t: &mut TraceReader) -> (r: RawCommand)
    requires
        old(t).ready(),
    ensures
        final(t).src() == old(t).src(),
        final(t).ready(),
        !final(t).fresh(),
        ({
            let cs = trace_commands(old(t).src());
            if old(t).pos() < cs.len() {
                &&& final(t).pos() == old(t).pos() + 1
                &&& command_matches(r, cs[old(t).pos() as int])
            } else {
                &&& final(t).pos() == old(t).pos()
                &&& (fault_pos(cs) is None ==> r is End)
            }
        }),
{
    match t.parser.next() {
        None => RawCommand::End,
        Some(Err(e)) => RawCommand::Fault(e.to_string()),
        Some(Ok(vcd::Command::ChangeScalar(i, v))) => RawCommand::Change(
            VcdEvent::ScalarChange { token: id_token(i), value: logic_of(v) },
        ),
        Some(Ok(vcd::Command::ChangeVector(i, v))) => RawCommand::Change(
            VcdEvent::VectorChange { token: id_token(i), bits: bits_of(&v) },
        ),
        Some(Ok(_)) => RawCommand::Skip,
    }
}

pub open spec fn digit_char(d: nat) -> char {
    if d == 0 {
        '0'
    } else if d == 1 {
        '1'
    } else if d == 2 {
        '2'
    } else if d == 3 {
        '3'
    } else if d == 4 {
        '4'
    } else if d == 5 {
        '5'
    } else if d == 6 {
        '6'
    } else if d == 7 {
        '7'
    } else if d == 8 {
        '8'
    } else {
        '9'
    }
}

/// The decimal digits of `n`, most significant first, no leading zero.
pub open spec fn dec_digits(n: nat) -> Seq<char>
    decreases n,
{
    if n < 10 {
        seq![digit_char(n)]
    } else {
        dec_digits(n / 10).push(digit_char(n % 10))
    }
}

fn digit_str(d: u64) -> (r: &'static str)
    requires
        d < 10,
    ensures
        r@ == seq![digit_char(d as nat)],
{
    proof {
        reveal_strlit("0");
        reveal_strlit("1");
        reveal_strlit("2");
        reveal_strlit("3");
        reveal_strlit("4");
        reveal_strlit("5");
        reveal_strlit("6");
        reveal_strlit("7");
        reveal_strlit("8");
        reveal_strlit("9");
        assert("0"@ =~= seq!['0']);
        assert("1"@ =~= seq!['1']);
        assert("2"@ =~= seq!['2']);
        assert("3"@ =~= seq!['3']);
        assert("4"@ =~= seq!['4']);
        assert("5"@ =~= seq!['5']);
        assert("6"@ =~= seq!['6']);
        assert("7"@ =~= seq!['7']);
        assert("8"@ =~= seq!['8']);
        assert("9"@ =~= seq!['9']);
    }
    match d {
        0 => "0",
        1 => "1",
        2 => "2",
        3 => "3",
        4 => "4",
        5 => "5",
        6 => "6",
        7 => "7",
        8 => "8",
        _ => "9",
    }
}

fn push_digits(s: &mut String, n: u64)
    ensures
        final(s)@ == old(s)@ + dec_digits(n as nat),
    decreases n,
{
    if n < 10 {
        s.append(digit_str(n));
    } else {
        push_digits(s, n / 10);
        s.append(digit_str(n % 10));
        proof {
            assert(old(s)@ + dec_digits((n / 10) as nat) + seq![digit_char((n % 10) as nat)]
                =~= old(s)@ + dec_digits(n as nat));
        }
    }
}

/// The scope or variable name `base[i]`.
pub open spec fn indexed_name(base: Seq<char>, i: int) -> Seq<char> {
    base + seq!['['] + dec_digits(i as nat) + seq![']']
}

/// The scope name `base[i][j]`.
pub open spec fn indexed2_name(base: Seq<char>, i: int, j: int) -> Seq<char> {
    indexed_name(base, i) + seq!['['] + dec_digits(j as nat) + seq![']']
}

fn name_indexed(base: &str, i: u64) -> (r: String)
    ensures
        r@ == indexed_name(base@, i as int),
{
    proof {
        reveal_strlit("[");
        reveal_strlit("]");
        assert("["@ =~= seq!['[']);
        assert("]"@ =~= seq![']']);
    }
    let mut s = base.to_owned();
    s.append("[");
    push_digits(&mut s, i);
    s.append("]");
    proof {
        assert(s@ =~= indexed_name(base@, i as int));
    }
    s
}

fn name_indexed2(base: &str, i: u64, j: u64) -> (r: String)
    ensures
        r@ == indexed2_name(base@, i as int, j as int),
{
    proof {
        reveal_strlit("[");
        reveal_strlit("]");
        assert("["@ =~= seq!['[']);
        assert("]"@ =~= seq![']']);
    }
    let mut s = name_indexed(base, i);
    s.append("[");
    push_digits(&mut s, j);
    s.append("]");
    proof {
        assert(s@ =~= indexed2_name(base@, i as int, j as int));
    }
    s
}

/// The reorder-buffer field names, in slot order.
pub open spec fn rob_field_name(f: int) -> Seq<char> {
    if f == 0 {
        "entry_valid"@
    } else if f == 1 {
        "phys_rd"@
    } else if f == 2 {
        "arch_rd"@
    } else {
        "commit_ready"@
    }
}

/// The issue-queue field names, in slot order.
pub open spec fn isq_field_name(f: int) -> Seq<char> {
    if f == 0 {
        "entry_valid"@
    } else if f == 1 {
        "alu_cmd"@
    } else if f == 2 {
        "op1_valid"@
    } else if f == 3 {
        "op1_data"@
    } else if f == 4 {
        "op2_valid"@
    } else if f == 5 {
        "op2_type"@
    } else if f == 6 {
        "op2_data"@
    } else if f == 7 {
        "phys_rd"@
    } else if f == 8 {
        "bank_addr"@
    } else {
        "rob_addr"@
    }
}

/// The hierarchical path of each catalog slot, the shape the required
/// header must expose: a top-level `clk`, and under `core` the register
/// arrays, the reorder-buffer entry scopes and the issue-queue entry
/// scopes.
pub open spec fn spec_slot_path(slot: int) -> Seq<Seq<char>> {
    if slot == 0 {
        seq!["TOP"@, "clk"@]
    } else if slot < 33 {
        seq!["TOP"@, "core"@, "commit_map_table"@, indexed_name("regfile"@, slot - 1)]
    } else if slot < 65 {
        seq!["TOP"@, "core"@, "rename_map_table"@, indexed_name("regfile"@, slot - 33)]
    } else if slot < 129 {
        seq!["TOP"@, "core"@, "phys_regfile"@, indexed_name("regfile"@, slot - 65)]
    } else if slot < 257 {
        let idx = slot - 129;
        seq![
            "TOP"@,
            "core"@,
            "rob"@,
            indexed2_name("rob_entry"@, idx / 8, (idx / 4) % 2),
            rob_field_name(idx % 4),
        ]
    } else {
        let idx = slot - 257;
        seq![
            "TOP"@,
            "core"@,
            "issue_queue"@,
            indexed_name("issue_queue"@, idx / 10),
            isq_field_name(idx % 10),
        ]
    }
}

fn rob_field_str(f: usize) -> (r: &'static str)
    requires
        f < 4,
    ensures
        r@ == rob_field_name(f as int),
{
    match f {
        0 => "entry_valid",
        1 => "phys_rd",
        2 => "arch_rd",
        _ => "commit_ready",
    }
}

fn isq_field_str(f: usize) -> (r: &'static str)
    requires
        f < 10,
    ensures
        r@ == isq_field_name(f as int),
{
    match f {
        0 => "entry_valid",
        1 => "alu_cmd",
        2 => "op1_valid",
        3 => "op1_data",
        4 => "op2_valid",
        5 => "op2_type",
        6 => "op2_data",
        7 => "phys_rd",
        8 => "bank_addr",
        _ => "rob_addr",
    }
}

/// The executable image of `spec_slot_path`.
pub fn slot_path(slot: usize) -> (r: Vec<String>)
    requires
        slot < SLOT_COUNT,
    ensures
        r.deep_view() == spec_slot_path(slot as int),
{
    let mut p: Vec<String> = Vec::new();
    p.push("TOP".to_owned());
    if slot == 0 {
        p.push("clk".to_owned());
    } else {
        p.push("core".to_owned());
        if slot < 33 {
            p.push("commit_map_table".to_owned());
            p.push(name_indexed("regfile", (slot - 1) as u64));
        } else if slot < 65 {
            p.push("rename_map_table".to_owned());
            p.push(name_indexed("regfile", (slot - 33) as u64));
        } else if slot < 129 {
            p.push("phys_regfile".to_owned());
            p.push(name_indexed("regfile", (slot - 65) as u64));
        } else if slot < 257 {
            let idx = slot - 129;
            p.push("rob".to_owned());
            p.push(name_indexed2("rob_entry", (idx / 8) as u64, ((idx / 4) % 2) as u64));
            p.push(rob_field_str(idx % 4).to_owned());
        } else {
            let idx = slot - 257;
            p.push("issue_queue".to_owned());
            p.push(name_indexed("issue_queue", (idx / 10) as u64));
            p.push(isq_field_str(idx % 10).to_owned());
        }
    }
    proof {
        assert(p.deep_view() =~= spec_slot_path(slot as int));
    }
    p
}

/// What the header of a trace proposes for every catalog slot: the named
/// lookup result of each slot's path, in catalog order.
pub open spec fn spec_catalog_bindings(bytes: Seq<u8>) -> Seq<Option<VarModel>> {
    Seq::new(SLOT_COUNT as nat, |i: int| header_vars(bytes, spec_slot_path(i)))
}

/// Whether a trace's header resolves the whole catalog: every slot bound,
/// none wider than 32 bits, every identifier keyable.
pub open spec fn catalog_resolves(bytes: Seq<u8>) -> bool {
    forall|i: int| 0 <= i < SLOT_COUNT ==> slot_acceptable(spec_catalog_bindings(bytes), i)
}

/// Resolve the fixed catalog against a parsed header: one lookup per
/// catalog slot, in catalog order, then registry construction. The
/// registry matches the header's proposed bindings exactly; no partial
/// registry is ever returned, and the error pins down the first slot the
/// header cannot serve.
pub fn resolve_registry(h: &ParsedHeader) -> (r: Result<Registry, DecodeError>)
    ensures
        match r {
            Ok(reg) => {
                &&& reg.wf()
                &&& registry_matches(reg@, spec_catalog_bindings(h.src()))
                &&& catalog_resolves(h.src())
            },
            Err(e) => {
                &&& resolution_error_matches(e, spec_catalog_bindings(h.src()))
                &&& !catalog_resolves(h.src())
            },
        },
{
    let ghost bs = spec_catalog_bindings(h.src());
    let mut bindings: Vec<Option<VarInfo>> = Vec::new();
    let mut slot: usize = 0;
    while slot < SLOT_COUNT
        invariant
            0 <= slot <= SLOT_COUNT,
            bindings@.len() == slot,
            bs == spec_catalog_bindings(h.src()),
            forall|j: int| 0 <= j < slot ==> bindings.deep_view()[j] == bs[j],
        decreases SLOT_COUNT - slot,
    {
        let path = slot_path(slot);
        let vi = find_var(h, &path);
        let ghost prev = bindings@;
        let ghost prev_deep = bindings.deep_view();
        bindings.push(vi);
        proof {
            assert forall|j: int| 0 <= j < slot + 1 implies bindings.deep_view()[j] == bs[j] by {
                if j < slot {
                    assert(bindings@[j] == prev[j]);
                    assert(bindings.deep_view()[j] == prev[j].deep_view());
                    assert(prev_deep[j] == prev[j].deep_view());
                } else {
                    assert(bindings@[j] == vi);
                }
            }
        }
        slot = slot + 1;
    }
    proof {
        assert(bindings.deep_view() =~= bs);
    }
    let r = build_registry(&bindings);
    proof {
        match &r {
            Ok(_) => {},
            Err(e) => {
                match e {
                    DecodeError::MissingSignal(s) => {
                        assert(!slot_acceptable(bs, *s as int));
                    },
                    DecodeError::HeaderMalformed(HeaderFault::WidthTooWide { slot, width }) => {
                        assert(!slot_acceptable(bs, *slot as int));
                    },
                    DecodeError::HeaderMalformed(HeaderFault::OversizedIdentifier { slot }) => {
                        assert(!slot_acceptable(bs, *slot as int));
                    },
                    _ => {
                        assert(false);
                    },
                }
            },
        }
    }
    r
}

pub proof fn lemma_run_snoc(
    m: Map<u128, TrackedSlot>,
    s0: Seq<Seq<Logic>>,
    evs: Seq<EventModel>,
    e: EventModel,
)
    ensures
        run_events(m, s0, evs.push(e)) == (match run_events(m, s0, evs) {
            Err(f) => Err::<(Seq<Seq<Logic>>, Seq<StepModel>), TraceFault>(f),
            Ok(p) => match apply_event(m, p.0, e) {
                Err(f) => Err(f),
                Ok(q) => Ok(
                    (
                        q.0,
                        p.1 + (if q.1 {
                            seq![step_of(p.0)]
                        } else {
                            Seq::<StepModel>::empty()
                        }),
                    ),
                ),
            },
        }),
    decreases evs.len(),
{
    let whole = evs.push(e);
    if evs.len() == 0 {
        assert(whole.first() == e);
        assert(whole.drop_first() =~= Seq::<EventModel>::empty());
        match apply_event(m, s0, e) {
            Err(_) => {},
            Ok(q) => {
                assert(run_events(m, q.0, whole.drop_first()) == Ok::<
                    (Seq<Seq<Logic>>, Seq<StepModel>),
                    TraceFault,
                >((q.0, Seq::<StepModel>::empty())));
                if q.1 {
                    assert(seq![step_of(s0)] + Seq::<StepModel>::empty() =~= Seq::<StepModel>::empty()
                        + seq![step_of(s0)]);
                } else {
                    assert(Seq::<StepModel>::empty() + Seq::<StepModel>::empty()
                        =~= Seq::<StepModel>::empty());
                }
            },
        }
    } else {
        assert(whole.first() == evs.first());
        assert(whole.drop_first() =~= evs.drop_first().push(e));
        match apply_event(m, s0, evs.first()) {
            Err(_) => {},
            Ok(p1) => {
                lemma_run_snoc(m, p1.0, evs.drop_first(), e);
                match run_events(m, p1.0, evs.drop_first()) {
                    Err(_) => {},
                    Ok(p) => {
                        match apply_event(m, p.0, e) {
                            Err(_) => {},
                            Ok(q) => {
                                let emitted = if p1.1 {
                                    seq![step_of(s0)]
                                } else {
                                    Seq::<StepModel>::empty()
                                };
                                let tail = if q.1 {
                                    seq![step_of(p.0)]
                                } else {
                                    Seq::<StepModel>::empty()
                                };
                                assert(emitted + (p.1 + tail) =~= (emitted + p.1) + tail);
                            },
                        }
                    },
                }
            },
        }
    }
}

/// What a successful decode of a trace returns: the header parses, the
/// whole catalog resolves, the change log is faultless, and the history is
/// the replay of the log's change events under the registry the header's
/// bindings determine.
pub open spec fn decode_ok(bytes: Seq<u8>, h: Seq<StepModel>) -> bool {
    &&& spec_parse_header(bytes) is Ok
    &&& catalog_resolves(bytes)
    &&& fault_pos(trace_commands(bytes)) is None
    &&& exists|m: Map<u128, TrackedSlot>|
        {
            &&& #[trigger] registry_matches(m, spec_catalog_bindings(bytes))
            &&& run_events(m, init_slots(), events_of(trace_commands(bytes))) matches Ok(p) && p.1
                == h
        }
}

/// Which error a failing decode of a trace returns: an unparsable header
/// with the parser's message; the first catalog slot the header cannot
/// serve; the first fault of the replay; or the change log's first parse
/// fault, reached only after the events before it replayed cleanly.
pub open spec fn decode_err(bytes: Seq<u8>, e: DecodeError) -> bool {
    match spec_parse_header(bytes) {
        Err(msg) => e matches DecodeError::HeaderMalformed(HeaderFault::Unparsable(s)) && s@
            == msg,
        Ok(_) => {
            if !catalog_resolves(bytes) {
                resolution_error_matches(e, spec_catalog_bindings(bytes))
            } else {
                exists|m: Map<u128, TrackedSlot>|
                    {
                        &&& #[trigger] registry_matches(m, spec_catalog_bindings(bytes))
                        &&& match run_events(
                            m,
                            init_slots(),
                            events_of(trace_commands(bytes)),
                        ) {
                            Err(f) => e == DecodeError::TraceCorrupt(f),
                            Ok(_) => {
                                let cs = trace_commands(bytes);
                                &&& fault_pos(cs) is Some
                                &&& cs[fault_pos(cs)->Some_0 as int] matches CommandModel::Fault(
                                    fm,
                                ) && (e matches DecodeError::TraceCorrupt(TraceFault::Malformed(s))
                                    && s@ == fm)
                            },
                        }
                    }
            }
        },
    }
}

/// Decode a whole trace held in memory: parse the header, resolve the
/// catalog, stream the change log once in order, and return the step
/// history, one snapshot per rising clock edge. The result is pinned to
/// the bytes: the history is the replay of the bytes' own change log under
/// the registry their header determines, and each error arises exactly
/// when its cause is in the bytes.
pub fn read_clocked_vcd(bytes: &[u8]) -> (r: Result<Vec<StepSignal>, DecodeError>)
    ensures
        match r {
            Ok(h) => decode_ok(bytes@, h.deep_view()),
            Err(e) => decode_err(bytes@, e),
        },
{
    let mut t = open_trace(bytes);
    let header = match parse_trace_header(&mut t) {
        Err(msg) => {
            return Err(DecodeError::HeaderMalformed(HeaderFault::Unparsable(msg)));
        },
        Ok(h) => h,
    };
    let reg = match resolve_registry(&header) {
        Err(e) => {
            return Err(e);
        },
        Ok(r) => r,
    };
    let ghost bs = spec_catalog_bindings(bytes@);
    let ghost cs = trace_commands(bytes@);
    let mut store = LiveStore::new();
    let mut history: Vec<StepSignal> = Vec::new();
    proof {
        assert(history.deep_view() =~= Seq::<StepModel>::empty());
        assert(cs.take(0) =~= Seq::<CommandModel>::empty());
        assert(events_of(Seq::<CommandModel>::empty()) == Seq::<EventModel>::empty());
        assert(fault_pos(Seq::<CommandModel>::empty()) is None);
    }
    loop
        invariant
            reg.wf(),
            store.wf(),
            bs == spec_catalog_bindings(bytes@),
            cs == trace_commands(bytes@),
            registry_matches(reg@, bs),
            catalog_resolves(bytes@),
            spec_parse_header(bytes@) is Ok,
            t.ready(),
            t.src() == bytes@,
            t.pos() <= cs.len(),
            fault_pos(cs.take(t.pos() as int)) is None,
            run_events(reg@, init_slots(), events_of(cs.take(t.pos() as int))) == Ok::<
                (Seq<Seq<Logic>>, Seq<StepModel>),
                TraceFault,
            >((store@, history.deep_view())),
        decreases cs.len() - t.pos(),
    {
        let ghost pos = t.pos();
        let ghost pre_events = events_of(cs.take(pos as int));
        let cmd = next_command(&mut t);
        proof {
            if pos >= cs.len() {
                assert(cs.take(pos as int) =~= cs);
            }
        }
        match cmd {
            RawCommand::End => {
                proof {
                    if pos < cs.len() {
                        assert(command_matches(RawCommand::End, cs[pos as int]));
                        assert(false);
                    }
                    assert(registry_matches(reg@, spec_catalog_bindings(bytes@)));
                    assert(run_events(reg@, init_slots(), events_of(trace_commands(bytes@)))
                        matches Ok(p) && p.1 == history.deep_view());
                }
                return Ok(history);
            },
            RawCommand::Fault(msg) => {
                proof {
                    assert(pos < cs.len());
                    lemma_fault_cut(cs, pos as int);
                    assert(registry_matches(reg@, spec_catalog_bindings(bytes@)));
                }
                return Err(DecodeError::TraceCorrupt(TraceFault::Malformed(msg)));
            },
            RawCommand::Skip => {
                proof {
                    assert(pos < cs.len());
                    assert(cs.take(pos as int + 1) =~= cs.take(pos as int).push(cs[pos as int]));
                    lemma_log_snoc(cs.take(pos as int), cs[pos as int]);
                }
            },
            RawCommand::Change(ev) => {
                proof {
                    assert(pos < cs.len());
                    assert(cs.take(pos as int + 1) =~= cs.take(pos as int).push(cs[pos as int]));
                    lemma_log_snoc(cs.take(pos as int), cs[pos as int]);
                    assert(pre_events + seq![ev@] =~= pre_events.push(ev@));
                }
                match process_event(&reg, &mut store, &mut history, &ev) {
                    Ok(()) => {
                        proof {
                            lemma_run_snoc(reg@, init_slots(), pre_events, ev@);
                        }
                    },
                    Err(e) => {
                        proof {
                            lemma_run_snoc(reg@, init_slots(), pre_events, ev@);
                            lemma_events_split(cs, pos as int + 1);
                            match run_events(
                                reg@,
                                init_slots(),
                                events_of(cs.take(pos as int + 1)),
                            ) {
                                Err(f) => {
                                    lemma_run_err_extends(
                                        reg@,
                                        init_slots(),
                                        events_of(cs.take(pos as int + 1)),
                                        events_of(cs.skip(pos as int + 1)),
                                    );
                                },
                                Ok(_) => {
                                    assert(false);
                                },
                            }
                            assert(registry_matches(reg@, spec_catalog_bindings(bytes@)));
                        }
                        return Err(e);
                    },
                }
            },
        }
    }
}

/// Law: the decoded step history is a function of the trace bytes alone:
/// two successful decodes of the same bytes yield the same history.
pub proof fn lemma_decode_deterministic(bytes: Seq<u8>, h1: Seq<StepModel>, h2: Seq<StepModel>)
    requires
        decode_ok(bytes, h1),
        decode_ok(bytes, h2),
    ensures
        h1 == h2,
{
    let bs = spec_catalog_bindings(bytes);
    let evs = events_of(trace_commands(bytes));
    let m1 = choose|m: Map<u128, TrackedSlot>|
        #[trigger] registry_matches(m, bs) && (run_events(m, init_slots(), evs) matches Ok(p)
            && p.1 == h1);
    let m2 = choose|m: Map<u128, TrackedSlot>|
        #[trigger] registry_matches(m, bs) && (run_events(m, init_slots(), evs) matches Ok(p)
            && p.1 == h2);
    lemma_registry_matches_unique(m1, m2, bs);
}

/// Law: one step per rising edge, stated against the trace bytes: a
/// successful decode's history is exactly as long as the rising-edge count
/// of the bytes' change log under the registry their header determines.
pub proof fn lemma_steps_match_edges_of_trace(
    bytes: Seq<u8>,
    h: Seq<StepModel>,
    m: Map<u128, TrackedSlot>,
)
    requires
        decode_ok(bytes, h),
        registry_matches(m, spec_catalog_bindings(bytes)),
    ensures
        h.len() == rising_edges(m, init_slots(), events_of(trace_commands(bytes))),
{
    let bs = spec_catalog_bindings(bytes);
    let evs = events_of(trace_commands(bytes));
    let m1 = choose|mm: Map<u128, TrackedSlot>|
        #[trigger] registry_matches(mm, bs) && (run_events(mm, init_slots(), evs) matches Ok(p)
            && p.1 == h);
    lemma_registry_matches_unique(m, m1, bs);
    lemma_steps_match_edges(m, init_slots(), evs);
}

/// Law: a trace whose change log holds no rising edge of the clock decodes
/// to the empty step history, not to an error on that account.
pub proof fn lemma_no_edges_empty_trace(
    bytes: Seq<u8>,
    h: Seq<StepModel>,
    m: Map<u128, TrackedSlot>,
)
    requires
        decode_ok(bytes, h),
        registry_matches(m, spec_catalog_bindings(bytes)),
        rising_edges(m, init_slots(), events_of(trace_commands(bytes))) == 0,
    ensures
        h == Seq::<StepModel>::empty(),
{
    lemma_steps_match_edges_of_trace(bytes, h, m);
    assert(h =~= Seq::<StepModel>::empty());
}

/// Law: a trace whose header parses but does not declare the clock at its
/// required top-level path fails with `MissingSignal` for the clock's
/// catalog slot — the first slot — and no step history is produced.
pub proof fn lemma_missing_clock(bytes: Seq<u8>, e: DecodeError)
    requires
        spec_parse_header(bytes) is Ok,
        header_vars(bytes, spec_slot_path(0)) is None,
        decode_err(bytes, e),
    ensures
        e == DecodeError::MissingSignal(0usize),
{
    let bs = spec_catalog_bindings(bytes);
    assert(bs[0] == header_vars(bytes, spec_slot_path(0)));
    assert(!slot_acceptable(bs, 0));
    assert(!catalog_resolves(bytes));
    match e {
        DecodeError::MissingSignal(s) => {
            if s > 0 {
                assert(slot_acceptable(bs, 0));
            }
        },
        DecodeError::HeaderMalformed(HeaderFault::WidthTooWide { slot, width }) => {
            if slot > 0 {
                assert(slot_acceptable(bs, 0));
            } else {
                assert(bs[0] is Some);
            }
            assert(false);
        },
        DecodeError::HeaderMalformed(HeaderFault::OversizedIdentifier { slot }) => {
            if slot > 0 {
                assert(slot_acceptable(bs, 0));
            } else {
                assert(bs[0] is Some);
            }
            assert(false);
        },
        _ => {
            assert(false);
        },
    }
}

} // verus!
