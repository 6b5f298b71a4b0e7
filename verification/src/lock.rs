//! The instrumented reader-writer lock model. The lock protects one value,
//! carries a human-readable identity and a per-lock acquisition sequencer,
//! and records, for every acquisition and release, a trace line built from
//! the identity, the operation's sequence number and a filtered call-stack
//! snapshot. Any number of read guards share the protected value in place;
//! a write guard checks it out and returns it on release, and can be
//! narrowed to a sub-part of the value through `try_map` without the
//! underlying exclusive hold being released or re-acquired.

use vstd::pervasive::unreached;
use vstd::prelude::*;
use vstd::string::StringExecFns;

use crate::filter::filter_frames;
use crate::filter::filtered_frames;
use crate::frame::Frame;
use crate::frame::FrameModel;
use crate::frame::frame_models;
use crate::lens::FieldLens;
use crate::render::dec_seq;
use crate::render::format_trace;
use crate::render::rendered_trace;
use crate::render::u64_to_dec;
use crate::sequence::Sequencer;

verus! {

/// Whether an operation holds shared or exclusive access.
#[derive(Clone, Copy)]
pub enum AccessMode {
    Read,
    Write,
}

/// The three moments of one operation that leave a trace.
#[derive(Clone, Copy)]
pub enum TraceKind {
    Requested,
    Acquired,
    Released,
}

/// One recorded diagnostic event: which moment, of which operation kind, for
/// which sequence number.
pub struct TraceEvent {
    pub kind: TraceKind,
    pub mode: AccessMode,
    pub seq: u64,
}

/// Whether the lock is free, shared among some number of read guards, or
/// held exclusively, and under which sequence numbers. Any number of read
/// holds may be alive at once; `seqs` records their sequence numbers.
pub enum LockState {
    Open,
    ReadHeld { count: u64, seqs: Ghost<Set<u64>> },
    WriteHeld { seq: u64 },
}

/// How often an event of this kind and sequence number occurs in a history.
pub open spec fn event_count(es: Seq<TraceEvent>, kind: TraceKind, seq: u64) -> nat
    decreases es.len(),
{
    if es.len() == 0 {
        0
    } else {
        event_count(es.drop_last(), kind, seq) + (if es.last().kind == kind && es.last().seq
            == seq {
            1nat
        } else {
            0nat
        })
    }
}

/// The history holds an event equal to the given one.
pub open spec fn has_event(es: Seq<TraceEvent>, kind: TraceKind, mode: AccessMode, seq: u64) -> bool {
    exists|j: int|
        0 <= j < es.len() && es[j] == (TraceEvent { kind, mode, seq })
}

proof fn lemma_event_count_push(es: Seq<TraceEvent>, e: TraceEvent, kind: TraceKind, seq: u64)
    ensures
        event_count(es.push(e), kind, seq) == event_count(es, kind, seq) + (if e.kind == kind
            && e.seq == seq {
            1nat
        } else {
            0nat
        }),
{
    assert(es.push(e).drop_last() =~= es);
    assert(es.push(e).last() == e);
}

proof fn lemma_has_event_push(
    es: Seq<TraceEvent>,
    e: TraceEvent,
    kind: TraceKind,
    mode: AccessMode,
    seq: u64,
)
    requires
        has_event(es, kind, mode, seq),
    ensures
        has_event(es.push(e), kind, mode, seq),
{
    let j = choose|j: int| 0 <= j < es.len() && es[j] == (TraceEvent { kind, mode, seq });
    assert(es.push(e)[j] == es[j]);
}

proof fn lemma_event_count_at_least_one(es: Seq<TraceEvent>, kind: TraceKind, seq: u64, i: int)
    requires
        0 <= i < es.len(),
        es[i].kind == kind,
        es[i].seq == seq,
    ensures
        event_count(es, kind, seq) >= 1,
    decreases es.len(),
{
    if i < es.len() - 1 {
        assert(es.drop_last()[i] == es[i]);
        lemma_event_count_at_least_one(es.drop_last(), kind, seq, i);
    }
}

proof fn lemma_event_count_at_least_two(
    es: Seq<TraceEvent>,
    kind: TraceKind,
    seq: u64,
    i: int,
    j: int,
)
    requires
        0 <= i < j < es.len(),
        es[i].kind == kind && es[i].seq == seq,
        es[j].kind == kind && es[j].seq == seq,
    ensures
        event_count(es, kind, seq) >= 2,
    decreases es.len(),
{
    if j == es.len() - 1 {
        lemma_event_count_at_least_one(es.drop_last(), kind, seq, i);
    } else {
        assert(es.drop_last()[i] == es[i]);
        assert(es.drop_last()[j] == es[j]);
        lemma_event_count_at_least_two(es.drop_last(), kind, seq, i, j);
    }
}

proof fn lemma_event_count_zero_above(es: Seq<TraceEvent>, kind: TraceKind, seq: u64, bound: u64)
    requires
        forall|i: int| 0 <= i < es.len() ==> (#[trigger] es[i]).seq <= bound,
        seq > bound,
    ensures
        event_count(es, kind, seq) == 0,
    decreases es.len(),
{
    if es.len() > 0 {
        assert(forall|i: int|
            0 <= i < es.drop_last().len() ==> (#[trigger] es.drop_last()[i]).seq <= bound);
        lemma_event_count_zero_above(es.drop_last(), kind, seq, bound);
    }
}

/// The marker that names the instrumentation's own source in a frame path;
/// the filter skips the leading frames that carry it.
pub open spec fn own_source_marker() -> Seq<char> {
    "tracelock"@
}

fn own_marker_str() -> (r: &'static str)
    ensures
        r@ == own_source_marker(),
{
    "tracelock"
}

/// The tag naming the operation kind in a trace message.
pub open spec fn mode_tag(m: AccessMode) -> Seq<char> {
    match m {
        AccessMode::Read => "[READ]"@,
        AccessMode::Write => "[WRITE]"@,
    }
}

/// The word naming the traced moment in a trace message.
pub open spec fn kind_word(k: TraceKind) -> Seq<char> {
    match k {
        TraceKind::Requested => "Acquire"@,
        TraceKind::Acquired => "Got"@,
        TraceKind::Released => "Release"@,
    }
}

/// One trace message: the operation tag, the moment, and the lock identity
/// with the sequence number.
pub open spec fn trace_message(m: AccessMode, k: TraceKind, name: Seq<char>, seq: u64) -> Seq<
    char,
> {
    mode_tag(m) + " "@ + kind_word(k) + " ("@ + name + ":"@ + dec_seq(seq as int) + ")"@
}

/// One full trace block: the message, then the filtered frames, rendered.
pub open spec fn trace_block(
    m: AccessMode,
    k: TraceKind,
    name: Seq<char>,
    seq: u64,
    frames: Seq<FrameModel>,
) -> Seq<char> {
    rendered_trace(trace_message(m, k, name, seq), filtered_frames(frames, own_source_marker()))
}

fn mode_tag_str(m: AccessMode) -> (r: &'static str)
    ensures
        r@ == mode_tag(m),
{
    match m {
        AccessMode::Read => "[READ]",
        AccessMode::Write => "[WRITE]",
    }
}

fn kind_word_str(k: TraceKind) -> (r: &'static str)
    ensures
        r@ == kind_word(k),
{
    match k {
        TraceKind::Requested => "Acquire",
        TraceKind::Acquired => "Got",
        TraceKind::Released => "Release",
    }
}

/// Builds one trace message from the operation kind, the traced moment, the
/// lock identity and the sequence number.
pub fn build_message(m: AccessMode, k: TraceKind, name: &str, seq: u64) -> (r: String)
    ensures
        r@ == trace_message(m, k, name@, seq),
{
    let mut r = String::from_str(mode_tag_str(m));
    r.append(" ");
    r.append(kind_word_str(k));
    r.append(" (");
    r.append(name);
    r.append(":");
    let digits = u64_to_dec(seq);
    r.append(digits.as_str());
    r.append(")");
    proof {
        assert(r@ =~= trace_message(m, k, name@, seq));
    }
    r
}

/// Filters the frames, renders one trace block and appends it to the trace.
fn push_trace_line(
    trace: &mut Vec<String>,
    m: AccessMode,
    k: TraceKind,
    name: &str,
    seq: u64,
    frames: &Vec<Frame>,
)
    ensures
        final(trace)@.len() == old(trace)@.len() + 1,
        forall|i: int| 0 <= i < old(trace)@.len() ==> final(trace)@[i] == old(trace)@[i],
        final(trace)@.last()@ == trace_block(m, k, name@, seq, frame_models(frames@)),
{
    let filtered = filter_frames(frames, own_marker_str());
    let message = build_message(m, k, name, seq);
    let line = format_trace(message.as_str(), &filtered);
    trace.push(line);
}

/// Every recorded event carries a sequence number that has been issued.
pub open spec fn seqs_bounded(es: Seq<TraceEvent>, count: u64) -> bool {
    forall|i: int| 0 <= i < es.len() ==> 1 <= (#[trigger] es[i]).seq <= count
}

/// "Released" occurs at most once per sequence number.
#[verifier::opaque]
pub open spec fn released_unique(es: Seq<TraceEvent>) -> bool {
    forall|s: u64| event_count(es, TraceKind::Released, s) <= 1
}

/// The kind of the event at one position.
pub open spec fn kind_at(es: Seq<TraceEvent>, i: int) -> TraceKind {
    es[i].kind
}

/// Before position `i` stands the "Requested" event of the operation traced
/// at `i`.
pub open spec fn requested_before(es: Seq<TraceEvent>, i: int) -> bool {
    exists|j: int|
        0 <= j < i && es[j] == (TraceEvent {
            kind: TraceKind::Requested,
            mode: es[i].mode,
            seq: es[i].seq,
        })
}

/// Before position `i` stands the "Acquired" event of the operation traced
/// at `i`.
pub open spec fn acquired_before(es: Seq<TraceEvent>, i: int) -> bool {
    exists|j: int|
        0 <= j < i && es[j] == (TraceEvent {
            kind: TraceKind::Acquired,
            mode: es[i].mode,
            seq: es[i].seq,
        })
}

/// Each "Acquired" event follows its own operation's "Requested" event, and
/// each "Released" event its own "Acquired" event.
#[verifier::opaque]
pub open spec fn events_ordered(es: Seq<TraceEvent>) -> bool {
    &&& forall|i: int|
        0 <= i < es.len() && #[trigger] kind_at(es, i) == TraceKind::Acquired
            ==> requested_before(es, i)
    &&& forall|i: int|
        0 <= i < es.len() && #[trigger] kind_at(es, i) == TraceKind::Released
            ==> acquired_before(es, i)
}

proof fn lemma_empty_events_wf()
    ensures
        seqs_bounded(Seq::<TraceEvent>::empty(), 0),
        released_unique(Seq::<TraceEvent>::empty()),
        events_ordered(Seq::<TraceEvent>::empty()),
{
    reveal(released_unique);
    reveal(events_ordered);
    assert forall|s: u64| event_count(Seq::<TraceEvent>::empty(), TraceKind::Released, s)
        <= 1 by {
        assert(event_count(Seq::<TraceEvent>::empty(), TraceKind::Released, s) == 0);
    }
}

/// Appending one operation's "Requested" event under a freshly issued
/// sequence number keeps the history well formed and changes no "Released"
/// count.
#[verifier::rlimit(50)]
#[verifier::spinoff_prover]
proof fn lemma_request_event(es0: Seq<TraceEvent>, m: AccessMode, count0: u64)
    requires
        seqs_bounded(es0, count0),
        released_unique(es0),
        events_ordered(es0),
        count0 < u64::MAX,
    ensures
        ({
            let seq = (count0 + 1) as u64;
            let e = TraceEvent { kind: TraceKind::Requested, mode: m, seq };
            let es = es0.push(e);
            &&& seqs_bounded(es, seq)
            &&& released_unique(es)
            &&& events_ordered(es)
            &&& forall|s: u64|
                event_count(es, TraceKind::Released, s) == event_count(
                    es0,
                    TraceKind::Released,
                    s,
                )
            &&& event_count(es, TraceKind::Released, seq) == 0
            &&& has_event(es, TraceKind::Requested, m, seq)
        }),
{
    reveal(released_unique);
    reveal(events_ordered);
    let seq = (count0 + 1) as u64;
    let e = TraceEvent { kind: TraceKind::Requested, mode: m, seq };
    let es = es0.push(e);
    assert forall|s: u64|
        event_count(es, TraceKind::Released, s) == event_count(
            es0,
            TraceKind::Released,
            s,
        ) by {
        lemma_event_count_push(es0, e, TraceKind::Released, s);
    }
    lemma_event_count_zero_above(es0, TraceKind::Released, seq, count0);
    assert(es[es0.len() as int] == e);
    assert forall|i: int|
        0 <= i < es.len() && #[trigger] kind_at(es, i)
            == TraceKind::Acquired implies requested_before(es, i) by {
        assert(es[i] == es0[i]);
        assert(kind_at(es0, i) == TraceKind::Acquired);
        let j = choose|j: int|
            0 <= j < i && es0[j] == (TraceEvent {
                kind: TraceKind::Requested,
                mode: es0[i].mode,
                seq: es0[i].seq,
            });
        assert(es[j] == es0[j]);
        assert(requested_before(es, i));
    }
    assert forall|i: int|
        0 <= i < es.len() && #[trigger] kind_at(es, i)
            == TraceKind::Released implies acquired_before(es, i) by {
        assert(es[i] == es0[i]);
        assert(kind_at(es0, i) == TraceKind::Released);
        let j = choose|j: int|
            0 <= j < i && es0[j] == (TraceEvent {
                kind: TraceKind::Acquired,
                mode: es0[i].mode,
                seq: es0[i].seq,
            });
        assert(es[j] == es0[j]);
        assert(acquired_before(es, i));
    }
}

/// Appending the "Acquired" event of an already-requested operation keeps
/// the history well formed and changes no "Released" count.
#[verifier::rlimit(50)]
#[verifier::spinoff_prover]
proof fn lemma_grant_event(es0: Seq<TraceEvent>, m: AccessMode, seq: u64, count0: u64)
    requires
        seqs_bounded(es0, count0),
        released_unique(es0),
        events_ordered(es0),
        has_event(es0, TraceKind::Requested, m, seq),
        1 <= seq <= count0,
    ensures
        ({
            let e = TraceEvent { kind: TraceKind::Acquired, mode: m, seq };
            let es = es0.push(e);
            &&& seqs_bounded(es, count0)
            &&& released_unique(es)
            &&& events_ordered(es)
            &&& forall|s: u64|
                event_count(es, TraceKind::Released, s) == event_count(
                    es0,
                    TraceKind::Released,
                    s,
                )
            &&& has_event(es, TraceKind::Acquired, m, seq)
        }),
{
    reveal(released_unique);
    reveal(events_ordered);
    let e = TraceEvent { kind: TraceKind::Acquired, mode: m, seq };
    let es = es0.push(e);
    assert forall|s: u64|
        event_count(es, TraceKind::Released, s) == event_count(
            es0,
            TraceKind::Released,
            s,
        ) by {
        lemma_event_count_push(es0, e, TraceKind::Released, s);
    }
    assert(es[es0.len() as int] == e);
    assert forall|i: int|
        0 <= i < es.len() && #[trigger] kind_at(es, i)
            == TraceKind::Acquired implies requested_before(es, i) by {
        if i < es0.len() {
            assert(es[i] == es0[i]);
            assert(kind_at(es0, i) == TraceKind::Acquired);
            let j = choose|j: int|
                0 <= j < i && es0[j] == (TraceEvent {
                    kind: TraceKind::Requested,
                    mode: es0[i].mode,
                    seq: es0[i].seq,
                });
            assert(es[j] == es0[j]);
            assert(requested_before(es, i));
        } else {
            assert(es[i] == e);
            let j = choose|j: int|
                0 <= j < es0.len() && es0[j] == (TraceEvent {
                    kind: TraceKind::Requested,
                    mode: m,
                    seq,
                });
            assert(es[j] == es0[j]);
            assert(requested_before(es, i));
        }
    }
    assert forall|i: int|
        0 <= i < es.len() && #[trigger] kind_at(es, i)
            == TraceKind::Released implies acquired_before(es, i) by {
        assert(es[i] == es0[i]);
        assert(kind_at(es0, i) == TraceKind::Released);
        let j = choose|j: int|
            0 <= j < i && es0[j] == (TraceEvent {
                kind: TraceKind::Acquired,
                mode: es0[i].mode,
                seq: es0[i].seq,
            });
        assert(es[j] == es0[j]);
        assert(acquired_before(es, i));
    }
}

/// Appending the "Released" event of a held, not yet released operation
/// keeps the history well formed; its "Released" count becomes one and no
/// other count changes.
#[verifier::rlimit(50)]
#[verifier::spinoff_prover]
proof fn lemma_release_events(es0: Seq<TraceEvent>, m: AccessMode, seq: u64, count0: u64)
    requires
        seqs_bounded(es0, count0),
        released_unique(es0),
        events_ordered(es0),
        event_count(es0, TraceKind::Released, seq) == 0,
        has_event(es0, TraceKind::Acquired, m, seq),
        1 <= seq <= count0,
    ensures
        ({
            let e = TraceEvent { kind: TraceKind::Released, mode: m, seq };
            let es = es0.push(e);
            &&& seqs_bounded(es, count0)
            &&& released_unique(es)
            &&& events_ordered(es)
            &&& event_count(es, TraceKind::Released, seq) == 1
            &&& forall|s: u64|
                s != seq ==> event_count(es, TraceKind::Released, s) == event_count(
                    es0,
                    TraceKind::Released,
                    s,
                )
        }),
{
    reveal(released_unique);
    reveal(events_ordered);
    let e = TraceEvent { kind: TraceKind::Released, mode: m, seq };
    let es = es0.push(e);
    assert forall|s: u64| event_count(es, TraceKind::Released, s) <= 1 by {
        lemma_event_count_push(es0, e, TraceKind::Released, s);
    }
    assert forall|s: u64|
        s != seq implies event_count(es, TraceKind::Released, s) == event_count(
        es0,
        TraceKind::Released,
        s,
    ) by {
        lemma_event_count_push(es0, e, TraceKind::Released, s);
    }
    lemma_event_count_push(es0, e, TraceKind::Released, seq);
    assert forall|i: int|
        0 <= i < es.len() && #[trigger] kind_at(es, i)
            == TraceKind::Acquired implies requested_before(es, i) by {
        assert(es[i] == es0[i]);
        assert(kind_at(es0, i) == TraceKind::Acquired);
        let j = choose|j: int|
            0 <= j < i && es0[j] == (TraceEvent {
                kind: TraceKind::Requested,
                mode: es0[i].mode,
                seq: es0[i].seq,
            });
        assert(es[j] == es0[j]);
        assert(requested_before(es, i));
    }
    assert forall|i: int|
        0 <= i < es.len() && #[trigger] kind_at(es, i)
            == TraceKind::Released implies acquired_before(es, i) by {
        if i < es0.len() {
            assert(es[i] == es0[i]);
            assert(kind_at(es0, i) == TraceKind::Released);
            let j = choose|j: int|
                0 <= j < i && es0[j] == (TraceEvent {
                    kind: TraceKind::Acquired,
                    mode: es0[i].mode,
                    seq: es0[i].seq,
                });
            assert(es[j] == es0[j]);
            assert(acquired_before(es, i));
        } else {
            assert(es[i] == e);
            let j = choose|j: int|
                0 <= j < es0.len() && es0[j] == (TraceEvent {
                    kind: TraceKind::Acquired,
                    mode: m,
                    seq,
                });
            assert(es[j] == es0[j]);
            assert(acquired_before(es, i));
        }
    }
}

/// The instrumented lock: the protected value (absent only while a write
/// guard holds it), the identity, the sequencer, the rendered trace lines,
/// and the history of recorded events.
pub struct RwLock<T> {
    pub name: String,
    pub sequencer: Sequencer,
    pub state: LockState,
    pub value: Option<T>,
    pub trace: Vec<String>,
    pub events: Ghost<Seq<TraceEvent>>,
}

impl<T> RwLock<T> {
    /// The recorded events are well formed: every sequence number has been
    /// issued, "Released" occurs at most once per number, an "Acquired"
    /// follows its own "Requested", and a "Released" its own "Acquired".
    pub open spec fn events_wf(self) -> bool {
        &&& seqs_bounded(self.events@, self.sequencer.count)
        &&& released_unique(self.events@)
        &&& events_ordered(self.events@)
    }

    /// How many read holds are alive.
    pub open spec fn reader_count(self) -> int {
        match self.state {
            LockState::ReadHeld { count, .. } => count as int,
            _ => 0,
        }
    }

    /// The sequence numbers of the read holds that are alive.
    pub open spec fn reader_seqs(self) -> Set<u64> {
        match self.state {
            LockState::ReadHeld { count: _, seqs } => seqs@,
            _ => Set::empty(),
        }
    }

    /// A sequence number stands for a live hold that may later be released:
    /// it was issued, its grant is on record, and its release is not.
    pub open spec fn live_hold(self, m: AccessMode, seq: u64) -> bool {
        &&& 1 <= seq <= self.sequencer.count
        &&& event_count(self.events@, TraceKind::Released, seq) == 0
        &&& has_event(self.events@, TraceKind::Acquired, m, seq)
    }

    /// The hold state fits the value and the history: the value is absent
    /// exactly while a write hold is alive, and every held sequence number
    /// was issued, was acquired, and has not been released.
    pub open spec fn state_wf(self) -> bool {
        match self.state {
            LockState::Open => self.value is Some,
            LockState::ReadHeld { count, seqs } => {
                &&& self.value is Some
                &&& count >= 1
                &&& seqs@.finite()
                &&& seqs@.len() == count
                &&& forall|s: u64| #[trigger]
                    seqs@.contains(s) ==> self.live_hold(AccessMode::Read, s)
            },
            LockState::WriteHeld { seq } => {
                &&& self.value is None
                &&& self.live_hold(AccessMode::Write, seq)
            },
        }
    }

    /// The lock's invariant.
    pub open spec fn wf(self) -> bool {
        &&& self.sequencer.wf()
        &&& self.trace@.len() == self.events@.len()
        &&& self.events_wf()
        &&& self.state_wf()
    }

    /// A fresh lock around `inner`, under the given identity, with its
    /// sequencer at zero and an empty trace.
    pub fn new_named(inner: T, name: String) -> (r: Self)
        ensures
            r.wf(),
            r.name == name,
            r.sequencer.count == 0,
            r.state is Open,
            r.value == Some(inner),
            r.trace@ == Seq::<String>::empty(),
            r.events@ == Seq::<TraceEvent>::empty(),
    {
        proof {
            lemma_empty_events_wf();
        }
        RwLock {
            name,
            sequencer: Sequencer::new(),
            state: LockState::Open,
            value: Some(inner),
            trace: Vec::new(),
            events: Ghost(Seq::empty()),
        }
    }

    /// A fresh lock around `inner` with a freshly generated, non-empty
    /// identity. Construction neither blocks nor fails.
    pub fn new(inner: T) -> (r: Self)
        ensures
            r.wf(),
            r.name@.len() > 0,
            r.sequencer.count == 0,
            r.state is Open,
            r.value == Some(inner),
            r.trace@ == Seq::<String>::empty(),
            r.events@ == Seq::<TraceEvent>::empty(),
    {
        Self::new_named(inner, crate::naming::fresh_name())
    }

    /// Stamps one operation with the next sequence number and traces its
    /// "Acquire" request; the hold state does not change. Shared by `read`
    /// and `write`.
    fn stamp_request(&mut self, m: AccessMode, frames: &Vec<Frame>) -> (seq: u64)
        requires
            old(self).wf(),
            old(self).sequencer.count < u64::MAX,
        ensures
            final(self).wf(),
            seq == old(self).sequencer.count + 1,
            final(self).sequencer.count == seq,
            final(self).sequencer.issued@ == old(self).sequencer.issued@.push(seq),
            final(self).name == old(self).name,
            final(self).state == old(self).state,
            final(self).value == old(self).value,
            final(self).events@ == old(self).events@.push(
                TraceEvent { kind: TraceKind::Requested, mode: m, seq },
            ),
            has_event(final(self).events@, TraceKind::Requested, m, seq),
            event_count(final(self).events@, TraceKind::Released, seq) == 0,
            final(self).trace@.len() == old(self).trace@.len() + 1,
            forall|i: int|
                0 <= i < old(self).trace@.len() ==> final(self).trace@[i] == old(self).trace@[i],
            final(self).trace@[old(self).trace@.len() as int]@ == trace_block(
                m,
                TraceKind::Requested,
                old(self).name@,
                seq,
                frame_models(frames@),
            ),
    {
        let ghost es0 = self.events@;
        let ghost count0 = self.sequencer.count;
        let name = self.name.clone();
        let seq = self.sequencer.next();
        push_trace_line(&mut self.trace, m, TraceKind::Requested, name.as_str(), seq, frames);
        proof {
            let e = TraceEvent { kind: TraceKind::Requested, mode: m, seq };
            self.events@ = es0.push(e);
            lemma_request_event(es0, m, count0);
            assert(has_event(self.events@, TraceKind::Requested, m, seq)) by {
                assert(self.events@[es0.len() as int] == e);
            }
            assert(self.state == old(self).state);
            match old(self).state {
                LockState::Open => {},
                LockState::ReadHeld { count: _, seqs: ss0 } => {
                    assert forall|s: u64| #[trigger]
                        ss0@.contains(s) implies self.live_hold(AccessMode::Read, s) by {
                        assert(old(self).live_hold(AccessMode::Read, s));
                        lemma_has_event_push(es0, e, TraceKind::Acquired, AccessMode::Read, s);
                    }
                },
                LockState::WriteHeld { seq: w } => {
                    assert(old(self).live_hold(AccessMode::Write, w));
                    lemma_has_event_push(es0, e, TraceKind::Acquired, AccessMode::Write, w);
                    assert(self.live_hold(AccessMode::Write, w));
                },
            }
        }
        seq
    }

    /// Acquires shared access: stamps the call with the next sequence
    /// number, traces the request, and constructs the read guard — which
    /// records the grant. Any number of read holds may be alive at once;
    /// only a live write hold keeps a read out. In this model the grant is
    /// immediate; the wait for the underlying primitive lies between the two
    /// traces.
    pub fn read(&mut self, frames: &Vec<Frame>) -> (g: RwLockReadGuard<T>)
        requires
            old(self).wf(),
            !(old(self).state is WriteHeld),
            old(self).sequencer.count < u64::MAX,
            old(self).reader_count() < u64::MAX,
        ensures
            final(self).wf(),
            g.seq == old(self).sequencer.count + 1,
            g.name@ == old(self).name@,
            final(self).name == old(self).name,
            final(self).sequencer.count == g.seq,
            final(self).sequencer.issued@ == old(self).sequencer.issued@.push(g.seq),
            final(self).state is ReadHeld,
            final(self).reader_count() == old(self).reader_count() + 1,
            final(self).reader_seqs() == old(self).reader_seqs().insert(g.seq),
            final(self).value == old(self).value,
            final(self).events@ == old(self).events@.push(
                TraceEvent { kind: TraceKind::Requested, mode: AccessMode::Read, seq: g.seq },
            ).push(TraceEvent { kind: TraceKind::Acquired, mode: AccessMode::Read, seq: g.seq }),
            final(self).trace@.len() == old(self).trace@.len() + 2,
            forall|i: int|
                0 <= i < old(self).trace@.len() ==> final(self).trace@[i] == old(self).trace@[i],
            final(self).trace@[old(self).trace@.len() as int]@ == trace_block(
                AccessMode::Read,
                TraceKind::Requested,
                old(self).name@,
                g.seq,
                frame_models(frames@),
            ),
            final(self).trace@[old(self).trace@.len() as int + 1]@ == trace_block(
                AccessMode::Read,
                TraceKind::Acquired,
                old(self).name@,
                g.seq,
                frame_models(frames@),
            ),
    {
        let seq = self.stamp_request(AccessMode::Read, frames);
        // here the underlying primitive would suspend the task while a
        // writer is alive; the precondition makes the grant immediate, and
        // read holds alone never delay it
        proof {
            if self.reader_seqs().contains(seq) {
                assert(old(self).reader_seqs().contains(seq));
                assert(old(self).live_hold(AccessMode::Read, seq));
            }
        }
        RwLockReadGuard::new(self, seq, frames)
    }

    /// Acquires exclusive access: stamps the call with the next sequence
    /// number, traces the request, and constructs the write guard — which
    /// checks the value out and records the grant.
    pub fn write(&mut self, frames: &Vec<Frame>) -> (g: RwLockWriteGuard<T>)
        requires
            old(self).wf(),
            old(self).state is Open,
            old(self).sequencer.count < u64::MAX,
        ensures
            final(self).wf(),
            g.seq == old(self).sequencer.count + 1,
            g.name@ == old(self).name@,
            Some(g.value) == old(self).value,
            final(self).name == old(self).name,
            final(self).sequencer.count == g.seq,
            final(self).sequencer.issued@ == old(self).sequencer.issued@.push(g.seq),
            final(self).state == (LockState::WriteHeld { seq: g.seq }),
            final(self).value is None,
            final(self).events@ == old(self).events@.push(
                TraceEvent { kind: TraceKind::Requested, mode: AccessMode::Write, seq: g.seq },
            ).push(TraceEvent { kind: TraceKind::Acquired, mode: AccessMode::Write, seq: g.seq }),
            final(self).trace@.len() == old(self).trace@.len() + 2,
            forall|i: int|
                0 <= i < old(self).trace@.len() ==> final(self).trace@[i] == old(self).trace@[i],
            final(self).trace@[old(self).trace@.len() as int]@ == trace_block(
                AccessMode::Write,
                TraceKind::Requested,
                old(self).name@,
                g.seq,
                frame_models(frames@),
            ),
            final(self).trace@[old(self).trace@.len() as int + 1]@ == trace_block(
                AccessMode::Write,
                TraceKind::Acquired,
                old(self).name@,
                g.seq,
                frame_models(frames@),
            ),
    {
        let seq = self.stamp_request(AccessMode::Write, frames);
        // the underlying primitive would suspend the task here until every
        // other hold is gone; the precondition renders that wait
        RwLockWriteGuard::new(self, seq, frames)
    }

    /// Takes back the protected value and traces the release of the
    /// exclusive hold; shared by the write guard and the mapped write guard.
    fn restore(&mut self, seq: u64, value: T, frames: &Vec<Frame>)
        requires
            old(self).wf(),
            old(self).state == (LockState::WriteHeld { seq }),
        ensures
            final(self).wf(),
            final(self).name == old(self).name,
            final(self).sequencer == old(self).sequencer,
            final(self).state is Open,
            final(self).value == Some(value),
            final(self).events@ == old(self).events@.push(
                TraceEvent { kind: TraceKind::Released, mode: AccessMode::Write, seq },
            ),
            event_count(final(self).events@, TraceKind::Released, seq) == 1,
            final(self).trace@.len() == old(self).trace@.len() + 1,
            forall|i: int|
                0 <= i < old(self).trace@.len() ==> final(self).trace@[i] == old(self).trace@[i],
            final(self).trace@[old(self).trace@.len() as int]@ == trace_block(
                AccessMode::Write,
                TraceKind::Released,
                old(self).name@,
                seq,
                frame_models(frames@),
            ),
    {
        let ghost es0 = self.events@;
        let name = self.name.clone();
        push_trace_line(
            &mut self.trace,
            AccessMode::Write,
            TraceKind::Released,
            name.as_str(),
            seq,
            frames,
        );
        self.value = Some(value);
        self.state = LockState::Open;
        proof {
            let e = TraceEvent { kind: TraceKind::Released, mode: AccessMode::Write, seq };
            self.events@ = es0.push(e);
            lemma_release_events(es0, AccessMode::Write, seq, old(self).sequencer.count);
        }
    }

    /// Whether the lock is currently free.
    pub fn is_open(&self) -> (r: bool)
        ensures
            r == (self.state is Open),
    {
        match &self.state {
            LockState::Open => true,
            _ => false,
        }
    }

    /// How many read holds are currently alive.
    pub fn readers(&self) -> (r: u64)
        ensures
            r as int == self.reader_count(),
    {
        match &self.state {
            LockState::ReadHeld { count, .. } => *count,
            _ => 0,
        }
    }

    /// How many acquisitions have been stamped so far.
    pub fn sequence_count(&self) -> (r: u64)
        ensures
            r == self.sequencer.count,
    {
        self.sequencer.count
    }

    /// The lock's identity.
    pub fn lock_name(&self) -> (r: &String)
        ensures
            r == &self.name,
    {
        &self.name
    }

    /// The trace lines recorded so far, oldest first.
    pub fn trace_lines(&self) -> (r: &Vec<String>)
        ensures
            r == &self.trace,
    {
        &self.trace
    }

    /// Consumes an open lock and yields the protected value.
    pub fn into_inner(self) -> (r: T)
        requires
            self.wf(),
            self.state is Open,
        ensures
            Some(r) == self.value,
    {
        match self.value {
            Some(v) => v,
            None => unreached(),
        }
    }
}

/// Law: the "Released" trace is never emitted twice for one acquisition —
/// any two "Released" events in one lock's history carry different sequence
/// numbers.
pub proof fn lemma_release_at_most_once<T>(lock: RwLock<T>, i: int, j: int)
    requires
        lock.wf(),
        0 <= i < j < lock.events@.len(),
        lock.events@[i].kind == TraceKind::Released,
        lock.events@[j].kind == TraceKind::Released,
    ensures
        lock.events@[i].seq != lock.events@[j].seq,
{
    reveal(released_unique);
    if lock.events@[i].seq == lock.events@[j].seq {
        lemma_event_count_at_least_two(
            lock.events@,
            TraceKind::Released,
            lock.events@[i].seq,
            i,
            j,
        );
    }
}

/// Law: while a guard — or the mapped guard that took over its hold through
/// `try_map` — is alive, the "Released" trace of its acquisition has not
/// been emitted; together with the release operations' postcondition that
/// the count becomes exactly one, the underlying hold is released exactly
/// once, never zero times and never twice.
pub proof fn lemma_no_release_while_held<T>(lock: RwLock<T>, seq: u64)
    requires
        lock.wf(),
        lock.state == (LockState::WriteHeld { seq }) || lock.reader_seqs().contains(seq),
    ensures
        event_count(lock.events@, TraceKind::Released, seq) == 0,
{
}

/// Law: a lock's history is ordered per operation — an "Acquired" event
/// follows its own "Requested" event, and a "Released" event its own
/// "Acquired" event.
pub proof fn lemma_trace_ordered<T>(lock: RwLock<T>, i: int)
    requires
        lock.wf(),
        0 <= i < lock.events@.len(),
    ensures
        lock.events@[i].kind == TraceKind::Acquired ==> requested_before(lock.events@, i),
        lock.events@[i].kind == TraceKind::Released ==> acquired_before(lock.events@, i),
{
    reveal(events_ordered);
    assert(kind_at(lock.events@, i) == lock.events@[i].kind);
}

/// A guard holding shared access: it carries a copy of the lock's identity
/// and the acquisition's sequence number. The protected value stays in the
/// lock, where any number of read guards share it; the guard gives its hold
/// back — tracing the release exactly once — when it is consumed by
/// `release`.
pub struct RwLockReadGuard<T> {
    pub name: String,
    pub seq: u64,
    pub marker: core::marker::PhantomData<T>,
}

impl<T> RwLockReadGuard<T> {
    /// Records the grant of an already-requested shared hold: appends the
    /// "Got" ("Acquired") trace — so tracing brackets the actual grant, not
    /// the request — adds the sequence number to the live read holds, and
    /// wraps it in a guard.
    pub fn new(lock: &mut RwLock<T>, seq: u64, frames: &Vec<Frame>) -> (g: Self)
        requires
            old(lock).wf(),
            !(old(lock).state is WriteHeld),
            old(lock).reader_count() < u64::MAX,
            1 <= seq <= old(lock).sequencer.count,
            has_event(old(lock).events@, TraceKind::Requested, AccessMode::Read, seq),
            event_count(old(lock).events@, TraceKind::Released, seq) == 0,
            !old(lock).reader_seqs().contains(seq),
        ensures
            final(lock).wf(),
            g.name@ == old(lock).name@,
            g.seq == seq,
            final(lock).name == old(lock).name,
            final(lock).sequencer == old(lock).sequencer,
            final(lock).state is ReadHeld,
            final(lock).reader_count() == old(lock).reader_count() + 1,
            final(lock).reader_seqs() == old(lock).reader_seqs().insert(seq),
            final(lock).value == old(lock).value,
            final(lock).events@ == old(lock).events@.push(
                TraceEvent { kind: TraceKind::Acquired, mode: AccessMode::Read, seq },
            ),
            final(lock).trace@.len() == old(lock).trace@.len() + 1,
            forall|i: int|
                0 <= i < old(lock).trace@.len() ==> final(lock).trace@[i] == old(lock).trace@[i],
            final(lock).trace@[old(lock).trace@.len() as int]@ == trace_block(
                AccessMode::Read,
                TraceKind::Acquired,
                old(lock).name@,
                seq,
                frame_models(frames@),
            ),
    {
        let ghost es0 = lock.events@;
        let name = lock.name.clone();
        push_trace_line(
            &mut lock.trace,
            AccessMode::Read,
            TraceKind::Acquired,
            name.as_str(),
            seq,
            frames,
        );
        let (count0, old_seqs) = match &lock.state {
            LockState::Open => (0u64, Ghost(Set::<u64>::empty())),
            LockState::ReadHeld { count, seqs } => (*count, *seqs),
            LockState::WriteHeld { .. } => unreached(),
        };
        lock.state = LockState::ReadHeld {
            count: count0 + 1,
            seqs: Ghost(old_seqs@.insert(seq)),
        };
        proof {
            let e = TraceEvent { kind: TraceKind::Acquired, mode: AccessMode::Read, seq };
            lock.events@ = es0.push(e);
            lemma_grant_event(es0, AccessMode::Read, seq, lock.sequencer.count);
            assert(has_event(lock.events@, TraceKind::Acquired, AccessMode::Read, seq)) by {
                assert(lock.events@[es0.len() as int] == e);
            }
            vstd::set::axiom_set_insert_len(old_seqs@, seq);
            assert forall|s: u64| #[trigger]
                old_seqs@.insert(seq).contains(s) implies lock.live_hold(AccessMode::Read, s) by {
                if s != seq {
                    assert(old_seqs@.contains(s));
                    assert(old(lock).live_hold(AccessMode::Read, s));
                    lemma_has_event_push(es0, e, TraceKind::Acquired, AccessMode::Read, s);
                }
            }
        }
        RwLockReadGuard { name, seq, marker: core::marker::PhantomData }
    }

    /// Read access to the protected value, shared with every other live read
    /// guard; the value stays in the lock.
    pub fn inner<'a>(&self, lock: &'a RwLock<T>) -> (r: &'a T)
        requires
            lock.wf(),
            lock.reader_seqs().contains(self.seq),
        ensures
            Some(*r) == lock.value,
    {
        match &lock.value {
            Some(v) => v,
            None => unreached(),
        }
    }

    /// Gives the shared hold back and traces the release. Consuming the
    /// guard here is the single point at which its hold ends; the other read
    /// holds stay alive.
    pub fn release(self, lock: &mut RwLock<T>, frames: &Vec<Frame>)
        requires
            old(lock).wf(),
            old(lock).state is ReadHeld,
            old(lock).reader_seqs().contains(self.seq),
        ensures
            final(lock).wf(),
            final(lock).name == old(lock).name,
            final(lock).sequencer == old(lock).sequencer,
            final(lock).value == old(lock).value,
            final(lock).reader_count() == old(lock).reader_count() - 1,
            final(lock).reader_seqs() == old(lock).reader_seqs().remove(self.seq),
            (final(lock).state is Open <==> old(lock).reader_count() == 1),
            final(lock).state is Open || final(lock).state is ReadHeld,
            final(lock).events@ == old(lock).events@.push(
                TraceEvent { kind: TraceKind::Released, mode: AccessMode::Read, seq: self.seq },
            ),
            event_count(final(lock).events@, TraceKind::Released, self.seq) == 1,
            final(lock).trace@.len() == old(lock).trace@.len() + 1,
            forall|i: int|
                0 <= i < old(lock).trace@.len() ==> final(lock).trace@[i] == old(lock).trace@[i],
            final(lock).trace@[old(lock).trace@.len() as int]@ == trace_block(
                AccessMode::Read,
                TraceKind::Released,
                old(lock).name@,
                self.seq,
                frame_models(frames@),
            ),
    {
        let RwLockReadGuard { name: _, seq, marker: _ } = self;
        let ghost es0 = lock.events@;
        let name = lock.name.clone();
        push_trace_line(
            &mut lock.trace,
            AccessMode::Read,
            TraceKind::Released,
            name.as_str(),
            seq,
            frames,
        );
        let (count0, old_seqs) = match &lock.state {
            LockState::ReadHeld { count, seqs } => (*count, *seqs),
            _ => unreached(),
        };
        if count0 == 1 {
            lock.state = LockState::Open;
        } else {
            lock.state = LockState::ReadHeld {
                count: count0 - 1,
                seqs: Ghost(old_seqs@.remove(seq)),
            };
        }
        proof {
            let e = TraceEvent { kind: TraceKind::Released, mode: AccessMode::Read, seq };
            lock.events@ = es0.push(e);
            assert(old(lock).live_hold(AccessMode::Read, seq));
            lemma_release_events(es0, AccessMode::Read, seq, lock.sequencer.count);
            vstd::set::axiom_set_remove_len(old_seqs@, seq);
            if count0 == 1 {
                old_seqs@.remove(seq).lemma_len0_is_empty();
            }
            assert forall|s: u64| #[trigger]
                old_seqs@.remove(seq).contains(s) implies lock.live_hold(AccessMode::Read, s) by {
                assert(old_seqs@.contains(s) && s != seq);
                assert(old(lock).live_hold(AccessMode::Read, s));
                lemma_has_event_push(es0, e, TraceKind::Acquired, AccessMode::Read, s);
            }
        }
    }
}

/// A guard holding exclusive access: it owns the checked-out value, a copy
/// of the lock's identity, and the acquisition's sequence number. It gives
/// the value back — tracing the release exactly once — when it is consumed
/// by `release`, and can be narrowed by `try_map`.
pub struct RwLockWriteGuard<T> {
    pub value: T,
    pub name: String,
    pub seq: u64,
}

impl<T> RwLockWriteGuard<T> {
    /// Records the grant of an already-requested exclusive hold: appends the
    /// "Got" ("Acquired") trace — so tracing brackets the actual grant, not
    /// the request — checks the protected value out of the lock, and wraps
    /// it in a guard.
    pub fn new(lock: &mut RwLock<T>, seq: u64, frames: &Vec<Frame>) -> (g: Self)
        requires
            old(lock).wf(),
            old(lock).state is Open,
            1 <= seq <= old(lock).sequencer.count,
            has_event(old(lock).events@, TraceKind::Requested, AccessMode::Write, seq),
            event_count(old(lock).events@, TraceKind::Released, seq) == 0,
        ensures
            final(lock).wf(),
            g.name@ == old(lock).name@,
            g.seq == seq,
            Some(g.value) == old(lock).value,
            final(lock).name == old(lock).name,
            final(lock).sequencer == old(lock).sequencer,
            final(lock).state == (LockState::WriteHeld { seq }),
            final(lock).value is None,
            final(lock).events@ == old(lock).events@.push(
                TraceEvent { kind: TraceKind::Acquired, mode: AccessMode::Write, seq },
            ),
            final(lock).trace@.len() == old(lock).trace@.len() + 1,
            forall|i: int|
                0 <= i < old(lock).trace@.len() ==> final(lock).trace@[i] == old(lock).trace@[i],
            final(lock).trace@[old(lock).trace@.len() as int]@ == trace_block(
                AccessMode::Write,
                TraceKind::Acquired,
                old(lock).name@,
                seq,
                frame_models(frames@),
            ),
    {
        let ghost es0 = lock.events@;
        let name = lock.name.clone();
        push_trace_line(
            &mut lock.trace,
            AccessMode::Write,
            TraceKind::Acquired,
            name.as_str(),
            seq,
            frames,
        );
        let taken = lock.value.take();
        let value = match taken {
            Some(x) => x,
            None => unreached(),
        };
        lock.state = LockState::WriteHeld { seq };
        proof {
            let e = TraceEvent { kind: TraceKind::Acquired, mode: AccessMode::Write, seq };
            lock.events@ = es0.push(e);
            lemma_grant_event(es0, AccessMode::Write, seq, lock.sequencer.count);
            assert(has_event(lock.events@, TraceKind::Acquired, AccessMode::Write, seq)) by {
                assert(lock.events@[es0.len() as int] == e);
            }
        }
        RwLockWriteGuard { value, name, seq }
    }

    /// Read access to the protected value.
    pub fn inner(&self) -> (r: &T)
        ensures
            *r == self.value,
    {
        &self.value
    }

    /// Write access to the protected value.
    pub fn inner_mut(&mut self) -> (r: &mut T)
        ensures
            *r == old(self).value,
            final(self).value == *final(r),
            final(self).name == old(self).name,
            final(self).seq == old(self).seq,
    {
        &mut self.value
    }

    /// Narrows this guard to a sub-part of the protected value, without the
    /// underlying exclusive hold being released or re-acquired. When the
    /// projection finds the sub-part, the guard is consumed and a mapped
    /// guard over the sub-part takes over the hold; when it finds nothing,
    /// the original guard comes back unchanged and fully functional.
    pub fn try_map<U, L: FieldLens<T, U>>(this: Self, lens: &L) -> (r: Result<
        RwLockMappedWriteGuard<T, U>,
        Self,
    >)
        ensures
            lens.present(this.value) ==> r is Ok,
            !lens.present(this.value) ==> r == Result::<RwLockMappedWriteGuard<T, U>, Self>::Err(
                this,
            ),
            (r matches Ok(m) ==> m.seq == this.seq && m.name == this.name && m.sub
                == lens.field_of(this.value) && forall|x: U|
                lens.with_field(#[trigger] m.rest, x) == lens.with_field(this.value, x)),
    {
        let RwLockWriteGuard { value, name, seq } = this;
        match lens.try_extract(value) {
            Ok((rest, sub)) => Ok(RwLockMappedWriteGuard { rest, sub, name, seq }),
            Err(orig) => Err(RwLockWriteGuard { value: orig, name, seq }),
        }
    }

    /// Gives the value back to the lock and traces the release. Consuming
    /// the guard here is the single point at which its hold ends.
    pub fn release(self, lock: &mut RwLock<T>, frames: &Vec<Frame>)
        requires
            old(lock).wf(),
            old(lock).state == (LockState::WriteHeld { seq: self.seq }),
        ensures
            final(lock).wf(),
            final(lock).name == old(lock).name,
            final(lock).sequencer == old(lock).sequencer,
            final(lock).state is Open,
            final(lock).value == Some(self.value),
            final(lock).events@ == old(lock).events@.push(
                TraceEvent { kind: TraceKind::Released, mode: AccessMode::Write, seq: self.seq },
            ),
            event_count(final(lock).events@, TraceKind::Released, self.seq) == 1,
            final(lock).trace@.len() == old(lock).trace@.len() + 1,
            forall|i: int|
                0 <= i < old(lock).trace@.len() ==> final(lock).trace@[i] == old(lock).trace@[i],
            final(lock).trace@[old(lock).trace@.len() as int]@ == trace_block(
                AccessMode::Write,
                TraceKind::Released,
                old(lock).name@,
                self.seq,
                frame_models(frames@),
            ),
    {
        let RwLockWriteGuard { value, name: _, seq } = self;
        lock.restore(seq, value, frames);
    }
}

/// A write guard narrowed to a sub-part of the protected value. It owns the
/// exclusive-access right transferred from the consumed write guard; the
/// remainder of the value rides along so that the whole value, with the
/// possibly updated sub-part embedded, goes back to the lock on release.
pub struct RwLockMappedWriteGuard<T, U> {
    pub rest: T,
    pub sub: U,
    pub name: String,
    pub seq: u64,
}

impl<T, U> RwLockMappedWriteGuard<T, U> {
    /// Read access to the sub-part.
    pub fn inner(&self) -> (r: &U)
        ensures
            *r == self.sub,
    {
        &self.sub
    }

    /// Write access to the sub-part.
    pub fn inner_mut(&mut self) -> (r: &mut U)
        ensures
            *r == old(self).sub,
            final(self).sub == *final(r),
            final(self).rest == old(self).rest,
            final(self).name == old(self).name,
            final(self).seq == old(self).seq,
    {
        &mut self.sub
    }

    /// Embeds the (possibly updated) sub-part back into the remainder, gives
    /// the whole value back to the lock, and traces the release of the
    /// exclusive hold — exactly once across the whole write-guard history,
    /// since `try_map` consumed the original guard without tracing a
    /// release.
    pub fn release<L: FieldLens<T, U>>(self, lens: &L, lock: &mut RwLock<T>, frames: &Vec<Frame>)
        requires
            old(lock).wf(),
            old(lock).state == (LockState::WriteHeld { seq: self.seq }),
        ensures
            final(lock).wf(),
            final(lock).name == old(lock).name,
            final(lock).sequencer == old(lock).sequencer,
            final(lock).state is Open,
            final(lock).value == Some(lens.with_field(self.rest, self.sub)),
            final(lock).events@ == old(lock).events@.push(
                TraceEvent { kind: TraceKind::Released, mode: AccessMode::Write, seq: self.seq },
            ),
            event_count(final(lock).events@, TraceKind::Released, self.seq) == 1,
            final(lock).trace@.len() == old(lock).trace@.len() + 1,
            forall|i: int|
                0 <= i < old(lock).trace@.len() ==> final(lock).trace@[i] == old(lock).trace@[i],
            final(lock).trace@[old(lock).trace@.len() as int]@ == trace_block(
                AccessMode::Write,
                TraceKind::Released,
                old(lock).name@,
                self.seq,
                frame_models(frames@),
            ),
    {
        let RwLockMappedWriteGuard { rest, sub, name: _, seq } = self;
        let whole = lens.embed(rest, sub);
        lock.restore(seq, whole, frames);
    }
}

} // verus!

