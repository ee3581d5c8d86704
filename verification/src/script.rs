//! The scripted state machine behind a mock: a queue of expected operations
//! and the one that is currently in progress.
use std::collections::VecDeque;
use vstd::prelude::*;

verus! {

/// The largest number of nanoseconds that a `Duration` can hold
/// (`u64::MAX` seconds plus 999,999,999 nanoseconds).
pub const MAX_NANOS: u128 = 18446744073709551615999999999u128;

/// One scripted operation, as the contracts see it.
pub enum Step {
    /// The peer expects a read call that hands out these bytes.
    Read(Seq<u8>),
    /// The peer expects a write call carrying these bytes.
    Write(Seq<u8>),
    /// The peer stays silent for this many nanoseconds.
    Wait(nat),
}

/// The operation in progress, as the contracts see it.
pub enum Phase {
    /// Bytes still to be handed out by reads.
    Reading(Seq<u8>),
    /// Bytes still expected from writes.
    Writing(Seq<u8>),
    /// Silent until this instant (nanoseconds on the mock's clock).
    Waiting(nat),
}

/// Why an operation did not go through.
#[derive(Debug, Clone, Copy, PartialEq, Eq, Structural)]
pub enum IoError {
    /// The script expects something else first (or is waiting).
    WouldBlock,
    /// The script is over: nothing will be read or written any more.
    BrokenPipe,
}

/// The whole state of a script: the operations not started yet and the
/// operation in progress.
pub struct ScriptState {
    pub pending: Seq<Step>,
    pub current: Option<Phase>,
}

/// What one step of a blocking read does.
pub enum ReadStep {
    /// The read is answered.
    Done(ScriptState, Result<Seq<u8>, IoError>),
    /// The script is waiting: sleep this many nanoseconds and try again.
    Sleep(ScriptState, nat),
    /// The script expects a write while the caller reads: the read can never be answered.
    Stuck(ScriptState),
}

/// The smaller of two numbers.
pub open spec fn min_nat(a: nat, b: nat) -> nat {
    if a <= b { a } else { b }
}

/// The phase that a step starts when it becomes current at time `now`.
pub open spec fn begin(step: Step, now: nat) -> Phase {
    match step {
        Step::Read(d) => Phase::Reading(d),
        Step::Write(d) => Phase::Writing(d),
        Step::Wait(n) => Phase::Waiting(now + n),
    }
}

/// A wait lasts at least a nanosecond and fits a `Duration`.
pub open spec fn step_bounded(step: Step) -> bool {
    match step {
        Step::Wait(n) => 1 <= n <= MAX_NANOS,
        _ => true,
    }
}

/// The number of read steps at the front of `p`.
pub open spec fn lead_reads(p: Seq<Step>) -> nat
    decreases p.len(),
{
    if p.len() > 0 && p[0] is Read {
        1 + lead_reads(p.drop_first())
    } else {
        0
    }
}

/// The place of the write scripted right after the reads at the front of
/// `p`, if the step after them is a write.
pub open spec fn write_after_reads(p: Seq<Step>) -> Option<int> {
    let i = lead_reads(p) as int;
    if i < p.len() && p[i] is Write {
        Some(i)
    } else {
        None
    }
}

/// The steps `p` once a write of `n` bytes has been matched against the
/// write step at `i`: the step keeps the bytes still expected, and goes
/// away once none are.
pub open spec fn consume_write(p: Seq<Step>, i: int, n: nat) -> Seq<Step> {
    let e = p[i]->Write_0;
    if n >= e.len() {
        p.remove(i)
    } else {
        p.update(i, Step::Write(e.skip(n as int)))
    }
}

/// Starting the steps `p` one after the other, a blocking read meets a write
/// before any read: a write step, unless it is empty and a wait follows it
/// (a blocking read skips such an empty write and sleeps through the wait).
pub open spec fn fresh_stalls(p: Seq<Step>) -> bool
    decreases p.len(),
{
    if p.len() == 0 {
        false
    } else {
        match p[0] {
            Step::Read(_) => false,
            Step::Wait(_) => fresh_stalls(p.drop_first()),
            Step::Write(d) => if d.len() == 0 && p.len() > 1 && p[1] is Wait {
                fresh_stalls(p.skip(2))
            } else {
                true
            },
        }
    }
}

impl ScriptState {
    /// Waits last at least a nanosecond and at most a `Duration`, and
    /// deadlines lie within twice that.
    pub open spec fn bounded(self) -> bool {
        &&& forall|i: int| 0 <= i < self.pending.len() ==> step_bounded(#[trigger] self.pending[i])
        &&& match self.current {
            Some(Phase::Waiting(u)) => u <= 2 * MAX_NANOS,
            _ => true,
        }
    }

    /// The operation in progress is finished at time `now`.
    pub open spec fn is_complete(self, now: nat) -> bool {
        match self.current {
            Some(Phase::Reading(d)) => d.len() == 0,
            Some(Phase::Writing(d)) => d.len() == 0,
            Some(Phase::Waiting(u)) => now >= u,
            None => false,
        }
    }

    /// Drops a finished operation and, if none is in progress, starts the
    /// next scripted one.
    pub open spec fn advance(self, now: nat) -> ScriptState {
        let cleared = if self.is_complete(now) {
            ScriptState { pending: self.pending, current: None }
        } else {
            self
        };
        if cleared.current is None && cleared.pending.len() > 0 {
            ScriptState {
                pending: cleared.pending.drop_first(),
                current: Some(begin(cleared.pending[0], now)),
            }
        } else {
            cleared
        }
    }

    /// A read of at most `len` bytes at time `now`: the new state and the
    /// bytes handed out.
    pub open spec fn read(self, len: nat, now: nat) -> (ScriptState, Result<Seq<u8>, IoError>) {
        let s = self.advance(now);
        match s.current {
            Some(Phase::Reading(d)) => {
                let n = min_nat(len, d.len());
                (
                    ScriptState { pending: s.pending, current: Some(Phase::Reading(d.skip(n as int))) },
                    Ok(d.take(n as int)),
                )
            },
            Some(_) => (s, Err(IoError::WouldBlock)),
            None => (s, Ok(Seq::empty())),
        }
    }

    /// The bytes that a write at time `now` is matched against: those of the
    /// write in progress or, while a read is in progress, those of the write
    /// scripted right after the reads; `None` when no write is expected.
    pub open spec fn write_target(self, now: nat) -> Option<Seq<u8>> {
        let s = self.advance(now);
        match s.current {
            Some(Phase::Writing(e)) => Some(e),
            Some(Phase::Reading(_)) => match write_after_reads(s.pending) {
                Some(i) => Some(s.pending[i]->Write_0),
                None => None,
            },
            _ => None,
        }
    }

    /// A write of `src` at time `now` would hand the script bytes that differ
    /// from the ones it expects.
    pub open spec fn write_mismatch(self, src: Seq<u8>, now: nat) -> bool {
        match self.write_target(now) {
            Some(e) => {
                let n = min_nat(src.len(), e.len());
                src.take(n as int) != e.take(n as int)
            },
            None => false,
        }
    }

    /// A write of `src` at time `now`: the new state and the number of bytes
    /// taken. While reads are in progress, the write is matched against the
    /// write scripted right after them, and the reads stay as they are.
    pub open spec fn write(self, src: Seq<u8>, now: nat) -> (ScriptState, Result<nat, IoError>) {
        let s = self.advance(now);
        match s.current {
            Some(Phase::Writing(e)) => {
                let n = min_nat(src.len(), e.len());
                (ScriptState { pending: s.pending, current: Some(Phase::Writing(e.skip(n as int))) }, Ok(n))
            },
            Some(Phase::Reading(_)) => match write_after_reads(s.pending) {
                Some(i) => {
                    let n = min_nat(src.len(), s.pending[i]->Write_0.len());
                    (ScriptState { pending: consume_write(s.pending, i, n), current: s.current }, Ok(n))
                },
                None => (s, Err(IoError::WouldBlock)),
            },
            Some(_) => (s, Err(IoError::WouldBlock)),
            None => (s, Err(IoError::BrokenPipe)),
        }
    }

    /// How long the script stays silent from time `now`, if it is waiting.
    pub open spec fn remaining_wait(self, now: nat) -> (ScriptState, Option<nat>) {
        let s = self.advance(now);
        match s.current {
            Some(Phase::Waiting(u)) => if now >= u {
                (s, None)
            } else {
                (s, Some((u - now) as nat))
            },
            _ => (s, None),
        }
    }

    /// A write at time `now` would find the script expecting something else:
    /// a wait, or reads that no write follows.
    pub open spec fn blocks_write_at(self, now: nat) -> bool {
        let s = self.advance(now);
        match s.current {
            Some(Phase::Writing(_)) => false,
            Some(Phase::Reading(_)) => write_after_reads(s.pending) is None,
            Some(Phase::Waiting(_)) => true,
            None => false,
        }
    }

    /// At some reading of the mock's clock, a write of `src` would hand the
    /// script bytes that differ from the expected ones.
    pub open spec fn may_mismatch(self, src: Seq<u8>) -> bool {
        exists|t: nat| t <= MAX_NANOS && #[trigger] self.write_mismatch(src, t)
    }

    /// At some reading of the mock's clock, a write would find the script
    /// expecting something else.
    pub open spec fn may_block_write(self) -> bool {
        exists|t: nat| t <= MAX_NANOS && #[trigger] self.blocks_write_at(t)
    }

    /// A blocking read can never be answered: once the script's waits are
    /// over, it expects a write.
    pub open spec fn read_stalls(self) -> bool {
        match self.current {
            Some(Phase::Reading(d)) => d.len() == 0 && fresh_stalls(self.pending),
            Some(Phase::Writing(d)) => d.len() > 0 || fresh_stalls(self.pending),
            _ => fresh_stalls(self.pending),
        }
    }

    /// One round of a blocking read at time `now`: read, and if the read would
    /// block, ask how long to sleep.
    pub open spec fn read_step(self, len: nat, now: nat) -> ReadStep {
        let (s1, r) = self.read(len, now);
        match r {
            Err(IoError::WouldBlock) => {
                let (s2, rem) = s1.remaining_wait(now);
                match rem {
                    Some(d) => ReadStep::Sleep(s2, d),
                    None => ReadStep::Stuck(s2),
                }
            },
            _ => ReadStep::Done(s1, r),
        }
    }
}

/// Whether a write mismatches depends on the clock only through the end of
/// the wait in progress.
pub proof fn lemma_mismatch_piecewise(s: ScriptState, src: Seq<u8>, t: nat)
    ensures
        s.write_mismatch(src, t) == match s.current {
            Some(Phase::Waiting(u)) => if t >= u {
                s.write_mismatch(src, u)
            } else {
                s.write_mismatch(src, 0)
            },
            _ => s.write_mismatch(src, 0),
        },
{
}

/// Whether a write would block depends on the clock only through the end of
/// the wait in progress.
pub proof fn lemma_block_piecewise(s: ScriptState, t: nat)
    ensures
        s.blocks_write_at(t) == match s.current {
            Some(Phase::Waiting(u)) => if t >= u {
                s.blocks_write_at(u)
            } else {
                s.blocks_write_at(0)
            },
            _ => s.blocks_write_at(0),
        },
{
}

/// `fresh_stalls` of steps whose first is a wait is that of the rest.
proof fn lemma_fresh_stalls_unfold(p: Seq<Step>)
    ensures
        p.len() > 0 && p[0] is Wait ==> fresh_stalls(p) == fresh_stalls(p.drop_first()),
        p.len() > 1 && p[0] is Write && p[0]->Write_0.len() == 0 && p[1] is Wait ==> fresh_stalls(p)
            == fresh_stalls(p.skip(2)),
        p.len() > 0 && p[0] is Read ==> !fresh_stalls(p),
{
}

/// The reads at the front of `p` are the steps before the first one that
/// is not a read.
pub proof fn lemma_lead_reads(p: Seq<Step>)
    ensures
        lead_reads(p) <= p.len(),
        forall|j: int| 0 <= j < lead_reads(p) ==> #[trigger] p[j] is Read,
        lead_reads(p) < p.len() ==> !(p[lead_reads(p) as int] is Read),
    decreases p.len(),
{
    if p.len() > 0 && p[0] is Read {
        lemma_lead_reads(p.drop_first());
        assert forall|j: int| 0 <= j < lead_reads(p) implies #[trigger] p[j] is Read by {
            if j > 0 {
                assert(p[j] == p.drop_first()[j - 1]);
            }
        }
    }
}

/// Matching a write against a write step keeps every step bounded.
proof fn lemma_consume_bounded(p: Seq<Step>, i: int, n: nat)
    requires
        forall|k: int| 0 <= k < p.len() ==> step_bounded(#[trigger] p[k]),
        0 <= i < p.len(),
        p[i] is Write,
    ensures
        forall|k: int|
            0 <= k < consume_write(p, i, n).len() ==> step_bounded(#[trigger] consume_write(p, i, n)[k]),
{
    let q = consume_write(p, i, n);
    assert forall|k: int| 0 <= k < q.len() implies step_bounded(#[trigger] q[k]) by {
        if n >= p[i]->Write_0.len() {
            if k < i {
                assert(q[k] == p[k]);
            } else {
                assert(q[k] == p[k + 1]);
            }
        } else if k != i {
            assert(q[k] == p[k]);
        }
    }
}

/// A blocking read round on a script that does not stall never gets stuck,
/// and when it sleeps, the script still does not stall.
pub proof fn lemma_no_stall(s: ScriptState, len: nat, t: nat)
    requires
        s.bounded(),
        !s.read_stalls(),
    ensures
        !(s.read_step(len, t) is Stuck),
        s.read_step(len, t) matches ReadStep::Sleep(s2, _) ==> !s2.read_stalls(),
{
    let p = s.pending;
    lemma_fresh_stalls_unfold(p);
    if p.len() > 0 {
        assert(step_bounded(p[0]));
        lemma_fresh_stalls_unfold(p.drop_first());
    }
    if p.len() > 1 {
        assert(step_bounded(p[1]));
        assert(p.drop_first().drop_first() =~= p.skip(2));
    }
}

/// A scripted operation as the mock stores it.
#[derive(Debug, Clone)]
pub enum Action {
    Read(Vec<u8>),
    Write(Vec<u8>),
    /// A wait, in nanoseconds.
    Wait(u128),
}

impl View for Action {
    type V = Step;

    open spec fn view(&self) -> Step {
        match self {
            Action::Read(d) => Step::Read(d@),
            Action::Write(d) => Step::Write(d@),
            Action::Wait(n) => Step::Wait(*n as nat),
        }
    }
}

/// The operation in progress as the mock stores it.
#[derive(Debug)]
pub enum State {
    Reading(Vec<u8>),
    Writing(Vec<u8>),
    /// Silent until this instant, in nanoseconds on the mock's clock.
    Waiting(u128),
}

impl View for State {
    type V = Phase;

    open spec fn view(&self) -> Phase {
        match self {
            State::Reading(d) => Phase::Reading(d@),
            State::Writing(d) => Phase::Writing(d@),
            State::Waiting(u) => Phase::Waiting(*u as nat),
        }
    }
}

/// The steps that a queue of actions stands for.
pub open spec fn steps_of(actions: Seq<Action>) -> Seq<Step> {
    actions.map_values(|a: Action| a@)
}

/// The phase that the operation in progress stands for.
pub open spec fn phase_of(state: Option<State>) -> Option<Phase> {
    match state {
        Some(s) => Some(s@),
        None => None,
    }
}

/// Copies a byte slice into a fresh vector.
pub(crate) fn copy_bytes(src: &[u8]) -> (out: Vec<u8>)
    ensures
        out@ == src@,
{
    let mut out: Vec<u8> = Vec::new();
    let mut i: usize = 0;
    while i < src.len()
        invariant
            i <= src.len(),
            out@ == src@.take(i as int),
        decreases src.len() - i,
    {
        out.push(src[i]);
        i = i + 1;
        assert(out@ =~= src@.take(i as int));
    }
    assert(out@ =~= src@);
    out
}

impl Action {
    /// An independent copy of this action.
    pub(crate) fn duplicate(&self) -> (out: Action)
        ensures
            out@ == self@,
    {
        match self {
            Action::Read(d) => Action::Read(copy_bytes(d.as_slice())),
            Action::Write(d) => Action::Write(copy_bytes(d.as_slice())),
            Action::Wait(n) => Action::Wait(*n),
        }
    }
}

/// Copies a queue of actions.
pub(crate) fn copy_actions(q: &VecDeque<Action>) -> (out: VecDeque<Action>)
    ensures
        steps_of(out@) == steps_of(q@),
{
    let mut out: VecDeque<Action> = VecDeque::new();
    let mut i: usize = 0;
    while i < q.len()
        invariant
            i <= q@.len(),
            steps_of(out@) == steps_of(q@).take(i as int),
        decreases q@.len() - i,
    {
        let a = q[i].duplicate();
        let ghost prev = out@;
        out.push_back(a);
        assert(steps_of(out@) =~= steps_of(prev).push(q@[i as int]@));
        i = i + 1;
        assert(steps_of(out@) =~= steps_of(q@).take(i as int));
    }
    assert(steps_of(out@) =~= steps_of(q@));
    out
}

/// The executable script: scripted actions not started yet and the one in progress.
#[derive(Debug)]
pub(crate) struct Inner {
    pub(crate) actions: VecDeque<Action>,
    pub(crate) state: Option<State>,
}

impl View for Inner {
    type V = ScriptState;

    closed spec fn view(&self) -> ScriptState {
        ScriptState { pending: steps_of(self.actions@), current: phase_of(self.state) }
    }
}

impl Inner {
    /// A script that has not started: every action is pending.
    pub(crate) fn new(actions: VecDeque<Action>) -> (inner: Inner)
        ensures
            inner@ == (ScriptState { pending: steps_of(actions@), current: None }),
    {
        Inner { actions, state: None }
    }

    /// The operation in progress is a read, or none is in progress.
    pub(crate) fn expects_read_or_over(&self) -> (b: bool)
        ensures
            b == (self@.current matches Some(Phase::Reading(_)) || self@.current is None),
    {
        match &self.state {
            Some(State::Reading(_)) | None => true,
            _ => false,
        }
    }

    /// The operation in progress is a write.
    pub(crate) fn expects_write(&self) -> (b: bool)
        ensures
            b == (self@.current matches Some(Phase::Writing(_))),
    {
        match &self.state {
            Some(State::Writing(_)) => true,
            _ => false,
        }
    }

    pub(crate) fn is_current_action_complete(&self, now: u128) -> (b: bool)
        ensures
            b == self@.is_complete(now as nat),
    {
        match &self.state {
            Some(State::Reading(data)) => data.len() == 0,
            Some(State::Writing(data)) => data.len() == 0,
            Some(State::Waiting(until)) => now >= *until,
            None => false,
        }
    }

    /// Drops a finished action and starts the next one if none is in progress.
    pub(crate) fn action(&mut self, now: u128)
        requires
            old(self)@.bounded(),
            now <= MAX_NANOS,
        ensures
            final(self)@ == old(self)@.advance(now as nat),
            final(self)@.bounded(),
    {
        if self.is_current_action_complete(now) {
            self.state = None;
        }
        if self.state.is_none() {
            let ghost before = self.actions@;
            match self.actions.pop_front() {
                Some(Action::Read(data)) => {
                    self.state = Some(State::Reading(data));
                },
                Some(Action::Write(data)) => {
                    self.state = Some(State::Writing(data));
                },
                Some(Action::Wait(dur)) => {
                    assert(step_bounded(steps_of(before)[0]));
                    self.state = Some(State::Waiting(now + dur));
                },
                None => {},
            }
            proof {
                if before.len() > 0 {
                    assert(steps_of(self.actions@) =~= steps_of(before).drop_first());
                }
            }
        }
        proof {
            let s = self@;
            assert forall|i: int| 0 <= i < s.pending.len() implies step_bounded(#[trigger] s.pending[i]) by {
                assert(s.pending[i] == old(self)@.advance(now as nat).pending[i]);
                if old(self)@.advance(now as nat).pending.len() < old(self)@.pending.len() {
                    assert(s.pending[i] == old(self)@.pending[i + 1]);
                } else {
                    assert(s.pending[i] == old(self)@.pending[i]);
                }
            }
        }
    }

    pub(crate) fn read(&mut self, dst: &mut [u8], now: u128) -> (r: Result<usize, IoError>)
        requires
            old(self)@.bounded(),
            now <= MAX_NANOS,
        ensures
            final(self)@ == old(self)@.read(old(dst)@.len(), now as nat).0,
            final(self)@.bounded(),
            final(dst)@.len() == old(dst)@.len(),
            match old(self)@.read(old(dst)@.len(), now as nat).1 {
                Ok(bytes) => r == Ok::<usize, IoError>(bytes.len() as usize)
                    && final(dst)@ == bytes + old(dst)@.skip(bytes.len() as int),
                Err(e) => r == Err::<usize, IoError>(e) && final(dst)@ == old(dst)@,
            },
    {
        self.action(now);
        match self.state.take() {
            Some(State::Reading(mut data)) => {
                let n: usize = if dst.len() < data.len() { dst.len() } else { data.len() };
                let ghost d0 = dst@;
                let mut i: usize = 0;
                while i < n
                    invariant
                        n <= dst.len(),
                        n <= data.len(),
                        i <= n,
                        dst@.len() == d0.len(),
                        forall|j: int| 0 <= j < i ==> dst@[j] == data@[j],
                        forall|j: int| i <= j < d0.len() ==> dst@[j] == d0[j],
                    decreases n - i,
                {
                    dst[i] = data[i];
                    i = i + 1;
                }
                let rest = data.split_off(n);
                assert(dst@ =~= data@ + d0.skip(n as int));
                self.state = Some(State::Reading(rest));
                Ok(n)
            },
            Some(other) => {
                self.state = Some(other);
                Err(IoError::WouldBlock)
            },
            None => {
                assert(dst@ =~= Seq::<u8>::empty() + dst@.skip(0));
                Ok(0)
            },
        }
    }

    pub(crate) fn write(&mut self, src: &[u8], now: u128) -> (r: Result<usize, IoError>)
        requires
            old(self)@.bounded(),
            now <= MAX_NANOS,
            !old(self)@.write_mismatch(src@, now as nat),
        ensures
            final(self)@ == old(self)@.write(src@, now as nat).0,
            final(self)@.bounded(),
            match old(self)@.write(src@, now as nat).1 {
                Ok(n) => r == Ok::<usize, IoError>(n as usize),
                Err(e) => r == Err::<usize, IoError>(e),
            },
    {
        self.action(now);
        match self.state.take() {
            Some(State::Writing(mut expect)) => {
                let n: usize = if src.len() < expect.len() { src.len() } else { expect.len() };
                let rest = expect.split_off(n);
                self.state = Some(State::Writing(rest));
                Ok(n)
            },
            Some(State::Reading(data)) => {
                self.state = Some(State::Reading(data));
                assert(self@.pending.skip(0) =~= self@.pending);
                match self.find_write_from(0) {
                    Some(i) => {
                        let ghost p = self@.pending;
                        let n = self.consume_pending_write(i, src.len());
                        proof {
                            lemma_consume_bounded(p, i as int, n as nat);
                        }
                        Ok(n)
                    },
                    None => Err(IoError::WouldBlock),
                }
            },
            Some(other) => {
                self.state = Some(other);
                Err(IoError::WouldBlock)
            },
            None => Err(IoError::BrokenPipe),
        }
    }

    /// The place of the write scripted right after the reads that start at
    /// place `from` of the pending actions, if the action after them is a write.
    fn find_write_from(&self, from: usize) -> (r: Option<usize>)
        requires
            from <= self@.pending.len(),
        ensures
            match write_after_reads(self@.pending.skip(from as int)) {
                Some(k) => r matches Some(j) && j == k + from,
                None => r is None,
            },
            r matches Some(j) ==> from <= j < self@.pending.len() && self@.pending[j as int] is Write,
    {
        let ghost p = self@.pending;
        let ghost q = p.skip(from as int);
        let n = self.actions.len();
        let mut i: usize = from;
        loop
            invariant_except_break
                from <= i <= n,
                n == self.actions@.len(),
                p == self@.pending,
                forall|j: int| from <= j < i ==> #[trigger] p[j] is Read,
            ensures
                from <= i <= n,
                n == self.actions@.len(),
                p == self@.pending,
                forall|j: int| from <= j < i ==> #[trigger] p[j] is Read,
                i < n ==> !(p[i as int] is Read),
            decreases n - i,
        {
            if i >= n {
                break;
            }
            assert(p[i as int] == self.actions@[i as int]@);
            match &self.actions[i] {
                Action::Read(_) => {
                    i = i + 1;
                },
                _ => {
                    break;
                },
            }
        }
        proof {
            lemma_lead_reads(q);
            let l = lead_reads(q) as int;
            if l < i - from {
                assert(q[l] == p[from + l]);
                assert(p[from + l] is Read);
            }
            if l > i - from {
                assert(q[i - from] is Read);
                assert(q[i - from] == p[i as int]);
            }
            assert(l == i - from);
        }
        if i < n {
            assert(p[i as int] == self.actions@[i as int]@);
            match &self.actions[i] {
                Action::Write(_) => {
                    assert(q[i - from] == p[i as int]);
                    Some(i)
                },
                _ => {
                    assert(q[i - from] == p[i as int]);
                    None
                },
            }
        } else {
            None
        }
    }

    /// Matches a write of `len` bytes against the pending write at place `i`:
    /// the bytes matched leave it, and it leaves the queue once none remain.
    fn consume_pending_write(&mut self, i: usize, len: usize) -> (n: usize)
        requires
            i < old(self)@.pending.len(),
            old(self)@.pending[i as int] is Write,
        ensures
            n == min_nat(len as nat, old(self)@.pending[i as int]->Write_0.len()),
            final(self)@ == (ScriptState {
                pending: consume_write(old(self)@.pending, i as int, n as nat),
                current: old(self)@.current,
            }),
    {
        let ghost p = self@.pending;
        let ghost acts = self.actions@;
        assert(p[i as int] == acts[i as int]@);
        match self.actions.remove(i) {
            Some(Action::Write(mut e)) => {
                let n: usize = if len < e.len() { len } else { e.len() };
                assert(steps_of(self.actions@) =~= p.remove(i as int));
                if n < e.len() {
                    let rest = e.split_off(n);
                    let ghost before = self.actions@;
                    self.actions.insert(i, Action::Write(rest));
                    assert(steps_of(self.actions@) =~= steps_of(before).insert(i as int, Step::Write(rest@)));
                    assert(steps_of(self.actions@) =~= p.update(
                        i as int,
                        Step::Write(p[i as int]->Write_0.skip(n as int)),
                    ));
                }
                n
            },
            _ => {
                assert(false);
                0
            },
        }
    }

    /// Tells, without changing anything, whether a write at `now` would find
    /// the script expecting something else.
    pub(crate) fn blocks_write_at(&self, now: u128) -> (b: bool)
        requires
            self@.bounded(),
        ensures
            b == self@.blocks_write_at(now as nat),
    {
        let complete = self.is_current_action_complete(now);
        if !complete && self.state.is_some() {
            match &self.state {
                Some(State::Writing(_)) => false,
                Some(State::Reading(_)) => {
                    assert(self@.pending.skip(0) =~= self@.pending);
                    self.find_write_from(0).is_none()
                },
                _ => true,
            }
        } else if self.actions.len() == 0 {
            false
        } else {
            assert(self@.pending[0] == self.actions@[0]@);
            match &self.actions[0] {
                Action::Write(_) => false,
                Action::Read(_) => {
                    assert(self@.pending.skip(1) =~= self@.pending.drop_first());
                    self.find_write_from(1).is_none()
                },
                _ => true,
            }
        }
    }

    /// Tells whether, at some reading of the clock, writing `src` would hand
    /// the script bytes that differ from the expected ones.
    pub(crate) fn may_mismatch(&self, src: &[u8]) -> (b: bool)
        requires
            self@.bounded(),
        ensures
            b == self@.may_mismatch(src@),
    {
        let ghost s = self@;
        let at_start = self.would_mismatch(src, 0);
        let after_wait = match &self.state {
            Some(State::Waiting(u)) => *u <= MAX_NANOS && self.would_mismatch(src, *u),
            _ => false,
        };
        proof {
            if at_start {
                assert(s.write_mismatch(src@, 0));
            }
            if after_wait {
                let u = s.current->Some_0->Waiting_0;
                assert(s.write_mismatch(src@, u));
            }
            assert forall|t: nat| t <= MAX_NANOS && #[trigger] s.write_mismatch(src@, t) implies at_start
                || after_wait by {
                lemma_mismatch_piecewise(s, src@, t);
            }
        }
        at_start || after_wait
    }

    /// Tells whether, at some reading of the clock, a write would find the
    /// script expecting something else.
    pub(crate) fn may_block_write(&self) -> (b: bool)
        requires
            self@.bounded(),
        ensures
            b == self@.may_block_write(),
    {
        let ghost s = self@;
        let at_start = self.blocks_write_at(0);
        let after_wait = match &self.state {
            Some(State::Waiting(u)) => *u <= MAX_NANOS && self.blocks_write_at(*u),
            _ => false,
        };
        proof {
            if at_start {
                assert(s.blocks_write_at(0));
            }
            if after_wait {
                let u = s.current->Some_0->Waiting_0;
                assert(s.blocks_write_at(u));
            }
            assert forall|t: nat| t <= MAX_NANOS && #[trigger] s.blocks_write_at(t) implies at_start
                || after_wait by {
                lemma_block_piecewise(s, t);
            }
        }
        at_start || after_wait
    }

    /// Tells whether a blocking read can never be answered.
    pub(crate) fn read_stalls(&self) -> (b: bool)
        ensures
            b == self@.read_stalls(),
    {
        let ghost p = self@.pending;
        let mut i: usize = 0;
        let n = self.actions.len();
        assert(p.skip(0) =~= p);
        while i < n
            invariant
                n == self.actions@.len(),
                p == self@.pending,
                i <= n,
                fresh_stalls(p) == fresh_stalls(p.skip(i as int)),
            decreases n - i,
        {
            proof {
                assert(p.skip(i as int)[0] == p[i as int]);
                lemma_fresh_stalls_unfold(p.skip(i as int));
                assert(p.skip(i as int).drop_first() =~= p.skip(i + 1));
            }
            match &self.actions[i] {
                Action::Read(_) => {
                    return self.reading_stalls(false);
                },
                Action::Wait(_) => {
                    i = i + 1;
                },
                Action::Write(d) => {
                    let next_is_wait = i + 1 < n && match &self.actions[i + 1] {
                        Action::Wait(_) => true,
                        _ => false,
                    };
                    if d.len() == 0 && next_is_wait {
                        proof {
                            assert(p.skip(i as int)[1] == p[i + 1]);
                            assert(p.skip(i as int).skip(2) =~= p.skip(i + 2));
                        }
                        i = i + 2;
                    } else {
                        return self.reading_stalls(true);
                    }
                },
            }
        }
        assert(p.skip(i as int).len() == 0);
        self.reading_stalls(false)
    }

    /// Whether a blocking read stalls, given whether the pending steps stall
    /// once started.
    fn reading_stalls(&self, fresh: bool) -> (b: bool)
        requires
            fresh == fresh_stalls(self@.pending),
        ensures
            b == self@.read_stalls(),
    {
        match &self.state {
            Some(State::Reading(d)) => d.len() == 0 && fresh,
            Some(State::Writing(d)) => d.len() > 0 || fresh,
            _ => fresh,
        }
    }

    /// Tells, without changing anything, whether writing `src` at `now` would
    /// hand the script bytes that differ from the expected ones.
    pub(crate) fn would_mismatch(&self, src: &[u8], now: u128) -> (b: bool)
        requires
            self@.bounded(),
            now <= MAX_NANOS,
        ensures
            b == self@.write_mismatch(src@, now as nat),
    {
        let complete = self.is_current_action_complete(now);
        let expected: &Vec<u8> = if !complete && self.state.is_some() {
            match &self.state {
                Some(State::Writing(e)) => e,
                Some(State::Reading(_)) => {
                    assert(self@.pending.skip(0) =~= self@.pending);
                    match self.find_write_from(0) {
                        Some(i) => {
                            assert(self@.pending[i as int] == self.actions@[i as int]@);
                            match &self.actions[i] {
                                Action::Write(e) => e,
                                _ => return false,
                            }
                        },
                        None => return false,
                    }
                },
                _ => return false,
            }
        } else {
            if self.actions.len() == 0 {
                return false;
            }
            assert(self@.pending[0] == self.actions@[0]@);
            match &self.actions[0] {
                Action::Write(e) => e,
                Action::Read(_) => {
                    assert(self@.pending.skip(1) =~= self@.pending.drop_first());
                    match self.find_write_from(1) {
                        Some(i) => {
                            assert(self@.pending[i as int] == self.actions@[i as int]@);
                            assert(self@.pending.drop_first()[i - 1] == self@.pending[i as int]);
                            match &self.actions[i] {
                                Action::Write(e) => e,
                                _ => return false,
                            }
                        },
                        None => return false,
                    }
                },
                _ => return false,
            }
        };
        assert(self@.write_target(now as nat) == Some(expected@));
        let n: usize = if src.len() < expected.len() { src.len() } else { expected.len() };
        let mut i: usize = 0;
        while i < n
            invariant
                n == min_nat(src@.len(), expected@.len()),
                self@.write_target(now as nat) == Some(expected@),
                i <= n,
                forall|j: int| 0 <= j < i ==> src@[j] == expected@[j],
            decreases n - i,
        {
            if src[i] != expected[i] {
                assert(src@.take(n as int)[i as int] != expected@.take(n as int)[i as int]);
                assert(src@.take(n as int) != expected@.take(n as int));
                assert(n == min_nat(src@.len(), expected@.len()));
                return true;
            }
            i = i + 1;
        }
        assert(src@.take(n as int) =~= expected@.take(n as int));
        false
    }

    pub(crate) fn remaining_wait(&mut self, now: u128) -> (r: Option<u128>)
        requires
            old(self)@.bounded(),
            now <= MAX_NANOS,
        ensures
            final(self)@ == old(self)@.remaining_wait(now as nat).0,
            final(self)@.bounded(),
            match old(self)@.remaining_wait(now as nat).1 {
                Some(d) => r == Some(d as u128),
                None => r is None,
            },
    {
        self.action(now);
        match &self.state {
            Some(State::Waiting(until)) => {
                if now >= *until {
                    return None;
                }
                Some(*until - now)
            },
            _ => None,
        }
    }
}

} // verus!
