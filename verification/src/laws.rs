//! What holds of every script: reads hand out the scripted read bytes in
//! order and writes take the scripted write bytes in order, however they
//! interleave; waits hold the script back until their deadline, and what
//! remains of a wait is never more than the wait; a finished script answers
//! every read with nothing and every write with a broken pipe.
use crate::builder::{elapsed_before, replay, wait_step, Direction, Packet};
use crate::mock::{
    async_read_ends, async_read_outcome, chooses_async, read_done, readings_between, sleeps_through,
    sync_read_ends, sync_read_outcome, write_done, async_write_at, sync_write_at, Mock, MockError,
};
use crate::outside::nanos_of;
use crate::script::{min_nat, IoError, Phase, ReadStep, ScriptState, Step};
use vstd::prelude::*;

verus! {

/// The bytes of the `Read` steps, in order.
pub open spec fn read_bytes(steps: Seq<Step>) -> Seq<u8>
    decreases steps.len(),
{
    if steps.len() == 0 {
        Seq::empty()
    } else {
        match steps[0] {
            Step::Read(d) => d + read_bytes(steps.drop_first()),
            _ => read_bytes(steps.drop_first()),
        }
    }
}

/// The bytes of the `Write` steps, in order.
pub open spec fn write_bytes(steps: Seq<Step>) -> Seq<u8>
    decreases steps.len(),
{
    if steps.len() == 0 {
        Seq::empty()
    } else {
        match steps[0] {
            Step::Write(d) => d + write_bytes(steps.drop_first()),
            _ => write_bytes(steps.drop_first()),
        }
    }
}

/// Every step of the script is a read, and nothing but a read is in progress.
pub open spec fn reads_only(s: ScriptState) -> bool {
    &&& forall|i: int| 0 <= i < s.pending.len() ==> #[trigger] s.pending[i] is Read
    &&& match s.current {
        Some(Phase::Reading(_)) => true,
        None => true,
        _ => false,
    }
}

/// Every step of the script is a write, and nothing but a write is in progress.
pub open spec fn writes_only(s: ScriptState) -> bool {
    &&& forall|i: int| 0 <= i < s.pending.len() ==> #[trigger] s.pending[i] is Write
    &&& match s.current {
        Some(Phase::Writing(_)) => true,
        None => true,
        _ => false,
    }
}

/// The bytes that reads will still hand out.
pub open spec fn queued_reads(s: ScriptState) -> Seq<u8> {
    match s.current {
        Some(Phase::Reading(d)) => d + read_bytes(s.pending),
        _ => read_bytes(s.pending),
    }
}

/// The bytes that writes are still expected to carry.
pub open spec fn queued_writes(s: ScriptState) -> Seq<u8> {
    match s.current {
        Some(Phase::Writing(d)) => d + write_bytes(s.pending),
        _ => write_bytes(s.pending),
    }
}

/// Nothing is scripted any more and nothing is in progress but a finished
/// read or write.
pub open spec fn is_over(s: ScriptState) -> bool {
    &&& s.pending.len() == 0
    &&& match s.current {
        None => true,
        Some(Phase::Reading(d)) => d.len() == 0,
        Some(Phase::Writing(d)) => d.len() == 0,
        Some(Phase::Waiting(_)) => false,
    }
}

/// Whatever the time, a finished script answers a read with no bytes and a
/// write with a broken pipe, and stays finished.
pub proof fn law_over_script_answers(s: ScriptState, len: nat, src: Seq<u8>, t: nat)
    requires
        is_over(s),
    ensures
        s.read(len, t).1 == Ok::<Seq<u8>, IoError>(Seq::empty()),
        is_over(s.read(len, t).0),
        s.write(src, t).1 == Err::<nat, IoError>(IoError::BrokenPipe),
        is_over(s.write(src, t).0),
        !s.write_mismatch(src, t),
{
}

/// A write is refused as blocking exactly when, at that time, the script
/// expects no write (it waits, or no write follows the reads in progress),
/// and with a broken pipe exactly when the script is over; a write refused
/// either way leaves the script as advancing it to that time does.
pub proof fn law_write_refusals(s: ScriptState, src: Seq<u8>, t: nat)
    ensures
        (s.write(src, t).1 == Err::<nat, IoError>(IoError::WouldBlock)) == s.blocks_write_at(t),
        (s.write(src, t).1 == Err::<nat, IoError>(IoError::BrokenPipe)) == (s.advance(t).current is None),
        s.write(src, t).1 is Err ==> s.write(src, t).0 == s.advance(t),
{
}

/// A broken pipe is final: the script it leaves is over, so every later read
/// hands out nothing and every later write finds a broken pipe again.
pub proof fn law_broken_pipe_is_final(s: ScriptState, src: Seq<u8>, t: nat)
    requires
        s.write(src, t).1 == Err::<nat, IoError>(IoError::BrokenPipe),
    ensures
        is_over(s.write(src, t).0),
{
}

/// A blocking write never answers `WouldBlock` nor `NotInTask`: a write that
/// the script does not expect is refused as unexpected.
pub proof fn law_blocking_write_never_blocks(
    s0: ScriptState,
    src: Seq<u8>,
    s1: ScriptState,
    r: Result<usize, MockError>,
    t: nat,
)
    requires
        sync_write_at(s0, src, s1, r, t),
    ensures
        r != Err::<usize, MockError>(MockError::WouldBlock),
        r != Err::<usize, MockError>(MockError::NotInTask),
        (r == Err::<usize, MockError>(MockError::UnexpectedWrite)) == s0.blocks_write_at(t),
{
    law_write_refusals(s0, src, t);
}

/// Advancing the script keeps the bytes that reads will hand out.
proof fn lemma_advance_keeps_reads(s: ScriptState, t: nat)
    requires
        reads_only(s),
    ensures
        reads_only(s.advance(t)),
        queued_reads(s.advance(t)) == queued_reads(s),
{
    let c = if s.is_complete(t) {
        ScriptState { pending: s.pending, current: None }
    } else {
        s
    };
    assert(queued_reads(c) == queued_reads(s)) by {
        if s.is_complete(t) {
            if let Some(Phase::Reading(d)) = s.current {
                assert(d =~= Seq::<u8>::empty());
                assert(d + read_bytes(s.pending) =~= read_bytes(s.pending));
            }
        }
    }
    if c.current is None && c.pending.len() > 0 {
        assert(c.pending[0] is Read);
        let a = s.advance(t);
        assert(a.pending =~= c.pending.drop_first());
        assert forall|i: int| 0 <= i < a.pending.len() implies #[trigger] a.pending[i] is Read by {
            assert(a.pending[i] == c.pending[i + 1]);
        }
    }
}

/// Advancing the script keeps the bytes that writes are expected to carry.
proof fn lemma_advance_keeps_writes(s: ScriptState, t: nat)
    requires
        writes_only(s),
    ensures
        writes_only(s.advance(t)),
        queued_writes(s.advance(t)) == queued_writes(s),
{
    let c = if s.is_complete(t) {
        ScriptState { pending: s.pending, current: None }
    } else {
        s
    };
    assert(queued_writes(c) == queued_writes(s)) by {
        if s.is_complete(t) {
            if let Some(Phase::Writing(d)) = s.current {
                assert(d =~= Seq::<u8>::empty());
                assert(d + write_bytes(s.pending) =~= write_bytes(s.pending));
            }
        }
    }
    if c.current is None && c.pending.len() > 0 {
        assert(c.pending[0] is Write);
        let a = s.advance(t);
        assert(a.pending =~= c.pending.drop_first());
        assert forall|i: int| 0 <= i < a.pending.len() implies #[trigger] a.pending[i] is Write by {
            assert(a.pending[i] == c.pending[i + 1]);
        }
    }
}

/// The bytes of steps laid end to end are those of each part, in order.
proof fn lemma_bytes_concat(a: Seq<Step>, b: Seq<Step>)
    ensures
        read_bytes(a + b) == read_bytes(a) + read_bytes(b),
        write_bytes(a + b) == write_bytes(a) + write_bytes(b),
    decreases a.len(),
{
    if a.len() == 0 {
        assert(a + b =~= b);
        assert(Seq::<u8>::empty() + read_bytes(b) =~= read_bytes(b));
        assert(Seq::<u8>::empty() + write_bytes(b) =~= write_bytes(b));
    } else {
        lemma_bytes_concat(a.drop_first(), b);
        assert((a + b).drop_first() =~= a.drop_first() + b);
        assert((a + b)[0] == a[0]);
        match a[0] {
            Step::Read(d) => {
                assert(d + (read_bytes(a.drop_first()) + read_bytes(b)) =~= (d + read_bytes(
                    a.drop_first(),
                )) + read_bytes(b));
            },
            Step::Write(d) => {
                assert(d + (write_bytes(a.drop_first()) + write_bytes(b)) =~= (d + write_bytes(
                    a.drop_first(),
                )) + write_bytes(b));
            },
            Step::Wait(_) => {},
        }
    }
}

/// The bytes of a single step.
proof fn lemma_bytes_single(x: Step)
    ensures
        read_bytes(seq![x]) == match x {
            Step::Read(d) => d,
            _ => Seq::<u8>::empty(),
        },
        write_bytes(seq![x]) == match x {
            Step::Write(d) => d,
            _ => Seq::<u8>::empty(),
        },
{
    let q = seq![x];
    assert(q.drop_first() =~= Seq::<Step>::empty());
    assert(read_bytes(Seq::<Step>::empty()) =~= Seq::<u8>::empty());
    assert(write_bytes(Seq::<Step>::empty()) =~= Seq::<u8>::empty());
    assert(read_bytes(q.drop_first()) == Seq::<u8>::empty());
    assert(write_bytes(q.drop_first()) == Seq::<u8>::empty());
    assert(q[0] == x);
    match x {
        Step::Read(d) => {
            assert(d + Seq::<u8>::empty() =~= d);
        },
        Step::Write(d) => {
            assert(d + Seq::<u8>::empty() =~= d);
        },
        Step::Wait(_) => {},
    }
}

/// Reads only: no write bytes.
proof fn lemma_reads_no_writes(p: Seq<Step>)
    requires
        forall|j: int| 0 <= j < p.len() ==> #[trigger] p[j] is Read,
    ensures
        write_bytes(p) == Seq::<u8>::empty(),
    decreases p.len(),
{
    if p.len() > 0 {
        assert(p[0] is Read);
        assert forall|j: int| 0 <= j < p.drop_first().len() implies #[trigger] p.drop_first()[j] is Read by {
            assert(p.drop_first()[j] == p[j + 1]);
        }
        lemma_reads_no_writes(p.drop_first());
    }
}

/// The bytes of `p`, of `p` without the step at `i`, and of `p` with the
/// step at `i` replaced by `x`, taken around that step.
proof fn lemma_bytes_around(p: Seq<Step>, i: int, x: Step)
    requires
        0 <= i < p.len(),
    ensures
        read_bytes(p) == read_bytes(p.take(i)) + read_bytes(seq![p[i]]) + read_bytes(p.skip(i + 1)),
        write_bytes(p) == write_bytes(p.take(i)) + write_bytes(seq![p[i]]) + write_bytes(p.skip(i + 1)),
        read_bytes(p.remove(i)) == read_bytes(p.take(i)) + read_bytes(p.skip(i + 1)),
        write_bytes(p.remove(i)) == write_bytes(p.take(i)) + write_bytes(p.skip(i + 1)),
        read_bytes(p.update(i, x)) == read_bytes(p.take(i)) + read_bytes(seq![x]) + read_bytes(p.skip(i + 1)),
        write_bytes(p.update(i, x)) == write_bytes(p.take(i)) + write_bytes(seq![x]) + write_bytes(p.skip(i + 1)),
{
    assert(p =~= p.take(i) + seq![p[i]] + p.skip(i + 1));
    assert(p.remove(i) =~= p.take(i) + p.skip(i + 1));
    assert(p.update(i, x) =~= p.take(i) + seq![x] + p.skip(i + 1));
    lemma_bytes_concat(p.take(i) + seq![p[i]], p.skip(i + 1));
    lemma_bytes_concat(p.take(i), seq![p[i]]);
    lemma_bytes_concat(p.take(i), p.skip(i + 1));
    lemma_bytes_concat(p.take(i) + seq![x], p.skip(i + 1));
    lemma_bytes_concat(p.take(i), seq![x]);
}

/// Advancing the script keeps the bytes still to be read and still to be
/// written.
proof fn lemma_advance_keeps_queues(s: ScriptState, t: nat)
    ensures
        queued_reads(s.advance(t)) == queued_reads(s),
        queued_writes(s.advance(t)) == queued_writes(s),
{
    let c = if s.is_complete(t) {
        ScriptState { pending: s.pending, current: None }
    } else {
        s
    };
    if s.is_complete(t) {
        match s.current {
            Some(Phase::Reading(d)) => {
                assert(d + read_bytes(s.pending) =~= read_bytes(s.pending));
            },
            Some(Phase::Writing(d)) => {
                assert(d + write_bytes(s.pending) =~= write_bytes(s.pending));
            },
            _ => {},
        }
    }
    assert(queued_reads(c) == queued_reads(s));
    assert(queued_writes(c) == queued_writes(s));
}

/// However reads and writes interleave, reads hand out the scripted read
/// bytes in order and writes take the scripted write bytes in order: a read
/// that goes through hands out at most `len` bytes, the next ones queued for
/// reading; a write whose bytes match the script and that goes through takes
/// the first `n` bytes of `src`, the next ones queued for writing, also while
/// reads are still in progress before that write. A read never changes what
/// is queued for writing, nor a write what is queued for reading, and an
/// operation that does not go through changes neither.
pub proof fn law_queues_in_order(s: ScriptState, len: nat, src: Seq<u8>, t: nat)
    ensures
        queued_writes(s.read(len, t).0) == queued_writes(s),
        match s.read(len, t).1 {
            Ok(bytes) => bytes.len() <= len && bytes + queued_reads(s.read(len, t).0) == queued_reads(s),
            Err(_) => queued_reads(s.read(len, t).0) == queued_reads(s),
        },
        queued_reads(s.write(src, t).0) == queued_reads(s),
        !s.write_mismatch(src, t) ==> match s.write(src, t).1 {
            Ok(n) => n <= src.len() && src.take(n as int) + queued_writes(s.write(src, t).0) == queued_writes(s),
            Err(_) => queued_writes(s.write(src, t).0) == queued_writes(s),
        },
        s.write(src, t).1 is Err ==> queued_writes(s.write(src, t).0) == queued_writes(s),
{
    lemma_advance_keeps_queues(s, t);
    let a = s.advance(t);
    let p = a.pending;
    match a.current {
        Some(Phase::Reading(d)) => {
            let n = min_nat(len, d.len());
            assert(d.take(n as int) + (d.skip(n as int) + read_bytes(p)) =~= d + read_bytes(p));
            match crate::script::write_after_reads(p) {
                Some(i) => {
                    let e = p[i]->Write_0;
                    let m = min_nat(src.len(), e.len());
                    crate::script::lemma_lead_reads(p);
                    assert forall|j: int| 0 <= j < p.take(i).len() implies #[trigger] p.take(i)[j] is Read by {
                        assert(p.take(i)[j] == p[j]);
                    }
                    lemma_reads_no_writes(p.take(i));
                    let x = Step::Write(e.skip(m as int));
                    lemma_bytes_around(p, i, x);
                    lemma_bytes_single(p[i]);
                    lemma_bytes_single(x);
                    assert(Seq::<u8>::empty() + e =~= e);
                    if m >= e.len() {
                        assert(read_bytes(p.take(i)) + Seq::<u8>::empty() =~= read_bytes(p.take(i)));
                        assert(Seq::<u8>::empty() + write_bytes(p.skip(i + 1)) =~= write_bytes(p.skip(i + 1)));
                        if !s.write_mismatch(src, t) {
                            assert(src.take(m as int) =~= e);
                            assert(Seq::<u8>::empty() + e + write_bytes(p.skip(i + 1)) =~= e + write_bytes(p.skip(i + 1)));
                        }
                    } else {
                        assert(read_bytes(p.take(i)) + Seq::<u8>::empty() =~= read_bytes(p.take(i)));
                        if !s.write_mismatch(src, t) {
                            assert(src.take(m as int) == e.take(m as int));
                            assert(Seq::<u8>::empty() + e + write_bytes(p.skip(i + 1)) =~= e + write_bytes(p.skip(i + 1)));
                            assert(src.take(m as int) + (Seq::<u8>::empty() + e.skip(m as int) + write_bytes(p.skip(i + 1)))
                                =~= e + write_bytes(p.skip(i + 1)));
                        }
                    }
                },
                None => {},
            }
        },
        Some(Phase::Writing(e)) => {
            let m = min_nat(src.len(), e.len());
            if !s.write_mismatch(src, t) {
                assert(src.take(m as int) == e.take(m as int));
                assert(e.take(m as int) + (e.skip(m as int) + write_bytes(p)) =~= e + write_bytes(p));
            }
        },
        Some(Phase::Waiting(_)) => {},
        None => {
            assert(p.len() == 0);
            assert(Seq::<u8>::empty() + read_bytes(p) =~= read_bytes(p));
        },
    }
}

/// On a script of reads, a read never blocks: it hands out at most `len`
/// bytes, and what it hands out followed by what remains queued is what was
/// queued, so reads hand out the scripted bytes in order.
pub proof fn law_reads_hand_out_script(s: ScriptState, len: nat, t: nat)
    requires
        reads_only(s),
    ensures
        s.read(len, t).1 is Ok,
        reads_only(s.read(len, t).0),
        s.read(len, t).1->Ok_0 + queued_reads(s.read(len, t).0) == queued_reads(s),
        s.read(len, t).1->Ok_0.len() <= len,
{
    lemma_advance_keeps_reads(s, t);
    let a = s.advance(t);
    if let Some(Phase::Reading(d)) = a.current {
        let n = min_nat(len, d.len());
        assert(d.take(n as int) + (d.skip(n as int) + read_bytes(a.pending)) =~= d + read_bytes(
            a.pending,
        ));
    } else {
        assert(Seq::<u8>::empty() + queued_reads(a) =~= queued_reads(a));
    }
}

/// On a script of writes, a write whose bytes match the expected ones never
/// blocks while something is still expected: it takes the first `n` bytes of
/// `src`, which are the next expected bytes; once nothing is expected it is
/// refused with a broken pipe.
pub proof fn law_writes_consume_script(s: ScriptState, src: Seq<u8>, t: nat)
    requires
        writes_only(s),
        !s.write_mismatch(src, t),
    ensures
        writes_only(s.write(src, t).0),
        match s.write(src, t).1 {
            Ok(n) => n <= src.len() && src.take(n as int) + queued_writes(s.write(src, t).0)
                == queued_writes(s),
            Err(e) => e == IoError::BrokenPipe && queued_writes(s) == Seq::<u8>::empty(),
        },
{
    lemma_advance_keeps_writes(s, t);
    let a = s.advance(t);
    if let Some(Phase::Writing(e)) = a.current {
        let n = min_nat(src.len(), e.len());
        assert(src.take(n as int) == e.take(n as int));
        assert(e.take(n as int) + (e.skip(n as int) + write_bytes(a.pending)) =~= e + write_bytes(
            a.pending,
        ));
    } else {
        assert(a.current is None);
        assert(a.pending.len() == 0);
        assert(write_bytes(a.pending) =~= Seq::<u8>::empty());
    }
}

/// While a wait is in progress and its deadline has not come, reads and
/// writes would block and leave the script as it is, and the wait that
/// remains is the time to the deadline.
pub proof fn law_wait_holds_back(s: ScriptState, len: nat, src: Seq<u8>, t: nat, u: nat)
    requires
        s.current == Some(Phase::Waiting(u)),
        t < u,
    ensures
        s.read(len, t) == (s, Err::<Seq<u8>, IoError>(IoError::WouldBlock)),
        s.write(src, t) == (s, Err::<nat, IoError>(IoError::WouldBlock)),
        s.remaining_wait(t) == (s, Some((u - t) as nat)),
        s.read_step(len, t) == ReadStep::Sleep(s, (u - t) as nat),
{
}

/// Once a wait's deadline has come, the script moves on to the next step.
pub proof fn law_wait_ends(s: ScriptState, t: nat, u: nat)
    requires
        s.current == Some(Phase::Waiting(u)),
        t >= u,
    ensures
        s.pending.len() > 0 ==> s.advance(t) == (ScriptState {
            pending: s.pending.drop_first(),
            current: Some(crate::script::begin(s.pending[0], t)),
        }),
        s.pending.len() == 0 ==> s.advance(t) == (ScriptState { pending: s.pending, current: None }),
{
}

/// The wait that remains is never more than the wait's duration: a wait of
/// `n` nanoseconds that starts at `t0`, asked at any later `t` before it
/// ends, has `t0 + n - t` nanoseconds left, more than none and at most `n`.
pub proof fn law_remaining_wait_within(s: ScriptState, n: nat, t0: nat, t: nat)
    requires
        s.current is None,
        s.pending.len() > 0,
        s.pending[0] == Step::Wait(n),
        t0 <= t,
    ensures
        s.advance(t0).current == Some(Phase::Waiting(t0 + n)),
        t < t0 + n ==> s.advance(t0).remaining_wait(t).1 == Some((t0 + n - t) as nat),
        t < t0 + n ==> 0 < t0 + n - t <= n,
{
}

/// Without waits, the clock does not matter: a read or a write at one time
/// does what it does at any other.
pub proof fn law_no_wait_no_clock(s: ScriptState, len: nat, src: Seq<u8>, t1: nat, t2: nat)
    requires
        forall|i: int| 0 <= i < s.pending.len() ==> !(#[trigger] s.pending[i] is Wait),
        !(s.current matches Some(Phase::Waiting(_))),
    ensures
        s.read(len, t1) == s.read(len, t2),
        s.write(src, t1) == s.write(src, t2),
        s.write_mismatch(src, t1) == s.write_mismatch(src, t2),
{
    if s.pending.len() > 0 {
        assert(!(s.pending[0] is Wait));
    }
}

/// Rounds that sleep are rounds that found the script waiting; a prefix of
/// them also sleeps.
proof fn lemma_sleeps_prefix(s: ScriptState, len: nat, ts: Seq<nat>)
    requires
        sleeps_through(s, len, ts) is Some,
        ts.len() > 0,
    ensures
        s.read_step(len, ts[0]) is Sleep,
    decreases ts.len(),
{
    if ts.len() == 1 {
        assert(ts.drop_last() =~= Seq::<nat>::empty());
    } else {
        lemma_sleeps_prefix(s, len, ts.drop_last());
    }
}

/// A blocking read on a script of reads does not sleep and hands out the
/// next scripted bytes: what it writes at the front of the buffer, followed
/// by what remains queued, is what was queued, and is what a read of the
/// script at any time hands out; the rest of the buffer is kept.
pub proof fn law_blocking_read_hands_out_script(
    s0: ScriptState,
    d0: Seq<u8>,
    s1: ScriptState,
    d1: Seq<u8>,
    r: Result<usize, MockError>,
    t0: nat,
    t1: nat,
)
    requires
        reads_only(s0),
        d0.len() <= usize::MAX,
        sync_read_outcome(s0, d0, s1, d1, r, t0, t1),
    ensures
        r is Ok,
        r->Ok_0 <= d0.len(),
        d1.take(r->Ok_0 as int) + queued_reads(s1) == queued_reads(s0),
        d1.skip(r->Ok_0 as int) == d0.skip(r->Ok_0 as int),
        reads_only(s1),
        d1.take(r->Ok_0 as int) == s0.read(d0.len(), 0).1->Ok_0,
{
    let ts = choose|ts: Seq<nat>|
        #[trigger] sleeps_through(s0, d0.len(), ts) is Some && readings_between(ts, t0, t1) && {
            let m = sleeps_through(s0, d0.len(), ts)->Some_0;
            ||| sync_read_ends(m, d0, s1, d1, r, t1)
            ||| (ts.len() == u64::MAX && s1 == m && d1 == d0 && r == Err::<usize, MockError>(
                MockError::WouldBlock,
            ))
        };
    if ts.len() > 0 {
        lemma_sleeps_prefix(s0, d0.len(), ts);
        law_reads_hand_out_script(s0, d0.len(), ts[0]);
        assert(false);
    }
    assert(sleeps_through(s0, d0.len(), ts) == Some(s0));
    let t = t1;
    law_no_wait_no_clock(s0, d0.len(), Seq::empty(), t, 0);
    law_reads_hand_out_script(s0, d0.len(), t);
    let bytes = s0.read(d0.len(), t).1->Ok_0;
    assert(d1.take(bytes.len() as int) =~= bytes);
    assert(d1.skip(bytes.len() as int) =~= d0.skip(bytes.len() as int));
}

/// A non-blocking read on a script of reads, with no timer pending, does not
/// block and hands out the next scripted bytes, as a blocking read does: what
/// a read of the script at any time hands out.
pub proof fn law_async_read_hands_out_script(
    s0: ScriptState,
    d0: Seq<u8>,
    s1: ScriptState,
    d1: Seq<u8>,
    r: Result<usize, MockError>,
    p1: bool,
    w1: bool,
    t0: nat,
    t1: nat,
)
    requires
        reads_only(s0),
        d0.len() <= usize::MAX,
        async_read_outcome(s0, false, d0, s1, d1, r, p1, w1, t0, t1),
    ensures
        r is Ok,
        r->Ok_0 <= d0.len(),
        d1.take(r->Ok_0 as int) + queued_reads(s1) == queued_reads(s0),
        d1.skip(r->Ok_0 as int) == d0.skip(r->Ok_0 as int),
        reads_only(s1),
        d1.take(r->Ok_0 as int) == s0.read(d0.len(), 0).1->Ok_0,
{
    let ts = choose|ts: Seq<nat>|
        #[trigger] sleeps_through(s0, d0.len(), ts) is Some && readings_between(ts, t0, t1) && {
            let m = sleeps_through(s0, d0.len(), ts)->Some_0;
            ||| async_read_ends(m, d0, s1, d1, r, t1) && !p1
                && (r == Err::<usize, MockError>(MockError::WouldBlock) ==> w1)
            ||| ((false || ts.len() > 0) && s1 == m && d1 == d0 && p1 && (r
                == Err::<usize, MockError>(MockError::WouldBlock) || r is Err && r->Err_0 is TimerFailed
                || r == Err::<usize, MockError>(MockError::NotInTask)))
        };
    if ts.len() > 0 {
        lemma_sleeps_prefix(s0, d0.len(), ts);
        law_reads_hand_out_script(s0, d0.len(), ts[0]);
        assert(false);
    }
    assert(sleeps_through(s0, d0.len(), ts) == Some(s0));
    let t = t1;
    law_no_wait_no_clock(s0, d0.len(), Seq::empty(), t, 0);
    law_reads_hand_out_script(s0, d0.len(), t);
    let s = s0.read(d0.len(), t).0;
    lemma_advance_keeps_reads(s, t);
    let bytes = s0.read(d0.len(), t).1->Ok_0;
    assert(d1.take(bytes.len() as int) =~= bytes);
    assert(d1.skip(bytes.len() as int) =~= d0.skip(bytes.len() as int));
}

/// A blocking write on a script of writes, carrying the expected bytes, takes
/// the next expected bytes; once nothing is expected it is refused with a
/// broken pipe.
pub proof fn law_blocking_write_consumes_script(
    s0: ScriptState,
    src: Seq<u8>,
    s1: ScriptState,
    r: Result<usize, MockError>,
    t: nat,
)
    requires
        writes_only(s0),
        src.len() <= usize::MAX,
        !s0.write_mismatch(src, t),
        sync_write_at(s0, src, s1, r, t),
    ensures
        writes_only(s1),
        match r {
            Ok(n) => n <= src.len() && src.take(n as int) + queued_writes(s1) == queued_writes(s0),
            Err(e) => e == MockError::BrokenPipe && queued_writes(s0) == Seq::<u8>::empty(),
        },
{
    law_writes_consume_script(s0, src, t);
}

/// A non-blocking write on a script of writes, carrying the expected bytes,
/// takes the next expected bytes as a blocking write does; once nothing is
/// expected it is refused with a broken pipe.
pub proof fn law_async_write_consumes_script(
    s0: ScriptState,
    src: Seq<u8>,
    s1: ScriptState,
    r: Result<usize, MockError>,
    t: nat,
)
    requires
        writes_only(s0),
        src.len() <= usize::MAX,
        !s0.write_mismatch(src, t),
        async_write_at(s0, src, s1, r, t),
    ensures
        writes_only(s1),
        match r {
            Ok(n) => n <= src.len() && src.take(n as int) + queued_writes(s1) == queued_writes(s0),
            Err(e) => e == MockError::BrokenPipe && queued_writes(s0) == Seq::<u8>::empty(),
        },
{
    law_writes_consume_script(s0, src, t);
    lemma_advance_keeps_writes(s0.write(src, t).0, t);
}

/// A finished mock answers a blocking read with zero bytes and a blocking
/// write with a broken pipe, and stays finished.
pub proof fn law_finished_mock_answers(
    s0: ScriptState,
    d0: Seq<u8>,
    s1: ScriptState,
    d1: Seq<u8>,
    r: Result<usize, MockError>,
    t0: nat,
    t1: nat,
)
    requires
        is_over(s0),
        sync_read_outcome(s0, d0, s1, d1, r, t0, t1),
    ensures
        r == Ok::<usize, MockError>(0),
        d1 == d0,
        is_over(s1),
{
    let ts = choose|ts: Seq<nat>|
        #[trigger] sleeps_through(s0, d0.len(), ts) is Some && readings_between(ts, t0, t1) && {
            let m = sleeps_through(s0, d0.len(), ts)->Some_0;
            ||| sync_read_ends(m, d0, s1, d1, r, t1)
            ||| (ts.len() == u64::MAX && s1 == m && d1 == d0 && r == Err::<usize, MockError>(
                MockError::WouldBlock,
            ))
        };
    if ts.len() > 0 {
        lemma_sleeps_prefix(s0, d0.len(), ts);
        law_over_script_answers(s0, d0.len(), Seq::empty(), ts[0]);
        assert(false);
    }
    assert(sleeps_through(s0, d0.len(), ts) == Some(s0));
    let t = t1;
    law_over_script_answers(s0, d0.len(), Seq::empty(), t);
    assert(d0.skip(0) =~= d0);
}

/// A script without waits never sleeps: the only sequence of sleeping rounds
/// from it is the empty one.
pub proof fn law_no_wait_no_sleep(s: ScriptState, len: nat, ts: Seq<nat>)
    requires
        forall|i: int| 0 <= i < s.pending.len() ==> !(#[trigger] s.pending[i] is Wait),
        !(s.current matches Some(Phase::Waiting(_))),
        sleeps_through(s, len, ts) is Some,
    ensures
        ts.len() == 0,
        sleeps_through(s, len, ts) == Some(s),
{
    if ts.len() > 0 {
        lemma_sleeps_prefix(s, len, ts);
        if s.pending.len() > 0 {
            assert(!(s.pending[0] is Wait));
        }
        assert(false);
    }
}

/// A finished mock answers a non-blocking read, with no timer pending, with
/// zero bytes, and stays finished.
pub proof fn law_finished_mock_answers_async(
    s0: ScriptState,
    d0: Seq<u8>,
    s1: ScriptState,
    d1: Seq<u8>,
    r: Result<usize, MockError>,
    p1: bool,
    w1: bool,
    t0: nat,
    t1: nat,
)
    requires
        is_over(s0),
        async_read_outcome(s0, false, d0, s1, d1, r, p1, w1, t0, t1),
    ensures
        r == Ok::<usize, MockError>(0),
        d1 == d0,
        is_over(s1),
{
    let ts = choose|ts: Seq<nat>|
        #[trigger] sleeps_through(s0, d0.len(), ts) is Some && readings_between(ts, t0, t1) && {
            let m = sleeps_through(s0, d0.len(), ts)->Some_0;
            ||| async_read_ends(m, d0, s1, d1, r, t1) && !p1
                && (r == Err::<usize, MockError>(MockError::WouldBlock) ==> w1)
            ||| ((false || ts.len() > 0) && s1 == m && d1 == d0 && p1 && (r
                == Err::<usize, MockError>(MockError::WouldBlock) || r is Err && r->Err_0 is TimerFailed
                || r == Err::<usize, MockError>(MockError::NotInTask)))
        };
    law_no_wait_no_sleep(s0, d0.len(), ts);
    let t = t1;
    law_over_script_answers(s0, d0.len(), Seq::empty(), t);
    assert(d0.skip(0) =~= d0);
}

/// A read that finds a read in progress hands out as many of that read's
/// bytes as the buffer holds: exactly `len` of them, or all of them when
/// fewer remain, taken from the front; it hands out fewer than asked only
/// when it drains the read in progress.
pub proof fn law_read_takes_all_it_can(s: ScriptState, len: nat, t: nat, d: Seq<u8>)
    requires
        s.advance(t).current == Some(Phase::Reading(d)),
    ensures
        s.read(len, t).1 is Ok,
        s.read(len, t).1->Ok_0.len() == (if len <= d.len() { len } else { d.len() }),
        s.read(len, t).1->Ok_0 == d.take(s.read(len, t).1->Ok_0.len() as int),
        s.read(len, t).1->Ok_0.len() < len ==> s.read(len, t).0.current == Some(
            Phase::Reading(Seq::<u8>::empty()),
        ),
{
    let n = min_nat(len, d.len());
    if n == d.len() {
        assert(d.skip(n as int) =~= Seq::<u8>::empty());
    }
}

/// A write that finds a write expected (in progress, or right after the
/// reads in progress) takes as many of `src`'s bytes as that write still
/// expects: all of `src`, or all the bytes still expected when fewer remain;
/// it takes fewer than offered only when it finishes that write.
pub proof fn law_write_takes_all_it_can(s: ScriptState, src: Seq<u8>, t: nat, e: Seq<u8>)
    requires
        s.write_target(t) == Some(e),
    ensures
        s.write(src, t).1 == Ok::<nat, IoError>(if src.len() <= e.len() { src.len() } else { e.len() }),
        s.write(src, t).1->Ok_0 < src.len() ==> s.write(src, t).1->Ok_0 == e.len(),
{
}

/// With no mode set, the task context decides how a read behaves: inside a
/// task it never blocks the thread and never answers that no task runs;
/// outside one it blocks as needed and leaves the timer and the tasks alone.
pub proof fn law_read_follows_context(
    m0: Mock,
    d0: Seq<u8>,
    m1: Mock,
    d1: Seq<u8>,
    r: Result<usize, MockError>,
    in_task: bool,
)
    requires
        m0.async_mode() is None,
        read_done(m0, d0, m1, d1, r, in_task),
    ensures
        in_task ==> m1.blocking_sleeps() == m0.blocking_sleeps(),
        in_task ==> r != Err::<usize, MockError>(MockError::NotInTask),
        !in_task ==> m1.sleep_pending() == m0.sleep_pending() && m1.woken() == m0.woken()
            && m1.reader_task() == m0.reader_task() && m1.writer_task() == m0.writer_task(),
{
    if !in_task {
        assert(!chooses_async(m0.async_mode(), in_task));
    }
}

/// With no mode set, the task context decides how a write behaves: inside a
/// task a write the script does not expect answers `WouldBlock` (and the task
/// is woken later), never `UnexpectedWrite`; outside one it is refused as
/// unexpected and never answers `WouldBlock` or `NotInTask`.
pub proof fn law_write_follows_context(
    m0: Mock,
    src: Seq<u8>,
    m1: Mock,
    r: Result<usize, MockError>,
    in_task: bool,
)
    requires
        m0.async_mode() is None,
        write_done(m0, src, m1, r, in_task),
    ensures
        in_task ==> r != Err::<usize, MockError>(MockError::UnexpectedWrite) && r != Err::<usize, MockError>(
            MockError::NotInTask,
        ),
        in_task ==> (r == Err::<usize, MockError>(MockError::WouldBlock)) == m0.script().blocks_write_at(
            m1.clock(),
        ),
        !in_task ==> r != Err::<usize, MockError>(MockError::WouldBlock) && r != Err::<usize, MockError>(
            MockError::NotInTask,
        ),
        !in_task ==> (r == Err::<usize, MockError>(MockError::UnexpectedWrite)) == m0.script().blocks_write_at(
            m1.clock(),
        ),
{
    law_write_refusals(m0.script(), src, m1.clock());
}

/// The wait recorded for a requested wait of `n` nanoseconds is the requested
/// time itself, raised to a millisecond only when it is shorter.
pub proof fn law_wait_is_the_requested_time(n: nat)
    ensures
        wait_step(n) is Wait,
        n >= 1_000_000 ==> wait_step(n) == Step::Wait(n),
        n < 1_000_000 ==> wait_step(n) == Step::Wait(1_000_000),
        wait_step(n)->Wait_0 >= n,
        wait_step(n)->Wait_0 >= 1_000_000,
{
}

/// The total time the waits of `steps` last.
pub open spec fn total_wait(steps: Seq<Step>) -> nat
    decreases steps.len(),
{
    if steps.len() == 0 {
        0
    } else {
        (match steps[0] {
            Step::Wait(n) => n,
            _ => 0,
        }) + total_wait(steps.drop_first())
    }
}

/// The waits of steps laid end to end last as long as those of each part.
proof fn lemma_total_wait_concat(a: Seq<Step>, b: Seq<Step>)
    ensures
        total_wait(a + b) == total_wait(a) + total_wait(b),
    decreases a.len(),
{
    if a.len() == 0 {
        assert(a + b =~= b);
    } else {
        lemma_total_wait_concat(a.drop_first(), b);
        assert((a + b).drop_first() =~= a.drop_first() + b);
        assert((a + b)[0] == a[0]);
    }
}

/// When the recording ends: the time of its last packet.
pub open spec fn recording_end(ps: Seq<Packet>) -> nat {
    if ps.len() == 0 {
        0
    } else {
        nanos_of(ps.last().elapsed)
    }
}

/// Replaying one more packet appends its steps: a write packet is expected
/// at once; a read packet is handed out after a wait of the time since the
/// packet before it (or since the start), raised to a millisecond when
/// shorter.
pub proof fn law_replay_appends_packet(ps: Seq<Packet>, p: Packet)
    requires
        p.direction == Direction::Read ==> nanos_of(p.elapsed) >= recording_end(ps),
    ensures
        replay(ps.push(p)) == replay(ps) + match p.direction {
            Direction::Read => {
                let gap = (nanos_of(p.elapsed) - recording_end(ps)) as nat;
                seq![Step::Wait(if gap >= 1_000_000 { gap } else { 1_000_000 }), Step::Read(p.data@)]
            },
            Direction::Write => seq![Step::Write(p.data@)],
        },
{
    let q = ps.push(p);
    assert(q.drop_last() =~= ps);
    assert(q.last() == p);
    assert(elapsed_before(q, q.len() - 1) == recording_end(ps));
}

/// A recording of reads, each at least a millisecond after the one before,
/// replays in the time it was recorded in: the waits of the replay add up to
/// the time of the last packet.
pub proof fn law_replay_lasts_as_recorded(ps: Seq<Packet>)
    requires
        forall|i: int| 0 <= i < ps.len() ==> (#[trigger] ps[i]).direction == Direction::Read,
        forall|i: int|
            0 <= i < ps.len() ==> nanos_of((#[trigger] ps[i]).elapsed) >= elapsed_before(ps, i) + 1_000_000,
    ensures
        total_wait(replay(ps)) == recording_end(ps),
    decreases ps.len(),
{
    if ps.len() > 0 {
        let q = ps.drop_last();
        let p = ps.last();
        assert forall|i: int| 0 <= i < q.len() implies (#[trigger] q[i]).direction == Direction::Read by {
            assert(q[i] == ps[i]);
        }
        assert forall|i: int| 0 <= i < q.len() implies nanos_of((#[trigger] q[i]).elapsed) >= elapsed_before(q, i)
            + 1_000_000 by {
            assert(q[i] == ps[i]);
            if i > 0 {
                assert(q[i - 1] == ps[i - 1]);
            }
        }
        law_replay_lasts_as_recorded(q);
        assert(ps[ps.len() - 1] == p);
        if ps.len() > 1 {
            assert(ps[ps.len() - 2] == q.last());
        }
        assert(elapsed_before(ps, ps.len() - 1) == recording_end(q));
        let w = (nanos_of(p.elapsed) - recording_end(q)) as nat;
        let tail = seq![wait_step(w), Step::Read(p.data@)];
        lemma_total_wait_concat(replay(q), tail);
        let rest = tail.drop_first();
        assert(rest[0] == Step::Read(p.data@));
        assert(rest.drop_first() =~= Seq::<Step>::empty());
        assert(total_wait(Seq::<Step>::empty()) == 0);
        assert(total_wait(rest) == 0);
        assert(tail[0] == wait_step(w));
        assert(total_wait(tail) == w);
    }
}

} // verus!
