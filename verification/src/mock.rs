//! The mock I/O handle: it follows the script that a `Builder` describes,
//! blocking or returning `WouldBlock` while the script waits.
use crate::outside::{current_task, nanos_of, new_timer, poll_sleep, wait_sleep};
use crate::script::{lemma_no_stall, min_nat, Inner, IoError, Phase, ReadStep, ScriptState, MAX_NANOS};
use futures::task::Task;
use std::time::{Duration, Instant};
use tokio_timer::{Sleep, Timer, TimerError};
use vstd::prelude::*;

verus! {

/// Why a mock read or write did not go through.
#[derive(Debug)]
pub enum MockError {
    /// The script expects something else first or is waiting (`io::ErrorKind::WouldBlock`).
    WouldBlock,
    /// The script is over: nothing more can be written (`io::ErrorKind::BrokenPipe`).
    BrokenPipe,
    /// The timer that implements the script's waits failed (`io::ErrorKind::Other`).
    TimerFailed(TimerError),
    /// A blocking read found the script expecting a write: it could never be
    /// answered.
    ExpectedWrite,
    /// A blocking write came while the script expected no write: it was
    /// waiting, or no write follows the reads in progress.
    UnexpectedWrite,
    /// The mock is in async mode but no futures task is being polled.
    NotInTask,
}

/// The script expects a read next, or is over.
pub open spec fn expects_read_or_over(s: ScriptState) -> bool {
    s.current matches Some(Phase::Reading(_)) || s.current is None
}

/// The state reached from `s` by blocking-read rounds at the times `ts`, each
/// of which found the script waiting; `None` if one of them did not.
pub open spec fn sleeps_through(s: ScriptState, len: nat, ts: Seq<nat>) -> Option<ScriptState>
    decreases ts.len(),
{
    if ts.len() == 0 {
        Some(s)
    } else {
        match sleeps_through(s, len, ts.drop_last()) {
            Some(m) => match m.read_step(len, ts.last()) {
                ReadStep::Sleep(n, _) => Some(n),
                _ => None,
            },
            None => None,
        }
    }
}

/// The last round of a blocking read, from state `m` at time `t`, gives final
/// state `s1`, buffer `d1` (from buffer `d0`) and result `r`.
pub open spec fn sync_read_ends(
    m: ScriptState,
    d0: Seq<u8>,
    s1: ScriptState,
    d1: Seq<u8>,
    r: Result<usize, MockError>,
    t: nat,
) -> bool {
    &&& t <= MAX_NANOS
    &&& match m.read_step(d0.len(), t) {
        ReadStep::Done(s, Ok(bytes)) => s1 == s && r == Ok::<usize, MockError>(bytes.len() as usize)
            && d1 == bytes + d0.skip(bytes.len() as int),
        ReadStep::Stuck(s) => s1 == s && d1 == d0 && r == Err::<usize, MockError>(MockError::ExpectedWrite),
        _ => false,
    }
}

/// The clock readings `ts` come in order, from `t0` on and up to `t1`.
pub open spec fn readings_between(ts: Seq<nat>, t0: nat, t1: nat) -> bool {
    forall|j: int, k: int| 0 <= j <= k < ts.len() ==> t0 <= #[trigger] ts[j] <= #[trigger] ts[k] <= t1
}

/// What a blocking read does, with the clock reading `t0` before it and `t1`
/// after it: some rounds, at readings in between, find the script waiting
/// and sleep, then a last round at `t1` answers; after `u64::MAX` sleeping
/// rounds it gives up with `WouldBlock`.
pub open spec fn sync_read_outcome(
    s0: ScriptState,
    d0: Seq<u8>,
    s1: ScriptState,
    d1: Seq<u8>,
    r: Result<usize, MockError>,
    t0: nat,
    t1: nat,
) -> bool {
    exists|ts: Seq<nat>|
        #[trigger] sleeps_through(s0, d0.len(), ts) is Some && readings_between(ts, t0, t1) && {
            let m = sleeps_through(s0, d0.len(), ts)->Some_0;
            ||| sync_read_ends(m, d0, s1, d1, r, t1)
            ||| (ts.len() == u64::MAX && s1 == m && d1 == d0 && r == Err::<usize, MockError>(
                MockError::WouldBlock,
            ))
        }
}

/// What a blocking read does: a script that stalls a read is answered with
/// `ExpectedWrite` and left as it is; otherwise the read follows
/// `sync_read_outcome` (with the clock reading `t0` before and `t1` after)
/// and never ends in `ExpectedWrite`.
pub open spec fn sync_read_done(
    s0: ScriptState,
    d0: Seq<u8>,
    s1: ScriptState,
    d1: Seq<u8>,
    r: Result<usize, MockError>,
    t0: nat,
    t1: nat,
) -> bool {
    if s0.read_stalls() {
        s1 == s0 && d1 == d0 && r == Err::<usize, MockError>(MockError::ExpectedWrite)
    } else {
        sync_read_outcome(s0, d0, s1, d1, r, t0, t1) && r != Err::<usize, MockError>(MockError::ExpectedWrite)
    }
}

/// A later reading added to readings in order keeps them in order.
pub proof fn lemma_readings_push(ts: Seq<nat>, t0: nat, t: nat)
    requires
        ts.len() > 0 ==> readings_between(ts, t0, t),
        t0 <= t,
    ensures
        readings_between(ts.push(t), t0, t),
{
    let q = ts.push(t);
    assert forall|j: int, k: int| 0 <= j <= k < q.len() implies t0 <= #[trigger] q[j] <= #[trigger] q[k] <= t by {
        if k < ts.len() {
            assert(q[j] == ts[j] && q[k] == ts[k]);
        } else if j < ts.len() {
            assert(q[j] == ts[j]);
            assert(t0 <= ts[j] <= ts[j] <= t);
        }
    }
}

/// The last round of a non-blocking read from state `m` at time `t`.
pub open spec fn async_read_ends(
    m: ScriptState,
    d0: Seq<u8>,
    s1: ScriptState,
    d1: Seq<u8>,
    r: Result<usize, MockError>,
    t: nat,
) -> bool {
    &&& t <= MAX_NANOS
    &&& match m.read_step(d0.len(), t) {
        ReadStep::Done(s, Ok(bytes)) => s1 == s.advance(t) && r == Ok::<usize, MockError>(
            bytes.len() as usize,
        ) && d1 == bytes + d0.skip(bytes.len() as int),
        ReadStep::Stuck(s) => s1 == s && d1 == d0 && (r == Err::<usize, MockError>(
            MockError::WouldBlock,
        ) || r == Err::<usize, MockError>(MockError::NotInTask)),
        _ => false,
    }
}

/// What a non-blocking read does, with the clock reading `t0` before it and
/// `t1` after it: rounds at readings in between that find the script waiting
/// set a timer; a pending timer that has not fired (or fails, or cannot be
/// polled outside a task) ends the call with the script untouched and the
/// timer still pending; otherwise a last round at `t1` answers and leaves no
/// timer pending, and a last round that would block registers the reading task.
pub open spec fn async_read_outcome(
    s0: ScriptState,
    sleep_pending: bool,
    d0: Seq<u8>,
    s1: ScriptState,
    d1: Seq<u8>,
    r: Result<usize, MockError>,
    sleep_pending1: bool,
    reader_waiting1: bool,
    t0: nat,
    t1: nat,
) -> bool {
    exists|ts: Seq<nat>|
        #[trigger] sleeps_through(s0, d0.len(), ts) is Some && readings_between(ts, t0, t1) && {
            let m = sleeps_through(s0, d0.len(), ts)->Some_0;
            ||| async_read_ends(m, d0, s1, d1, r, t1) && !sleep_pending1
                && (r == Err::<usize, MockError>(MockError::WouldBlock) ==> reader_waiting1)
            ||| ((sleep_pending || ts.len() > 0) && s1 == m && d1 == d0 && sleep_pending1 && (r
                == Err::<usize, MockError>(MockError::WouldBlock) || r is Err && r->Err_0 is TimerFailed
                || r == Err::<usize, MockError>(MockError::NotInTask)))
        }
}

/// A blocking write of `src` at time `t` takes the script from `s0` to `s1`
/// with result `r`.
pub open spec fn sync_write_at(
    s0: ScriptState,
    src: Seq<u8>,
    s1: ScriptState,
    r: Result<usize, MockError>,
    t: nat,
) -> bool {
    &&& t <= MAX_NANOS
    &&& s1 == s0.write(src, t).0
    &&& match s0.write(src, t).1 {
        Ok(n) => r == Ok::<usize, MockError>(n as usize),
        Err(IoError::WouldBlock) => r == Err::<usize, MockError>(MockError::UnexpectedWrite),
        Err(IoError::BrokenPipe) => r == Err::<usize, MockError>(MockError::BrokenPipe),
    }
}

/// A non-blocking write of `src` at time `t` takes the script from `s0` to
/// `s1` with result `r`.
pub open spec fn async_write_at(
    s0: ScriptState,
    src: Seq<u8>,
    s1: ScriptState,
    r: Result<usize, MockError>,
    t: nat,
) -> bool {
    &&& t <= MAX_NANOS
    &&& {
        let (s, o) = s0.write(src, t);
        match o {
            Ok(n) => s1 == s.advance(t) && r == Ok::<usize, MockError>(n as usize),
            Err(IoError::WouldBlock) => s1 == s && (r == Err::<usize, MockError>(
                MockError::WouldBlock,
            ) || r == Err::<usize, MockError>(MockError::NotInTask)),
            Err(IoError::BrokenPipe) => s1 == s.advance(t) && r == Err::<usize, MockError>(
                MockError::BrokenPipe,
            ),
        }
    }
}

/// The longest sleep a blocking read asks of the timer at once (50 minutes,
/// below the timer's one-hour limit).
const SYNC_SLEEP_CAP: u128 = 3_000_000_000_000u128;

/// The longest sleep handed to the timer at once, in nanoseconds.
pub const SLEEP_CAP_NANOS: u64 = 0xffff_ffff_ffff_ffffu64;

/// What the contracts know of the timer that a non-blocking read set last.
pub struct SleepRecord {
    /// The mock's clock when the timer was set.
    pub armed_at: nat,
    /// When the timer fires, on the mock's clock.
    pub deadline: nat,
    /// The end of the scripted wait that the timer was set for.
    pub wait_end: nat,
    /// Polling the timer from a task found it not expired: the timer will
    /// wake that task.
    pub polled: bool,
    /// How many timers have been set so far.
    pub arms: nat,
}

/// The tokio side of a mock: the timer that implements waits and the tasks to
/// wake when the script moves on.
pub struct TokioInner {
    timer: Timer,
    sleep: Option<Sleep>,
    read_wait: Option<Task>,
    write_wait: Option<Task>,
    /// The tick and the longest timeout the timer was built with, in nanoseconds.
    tick: Ghost<nat>,
    max_timeout: Ghost<nat>,
    /// The tasks notified so far, in order.
    woken: Ghost<Seq<Task>>,
    /// What is known of the last timer set.
    sleep_rec: Ghost<SleepRecord>,
}

impl TokioInner {
    /// No timer is pending, no task waits to be woken and none was woken.
    pub closed spec fn is_idle(&self) -> bool {
        &&& self.sleep is None
        &&& self.read_wait is None
        &&& self.write_wait is None
        &&& self.woken@ == Seq::<Task>::empty()
        &&& self.sleep_rec@.arms == 0
    }

    /// The tick of the timer, in nanoseconds.
    pub closed spec fn tick_nanos(&self) -> nat {
        self.tick@
    }

    /// The longest timeout the timer accepts, in nanoseconds.
    pub closed spec fn max_timeout_nanos(&self) -> nat {
        self.max_timeout@
    }
}

impl Default for TokioInner {
    /// A timer wheel with a 1 ms tick that accepts sleeps of up to an hour.
    fn default() -> (t: TokioInner)
        ensures
            t.is_idle(),
            t.tick_nanos() == 1_000_000,
            t.max_timeout_nanos() == 3_600_000_000_000,
    {
        let tick = Duration::from_nanos(1_000_000);
        let max_timeout = Duration::from_nanos(3_600_000_000_000);
        let timer = new_timer(tick, max_timeout);
        TokioInner {
            timer: timer,
            sleep: None,
            read_wait: None,
            write_wait: None,
            tick: Ghost(nanos_of(tick)),
            max_timeout: Ghost(nanos_of(max_timeout)),
            woken: Ghost(Seq::empty()),
            sleep_rec: Ghost(SleepRecord { armed_at: 0, deadline: 0, wait_end: 0, polled: false, arms: 0 }),
        }
    }
}

/// Returns `true` if called from the context of a futures task.
pub fn is_task_ctx() -> bool {
    futures::task::is_in_task()
}

/// Shows that a futures task is being polled on this thread: the only value
/// is made by `enter_task` right after `is_in_task` returned `true`, and it
/// is used within the same call of the mock.
pub struct InTask {
    _private: (),
}

/// The task context of the current call, if a futures task is being polled.
pub(crate) fn enter_task() -> (cx: Option<InTask>) {
    if futures::task::is_in_task() {
        Some(InTask { _private: () })
    } else {
        None
    }
}

/// The duration of `nanos` nanoseconds, at most `SLEEP_CAP_NANOS`.
fn sleep_duration(nanos: u128) -> (d: Duration)
    ensures
        nanos_of(d) == min_nat(nanos as nat, SLEEP_CAP_NANOS as nat),
{
    let n: u64 = if nanos > SLEEP_CAP_NANOS as u128 {
        SLEEP_CAP_NANOS
    } else {
        nanos as u64
    };
    Duration::from_nanos(n)
}

/// The tasks logged as woken after waking the task `t`, if there is one.
pub open spec fn woke(log: Seq<Task>, t: Option<Task>) -> Seq<Task> {
    match t {
        Some(task) => log.push(task),
        None => log,
    }
}

/// Whether a mock in mode `mode` behaves asynchronously, given whether a
/// futures task is being polled.
pub open spec fn chooses_async(mode: Option<bool>, in_task: bool) -> bool {
    match mode {
        Some(b) => b,
        None => in_task,
    }
}

/// `NotInTask` comes only outside a task, and `WouldBlock` (which leaves a
/// task to be woken) only inside one.
pub open spec fn answers_context(in_task: bool, r: Result<usize, MockError>) -> bool {
    &&& r == Err::<usize, MockError>(MockError::NotInTask) ==> !in_task
    &&& r == Err::<usize, MockError>(MockError::WouldBlock) ==> in_task
}

/// An I/O handle that follows a predefined script.
///
/// A `Builder` makes it; it answers reads and writes as the script says.
pub struct Mock {
    inner: Inner,
    tokio: TokioInner,
    is_async: Option<bool>,
    epoch: Instant,
    last: u128,
    /// Whether a futures task was being polled when the mock last looked.
    task_seen: Ghost<bool>,
    /// How many times the mock has blocked its thread to sleep.
    slept: Ghost<nat>,
}

/// The timer, the waiting tasks and the log of woken tasks are as they were.
pub open spec fn tasks_unchanged(m0: Mock, m1: Mock) -> bool {
    &&& m1.sleep_pending() == m0.sleep_pending()
    &&& m1.sleep_record() == m0.sleep_record()
    &&& m1.reader_task() == m0.reader_task()
    &&& m1.writer_task() == m0.writer_task()
    &&& m1.woken() == m0.woken()
}

impl Mock {
    /// The state of the script.
    pub closed spec fn script(&self) -> ScriptState {
        self.inner@
    }

    /// `Some(true)` for async behaviour, `Some(false)` for blocking, `None` to
    /// choose by whether a futures task is being polled.
    pub closed spec fn async_mode(&self) -> Option<bool> {
        self.is_async
    }

    /// Whether a futures task was being polled on the calling thread when the
    /// mock last looked (at the start of each `read` and `write`).
    pub closed spec fn task_context(&self) -> bool {
        self.task_seen@
    }

    /// How many times the mock has blocked the calling thread to sleep
    /// through a wait.
    pub closed spec fn blocking_sleeps(&self) -> nat {
        self.slept@
    }

    /// The last reading of the mock's clock, in nanoseconds since it was made.
    pub closed spec fn clock(&self) -> nat {
        self.last as nat
    }

    /// A timer set by a non-blocking read has not been seen to fire yet.
    pub closed spec fn sleep_pending(&self) -> bool {
        self.tokio.sleep is Some
    }

    /// What is known of the last timer set.
    pub closed spec fn sleep_record(&self) -> SleepRecord {
        self.tokio.sleep_rec@
    }

    /// The task to wake when the script expects a read or is over.
    pub closed spec fn reader_task(&self) -> Option<Task> {
        self.tokio.read_wait
    }

    /// The task to wake when the script expects a write.
    pub closed spec fn writer_task(&self) -> Option<Task> {
        self.tokio.write_wait
    }

    /// The tasks notified so far, in order.
    pub closed spec fn woken(&self) -> Seq<Task> {
        self.tokio.woken@
    }

    /// The timer's tick and longest timeout, in nanoseconds.
    pub closed spec fn timer_settings(&self) -> (nat, nat) {
        (self.tokio.tick_nanos(), self.tokio.max_timeout_nanos())
    }

    /// A task waits to be woken when the script expects a read or is over.
    pub open spec fn reader_waiting(&self) -> bool {
        self.reader_task() is Some
    }

    /// A task waits to be woken when the script expects a write.
    pub open spec fn writer_waiting(&self) -> bool {
        self.writer_task() is Some
    }

    /// The script's waits are within what a `Duration` holds, the clock is
    /// within it too, and a pending timer was set for the end of a wait, or
    /// for `SLEEP_CAP_NANOS` after it was set if that comes first.
    pub open spec fn wf(&self) -> bool {
        &&& self.script().bounded()
        &&& self.clock() <= MAX_NANOS
        &&& self.sleep_pending() ==> {
            let rec = self.sleep_record();
            rec.armed_at < rec.wait_end && rec.deadline == min_nat(
                rec.wait_end,
                (rec.armed_at + SLEEP_CAP_NANOS) as nat,
            )
        }
    }

    /// Makes a mock whose script has not started.
    pub(crate) fn start(inner: Inner, is_async: Option<bool>) -> (m: Mock)
        requires
            inner@.bounded(),
        ensures
            m.wf(),
            m.script() == inner@,
            m.async_mode() == is_async,
            m.clock() == 0,
            !m.sleep_pending(),
            !m.reader_waiting(),
            !m.writer_waiting(),
            m.woken() == Seq::<Task>::empty(),
            m.sleep_record().arms == 0,
            m.timer_settings() == (1_000_000nat, 3_600_000_000_000nat),
            m.blocking_sleeps() == 0,
    {
        Mock {
            inner,
            tokio: TokioInner::default(),
            is_async,
            epoch: Instant::now(),
            last: 0,
            task_seen: Ghost(false),
            slept: Ghost(0),
        }
    }

    /// Looks whether a futures task is being polled on the calling thread,
    /// and records what it saw.
    fn observe_task(&mut self) -> (cx: Option<InTask>)
        ensures
            final(self).task_context() == (cx is Some),
            final(self).inner == old(self).inner,
            final(self).tokio == old(self).tokio,
            final(self).is_async == old(self).is_async,
            final(self).last == old(self).last,
            final(self).slept == old(self).slept,
    {
        let cx = enter_task();
        self.task_seen = Ghost(cx is Some);
        cx
    }

    /// Reads the mock's clock: nanoseconds since the mock was made, never
    /// less than the last reading.
    fn now(&mut self) -> (t: u128)
        requires
            old(self).wf(),
        ensures
            final(self).wf(),
            t <= MAX_NANOS,
            old(self).clock() <= t,
            final(self).clock() == t,
            final(self).inner == old(self).inner,
            final(self).tokio == old(self).tokio,
            final(self).is_async == old(self).is_async,
            final(self).slept == old(self).slept,
            final(self).task_seen == old(self).task_seen,
    {
        let d = self.epoch.elapsed();
        let n = d.as_nanos();
        let t = if n > self.last { n } else { self.last };
        self.last = t;
        t
    }

    /// Returns `true` if the mock behaves asynchronously: as set on the
    /// builder, or else when called from a futures task.
    pub fn is_async(&self) -> (b: bool)
        ensures
            self.async_mode() matches Some(m) ==> b == m,
    {
        match self.is_async {
            Some(b) => b,
            None => is_task_ctx(),
        }
    }

    /// Blocks the thread for about `nanos` nanoseconds (at most
    /// `SYNC_SLEEP_CAP`) on the mock's timer.
    fn block_for(&mut self, nanos: u128)
        ensures
            final(self).slept@ == old(self).slept@ + 1,
            final(self).inner == old(self).inner,
            final(self).tokio == old(self).tokio,
            final(self).is_async == old(self).is_async,
            final(self).last == old(self).last,
            final(self).task_seen == old(self).task_seen,
    {
        let capped: u128 = if nanos > SYNC_SLEEP_CAP { SYNC_SLEEP_CAP } else { nanos };
        let sleep = self.tokio.timer.sleep(sleep_duration(capped));
        let _ = wait_sleep(sleep);
        self.slept = Ghost(self.slept@ + 1);
    }

    /// A blocking read: sleeps while the script waits, then answers.
    fn sync_read(&mut self, dst: &mut [u8]) -> (r: Result<usize, MockError>)
        requires
            old(self).wf(),
            !old(self).script().read_stalls(),
        ensures
            final(self).wf(),
            final(self).is_async == old(self).is_async,
            final(self).tokio == old(self).tokio,
            final(self).task_seen == old(self).task_seen,
            old(self).slept@ <= final(self).slept@,
            old(self).clock() <= final(self).clock(),
            final(dst)@.len() == old(dst)@.len(),
            sync_read_outcome(
                old(self).script(),
                old(dst)@,
                final(self).script(),
                final(dst)@,
                r,
                old(self).clock(),
                final(self).clock(),
            ),
            r != Err::<usize, MockError>(MockError::ExpectedWrite),
    {
        let ghost s0 = self.script();
        let ghost d0 = dst@;
        let ghost len = d0.len();
        let ghost mut ts: Seq<nat> = Seq::empty();
        let mut rounds: u64 = 0;
        while rounds < 0xffff_ffff_ffff_ffffu64
            invariant
                self.wf(),
                self.is_async == old(self).is_async,
                self.tokio == old(self).tokio,
                self.task_seen == old(self).task_seen,
                old(self).slept@ <= self.slept@,
                old(self).clock() <= self.clock(),
                dst@ == d0,
                d0 == old(dst)@,
                len == d0.len(),
                s0 == old(self).script(),
                ts.len() == rounds,
                sleeps_through(s0, len, ts) == Some(self.script()),
                readings_between(ts, old(self).clock(), self.clock()),
                !self.script().read_stalls(),
            decreases 0xffff_ffff_ffff_ffffu64 - rounds,
        {
            let now = self.now();
            proof {
                lemma_no_stall(self.script(), len, now as nat);
            }
            let ghost m = self.script();
            match self.inner.read(dst, now) {
                Err(IoError::WouldBlock) => {
                    match self.inner.remaining_wait(now) {
                        Some(rem) => {
                            self.block_for(rem);
                            proof {
                                let ts2 = ts.push(now as nat);
                                assert(ts2.drop_last() =~= ts);
                                lemma_readings_push(ts, old(self).clock(), now as nat);
                                assert(sleeps_through(s0, len, ts2) == Some(self.script()));
                                ts = ts2;
                            }
                        },
                        None => {
                            proof {
                                assert(m.read_step(len, now as nat) is Stuck);
                                assert(false);
                            }
                            return Err(MockError::ExpectedWrite);
                        },
                    }
                },
                Ok(n) => {
                    proof {
                        assert(sync_read_ends(m, d0, self.script(), dst@, Ok(n), now as nat));
                    }
                    return Ok(n);
                },
                Err(IoError::BrokenPipe) => {
                    return Err(MockError::BrokenPipe);
                },
            }
            rounds = rounds + 1;
        }
        Err(MockError::WouldBlock)
    }

    /// A blocking write: the script must expect it now.
    fn sync_write(&mut self, src: &[u8]) -> (r: Result<usize, MockError>)
        requires
            old(self).wf(),
            !old(self).script().may_mismatch(src@),
        ensures
            final(self).wf(),
            final(self).is_async == old(self).is_async,
            final(self).tokio == old(self).tokio,
            final(self).task_seen == old(self).task_seen,
            final(self).slept == old(self).slept,
            old(self).clock() <= final(self).clock(),
            sync_write_done(old(self).script(), src@, final(self).script(), r, final(self).clock()),
    {
        let now = self.now();
        let r = match self.inner.write(src, now) {
            Ok(n) => Ok(n),
            Err(IoError::WouldBlock) => {
                assert(old(self).script().blocks_write_at(now as nat));
                Err(MockError::UnexpectedWrite)
            },
            Err(IoError::BrokenPipe) => Err(MockError::BrokenPipe),
        };
        assert(sync_write_at(old(self).script(), src@, self.script(), r, now as nat));
        r
    }

    /// Notifies `task` and logs it as woken.
    fn wake(&mut self, task: Task)
        ensures
            final(self).woken() == old(self).woken().push(task),
            final(self).inner == old(self).inner,
            final(self).is_async == old(self).is_async,
            final(self).last == old(self).last,
            final(self).slept == old(self).slept,
            final(self).task_seen == old(self).task_seen,
            final(self).tokio.sleep == old(self).tokio.sleep,
            final(self).tokio.sleep_rec == old(self).tokio.sleep_rec,
            final(self).tokio.read_wait == old(self).tokio.read_wait,
            final(self).tokio.write_wait == old(self).tokio.write_wait,
            final(self).tokio.tick == old(self).tokio.tick,
            final(self).tokio.max_timeout == old(self).tokio.max_timeout,
    {
        task.notify();
        self.tokio.woken = Ghost(self.tokio.woken@.push(task));
    }

    /// Wakes a task that waits to read once the script expects a read or is over.
    fn maybe_wakeup_reader(&mut self, now: u128)
        requires
            old(self).wf(),
            now <= MAX_NANOS,
        ensures
            final(self).wf(),
            final(self).script() == old(self).script().advance(now as nat),
            final(self).is_async == old(self).is_async,
            final(self).clock() == old(self).clock(),
            final(self).sleep_pending() == old(self).sleep_pending(),
            final(self).sleep_record() == old(self).sleep_record(),
            final(self).writer_task() == old(self).writer_task(),
            final(self).timer_settings() == old(self).timer_settings(),
            final(self).slept == old(self).slept,
            final(self).task_seen == old(self).task_seen,
            expects_read_or_over(final(self).script()) ==> final(self).reader_task() is None
                && final(self).woken() == woke(old(self).woken(), old(self).reader_task()),
            !expects_read_or_over(final(self).script()) ==> final(self).reader_task()
                == old(self).reader_task() && final(self).woken() == old(self).woken(),
    {
        self.inner.action(now);
        if self.inner.expects_read_or_over() {
            if let Some(task) = self.tokio.read_wait.take() {
                self.wake(task);
            }
        }
    }

    /// Wakes a task that waits to write once the script expects a write.
    fn maybe_wakeup_writer(&mut self, now: u128)
        requires
            old(self).wf(),
            now <= MAX_NANOS,
        ensures
            final(self).wf(),
            final(self).script() == old(self).script().advance(now as nat),
            final(self).is_async == old(self).is_async,
            final(self).clock() == old(self).clock(),
            final(self).sleep_pending() == old(self).sleep_pending(),
            final(self).sleep_record() == old(self).sleep_record(),
            final(self).reader_task() == old(self).reader_task(),
            final(self).timer_settings() == old(self).timer_settings(),
            final(self).slept == old(self).slept,
            final(self).task_seen == old(self).task_seen,
            final(self).script().current matches Some(Phase::Writing(_)) ==> final(self).writer_task() is None
                && final(self).woken() == woke(old(self).woken(), old(self).writer_task()),
            !(final(self).script().current matches Some(Phase::Writing(_))) ==> final(self).writer_task()
                == old(self).writer_task() && final(self).woken() == old(self).woken(),
    {
        self.inner.action(now);
        if self.inner.expects_write() {
            if let Some(task) = self.tokio.write_wait.take() {
                self.wake(task);
            }
        }
    }

    /// Reads as the script says, given the task context of the call: without
    /// blocking when the mode (or, if none was set, the task context) says
    /// async, and else blocking. In blocking mode the script must not stall
    /// a read (expect a write before any read once its waits are over).
    pub fn read_with(&mut self, dst: &mut [u8], cx: &Option<InTask>) -> (r: Result<usize, MockError>)
        requires
            old(self).wf(),
            old(self).async_mode() == Some(false) ==> !old(self).script().read_stalls(),
        ensures
            final(self).wf(),
            final(self).async_mode() == old(self).async_mode(),
            final(self).timer_settings() == old(self).timer_settings(),
            old(self).clock() <= final(self).clock(),
            final(dst)@.len() == old(dst)@.len(),
            final(self).task_context() == old(self).task_context(),
            read_done(*old(self), old(dst)@, *final(self), final(dst)@, r, cx is Some),
    {
        let go_async = match self.is_async {
            Some(b) => b,
            None => cx.is_some(),
        };
        if go_async {
            async_read_with(self, dst, cx)
        } else {
            if self.inner.read_stalls() {
                return Err(MockError::ExpectedWrite);
            }
            self.sync_read(dst)
        }
    }

    /// Reads as the script says: blocking, or without blocking in async mode
    /// (see `read_with`; the task context is that of the calling thread).
    pub fn read(&mut self, dst: &mut [u8]) -> (r: Result<usize, MockError>)
        requires
            old(self).wf(),
            old(self).async_mode() == Some(false) ==> !old(self).script().read_stalls(),
        ensures
            final(self).wf(),
            final(self).async_mode() == old(self).async_mode(),
            final(self).timer_settings() == old(self).timer_settings(),
            old(self).clock() <= final(self).clock(),
            final(dst)@.len() == old(dst)@.len(),
            read_done(*old(self), old(dst)@, *final(self), final(dst)@, r, final(self).task_context()),
    {
        let cx = self.observe_task();
        self.read_with(dst, &cx)
    }

    /// Writes as the script says, given the task context of the call: it must
    /// expect the write now (or, while reads are in progress, right after
    /// them), or in async mode the current task is woken once it does. The
    /// bytes must match the scripted ones at any reading of the clock.
    pub fn write_with(&mut self, src: &[u8], cx: &Option<InTask>) -> (r: Result<usize, MockError>)
        requires
            old(self).wf(),
            !old(self).script().may_mismatch(src@),
        ensures
            final(self).wf(),
            final(self).async_mode() == old(self).async_mode(),
            final(self).timer_settings() == old(self).timer_settings(),
            old(self).clock() <= final(self).clock(),
            final(self).task_context() == old(self).task_context(),
            write_done(*old(self), src@, *final(self), r, cx is Some),
    {
        let go_async = match self.is_async {
            Some(b) => b,
            None => cx.is_some(),
        };
        if go_async {
            async_write_with(self, src, cx)
        } else {
            self.sync_write(src)
        }
    }

    /// Writes as the script says (see `write_with`; the task context is that
    /// of the calling thread).
    pub fn write(&mut self, src: &[u8]) -> (r: Result<usize, MockError>)
        requires
            old(self).wf(),
            !old(self).script().may_mismatch(src@),
        ensures
            final(self).wf(),
            final(self).async_mode() == old(self).async_mode(),
            final(self).timer_settings() == old(self).timer_settings(),
            old(self).clock() <= final(self).clock(),
            write_done(*old(self), src@, *final(self), r, final(self).task_context()),
    {
        let cx = self.observe_task();
        self.write_with(src, &cx)
    }

    /// The mode set on the builder: `Some(true)` async, `Some(false)`
    /// blocking, `None` chosen by the calling context.
    pub fn async_setting(&self) -> (m: Option<bool>)
        ensures
            m == self.async_mode(),
    {
        self.is_async
    }

    /// Tells whether the bytes of `src` match the scripted ones at every
    /// reading of the clock (what `write` requires).
    pub fn write_matches(&self, src: &[u8]) -> (b: bool)
        requires
            self.wf(),
        ensures
            b == !self.script().may_mismatch(src@),
    {
        !self.inner.may_mismatch(src)
    }

    /// Tells whether, at some reading of the clock, a write would find the
    /// script expecting a wait, or reads that no write follows (what a
    /// blocking `write` answers with `UnexpectedWrite`).
    pub fn write_may_block(&self) -> (b: bool)
        requires
            self.wf(),
        ensures
            b == self.script().may_block_write(),
    {
        self.inner.may_block_write()
    }

    /// Tells whether a blocking read could never be answered (what a
    /// blocking `read` rules out).
    pub fn read_stalls(&self) -> (b: bool)
        ensures
            b == self.script().read_stalls(),
    {
        self.inner.read_stalls()
    }

    /// Flushing has nothing to do.
    pub fn flush(&mut self) -> (r: Result<(), MockError>)
        ensures
            *final(self) == *old(self),
            r is Ok,
    {
        Ok(())
    }
}

/// What a blocking write of `src` does to the script (from `s0` to `s1`)
/// when the clock reads `t`: it follows `sync_write_at`, and so it is refused
/// as unexpected only if at some reading the script expects no write.
pub open spec fn sync_write_done(
    s0: ScriptState,
    src: Seq<u8>,
    s1: ScriptState,
    r: Result<usize, MockError>,
    t: nat,
) -> bool {
    &&& sync_write_at(s0, src, s1, r, t)
    &&& !s0.may_block_write() ==> r != Err::<usize, MockError>(MockError::UnexpectedWrite)
}

/// What a non-blocking read does, from mock `m0` with buffer `d0` to mock
/// `m1` with buffer `d1`: the script and the buffer follow
/// `async_read_outcome`; a read that goes through leaves no timer pending;
/// a read that would block leaves something that will wake the reading task
/// (a timer it polled, the task registered as the reader, or the task
/// notified at once); a read that goes through notifies the waiting writer
/// once the script expects a write; and a timer set by this read and still
/// pending was set for the end of the wait in progress.
pub open spec fn async_read_done(m0: Mock, d0: Seq<u8>, m1: Mock, d1: Seq<u8>, r: Result<usize, MockError>) -> bool {
    let writing = m1.script().current matches Some(Phase::Writing(_));
    let would_block = r == Err::<usize, MockError>(MockError::WouldBlock);
    &&& async_read_outcome(
        m0.script(),
        m0.sleep_pending(),
        d0,
        m1.script(),
        d1,
        r,
        m1.sleep_pending(),
        m1.reader_waiting(),
        m0.clock(),
        m1.clock(),
    )
    &&& m1.blocking_sleeps() == m0.blocking_sleeps()
    &&& r is Ok ==> !m1.sleep_pending()
    &&& would_block ==> {
        ||| m1.sleep_pending() && m1.sleep_record().polled && m1.woken() == m0.woken()
        ||| !m1.sleep_pending() && m1.reader_waiting() && m1.woken() == m0.woken()
        ||| m1.sleep_pending() && m1.woken().len() == m0.woken().len() + 1 && m1.woken().drop_last()
            == m0.woken()
    }
    &&& (!would_block || m1.sleep_pending()) ==> m1.reader_task() == m0.reader_task()
    &&& r is Ok && writing ==> m1.writer_task() is None && m1.woken() == woke(m0.woken(), m0.writer_task())
    &&& !(r is Ok && writing) ==> m1.writer_task() == m0.writer_task()
    &&& r is Ok && !writing ==> m1.woken() == m0.woken()
    &&& r is Err && !would_block ==> m1.woken() == m0.woken()
    &&& m0.sleep_record().arms <= m1.sleep_record().arms
    &&& m1.sleep_pending() && m1.sleep_record().arms != m0.sleep_record().arms ==> m1.script().current
        == Some(Phase::Waiting(m1.sleep_record().wait_end))
}

/// What a non-blocking write of `src` does, from mock `m0` to mock `m1`: the
/// script follows `async_write_at` at the clock's last reading; the timer is
/// as it was; a write that would block registers the writing task to be
/// woken; a write that goes through (or finds the script over) notifies the
/// waiting reader once the script expects a read or is over.
pub open spec fn async_write_done(m0: Mock, src: Seq<u8>, m1: Mock, r: Result<usize, MockError>) -> bool {
    let passed = r is Ok || r == Err::<usize, MockError>(MockError::BrokenPipe);
    &&& async_write_at(m0.script(), src, m1.script(), r, m1.clock())
    &&& m1.blocking_sleeps() == m0.blocking_sleeps()
    &&& m1.sleep_pending() == m0.sleep_pending()
    &&& m1.sleep_record() == m0.sleep_record()
    &&& r == Err::<usize, MockError>(MockError::WouldBlock) ==> m1.writer_waiting()
    &&& r != Err::<usize, MockError>(MockError::WouldBlock) ==> m1.writer_task() == m0.writer_task()
    &&& passed && expects_read_or_over(m1.script()) ==> m1.reader_task() is None && m1.woken() == woke(
        m0.woken(),
        m0.reader_task(),
    )
    &&& !(passed && expects_read_or_over(m1.script())) ==> m1.reader_task() == m0.reader_task()
        && m1.woken() == m0.woken()
}

/// What a read does, from mock `m0` with buffer `d0` to mock `m1` with buffer
/// `d1`, given whether a futures task is being polled: asynchronously when
/// the mode (or, if none was set, the task context) says so, as
/// `async_read_done` and `answers_context` say; otherwise blocking, as
/// `sync_read_done` says, with the timer and the tasks untouched.
pub open spec fn read_done(m0: Mock, d0: Seq<u8>, m1: Mock, d1: Seq<u8>, r: Result<usize, MockError>, in_task: bool) -> bool {
    if chooses_async(m0.async_mode(), in_task) {
        async_read_done(m0, d0, m1, d1, r) && answers_context(in_task, r)
    } else {
        sync_read_done(m0.script(), d0, m1.script(), d1, r, m0.clock(), m1.clock()) && tasks_unchanged(
            m0,
            m1,
        ) && m0.blocking_sleeps() <= m1.blocking_sleeps()
    }
}

/// What a write of `src` does, from mock `m0` to mock `m1`, given whether a
/// futures task is being polled: asynchronously when the mode (or, if none
/// was set, the task context) says so, as `async_write_done` and
/// `answers_context` say; otherwise blocking, as `sync_write_done` says, with
/// the timer and the tasks untouched.
pub open spec fn write_done(m0: Mock, src: Seq<u8>, m1: Mock, r: Result<usize, MockError>, in_task: bool) -> bool {
    if chooses_async(m0.async_mode(), in_task) {
        async_write_done(m0, src, m1, r) && answers_context(in_task, r)
    } else {
        sync_write_done(m0.script(), src, m1.script(), r, m1.clock()) && tasks_unchanged(m0, m1)
            && m1.blocking_sleeps() == m0.blocking_sleeps()
    }
}

/// What a read does with the outcome of polling its pending timer: it reads
/// on (`None`) once the timer has fired, and otherwise ends with `WouldBlock`
/// (the task will be woken when the timer fires) or with the timer's error.
pub fn after_poll(polled: Result<bool, TimerError>) -> (o: Option<MockError>)
    ensures
        match polled {
            Ok(true) => o is None,
            Ok(false) => o == Some(MockError::WouldBlock),
            Err(e) => o == Some(MockError::TimerFailed(e)),
        },
{
    match polled {
        Ok(true) => None,
        Ok(false) => Some(MockError::WouldBlock),
        Err(e) => Some(MockError::TimerFailed(e)),
    }
}

/// Reads without blocking, given the task context of the call: while the
/// script waits, a timer is set and polled, so that the current task is woken
/// when it fires; when the script expects a write, the current task is
/// registered to be woken once it does not. Outside a task, where nothing can
/// be woken, such a read ends with `NotInTask`.
pub fn async_read_with(me: &mut Mock, dst: &mut [u8], cx: &Option<InTask>) -> (r: Result<usize, MockError>)
    requires
        old(me).wf(),
    ensures
        final(me).wf(),
        final(me).async_mode() == old(me).async_mode(),
        final(me).timer_settings() == old(me).timer_settings(),
        old(me).clock() <= final(me).clock(),
        final(dst)@.len() == old(dst)@.len(),
        async_read_done(*old(me), old(dst)@, *final(me), final(dst)@, r),
        answers_context(cx is Some, r),
        final(me).task_context() == old(me).task_context(),
{
    let ghost m0 = *me;
    let ghost s0 = me.script();
    let ghost p0 = me.sleep_pending();
    let ghost d0 = dst@;
    let ghost len = d0.len();
    let ghost mut ts: Seq<nat> = Seq::empty();
    let mut rounds: u64 = 0;
    while rounds < 0xffff_ffff_ffff_ffffu64
        invariant
            me.wf(),
            me.is_async == m0.is_async,
            me.tokio.tick == m0.tokio.tick,
            me.tokio.max_timeout == m0.tokio.max_timeout,
            me.tokio.read_wait == m0.tokio.read_wait,
            me.tokio.write_wait == m0.tokio.write_wait,
            me.tokio.woken == m0.tokio.woken,
            me.slept == m0.slept,
            me.task_seen == m0.task_seen,
            m0.clock() <= me.clock(),
            m0 == *old(me),
            dst@ == d0,
            d0 == old(dst)@,
            len == d0.len(),
            s0 == old(me).script(),
            p0 == old(me).sleep_pending(),
            ts.len() == rounds,
            sleeps_through(s0, len, ts) == Some(me.script()),
            readings_between(ts, m0.clock(), me.clock()),
            me.sleep_pending() ==> (p0 || ts.len() > 0),
            ts.len() > 0 ==> me.sleep_pending(),
            m0.sleep_record().arms <= me.sleep_record().arms,
            me.sleep_pending() && me.sleep_record().arms != m0.sleep_record().arms ==> me.script().current
                == Some(Phase::Waiting(me.sleep_record().wait_end)),
            !me.sleep_pending() ==> me.sleep_record().arms == m0.sleep_record().arms,
        decreases 0xffff_ffff_ffff_ffffu64 - rounds,
    {
        let ghost m = me.script();
        if let Some(mut sleep) = me.tokio.sleep.take() {
            let polled = match cx {
                Some(task_cx) => poll_sleep(&mut sleep, task_cx),
                None => {
                    if sleep.is_expired() {
                        Ok(true)
                    } else {
                        me.tokio.sleep = Some(sleep);
                        return Err(MockError::NotInTask);
                    }
                },
            };
            match after_poll(polled) {
                None => {},
                Some(MockError::WouldBlock) => {
                    me.tokio.sleep = Some(sleep);
                    proof {
                        let rec = me.tokio.sleep_rec@;
                        me.tokio.sleep_rec = Ghost(SleepRecord { polled: true, ..rec });
                    }
                    return Err(MockError::WouldBlock);
                },
                Some(e) => {
                    me.tokio.sleep = Some(sleep);
                    return Err(e);
                },
            }
        }
        let now = me.now();
        match me.inner.read(dst, now) {
            Err(IoError::WouldBlock) => {
                match me.inner.remaining_wait(now) {
                    Some(rem) => {
                        let ghost u = me.script().current->Some_0->Waiting_0;
                        let d = sleep_duration(rem);
                        let sleep = me.tokio.timer.sleep(d);
                        me.tokio.sleep = Some(sleep);
                        proof {
                            let arms = me.tokio.sleep_rec@.arms + 1;
                            me.tokio.sleep_rec = Ghost(SleepRecord {
                                armed_at: now as nat,
                                deadline: now as nat + nanos_of(d),
                                wait_end: u,
                                polled: false,
                                arms: arms,
                            });
                            let ts2 = ts.push(now as nat);
                            assert(ts2.drop_last() =~= ts);
                            lemma_readings_push(ts, m0.clock(), now as nat);
                            assert(sleeps_through(s0, len, ts2) == Some(me.script()));
                            ts = ts2;
                        }
                    },
                    None => {
                        let r = match cx {
                            Some(task_cx) => {
                                me.tokio.read_wait = Some(current_task(task_cx));
                                Err(MockError::WouldBlock)
                            },
                            None => Err(MockError::NotInTask),
                        };
                        proof {
                            assert(async_read_ends(m, d0, me.script(), dst@, r, now as nat));
                        }
                        return r;
                    },
                }
            },
            Ok(n) => {
                me.maybe_wakeup_writer(now);
                proof {
                    assert(async_read_ends(m, d0, me.script(), dst@, Ok(n), now as nat));
                }
                return Ok(n);
            },
            Err(IoError::BrokenPipe) => {
                return Err(MockError::BrokenPipe);
            },
        }
        rounds = rounds + 1;
    }
    match cx {
        Some(task_cx) => {
            let task = current_task(task_cx);
            me.wake(task);
            assert(me.woken().drop_last() =~= m0.woken());
            Err(MockError::WouldBlock)
        },
        None => Err(MockError::NotInTask),
    }
}

/// Reads without blocking (see `async_read_with`; the task context is that
/// of the calling thread).
pub fn async_read(me: &mut Mock, dst: &mut [u8]) -> (r: Result<usize, MockError>)
    requires
        old(me).wf(),
    ensures
        final(me).wf(),
        final(me).async_mode() == old(me).async_mode(),
        final(me).timer_settings() == old(me).timer_settings(),
        old(me).clock() <= final(me).clock(),
        final(dst)@.len() == old(dst)@.len(),
        async_read_done(*old(me), old(dst)@, *final(me), final(dst)@, r),
        answers_context(final(me).task_context(), r),
{
    let cx = me.observe_task();
    async_read_with(me, dst, &cx)
}

/// Writes without blocking, given the task context of the call: when the
/// script expects something else, the current task is registered to be woken
/// once it expects a write. Outside a task, where nothing can be woken, such
/// a write ends with `NotInTask`.
pub fn async_write_with(me: &mut Mock, src: &[u8], cx: &Option<InTask>) -> (r: Result<usize, MockError>)
    requires
        old(me).wf(),
        !old(me).script().may_mismatch(src@),
    ensures
        final(me).wf(),
        final(me).async_mode() == old(me).async_mode(),
        final(me).timer_settings() == old(me).timer_settings(),
        old(me).clock() <= final(me).clock(),
        async_write_done(*old(me), src@, *final(me), r),
        answers_context(cx is Some, r),
        final(me).task_context() == old(me).task_context(),
{
    let now = me.now();
    let r = match me.inner.write(src, now) {
        Err(IoError::WouldBlock) => {
            match cx {
                Some(task_cx) => {
                    me.tokio.write_wait = Some(current_task(task_cx));
                    Err(MockError::WouldBlock)
                },
                None => Err(MockError::NotInTask),
            }
        },
        Ok(n) => {
            me.maybe_wakeup_reader(now);
            Ok(n)
        },
        Err(IoError::BrokenPipe) => {
            me.maybe_wakeup_reader(now);
            Err(MockError::BrokenPipe)
        },
    };
    assert(async_write_at(old(me).script(), src@, me.script(), r, now as nat));
    r
}

/// Writes without blocking (see `async_write_with`; the task context is that
/// of the calling thread).
pub fn async_write(me: &mut Mock, src: &[u8]) -> (r: Result<usize, MockError>)
    requires
        old(me).wf(),
        !old(me).script().may_mismatch(src@),
    ensures
        final(me).wf(),
        final(me).async_mode() == old(me).async_mode(),
        final(me).timer_settings() == old(me).timer_settings(),
        old(me).clock() <= final(me).clock(),
        async_write_done(*old(me), src@, *final(me), r),
        answers_context(final(me).task_context(), r),
{
    let cx = me.observe_task();
    async_write_with(me, src, &cx)
}

} // verus!
