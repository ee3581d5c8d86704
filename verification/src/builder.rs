//! Describing a script: the `Builder` collects the reads, writes and waits a
//! mock will follow.
use crate::mock::Mock;
use futures::task::Task;
use crate::outside::nanos_of;
use crate::script::{
    copy_actions, copy_bytes, step_bounded, steps_of, Action, Inner, ScriptState, Step, MAX_NANOS,
};
use std::collections::VecDeque;
use std::time::Duration;
use vstd::prelude::*;

verus! {

/// The shortest wait a script holds: one millisecond.
pub const MIN_WAIT_NANOS: u128 = 1_000_000u128;

/// Every wait of the script fits a `Duration`.
pub open spec fn script_bounded(script: Seq<Step>) -> bool {
    forall|i: int| 0 <= i < script.len() ==> step_bounded(#[trigger] script[i])
}

/// The wait a builder records for a requested wait of `nanos` nanoseconds.
pub open spec fn wait_step(nanos: nat) -> Step {
    Step::Wait(if nanos < MIN_WAIT_NANOS { MIN_WAIT_NANOS as nat } else { nanos })
}

/// Builds `Mock` instances.
#[derive(Debug)]
pub struct Builder {
    // Sequence of actions for the Mock to take
    actions: VecDeque<Action>,
    // true for Tokio, false for blocking, None to auto detect
    is_async: Option<bool>,
}

impl Builder {
    /// The scripted operations, in order.
    pub closed spec fn script(&self) -> Seq<Step> {
        steps_of(self.actions@)
    }

    /// `Some(true)` for async behaviour, `Some(false)` for blocking, `None`
    /// to choose by the calling context.
    pub closed spec fn async_mode(&self) -> Option<bool> {
        self.is_async
    }

    /// Every wait of the script fits a `Duration`.
    pub open spec fn wf(&self) -> bool {
        script_bounded(self.script())
    }

    /// Every builder's waits fit a `Duration`.
    #[verifier::type_invariant]
    spec fn waits_fit(self) -> bool {
        script_bounded(steps_of(self.actions@))
    }

    /// Appends an action to the script.
    fn push(&mut self, a: Action)
        requires
            step_bounded(a@),
        ensures
            final(self).script() == old(self).script().push(a@),
            final(self).async_mode() == old(self).async_mode(),
            final(self).wf(),
    {
        proof {
            use_type_invariant(&*self);
        }
        let mut actions: VecDeque<Action> = VecDeque::new();
        std::mem::swap(&mut actions, &mut self.actions);
        let ghost prev = actions@;
        actions.push_back(a);
        assert(steps_of(actions@) =~= steps_of(prev).push(a@));
        std::mem::swap(&mut actions, &mut self.actions);
    }

    /// Return a new, empty `Builder`.
    pub fn new() -> (b: Self)
        ensures
            b.script() == Seq::<Step>::empty(),
            b.async_mode() is None,
            b.wf(),
    {
        Self::default()
    }

    /// Sequence a `read` operation.
    ///
    /// The next operation in the mock's script will be to expect a `read` call
    /// and return `buf`.
    pub fn read(&mut self, buf: &[u8]) -> (ret: &mut Self)
        ensures
            ret.script() == old(self).script().push(Step::Read(buf@)),
            ret.async_mode() == old(self).async_mode(),
            ret.wf(),
            *final(self) == *final(ret),
    {
        self.push(Action::Read(copy_bytes(buf)));
        self
    }

    /// Sequence a `write` operation.
    ///
    /// The next operation in the mock's script will be to expect a `write`
    /// call.
    pub fn write(&mut self, buf: &[u8]) -> (ret: &mut Self)
        ensures
            ret.script() == old(self).script().push(Step::Write(buf@)),
            ret.async_mode() == old(self).async_mode(),
            ret.wf(),
            *final(self) == *final(ret),
    {
        self.push(Action::Write(copy_bytes(buf)));
        self
    }

    /// Sequence a wait of `nanos` nanoseconds (at least one millisecond).
    pub fn wait_nanos(&mut self, nanos: u128) -> (ret: &mut Self)
        requires
            nanos <= MAX_NANOS,
        ensures
            ret.script() == old(self).script().push(wait_step(nanos as nat)),
            ret.script().last() == Step::Wait(if nanos < 1_000_000 { 1_000_000 } else { nanos as nat }),
            ret.async_mode() == old(self).async_mode(),
            ret.wf(),
            *final(self) == *final(ret),
    {
        let n: u128 = if nanos < MIN_WAIT_NANOS { MIN_WAIT_NANOS } else { nanos };
        self.push(Action::Wait(n));
        self
    }

    /// Sequence a wait.
    ///
    /// The next operation in the mock's script will be to wait without doing so
    /// for `duration` amount of time (at least one millisecond).
    pub fn wait(&mut self, duration: Duration) -> (ret: &mut Self)
        ensures
            ret.script() == old(self).script().push(wait_step(nanos_of(duration))),
            ret.script().last() == Step::Wait(
                if nanos_of(duration) < 1_000_000 { 1_000_000 } else { nanos_of(duration) },
            ),
            ret.async_mode() == old(self).async_mode(),
            ret.wf(),
            *final(self) == *final(ret),
    {
        let nanos = duration.as_nanos();
        self.wait_nanos(nanos)
    }

    /// Decide explicitly whether the mock behaves asynchronously (`true`) or
    /// blocks (`false`).
    pub fn set_async(&mut self, is_async: bool) -> (ret: &mut Self)
        ensures
            ret.script() == old(self).script(),
            ret.async_mode() == Some(is_async),
            *final(self) == *final(ret),
    {
        proof {
            use_type_invariant(&*self);
        }
        self.is_async = Some(is_async);
        self
    }

    /// Build a `Mock` value according to the defined script.
    pub fn build(&mut self) -> (m: Mock)
        ensures
            *final(self) == *old(self),
            m.script() == (ScriptState { pending: old(self).script(), current: None }),
            m.async_mode() == old(self).async_mode(),
            !m.sleep_pending(),
            !m.reader_waiting(),
            !m.writer_waiting(),
            m.woken() == Seq::<Task>::empty(),
            m.clock() == 0,
            m.timer_settings() == (1_000_000nat, 3_600_000_000_000nat),
            m.wf(),
    {
        Mock::from(self.clone())
    }
}

/// Which side of a recorded exchange a packet came from.
#[derive(Debug, Clone, Copy, PartialEq, Eq, Structural)]
pub enum Direction {
    /// Bytes the recorded program read.
    Read,
    /// Bytes the recorded program wrote.
    Write,
}

/// One packet of a recorded exchange: its direction, when it was seen
/// (measured from the start of the recording) and its bytes.
#[derive(Debug)]
pub struct Packet {
    pub direction: Direction,
    pub elapsed: Duration,
    pub data: Vec<u8>,
}

/// The time of the packet before packet `i` (zero for the first one).
pub open spec fn elapsed_before(ps: Seq<Packet>, i: int) -> nat {
    if i <= 0 {
        0
    } else {
        nanos_of(ps[i - 1].elapsed)
    }
}

/// The script steps that replay packet `p` when the previous packet was seen
/// at time `last`: a read waits for the time between the two packets first.
pub open spec fn packet_steps(p: Packet, last: nat) -> Seq<Step> {
    match p.direction {
        Direction::Read => seq![wait_step((nanos_of(p.elapsed) - last) as nat), Step::Read(p.data@)],
        Direction::Write => seq![Step::Write(p.data@)],
    }
}

/// The script that replays a recording.
pub open spec fn replay(ps: Seq<Packet>) -> Seq<Step>
    decreases ps.len(),
{
    if ps.len() == 0 {
        Seq::empty()
    } else {
        replay(ps.drop_last()) + packet_steps(ps.last(), elapsed_before(ps, ps.len() - 1))
    }
}

/// No read packet was seen before the packet that precedes it (the wait
/// before it would be negative).
pub open spec fn replayable(ps: Seq<Packet>) -> bool {
    forall|i: int|
        0 <= i < ps.len() && #[trigger] ps[i].direction == Direction::Read ==> nanos_of(ps[i].elapsed)
            >= elapsed_before(ps, i)
}

impl Builder {
    /// Return a new `Builder` set to replay the order of operations of a
    /// recording.
    pub fn from_packets(packets: &[Packet]) -> (b: Builder)
        requires
            replayable(packets@),
        ensures
            b.script() == replay(packets@),
            b.async_mode() is None,
            b.wf(),
    {
        let mut ret = Builder::new();
        let mut last: u128 = 0;
        let mut i: usize = 0;
        assert(packets@.take(0) =~= Seq::<Packet>::empty());
        while i < packets.len()
            invariant
                i <= packets@.len(),
                replayable(packets@),
                ret.script() == replay(packets@.take(i as int)),
                ret.async_mode() is None,
                ret.wf(),
                last == elapsed_before(packets@, i as int),
                last <= MAX_NANOS,
            decreases packets@.len() - i,
        {
            let p = &packets[i];
            let e = p.elapsed.as_nanos();
            let ghost pre = packets@.take(i as int);
            let ghost post = packets@.take(i + 1);
            assert(post.drop_last() =~= pre);
            assert(post.last() == packets@[i as int]);
            assert(elapsed_before(post, post.len() - 1) == elapsed_before(packets@, i as int));
            match p.direction {
                Direction::Read => {
                    assert(packets@[i as int].direction == Direction::Read);
                    ret.wait_nanos(e - last);
                    ret.read(p.data.as_slice());
                    assert(ret.script() =~= replay(pre) + packet_steps(packets@[i as int], last as nat));
                },
                Direction::Write => {
                    ret.write(p.data.as_slice());
                    assert(ret.script() =~= replay(pre) + packet_steps(packets@[i as int], last as nat));
                },
            }
            last = e;
            i = i + 1;
        }
        assert(packets@.take(packets@.len() as int) =~= packets@);
        ret
    }
}

impl Clone for Builder {
    /// An independent builder with the same script and mode.
    fn clone(&self) -> (b: Self)
        ensures
            b.script() == self.script(),
            b.async_mode() == self.async_mode(),
    {
        proof {
            use_type_invariant(self);
        }
        Builder { actions: copy_actions(&self.actions), is_async: self.is_async }
    }
}

impl Default for Builder {
    fn default() -> (b: Self)
        ensures
            b.script() == Seq::<Step>::empty(),
            b.async_mode() is None,
    {
        let actions: VecDeque<Action> = VecDeque::new();
        assert(steps_of(actions@) =~= Seq::<Step>::empty());
        Builder { actions, is_async: None }
    }
}

impl Mock {
    /// A mock that follows the builder's script from its start.
    pub fn from(src: Builder) -> (m: Mock)
        ensures
            m.script() == (ScriptState { pending: src.script(), current: None }),
            m.async_mode() == src.async_mode(),
            !m.sleep_pending(),
            !m.reader_waiting(),
            !m.writer_waiting(),
            m.woken() == Seq::<Task>::empty(),
            m.clock() == 0,
            m.timer_settings() == (1_000_000nat, 3_600_000_000_000nat),
            m.wf(),
    {
        proof {
            use_type_invariant(&src);
        }
        Mock::start(Inner::new(src.actions), src.is_async)
    }
}

} // verus!
