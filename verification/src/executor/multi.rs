//! Deciding when a number of threads have nothing left to do.
//!
//! At first only a few threads can work, because none of the state space has
//! been explored; the others try to take work from them, again and again.
//! Later too there are times when a thread has no work, but gets some when
//! more becomes available. So the threads are told to end only when all of
//! them are idle, all have been told to look for work once more, and all have
//! failed to find any.

use vstd::prelude::*;

verus! {

/// A message from a thread.
#[derive(Clone, Copy, Debug, PartialEq, Eq, Structural)]
pub enum Activity {
    Idle(usize),
    Busy(usize),
}

/// What the threads are told.
pub enum Decision {
    /// These threads are to look for work.
    Poke(Vec<usize>),
    /// All threads are to end.
    Kill,
}

/// What is known of the threads.
pub struct Orchestrator {
    /// For each thread, how often it has been idle in a row. A thread that is
    /// told to look for work counts as having been idle once.
    idleness: Vec<usize>,
    /// For each thread, whether its last message was that it is idle.
    idle: Vec<bool>,
}

impl Orchestrator {
    pub closed spec fn idleness(&self) -> Seq<usize> {
        self.idleness@
    }

    pub closed spec fn idle(&self) -> Seq<bool> {
        self.idle@
    }

    /// As many counts as threads, and no thread counts as idle that has not
    /// said so last.
    pub open spec fn wf(&self) -> bool {
        &&& self.idleness().len() == self.idle().len()
        &&& forall|tid: int|
            0 <= tid < self.idle().len() && #[trigger] self.idleness()[tid] > 0
                ==> self.idle()[tid]
    }

    /// Every thread has been idle twice in a row.
    pub open spec fn quiescent(&self) -> bool {
        forall|tid: int| 0 <= tid < self.idleness().len() ==> #[trigger] self.idleness()[tid] >= 2
    }

    /// What is known of the threads after a message.
    pub open spec fn heard(&self, message: Activity) -> (Seq<usize>, Seq<bool>) {
        match message {
            Activity::Idle(tid) => {
                let n = self.idleness()[tid as int];
                (
                    self.idleness().update(
                        tid as int,
                        if n == usize::MAX {
                            n
                        } else {
                            (n + 1) as usize
                        },
                    ),
                    self.idle().update(tid as int, true),
                )
            },
            Activity::Busy(tid) => (
                self.idleness().update(tid as int, 0),
                self.idle().update(tid as int, false),
            ),
        }
    }

    /// What is known of the threads once those that are idle have been told
    /// to look for work.
    pub open spec fn poked(&self) -> (Seq<usize>, Seq<bool>) {
        (
            Seq::new(
                self.idleness().len(),
                |tid: int|
                    if self.idle()[tid] {
                        1usize
                    } else {
                        self.idleness()[tid]
                    },
            ),
            self.idle(),
        )
    }

    /// At the start every thread counts as busy.
    pub fn new(num_threads: usize) -> (r: Self)
        ensures
            r.wf(),
            r.idleness() == Seq::new(num_threads as nat, |i: int| 0usize),
            r.idle() == Seq::new(num_threads as nat, |i: int| false),
    {
        let mut idleness: Vec<usize> = Vec::new();
        let mut idle: Vec<bool> = Vec::new();
        let mut i: usize = 0;
        while i < num_threads
            invariant
                i <= num_threads,
                idleness@ == Seq::new(i as nat, |i: int| 0usize),
                idle@ == Seq::new(i as nat, |i: int| false),
            decreases num_threads - i,
        {
            idleness.push(0);
            idle.push(false);
            i = i + 1;
            assert(idleness@ =~= Seq::new(i as nat, |i: int| 0usize));
            assert(idle@ =~= Seq::new(i as nat, |i: int| false));
        }
        Orchestrator { idleness, idle }
    }

    /// Takes a message. A count that is as high as it can be stays there.
    pub fn receive(&mut self, message: Activity)
        requires
            old(self).wf(),
            match message {
                Activity::Idle(tid) => tid < old(self).idle().len(),
                Activity::Busy(tid) => tid < old(self).idle().len(),
            },
        ensures
            final(self).wf(),
            (final(self).idleness(), final(self).idle()) == old(self).heard(message),
            match message {
                Activity::Idle(tid) => {
                    let n = old(self).idleness()[tid as int];
                    &&& final(self).idle() == old(self).idle().update(tid as int, true)
                    &&& final(self).idleness() == old(self).idleness().update(
                        tid as int,
                        if n == usize::MAX {
                            n
                        } else {
                            (n + 1) as usize
                        },
                    )
                },
                Activity::Busy(tid) => {
                    &&& final(self).idle() == old(self).idle().update(tid as int, false)
                    &&& final(self).idleness() == old(self).idleness().update(tid as int, 0)
                },
            },
    {
        match message {
            Activity::Idle(tid) => {
                let n = self.idleness[tid];
                self.idle.set(tid, true);
                self.idleness.set(
                    tid,
                    if n == usize::MAX {
                        n
                    } else {
                        n + 1
                    },
                );
            },
            Activity::Busy(tid) => {
                self.idle.set(tid, false);
                self.idleness.set(tid, 0);
            },
        }
    }

    /// Decides what the threads are told. If all have been idle twice in a
    /// row they are to end. Else those that said last that they are idle are
    /// to look for work.
    pub fn decide(&mut self) -> (r: Decision)
        requires
            old(self).wf(),
        ensures
            final(self).wf(),
            r is Kill <==> old(self).quiescent(),
            r is Kill ==> {
                &&& final(self).idle() == old(self).idle()
                &&& final(self).idleness() == old(self).idleness()
            },
            r is Poke ==> (final(self).idleness(), final(self).idle()) == old(self).poked(),
            r matches Decision::Poke(tids) ==> {
                &&& final(self).idle() == old(self).idle()
                &&& final(self).idleness() == Seq::new(
                    old(self).idleness().len(),
                    |tid: int|
                        if old(self).idle()[tid] {
                            1usize
                        } else {
                            old(self).idleness()[tid]
                        },
                )
                &&& tids@.no_duplicates()
                &&& forall|tid: usize| #[trigger]
                    tids@.contains(tid) <==> tid < old(self).idle().len() && old(
                        self,
                    ).idle()[tid as int]
            },
    {
        let n = self.idleness.len();
        let mut quiescent = true;
        let mut i: usize = 0;
        while i < n
            invariant
                i <= n,
                n == self.idleness@.len(),
                quiescent <==> forall|tid: int|
                    0 <= tid < i ==> #[trigger] self.idleness@[tid] >= 2,
            decreases n - i,
        {
            if self.idleness[i] < 2 {
                quiescent = false;
            }
            i = i + 1;
        }
        if quiescent {
            return Decision::Kill;
        }
        let mut tids: Vec<usize> = Vec::new();
        let mut tid: usize = 0;
        let ghost counts = self.idleness@;
        let ghost before = self.idle@;
        while tid < n
            invariant
                tid <= n,
                n == counts.len(),
                n == before.len(),
                self.idle@ == before,
                self.idleness@.len() == n,
                forall|t: int|
                    0 <= t < tid ==> #[trigger] self.idleness@[t] == (if before[t] {
                        1usize
                    } else {
                        counts[t]
                    }),
                forall|t: int| tid <= t < n ==> #[trigger] self.idleness@[t] == counts[t],
                forall|t: usize| #[trigger] tids@.contains(t) <==> t < tid && before[t as int],
                tids@.no_duplicates(),
            decreases n - tid,
        {
            let ghost poked = tids@;
            assert(!poked.contains(tid));
            if self.idle[tid] {
                tids.push(tid);
                self.idleness.set(tid, 1);
            }
            assert forall|t: usize| #[trigger]
                tids@.contains(t) <==> t < tid + 1 && before[t as int] by {
                if poked.contains(t) {
                    let j = choose|j: int| 0 <= j < poked.len() && poked[j] == t;
                    assert(tids@[j] == t);
                }
                if tids@.contains(t) && t != tid {
                    let j = choose|j: int| 0 <= j < tids@.len() && tids@[j] == t;
                    assert(poked[j] == t);
                }
                if t == tid && before[t as int] {
                    assert(tids@[tids@.len() - 1] == t);
                }
            }
            tid = tid + 1;
        }
        assert(self.idleness@ =~= Seq::new(
            counts.len(),
            |tid: int|
                if before[tid] {
                    1usize
                } else {
                    counts[tid]
                },
        ));
        Decision::Poke(tids)
    }
}

/// When the threads are told to end, no thread is busy.
pub proof fn law_quiescent_means_idle(o: &Orchestrator)
    requires
        o.wf(),
        o.quiescent(),
    ensures
        forall|tid: int| 0 <= tid < o.idle().len() ==> #[trigger] o.idle()[tid],
{
    assert forall|tid: int| 0 <= tid < o.idle().len() implies #[trigger] o.idle()[tid] by {
        assert(o.idleness()[tid] >= 2);
    }
}

/// The thread that a message comes from.
pub open spec fn sender(message: Activity) -> usize {
    match message {
        Activity::Idle(tid) => tid,
        Activity::Busy(tid) => tid,
    }
}

/// A message that a thread is busy keeps the threads from ending, until that
/// thread has said twice that it is idle.
pub proof fn law_busy_threads_are_waited_for(
    o: &Orchestrator,
    tid: usize,
    busy: &Orchestrator,
    idle_once: &Orchestrator,
    idle_twice: &Orchestrator,
)
    requires
        o.wf(),
        tid < o.idle().len(),
        (busy.idleness(), busy.idle()) == o.heard(Activity::Busy(tid)),
        (idle_once.idleness(), idle_once.idle()) == busy.heard(Activity::Idle(tid)),
        (idle_twice.idleness(), idle_twice.idle()) == idle_once.heard(Activity::Idle(tid)),
    ensures
        !busy.quiescent(),
        !idle_once.quiescent(),
        idle_twice.quiescent() <==> forall|t: int|
            0 <= t < o.idleness().len() && t != tid ==> #[trigger] o.idleness()[t] >= 2,
        !busy.idle()[tid as int],
        idle_once.idle()[tid as int],
{
    assert(busy.idleness()[tid as int] < 2);
    assert(idle_once.idleness()[tid as int] < 2);
    assert(idle_twice.idleness()[tid as int] >= 2);
    if idle_twice.quiescent() {
        assert forall|t: int| 0 <= t < o.idleness().len() && t != tid implies #[trigger]
            o.idleness()[t] >= 2 by {
            assert(idle_twice.idleness()[t] >= 2);
        }
    }
}

/// What a thread says is about that thread alone.
pub proof fn law_messages_are_about_their_sender(
    o: &Orchestrator,
    message: Activity,
    after: &Orchestrator,
    other: int,
)
    requires
        o.wf(),
        sender(message) < o.idle().len(),
        (after.idleness(), after.idle()) == o.heard(message),
        0 <= other < o.idle().len(),
        other != sender(message),
    ensures
        after.idle()[other] == o.idle()[other],
        after.idleness()[other] == o.idleness()[other],
{
}

/// Once the idle threads have been told to look for work, they are not told to
/// end before each of them has said once more that it is idle.
pub proof fn law_threads_look_once_more(
    o: &Orchestrator,
    told: &Orchestrator,
    tid: usize,
    again: &Orchestrator,
)
    requires
        o.wf(),
        tid < o.idle().len(),
        !o.quiescent(),
        (told.idleness(), told.idle()) == o.poked(),
        (again.idleness(), again.idle()) == told.heard(Activity::Idle(tid)),
    ensures
        !told.quiescent(),
        told.idleness()[tid as int] < 2,
        o.idle()[tid as int] ==> again.idleness()[tid as int] >= 2,
        told.idle() == o.idle(),
{
    assert(told.idleness()[tid as int] < 2) by {
        assert(o.idleness()[tid as int] > 0 ==> o.idle()[tid as int]);
    }
}

/// What a thread is doing.
#[derive(Clone, Copy, Debug, PartialEq, Eq, Structural)]
pub enum Phase {
    /// It looks for a task, having been without one.
    Looking,
    /// It executes tasks.
    Working,
    /// It waits to be told what to do.
    Waiting,
    Ended,
}

/// What happens to a thread.
#[derive(Clone, Copy, Debug, PartialEq, Eq, Structural)]
pub enum ThreadEvent {
    /// It has found a task.
    Found,
    /// There is no task to be found.
    NothingFound,
    /// It is told to look for work.
    Poked,
    /// It is told to end.
    Killed,
}

/// What a thread does next, and the message that it sends. An event that
/// cannot happen in a phase changes nothing.
pub open spec fn next_phase(tid: usize, phase: Phase, event: ThreadEvent) -> (
    Phase,
    Option<Activity>,
) {
    match (phase, event) {
        (Phase::Looking, ThreadEvent::Found) => (Phase::Working, Some(Activity::Busy(tid))),
        (Phase::Looking, ThreadEvent::NothingFound) => (Phase::Waiting, Some(Activity::Idle(tid))),
        (Phase::Working, ThreadEvent::NothingFound) => (Phase::Waiting, Some(Activity::Idle(tid))),
        (Phase::Waiting, ThreadEvent::Poked) => (Phase::Looking, None),
        (Phase::Waiting, ThreadEvent::Killed) => (Phase::Ended, None),
        (phase, _) => (phase, None),
    }
}

/// A thread that executes tasks.
pub struct ThreadState {
    tid: usize,
    phase: Phase,
}

impl ThreadState {
    pub closed spec fn spec_tid(&self) -> usize {
        self.tid
    }

    pub closed spec fn spec_phase(&self) -> Phase {
        self.phase
    }

    /// A thread starts by looking for a task.
    pub fn new(tid: usize) -> (r: Self)
        ensures
            r.spec_tid() == tid,
            r.spec_phase() == Phase::Looking,
    {
        ThreadState { tid, phase: Phase::Looking }
    }

    pub fn phase(&self) -> (r: Phase)
        ensures
            r == self.spec_phase(),
    {
        self.phase
    }

    /// Takes an event. The result is the message that is to be sent.
    pub fn on(&mut self, event: ThreadEvent) -> (r: Option<Activity>)
        ensures
            final(self).spec_tid() == old(self).spec_tid(),
            (final(self).spec_phase(), r) == next_phase(
                old(self).spec_tid(),
                old(self).spec_phase(),
                event,
            ),
    {
        let tid = self.tid;
        match (self.phase, event) {
            (Phase::Looking, ThreadEvent::Found) => {
                self.phase = Phase::Working;
                Some(Activity::Busy(tid))
            },
            (Phase::Looking, ThreadEvent::NothingFound) => {
                self.phase = Phase::Waiting;
                Some(Activity::Idle(tid))
            },
            (Phase::Working, ThreadEvent::NothingFound) => {
                self.phase = Phase::Waiting;
                Some(Activity::Idle(tid))
            },
            (Phase::Waiting, ThreadEvent::Poked) => {
                self.phase = Phase::Looking;
                None
            },
            (Phase::Waiting, ThreadEvent::Killed) => {
                self.phase = Phase::Ended;
                None
            },
            _ => None,
        }
    }
}

/// A thread ends only if it is told to while it waits, and then for good. It
/// works only once it has found a task, and waits only once there was none.
/// While it works it takes no notice of what it is told.
pub proof fn law_phases(tid: usize, phase: Phase, event: ThreadEvent)
    ensures
        ({
            let (next, message) = next_phase(tid, phase, event);
            &&& next is Ended && !(phase is Ended) ==> phase is Waiting && event is Killed
            &&& phase is Waiting && event is Killed ==> next is Ended
            &&& phase is Ended ==> next is Ended && message is None
            &&& next is Working && !(phase is Working) ==> phase is Looking && event is Found
            &&& phase is Looking && event is Found ==> next is Working
            &&& next is Waiting && !(phase is Waiting) ==> event is NothingFound
            &&& (phase is Looking || phase is Working) && event is NothingFound ==> next is Waiting
            &&& phase is Waiting && event is Poked ==> next is Looking
            &&& next is Looking && !(phase is Looking) ==> phase is Waiting && event is Poked
            &&& phase is Working && !(event is NothingFound) ==> next is Working
            &&& message matches Some(sent) ==> sender(sent) == tid && next != phase
        }),
{
}

/// Where a thread is after a history of events, and its last message.
pub open spec fn after(tid: usize, history: Seq<ThreadEvent>) -> (Phase, Option<Activity>)
    decreases history.len(),
{
    if history.len() == 0 {
        (Phase::Looking, None)
    } else {
        let (phase, sent) = after(tid, history.drop_last());
        let (phase, message) = next_phase(tid, phase, history.last());
        (
            phase,
            if message is Some {
                message
            } else {
                sent
            },
        )
    }
}

/// The last message of a thread tells what it is doing: one that works has
/// said that it is busy, and one that waits or has ended that it is idle.
pub proof fn law_messages_tell_the_phase(tid: usize, history: Seq<ThreadEvent>)
    ensures
        ({
            let (phase, sent) = after(tid, history);
            &&& phase is Working <==> sent == Some(Activity::Busy(tid))
            &&& phase is Waiting || phase is Ended ==> sent == Some(Activity::Idle(tid))
        }),
    decreases history.len(),
{
    if history.len() > 0 {
        law_messages_tell_the_phase(tid, history.drop_last());
    }
}

/// When the threads are told to end, and all their messages have come in, no
/// thread is working.
pub proof fn law_no_thread_works_at_the_end(
    o: &Orchestrator,
    histories: Seq<Seq<ThreadEvent>>,
    tid: usize,
)
    requires
        o.wf(),
        o.quiescent(),
        histories.len() == o.idle().len(),
        forall|t: usize|
            t < histories.len() ==> o.idle()[t as int] == ((#[trigger] after(
                t,
                histories[t as int],
            )).1 == Some(Activity::Idle(t))),
        tid < histories.len(),
    ensures
        !(after(tid, histories[tid as int]).0 is Working),
{
    law_quiescent_means_idle(o);
    law_messages_tell_the_phase(tid, histories[tid as int]);
    assert(o.idle()[tid as int]);
}

} // verus!
