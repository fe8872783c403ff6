use vstd::prelude::*;

use crate::queue::priority_queue::{hands_out, PriorityQueue};
use crate::scheduling::calendar::representable;
use crate::scheduling::priority::priority_rank;
use crate::scheduling::schedule::{
    lemma_schedule_order, lemma_schedules_leave_in_order, schedule_before, upcoming,
    ScheduleOrder, ScheduleView, StSchedule,
};
use crate::scheduling::time::{timestamp, Timestamp};
use crate::traits::ID;

verus! {

/// How long the dispatcher idles when its queue is empty, in milliseconds.
pub const IDLE_MILLIS: u64 = 1000;

/// What a poll of the scheduler finds.
#[derive(Debug)]
pub enum Poll<P, R> {
    /// The queue holds nothing.
    Empty,
    /// The first schedule of the queue is due after the given time.
    Pending(P),
    /// The given schedule is due and has left the queue.
    Ready(R),
}

/// A message by which the owner of a scheduler steers it.
#[derive(Debug)]
pub enum XMessage {
    /// Suspend the scheduler.
    Abort,
    /// Put a schedule into the queue.
    Add(StSchedule),
    /// Take the schedule with the given id out of the queue.
    Remove(String),
    /// Replace the schedule of the same id in the queue.
    Update(StSchedule),
}

/// What the dispatcher has to do next.
#[derive(Debug)]
pub enum Action {
    /// The scheduler is suspended: end the loop.
    Exit,
    /// Nothing is due: sleep for the given number of milliseconds, then ask again.
    Idle(u64),
    /// The given schedule is due: tell the subscriber its id, then hand the schedule back with
    /// `add_schedule`.
    Fire(StSchedule),
}

/// The state of the dispatcher: the queue of schedules, and whether it is suspended.
pub struct StScheduler {
    pq: PriorityQueue<StSchedule, ScheduleOrder>,
    suspended: bool,
}

/// What an addition puts into the queue: the schedule itself where it is not yet past, else
/// its upcoming schedule, if it has one.
pub open spec fn added_for(schedule: ScheduleView, now: int) -> Option<ScheduleView> {
    if schedule.timing.deadline < now {
        match upcoming(schedule, now) {
            Ok(next) => Some(next),
            Err(_) => None,
        }
    } else {
        Some(schedule)
    }
}

/// Every schedule of `before` but the one with the given id is in `after` as it was.
pub open spec fn keeps_others(
    before: Map<Seq<char>, StSchedule>,
    after: Map<Seq<char>, StSchedule>,
    id: Seq<char>,
) -> bool {
    forall|other: Seq<char>|
        other != id && before.contains_key(other) ==> after.contains_key(other) && (
        #[trigger] after[other]) == before[other]
}

/// `after` is what an addition of the schedule makes of the queue `before` when the present
/// is `now`: a schedule that is not yet past goes in as it is, one that is past goes in as its
/// upcoming schedule, and one that has none is dropped. A schedule that the queue holds under
/// the same id gives way.
pub open spec fn adds(
    before: Map<Seq<char>, StSchedule>,
    after: Map<Seq<char>, StSchedule>,
    schedule: ScheduleView,
    now: int,
) -> bool {
    &&& keeps_others(before, after, schedule.id)
    &&& match added_for(schedule, now) {
        Some(s) => after.dom() == before.dom().insert(schedule.id) && after[schedule.id]@ == s,
        None => after == before.remove(schedule.id),
    }
}

/// `after` is what an update with the schedule makes of the queue `before` when the present
/// is `now`: where the queue holds a schedule under the id, the given one takes its place as
/// by an addition; else nothing changes.
pub open spec fn updates(
    before: Map<Seq<char>, StSchedule>,
    after: Map<Seq<char>, StSchedule>,
    schedule: ScheduleView,
    now: int,
) -> bool {
    if before.contains_key(schedule.id) {
        adds(before, after, schedule, now)
    } else {
        after == before
    }
}

/// The time to wait for a schedule that is due after the given number of milliseconds: that
/// number, or the greatest that a timestamp holds where the number is above it.
pub open spec fn wait_for(millis: int) -> int {
    if millis > i64::MAX {
        i64::MAX as int
    } else {
        millis
    }
}

/// No schedule of the queue goes before the given one.
pub open spec fn first_of(queue: Map<Seq<char>, StSchedule>, s: StSchedule) -> bool {
    forall|id: Seq<char>| #[trigger] queue.contains_key(id) ==> !schedule_before(queue[id]@, s@)
}

/// `found` is what a poll finds in the queue `before` when the present is `now`, and `after`
/// is what it leaves: nothing in an empty queue; the time until the first schedule is due
/// where that lies ahead; else the first schedule, which then has left the queue.
pub open spec fn polls(
    before: Map<Seq<char>, StSchedule>,
    now: int,
    found: Poll<Timestamp, StSchedule>,
    after: Map<Seq<char>, StSchedule>,
) -> bool {
    match found {
        Poll::Empty => before.len() == 0 && after == before,
        Poll::Pending(delta) => after == before && delta@ > 0 && delta.fits() && exists|
            id: Seq<char>,
        |
            #![trigger before[id]]
            before.contains_key(id) && delta@ == wait_for(before[id]@.timing.deadline - now)
                && first_of(before, before[id]),
        Poll::Ready(s) => before.contains_key(s@.id) && before[s@.id] == s && s@.timing.deadline
            <= now && first_of(before, s) && after == before.remove(s@.id),
    }
}

/// `after` and `suspended` are what a message makes of the queue `before` and of the state of
/// a scheduler when the present is `now`.
pub open spec fn handles(
    before: Map<Seq<char>, StSchedule>,
    was_suspended: bool,
    message: XMessage,
    now: int,
    after: Map<Seq<char>, StSchedule>,
    suspended: bool,
) -> bool {
    match message {
        XMessage::Abort => suspended && after == before,
        XMessage::Add(schedule) => suspended == was_suspended && adds(
            before,
            after,
            schedule@,
            now,
        ),
        XMessage::Remove(id) => suspended == was_suspended && after == before.remove(id@),
        XMessage::Update(schedule) => suspended == was_suspended && updates(
            before,
            after,
            schedule@,
            now,
        ),
    }
}

/// `action` is what the dispatcher of a scheduler with the queue `before` has to do when the
/// present is `now`, and `after` is the queue that is left: to end its loop where the
/// scheduler is suspended; to fire the first schedule of the queue where that is due, which
/// then leaves the queue; else to sleep until it is due, or for `IDLE_MILLIS` where the queue
/// is empty.
pub open spec fn acts(
    before: Map<Seq<char>, StSchedule>,
    suspended: bool,
    now: int,
    action: Action,
    after: Map<Seq<char>, StSchedule>,
) -> bool {
    match action {
        Action::Exit => suspended && after == before,
        Action::Idle(millis) => !suspended && after == before && millis > 0 && (if before.len()
            == 0 {
            millis == IDLE_MILLIS
        } else {
            exists|id: Seq<char>|
                #![trigger before[id]]
                before.contains_key(id) && millis == wait_for(
                    before[id]@.timing.deadline - now,
                ) && first_of(before, before[id])
        }),
        Action::Fire(s) => !suspended && before.contains_key(s@.id) && before[s@.id] == s
            && s@.timing.deadline <= now && first_of(before, s) && after == before.remove(s@.id),
    }
}

impl StScheduler {
    /// The schedules of the queue, each under its id.
    pub closed spec fn queue(&self) -> Map<Seq<char>, StSchedule> {
        self.pq@
    }

    /// Whether the scheduler is suspended.
    pub closed spec fn suspended(&self) -> bool {
        self.suspended
    }

    /// The invariant of the scheduler: its queue is well formed and every schedule is held
    /// under its own id.
    pub closed spec fn wf(&self) -> bool {
        &&& self.pq.wf()
        &&& self.pq.order() == ScheduleOrder
    }

    /// In a well-formed scheduler the queue is finite and holds every schedule under its own
    /// id.
    pub proof fn lemma_queue(&self)
        requires
            self.wf(),
        ensures
            self.queue().dom().finite(),
            forall|id: Seq<char>| #[trigger]
                self.queue().contains_key(id) ==> self.queue()[id]@.id == id,
    {
        self.pq.lemma_invariant();
    }

    /// A scheduler with an empty queue that is suspended until it is started.
    pub fn new() -> (scheduler: StScheduler)
        ensures
            scheduler.wf(),
            scheduler.suspended(),
            scheduler.queue() == Map::<Seq<char>, StSchedule>::empty(),
    {
        let order = ScheduleOrder;
        proof {
            lemma_schedule_order(&order);
        }
        StScheduler { pq: PriorityQueue::new(order), suspended: true }
    }

    /// The number of schedules in the queue.
    pub fn size(&self) -> (n: usize)
        requires
            self.wf(),
        ensures
            n == self.queue().len(),
    {
        self.pq.size()
    }

    /// Puts a schedule into the queue for the given present. A schedule that is past goes in
    /// as its upcoming schedule, or not at all if it has none. Whatever the queue held under
    /// the id of the schedule is taken out first.
    ///
    /// A schedule is past when its deadline lies before the present. One that is due exactly
    /// at the present is not past: it goes in as it is, and a poll at that same present hands
    /// it out. So a schedule that is put back in the very millisecond of its deadline fires
    /// once more; the next firing is worked out as soon as the clock has moved on.
    pub fn add_schedule_at(&mut self, schedule: StSchedule, now: &Timestamp) -> (added: bool)
        requires
            old(self).wf(),
            now.fits(),
        ensures
            final(self).wf(),
            final(self).suspended() == old(self).suspended(),
            adds(old(self).queue(), final(self).queue(), schedule@, now@),
            added == added_for(schedule@, now@) is Some,
    {
        let id = schedule.get_id();
        let _ = self.pq.remove(id);
        let added = if schedule.is_passed_at(now) {
            match schedule.get_upcoming_schedule_at(now) {
                Ok(s) => {
                    self.pq.enqueue(s);
                    true
                },
                Err(_) => false,
            }
        } else {
            self.pq.enqueue(schedule);
            true
        };
        proof {
            if added {
                assert(self.queue().dom() =~= old(self).queue().dom().insert(schedule@.id));
            }
        }
        added
    }

    /// Puts a schedule into the queue for the present that the clock gives.
    pub fn add_schedule(&mut self, schedule: StSchedule) -> (added: bool)
        requires
            old(self).wf(),
        ensures
            final(self).wf(),
            final(self).suspended() == old(self).suspended(),
            exists|now: int|
                representable(now) && #[trigger] adds(
                    old(self).queue(),
                    final(self).queue(),
                    schedule@,
                    now,
                ) && added == added_for(schedule@, now) is Some,
    {
        let now = timestamp();
        self.add_schedule_at(schedule, &now)
    }

    /// Takes the schedule with the given id out of the queue.
    #[inline]
    pub fn remove_schedule(&mut self, id: String) -> (removed: Option<StSchedule>)
        requires
            old(self).wf(),
        ensures
            final(self).wf(),
            final(self).suspended() == old(self).suspended(),
            final(self).queue() == old(self).queue().remove(id@),
            match removed {
                Some(s) => old(self).queue().contains_key(id@) && old(self).queue()[id@] == s,
                None => !old(self).queue().contains_key(id@),
            },
    {
        self.pq.remove(id)
    }

    /// Replaces the schedule that the queue holds under the id of the given one, for the
    /// given present. Where the queue holds none, nothing happens.
    pub fn update_schedule_at(&mut self, schedule: StSchedule, now: &Timestamp) -> (updated: bool)
        requires
            old(self).wf(),
            now.fits(),
        ensures
            final(self).wf(),
            final(self).suspended() == old(self).suspended(),
            updated == old(self).queue().contains_key(schedule@.id),
            updates(old(self).queue(), final(self).queue(), schedule@, now@),
    {
        if let Some(_) = self.remove_schedule(schedule.get_id()) {
            let ghost before = self.queue();
            self.add_schedule_at(schedule, now);
            proof {
                assert(old(self).queue().dom().remove(schedule@.id).insert(schedule@.id)
                    =~= old(self).queue().dom());
                assert(before.remove(schedule@.id) =~= before);
                assert(old(self).queue().dom().insert(schedule@.id) =~= old(self).queue().dom());
            }
            true
        } else {
            proof {
                assert(old(self).queue().remove(schedule@.id) =~= old(self).queue());
            }
            false
        }
    }

    /// Replaces the schedule that the queue holds under the id of the given one, for the
    /// present that the clock gives.
    pub fn update_schedule(&mut self, schedule: StSchedule) -> (updated: bool)
        requires
            old(self).wf(),
        ensures
            final(self).wf(),
            final(self).suspended() == old(self).suspended(),
            updated == old(self).queue().contains_key(schedule@.id),
            exists|now: int|
                representable(now) && #[trigger] updates(
                    old(self).queue(),
                    final(self).queue(),
                    schedule@,
                    now,
                ),
    {
        let now = timestamp();
        self.update_schedule_at(schedule, &now)
    }

    /// Suspends the scheduler: the dispatcher ends its loop when it next asks.
    pub fn suspend(&mut self)
        requires
            old(self).wf(),
        ensures
            final(self).wf(),
            final(self).suspended(),
            final(self).queue() == old(self).queue(),
    {
        if self.suspended == false {
            self.suspended = true;
        }
    }

    /// Starts a scheduler that is suspended. A scheduler that is running cannot be started
    /// again: the call then changes nothing and says so.
    pub fn start(&mut self) -> (started: bool)
        requires
            old(self).wf(),
        ensures
            final(self).wf(),
            started == old(self).suspended(),
            !final(self).suspended(),
            final(self).queue() == old(self).queue(),
    {
        if self.suspended == true {
            self.suspended = false;
            true
        } else {
            false
        }
    }

    pub fn is_suspended(&self) -> (suspended: bool)
        ensures
            suspended == self.suspended(),
    {
        return self.suspended == true;
    }

    /// Looks at the first schedule of the queue for the given present: where it is due, it
    /// leaves the queue and is handed out; else the time until it is due is given.
    pub fn poll_at(&mut self, now: &Timestamp) -> (found: Poll<Timestamp, StSchedule>)
        requires
            old(self).wf(),
            now.fits(),
        ensures
            final(self).wf(),
            final(self).suspended() == old(self).suspended(),
            polls(old(self).queue(), now@, found, final(self).queue()),
    {
        proof {
            self.pq.lemma_invariant();
        }
        let ghost head: Seq<char>;
        let difference: i128 = match self.pq.peek() {
            None => {
                return Poll::Empty;
            },
            Some(peeked) => {
                proof {
                    head = peeked@.id;
                }
                peeked.get_deadline_millis() as i128 - now.as_ms() as i128
            },
        };
        if difference > 0 {
            proof {
                assert(self.queue().contains_key(head));
                assert(first_of(self.queue(), self.queue()[head]));
            }
            if difference > i64::MAX as i128 {
                return Poll::Pending(Timestamp::Millis(i64::MAX));
            }
            return Poll::Pending(Timestamp::Millis(difference as i64));
        }
        match self.pq.dequeue() {
            Some(item) => Poll::Ready(item),
            None => Poll::Empty,
        }
    }

    /// Looks at the first schedule of the queue for the present that the clock gives.
    pub fn poll(&mut self) -> (found: Poll<Timestamp, StSchedule>)
        requires
            old(self).wf(),
        ensures
            final(self).wf(),
            final(self).suspended() == old(self).suspended(),
            exists|now: int|
                representable(now) && #[trigger] polls(
                    old(self).queue(),
                    now,
                    found,
                    final(self).queue(),
                ),
    {
        let now = timestamp();
        self.poll_at(&now)
    }

    /// Does what a message asks for when the present is `now`.
    pub fn handle_at(&mut self, message: XMessage, now: &Timestamp)
        requires
            old(self).wf(),
            now.fits(),
        ensures
            final(self).wf(),
            handles(
                old(self).queue(),
                old(self).suspended(),
                message,
                now@,
                final(self).queue(),
                final(self).suspended(),
            ),
    {
        match message {
            XMessage::Abort => {
                self.suspend();
            },
            XMessage::Add(schedule) => {
                self.add_schedule_at(schedule, now);
            },
            XMessage::Remove(id) => {
                self.remove_schedule(id);
            },
            XMessage::Update(schedule) => {
                self.update_schedule_at(schedule, now);
            },
        }
    }

    /// Does what a message asks for, for the present that the clock gives.
    pub fn handle(&mut self, message: XMessage)
        requires
            old(self).wf(),
        ensures
            final(self).wf(),
            exists|now: int|
                representable(now) && #[trigger] handles(
                    old(self).queue(),
                    old(self).suspended(),
                    message,
                    now,
                    final(self).queue(),
                    final(self).suspended(),
                ),
    {
        let now = timestamp();
        self.handle_at(message, &now)
    }

    /// What the dispatcher has to do next when the present is `now`: to end its loop where
    /// the scheduler is suspended; to fire the first schedule of the queue where that is due,
    /// which then leaves the queue; else to sleep until it is due, or for `IDLE_MILLIS` where
    /// the queue is empty.
    pub fn next_action_at(&mut self, now: &Timestamp) -> (action: Action)
        requires
            old(self).wf(),
            now.fits(),
        ensures
            final(self).wf(),
            final(self).suspended() == old(self).suspended(),
            acts(old(self).queue(), old(self).suspended(), now@, action, final(self).queue()),
    {
        if self.is_suspended() {
            return Action::Exit;
        }
        proof {
            self.pq.lemma_invariant();
        }
        match self.poll_at(now) {
            Poll::Empty => Action::Idle(IDLE_MILLIS),
            Poll::Pending(until) => Action::Idle(until.magnitude_ms()),
            Poll::Ready(result) => Action::Fire(result),
        }
    }

    /// What the dispatcher has to do next, for the present that the clock gives.
    pub fn next_action(&mut self) -> (action: Action)
        requires
            old(self).wf(),
        ensures
            final(self).wf(),
            final(self).suspended() == old(self).suspended(),
            exists|now: int|
                representable(now) && #[trigger] acts(
                    old(self).queue(),
                    old(self).suspended(),
                    now,
                    action,
                    final(self).queue(),
                ),
    {
        let now = timestamp();
        self.next_action_at(&now)
    }
}

/// The schedule that is first of a queue is due no later than any schedule of the queue, and
/// among those due at the same instant none has a priority that ranks before its own: so the
/// schedules that are due are handed out in the order of their deadlines.
pub proof fn lemma_first_is_earliest(queue: Map<Seq<char>, StSchedule>, s: StSchedule, id: Seq<char>)
    requires
        first_of(queue, s),
        queue.contains_key(id),
    ensures
        s@.timing.deadline <= queue[id]@.timing.deadline,
        s@.timing.deadline == queue[id]@.timing.deadline
            ==> crate::scheduling::priority::priority_rank(s@.priority)
            <= crate::scheduling::priority::priority_rank(queue[id]@.priority),
{
}

/// While a schedule of the queue is due, a dispatcher that is not suspended does not sleep:
/// it fires a schedule.
pub proof fn lemma_due_schedule_fires(
    before: Map<Seq<char>, StSchedule>,
    now: int,
    action: Action,
    after: Map<Seq<char>, StSchedule>,
    id: Seq<char>,
)
    requires
        acts(before, false, now, action, after),
        before.dom().finite(),
        before.contains_key(id),
        before[id]@.timing.deadline <= now,
    ensures
        action is Fire,
{
    if let Action::Idle(millis) = action {
        assert(before.len() > 0) by {
            if before.len() == 0 {
                assert(before.dom() =~= Set::<Seq<char>>::empty());
            }
        }
        let first = choose|first: Seq<char>|
            #![trigger before[first]]
            before.contains_key(first) && millis == wait_for(before[first]@.timing.deadline - now)
                && first_of(before, before[first]);
        assert(!schedule_before(before[id]@, before[first]@));
    }
}

/// The dispatcher fires schedules in the order of their deadlines, and those that are due at
/// the same instant in the order of their priorities. Of a run of schedules that it fires one
/// after the other, whatever the present is at each firing, `held` being what the queue holds
/// before, between and after: one that is fired later is due no earlier than one that was
/// fired before it, and none is fired twice.
pub proof fn lemma_fires_in_order(
    held: Seq<Map<Seq<char>, StSchedule>>,
    presents: Seq<int>,
    fired: Seq<StSchedule>,
)
    requires
        held.len() == fired.len() + 1,
        presents.len() == fired.len(),
        forall|k: int|
            0 <= k < fired.len() ==> acts(
                #[trigger] held[k],
                false,
                presents[k],
                Action::Fire(fired[k]),
                held[k + 1],
            ),
    ensures
        forall|i: int, j: int|
            0 <= i < j < fired.len() ==> (#[trigger] fired[i])@.id != (#[trigger] fired[j])@.id,
        forall|i: int, j: int|
            0 <= i < j < fired.len() ==> (#[trigger] fired[i])@.timing.deadline <= (
            #[trigger] fired[j])@.timing.deadline && (fired[i]@.timing.deadline
                == fired[j]@.timing.deadline ==> priority_rank(fired[i]@.priority)
                <= priority_rank(fired[j]@.priority)),
{
    assert forall|k: int| 0 <= k < fired.len() implies hands_out(
        ScheduleOrder,
        #[trigger] held[k],
        fired[k],
        held[k + 1],
    ) by {
        assert(acts(held[k], false, presents[k], Action::Fire(fired[k]), held[k + 1]));
        assert(first_of(held[k], fired[k]));
    }
    lemma_schedules_leave_in_order(held, fired);
}

} // verus!
