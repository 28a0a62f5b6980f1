use crate::category::GhostCategory;
use crate::dispatch::DispatchError;
use crate::embed::{embed_of, embed_views, format_event, Embed, EmbedView};
use crate::hauntings::{event_views, Event, EventView};
use crate::text::{has_text, texts};
use vstd::prelude::*;

verus! {

/// The most notifications that one dispatch carries.
pub const BATCH_CAPACITY: usize = 10;

/// The seconds of rest between two polls.
pub const POLL_INTERVAL_SECS: u64 = 5;

/// The seconds of rest after a poll whose feed could not be fetched.
pub const BACKOFF_SECS: u64 = 30;

/// Why the watch loop stopped.
#[derive(Clone, Copy, Debug, PartialEq, Eq, Structural)]
pub enum WatchError {
    /// The store could not be read or written.
    Store,
    /// The record of an event's player could not be looked up.
    Classify,
    /// A batch could not be dispatched.
    Dispatch(DispatchError),
    /// A report came in that the loop did not await.
    Unexpected,
}

/// What the watch loop is waiting for.
#[derive(Clone, Copy, Debug, PartialEq, Eq, Structural)]
pub enum Phase {
    /// For the ids that the store knows, and the feed.
    Polling,
    /// For the category of the event at the cursor.
    Classifying,
    /// For the store to take the id of the event at the cursor.
    Recording,
    /// For a batch to be dispatched.
    Dispatching,
    /// For the rest between two polls to end.
    Sleeping,
    /// For the rest after a failed fetch to end.
    ErrorBackoff,
    /// For nothing: the loop has stopped.
    Stopped,
}

/// What came of the work that a task asked for.
#[derive(Debug)]
pub enum Report {
    /// The ids that the store knows and the events of the feed, each `None` where it
    /// could not be fetched.
    Polled { known: Option<Vec<String>>, feed: Option<Vec<Event>> },
    /// The category of the event's ghost, or `None` where the lookup failed.
    Classified(Option<GhostCategory>),
    /// Whether the store took the id.
    Recorded(bool),
    /// How the dispatch of the batch ended.
    Dispatched(Result<(), DispatchError>),
    /// The rest is over.
    Slept,
}

/// A report as a mathematical value.
pub ghost enum ReportView {
    Polled { known: Option<Set<Seq<char>>>, feed: Option<Seq<EventView>> },
    Classified(Option<GhostCategory>),
    Recorded(bool),
    Dispatched(Result<(), DispatchError>),
    Slept,
}

/// The set of ids in a list that may be absent.
pub open spec fn opt_ids(known: Option<Vec<String>>) -> Option<Set<Seq<char>>> {
    match known {
        Some(ids) => Some(texts(ids@).to_set()),
        None => None,
    }
}

/// The events of a feed that may be absent.
pub open spec fn opt_events(feed: Option<Vec<Event>>) -> Option<Seq<EventView>> {
    match feed {
        Some(events) => Some(event_views(events@)),
        None => None,
    }
}

impl View for Report {
    type V = ReportView;

    open spec fn view(&self) -> ReportView {
        match self {
            Report::Polled { known, feed } => ReportView::Polled {
                known: opt_ids(*known),
                feed: opt_events(*feed),
            },
            Report::Classified(category) => ReportView::Classified(*category),
            Report::Recorded(taken) => ReportView::Recorded(*taken),
            Report::Dispatched(outcome) => ReportView::Dispatched(*outcome),
            Report::Slept => ReportView::Slept,
        }
    }
}

/// What the host is to do next for the watch loop.
#[derive(Debug)]
pub enum Task {
    /// Fetch the ids that the store knows and the feed, and report both.
    Poll,
    /// Look up the earliest record of the player, and report the category it gives.
    Classify { player: String },
    /// Record the id in the store as dispatched, and report whether that was done.
    Record { id: String },
    /// Dispatch the batch to the subscribers, and report how that ended.
    Dispatch { batch: Vec<Embed> },
    /// Rest for so many seconds, and report when that is over.
    Sleep { seconds: u64 },
    /// Give up: the loop has stopped for good.
    Stop { error: WatchError },
}

/// A task as a mathematical value.
pub ghost enum TaskView {
    Poll,
    Classify { player: Seq<char> },
    Record { id: Seq<char> },
    Dispatch { batch: Seq<EmbedView> },
    Sleep { seconds: u64 },
    Stop { error: WatchError },
}

impl View for Task {
    type V = TaskView;

    open spec fn view(&self) -> TaskView {
        match self {
            Task::Poll => TaskView::Poll,
            Task::Classify { player } => TaskView::Classify { player: player@ },
            Task::Record { id } => TaskView::Record { id: id@ },
            Task::Dispatch { batch } => TaskView::Dispatch { batch: embed_views(batch@) },
            Task::Sleep { seconds } => TaskView::Sleep { seconds: *seconds },
            Task::Stop { error } => TaskView::Stop { error: *error },
        }
    }
}

/// The place of the first event at or behind `from` whose id is not in `known`, or
/// the length of the feed where there is none.
pub open spec fn next_fresh(feed: Seq<EventView>, known: Set<Seq<char>>, from: int) -> int
    decreases feed.len() - from,
{
    if 0 <= from < feed.len() && known.contains(feed[from].id) {
        next_fresh(feed, known, from + 1)
    } else {
        from
    }
}

/// The watch loop as a mathematical value.
pub ghost struct LoopView {
    pub phase: Phase,
    /// The ids that the store knew at the last poll.
    pub known: Set<Seq<char>>,
    /// The events of the last poll, in the order of the feed.
    pub feed: Seq<EventView>,
    /// The place in the feed of the event that is handled next.
    pub cursor: int,
    /// The category of the event at the cursor, once it is known.
    pub category: GhostCategory,
    /// The notifications that are waiting to be dispatched.
    pub batch: Seq<EmbedView>,
    /// How many events of this poll were known already.
    pub seen: int,
}

impl LoopView {
    /// Whether the loop is in order: the cursor is within the feed, the batch is not
    /// full, and empty while a dispatch is under way, and an event that is being
    /// classified or recorded is one that the store did not know.
    pub open spec fn well_formed(self) -> bool {
        &&& 0 <= self.cursor <= self.feed.len()
        &&& self.batch.len() < BATCH_CAPACITY
        &&& self.phase == Phase::Dispatching ==> self.batch.len() == 0
        &&& 0 <= self.seen <= self.cursor
        &&& (self.phase == Phase::Classifying || self.phase == Phase::Recording) ==> {
            &&& self.cursor < self.feed.len()
            &&& !self.known.contains(self.feed[self.cursor].id)
        }
    }

    /// The loop before its first poll.
    pub open spec fn initial() -> LoopView {
        LoopView {
            phase: Phase::Polling,
            known: Set::empty(),
            feed: Seq::empty(),
            cursor: 0,
            category: GhostCategory::Unknown,
            batch: Seq::empty(),
            seen: 0,
        }
    }

    /// The loop stops with `error`.
    pub open spec fn stop(self, error: WatchError) -> (LoopView, TaskView) {
        (LoopView { phase: Phase::Stopped, ..self }, TaskView::Stop { error })
    }

    /// The loop goes on from the cursor. Events that the store knew are passed over and
    /// counted. The first one that it did not know is classified, or, where it names
    /// no player, recorded with an unknown origin. At the end of the feed what is
    /// left of the batch is dispatched, and with nothing left the loop rests.
    pub open spec fn advance(self) -> (LoopView, TaskView) {
        let at = next_fresh(self.feed, self.known, self.cursor);
        let passed = LoopView { cursor: at, seen: self.seen + (at - self.cursor), ..self };
        if at >= self.feed.len() {
            if self.batch.len() > 0 {
                (
                    LoopView { phase: Phase::Dispatching, batch: Seq::empty(), ..passed },
                    TaskView::Dispatch { batch: self.batch },
                )
            } else {
                (
                    LoopView { phase: Phase::Sleeping, ..passed },
                    TaskView::Sleep { seconds: POLL_INTERVAL_SECS },
                )
            }
        } else {
            match self.feed[at].origin_tag() {
                Some(player) => (
                    LoopView { phase: Phase::Classifying, ..passed },
                    TaskView::Classify { player },
                ),
                None => (
                    LoopView { phase: Phase::Recording, category: GhostCategory::Unknown, ..passed },
                    TaskView::Record { id: self.feed[at].id },
                ),
            }
        }
    }

    /// The store took the id of the event at the cursor: its notification joins the
    /// batch, and a batch that is full is dispatched at once.
    pub open spec fn recorded(self) -> (LoopView, TaskView) {
        let batch = self.batch.push(embed_of(self.feed[self.cursor], self.category));
        let next = LoopView { cursor: self.cursor + 1, batch, ..self };
        if batch.len() >= BATCH_CAPACITY {
            (
                LoopView { phase: Phase::Dispatching, batch: Seq::empty(), ..next },
                TaskView::Dispatch { batch },
            )
        } else {
            next.advance()
        }
    }

    /// The poll came back. Without the known ids the loop stops; without the feed it
    /// backs off; with both it starts on the feed with an empty batch.
    pub open spec fn polled(self, known: Option<Set<Seq<char>>>, feed: Option<Seq<EventView>>) -> (
        LoopView,
        TaskView,
    ) {
        match known {
            None => self.stop(WatchError::Store),
            Some(ids) => match feed {
                None => (
                    LoopView { phase: Phase::ErrorBackoff, ..self },
                    TaskView::Sleep { seconds: BACKOFF_SECS },
                ),
                Some(events) => LoopView {
                    known: ids,
                    feed: events,
                    cursor: 0,
                    seen: 0,
                    batch: Seq::empty(),
                    ..self
                }.advance(),
            },
        }
    }

    /// The loop after `report` came in, and what is to be done next. A report that
    /// the phase does not await stops the loop.
    pub open spec fn step(self, report: ReportView) -> (LoopView, TaskView) {
        match (self.phase, report) {
            (Phase::Polling, ReportView::Polled { known, feed }) => self.polled(known, feed),
            (Phase::Classifying, ReportView::Classified(Some(category))) => (
                LoopView { phase: Phase::Recording, category, ..self },
                TaskView::Record { id: self.feed[self.cursor].id },
            ),
            (Phase::Classifying, ReportView::Classified(None)) => self.stop(WatchError::Classify),
            (Phase::Recording, ReportView::Recorded(true)) => self.recorded(),
            (Phase::Recording, ReportView::Recorded(false)) => self.stop(WatchError::Store),
            (Phase::Dispatching, ReportView::Dispatched(Ok(_))) => self.advance(),
            (Phase::Dispatching, ReportView::Dispatched(Err(error))) => self.stop(
                WatchError::Dispatch(error),
            ),
            (Phase::Sleeping, ReportView::Slept) => (
                LoopView { phase: Phase::Polling, ..self },
                TaskView::Poll,
            ),
            (Phase::ErrorBackoff, ReportView::Slept) => (
                LoopView { phase: Phase::Polling, ..self },
                TaskView::Poll,
            ),
            _ => self.stop(WatchError::Unexpected),
        }
    }
}

/// The first unknown event at or behind a place lies at or behind it and within the
/// feed or at its end; the events between are known, and the one found is not.
pub proof fn lemma_next_fresh(feed: Seq<EventView>, known: Set<Seq<char>>, from: int)
    requires
        0 <= from <= feed.len(),
    ensures
        from <= next_fresh(feed, known, from) <= feed.len(),
        forall|j: int|
            from <= j < next_fresh(feed, known, from) ==> known.contains(#[trigger] feed[j].id),
        next_fresh(feed, known, from) < feed.len() ==> !known.contains(
            feed[next_fresh(feed, known, from)].id,
        ),
    decreases feed.len() - from,
{
    if from < feed.len() && known.contains(feed[from].id) {
        lemma_next_fresh(feed, known, from + 1);
    }
}

/// The views of a batch with one more notification.
pub proof fn lemma_embeds_push(v: Seq<Embed>, e: Embed)
    ensures
        embed_views(v.push(e)) == embed_views(v).push(e@),
{
    assert(embed_views(v.push(e)) =~= embed_views(v).push(e@));
}

/// The watch loop. The host does what the tasks ask and reports what came of it; the
/// loop decides what is new, what goes into which batch, and when to stop.
#[derive(Debug)]
pub struct WatchLoop {
    phase: Phase,
    known: Vec<String>,
    feed: Vec<Event>,
    cursor: usize,
    category: GhostCategory,
    batch: Vec<Embed>,
    seen: usize,
}

impl View for WatchLoop {
    type V = LoopView;

    closed spec fn view(&self) -> LoopView {
        LoopView {
            phase: self.phase,
            known: texts(self.known@).to_set(),
            feed: event_views(self.feed@),
            cursor: self.cursor as int,
            category: self.category,
            batch: embed_views(self.batch@),
            seen: self.seen as int,
        }
    }
}

impl WatchLoop {
    /// Whether the loop is in order.
    pub open spec fn well_formed(&self) -> bool {
        self@.well_formed()
    }

    /// A loop before its first poll, and the task to poll.
    pub fn start() -> (started: (WatchLoop, Task))
        ensures
            started.0.well_formed(),
            started.0@ == LoopView::initial(),
            started.1@ == TaskView::Poll,
    {
        let watch = WatchLoop {
            phase: Phase::Polling,
            known: Vec::new(),
            feed: Vec::new(),
            cursor: 0,
            category: GhostCategory::Unknown,
            batch: Vec::new(),
            seen: 0,
        };
        proof {
            assert(watch@.known =~= Set::<Seq<char>>::empty());
            assert(watch@.feed =~= Seq::<EventView>::empty());
            assert(watch@.batch =~= Seq::<EmbedView>::empty());
        }
        (watch, Task::Poll)
    }

    /// What the loop is waiting for.
    pub fn phase(&self) -> (phase: Phase)
        ensures
            phase == self@.phase,
    {
        self.phase
    }

    /// How many events of the last poll the store knew already, as far as the loop
    /// has come in the feed.
    pub fn seen(&self) -> (seen: usize)
        ensures
            seen == self@.seen,
    {
        self.seen
    }

    fn stop(&mut self, error: WatchError) -> (task: Task)
        ensures
            (final(self)@, task@) == old(self)@.stop(error),
    {
        self.phase = Phase::Stopped;
        Task::Stop { error }
    }

    fn take_batch(&mut self) -> (batch: Vec<Embed>)
        ensures
            embed_views(batch@) == old(self)@.batch,
            final(self)@ == (LoopView { batch: Seq::empty(), ..old(self)@ }),
    {
        let mut batch: Vec<Embed> = Vec::new();
        core::mem::swap(&mut batch, &mut self.batch);
        assert(embed_views(self.batch@) =~= Seq::<EmbedView>::empty());
        batch
    }

    fn advance(&mut self) -> (task: Task)
        requires
            0 <= old(self)@.cursor <= old(self)@.feed.len(),
            0 <= old(self)@.seen <= old(self)@.cursor,
        ensures
            (final(self)@, task@) == old(self)@.advance(),
    {
        let ghost feed = self@.feed;
        let ghost known = self@.known;
        while self.cursor < self.feed.len() && has_text(&self.known, self.feed[self.cursor].id.as_str())
            invariant
                self@.feed == feed,
                self@.known == known,
                self@.phase == old(self)@.phase,
                self@.category == old(self)@.category,
                self@.batch == old(self)@.batch,
                old(self)@.cursor <= self@.cursor <= feed.len(),
                self@.seen == old(self)@.seen + (self@.cursor - old(self)@.cursor),
                0 <= self@.seen <= self@.cursor,
                next_fresh(feed, known, self@.cursor) == next_fresh(feed, known, old(self)@.cursor),
            decreases feed.len() - self@.cursor,
        {
            assert(feed[self.cursor as int].id == self.feed@[self.cursor as int].id@);
            self.seen = self.seen + 1;
            self.cursor = self.cursor + 1;
        }
        proof {
            if self.cursor < self.feed.len() {
                assert(feed[self.cursor as int].id == self.feed@[self.cursor as int].id@);
            }
            assert(next_fresh(feed, known, self@.cursor) == self@.cursor);
        }
        if self.cursor >= self.feed.len() {
            if self.batch.len() > 0 {
                let batch = self.take_batch();
                self.phase = Phase::Dispatching;
                Task::Dispatch { batch }
            } else {
                self.phase = Phase::Sleeping;
                Task::Sleep { seconds: POLL_INTERVAL_SECS }
            }
        } else {
            let event = &self.feed[self.cursor];
            assert(feed[self.cursor as int] == event@);
            if event.player_tags.len() > 0 {
                let player = event.player_tags[0].clone();
                assert(texts(event.player_tags@)[0] == player@);
                self.phase = Phase::Classifying;
                Task::Classify { player }
            } else {
                let id = event.id.clone();
                self.category = GhostCategory::Unknown;
                self.phase = Phase::Recording;
                Task::Record { id }
            }
        }
    }

    fn recorded(&mut self) -> (task: Task)
        requires
            old(self).well_formed(),
            old(self)@.cursor < old(self)@.feed.len(),
        ensures
            (final(self)@, task@) == old(self)@.recorded(),
    {
        let count = self.feed.len();
        assert(self.cursor < count);
        let embed = format_event(&self.feed[self.cursor], self.category);
        proof {
            assert(self@.feed[self.cursor as int] == self.feed@[self.cursor as int]@);
            lemma_embeds_push(self.batch@, embed);
        }
        self.batch.push(embed);
        self.cursor = self.cursor + 1;
        if self.batch.len() >= BATCH_CAPACITY {
            let batch = self.take_batch();
            self.phase = Phase::Dispatching;
            Task::Dispatch { batch }
        } else {
            self.advance()
        }
    }

    /// Takes in `report`, and says what is to be done next. A batch that is to be
    /// dispatched holds at least one notification and never more than
    /// `BATCH_CAPACITY`.
    pub fn step(&mut self, report: Report) -> (task: Task)
        requires
            old(self).well_formed(),
        ensures
            final(self).well_formed(),
            (final(self)@, task@) == old(self)@.step(report@),
            task@ matches TaskView::Dispatch { batch } ==> 0 < batch.len() <= BATCH_CAPACITY,
    {
        proof {
            law_step_keeps_order(self@, report@);
        }
        match self.phase {
            Phase::Polling => match report {
                Report::Polled { known, feed } => match known {
                    None => self.stop(WatchError::Store),
                    Some(ids) => match feed {
                        None => {
                            self.phase = Phase::ErrorBackoff;
                            Task::Sleep { seconds: BACKOFF_SECS }
                        },
                        Some(events) => {
                            self.known = ids;
                            self.feed = events;
                            self.cursor = 0;
                            self.seen = 0;
                            self.batch = Vec::new();
                            assert(embed_views(self.batch@) =~= Seq::<EmbedView>::empty());
                            self.advance()
                        },
                    },
                },
                _ => self.stop(WatchError::Unexpected),
            },
            Phase::Classifying => match report {
                Report::Classified(Some(category)) => {
                    let id = self.feed[self.cursor].id.clone();
                    assert(self@.feed[self.cursor as int] == self.feed@[self.cursor as int]@);
                    self.category = category;
                    self.phase = Phase::Recording;
                    Task::Record { id }
                },
                Report::Classified(None) => self.stop(WatchError::Classify),
                _ => self.stop(WatchError::Unexpected),
            },
            Phase::Recording => match report {
                Report::Recorded(true) => self.recorded(),
                Report::Recorded(false) => self.stop(WatchError::Store),
                _ => self.stop(WatchError::Unexpected),
            },
            Phase::Dispatching => match report {
                Report::Dispatched(Ok(_)) => self.advance(),
                Report::Dispatched(Err(error)) => self.stop(WatchError::Dispatch(error)),
                _ => self.stop(WatchError::Unexpected),
            },
            Phase::Sleeping => match report {
                Report::Slept => {
                    self.phase = Phase::Polling;
                    Task::Poll
                },
                _ => self.stop(WatchError::Unexpected),
            },
            Phase::ErrorBackoff => match report {
                Report::Slept => {
                    self.phase = Phase::Polling;
                    Task::Poll
                },
                _ => self.stop(WatchError::Unexpected),
            },
            Phase::Stopped => self.stop(WatchError::Unexpected),
        }
    }
}

/// Begins to watch: gives a loop before its first poll, and the task to poll.
pub fn watch() -> (started: (WatchLoop, Task))
    ensures
        started.0.well_formed(),
        started.0@ == LoopView::initial(),
        started.1@ == TaskView::Poll,
{
    WatchLoop::start()
}

/// Batch capacity: whatever report comes in, a loop that is in order stays in order,
/// and a batch that it hands out to be dispatched holds at least one notification and
/// at most `BATCH_CAPACITY`.
pub proof fn law_step_keeps_order(watch: LoopView, report: ReportView)
    requires
        watch.well_formed(),
    ensures
        watch.step(report).0.well_formed(),
        watch.step(report).1 matches TaskView::Dispatch { batch } ==> 0 < batch.len()
            <= BATCH_CAPACITY,
{
    lemma_next_fresh(watch.feed, watch.known, watch.cursor);
    if watch.cursor < watch.feed.len() {
        lemma_next_fresh(watch.feed, watch.known, watch.cursor + 1);
    }
    match report {
        ReportView::Polled { known: Some(ids), feed: Some(events) } => {
            lemma_next_fresh(events, ids, 0);
        },
        _ => {},
    }
}

} // verus!
