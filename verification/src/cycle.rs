use crate::category::GhostCategory;
use crate::embed::{embed_of, EmbedView};
use crate::hauntings::EventView;
use crate::watch::{
    law_step_keeps_order, lemma_next_fresh, next_fresh, LoopView, Phase, ReportView, TaskView,
    BATCH_CAPACITY, POLL_INTERVAL_SECS,
};
use vstd::prelude::*;

verus! {

/// What a host saw of the loop over some stretch of time: the ids that it was asked
/// to record, and the batches that it was asked to dispatch, each in order.
pub ghost struct Trace {
    pub recorded: Seq<Seq<char>>,
    pub flushes: Seq<Seq<EmbedView>>,
}

/// The category under which an event is announced when the lookup for its player
/// found `found`: an event that names no player is of unknown origin.
pub open spec fn origin_of(event: EventView, found: GhostCategory) -> GhostCategory {
    if event.origin_tag() is Some {
        found
    } else {
        GhostCategory::Unknown
    }
}

/// The ids of the events at or behind `from` that the store does not know, in the
/// order of the feed.
pub open spec fn fresh_ids(feed: Seq<EventView>, known: Set<Seq<char>>, from: int) -> Seq<Seq<char>>
    decreases feed.len() - from,
{
    if from < 0 || from >= feed.len() {
        Seq::empty()
    } else if known.contains(feed[from].id) {
        fresh_ids(feed, known, from + 1)
    } else {
        seq![feed[from].id] + fresh_ids(feed, known, from + 1)
    }
}

/// The notifications for the events at or behind `from` that the store does not
/// know, in the order of the feed, where the lookup for the event at place `i` finds
/// `origin(i)`.
pub open spec fn fresh_units(
    feed: Seq<EventView>,
    known: Set<Seq<char>>,
    origin: spec_fn(int) -> GhostCategory,
    from: int,
) -> Seq<EmbedView>
    decreases feed.len() - from,
{
    if from < 0 || from >= feed.len() {
        Seq::empty()
    } else if known.contains(feed[from].id) {
        fresh_units(feed, known, origin, from + 1)
    } else {
        seq![embed_of(feed[from], origin_of(feed[from], origin(from)))] + fresh_units(
            feed,
            known,
            origin,
            from + 1,
        )
    }
}

/// A run of notifications cut into batches: each full but the last, which holds
/// what is left.
pub open spec fn chunks(units: Seq<EmbedView>) -> Seq<Seq<EmbedView>>
    decreases units.len(),
{
    if units.len() == 0 {
        Seq::empty()
    } else if units.len() <= BATCH_CAPACITY {
        seq![units]
    } else {
        seq![units.take(BATCH_CAPACITY as int)] + chunks(units.skip(BATCH_CAPACITY as int))
    }
}

/// Whether `task` is one that the loop hands out in its phase.
pub open spec fn awaits(watch: LoopView, task: TaskView) -> bool {
    match task {
        TaskView::Classify { .. } => watch.phase == Phase::Classifying,
        TaskView::Record { .. } => watch.phase == Phase::Recording,
        TaskView::Dispatch { .. } => watch.phase == Phase::Dispatching,
        _ => true,
    }
}

/// A bound on the tasks that the loop still hands out before it rests.
pub open spec fn effort(watch: LoopView) -> int {
    3 * (watch.feed.len() - watch.cursor) + match watch.phase {
        Phase::Dispatching => 3int,
        Phase::Classifying => 2int,
        Phase::Recording => 1int,
        _ => 0int,
    }
}

/// What a host answers to `task` when everything succeeds, and the lookup for the
/// event at place `i` finds `origin(i)`.
pub open spec fn success(watch: LoopView, task: TaskView, origin: spec_fn(int) -> GhostCategory) -> ReportView {
    match task {
        TaskView::Classify { .. } => ReportView::Classified(Some(origin(watch.cursor))),
        TaskView::Record { .. } => ReportView::Recorded(true),
        TaskView::Dispatch { .. } => ReportView::Dispatched(Ok(())),
        _ => ReportView::Slept,
    }
}

/// A success brings the loop nearer to its rest.
pub proof fn lemma_success_shrinks_effort(
    watch: LoopView,
    task: TaskView,
    origin: spec_fn(int) -> GhostCategory,
)
    requires
        watch.well_formed(),
        awaits(watch, task),
        task is Classify || task is Record || task is Dispatch,
    ensures
        0 <= effort(watch.step(success(watch, task, origin)).0) < effort(watch),
        watch.step(success(watch, task, origin)).0.well_formed(),
{
    law_step_keeps_order(watch, success(watch, task, origin));
    lemma_next_fresh(watch.feed, watch.known, watch.cursor);
    if watch.cursor < watch.feed.len() {
        lemma_next_fresh(watch.feed, watch.known, watch.cursor + 1);
    }
}

/// What a host sees from the moment the loop hands out `task` until the loop rests,
/// when everything succeeds.
pub open spec fn play(watch: LoopView, task: TaskView, origin: spec_fn(int) -> GhostCategory) -> Trace
    decreases effort(watch),
    when watch.well_formed() && awaits(watch, task)
{
    match task {
        TaskView::Classify { player } => {
            proof {
                lemma_success_shrinks_effort(watch, task, origin);
            }
            let next = watch.step(success(watch, task, origin));
            play(next.0, next.1, origin)
        },
        TaskView::Record { id } => {
            proof {
                lemma_success_shrinks_effort(watch, task, origin);
            }
            let next = watch.step(success(watch, task, origin));
            let rest = play(next.0, next.1, origin);
            Trace { recorded: seq![id] + rest.recorded, flushes: rest.flushes }
        },
        TaskView::Dispatch { batch } => {
            proof {
                lemma_success_shrinks_effort(watch, task, origin);
            }
            let next = watch.step(success(watch, task, origin));
            let rest = play(next.0, next.1, origin);
            Trace { recorded: rest.recorded, flushes: seq![batch] + rest.flushes }
        },
        _ => Trace { recorded: Seq::empty(), flushes: Seq::empty() },
    }
}

/// What a host sees of one whole cycle, from the poll that finds `known` in the
/// store and `feed` in the feed until the loop rests, when everything succeeds.
pub open spec fn cycle(
    watch: LoopView,
    known: Set<Seq<char>>,
    feed: Seq<EventView>,
    origin: spec_fn(int) -> GhostCategory,
) -> Trace {
    let begun = watch.step(ReportView::Polled { known: Some(known), feed: Some(feed) });
    play(begun.0, begun.1, origin)
}

/// Known events at the front of a stretch of the feed add nothing to what is fresh in it.
pub proof fn lemma_fresh_skips_known(
    feed: Seq<EventView>,
    known: Set<Seq<char>>,
    origin: spec_fn(int) -> GhostCategory,
    from: int,
)
    requires
        0 <= from <= feed.len(),
    ensures
        fresh_ids(feed, known, from) == fresh_ids(feed, known, next_fresh(feed, known, from)),
        fresh_units(feed, known, origin, from) == fresh_units(
            feed,
            known,
            origin,
            next_fresh(feed, known, from),
        ),
    decreases feed.len() - from,
{
    if from < feed.len() && known.contains(feed[from].id) {
        lemma_fresh_skips_known(feed, known, origin, from + 1);
    }
}

/// A full batch in front of a run is the first batch that the run is cut into.
pub proof fn lemma_chunks_full(batch: Seq<EmbedView>, rest: Seq<EmbedView>)
    requires
        batch.len() == BATCH_CAPACITY,
    ensures
        chunks(batch + rest) == seq![batch] + chunks(rest),
{
    let all = batch + rest;
    if rest.len() == 0 {
        assert(all =~= batch);
        assert(chunks(rest) =~= Seq::<Seq<EmbedView>>::empty());
        assert(seq![batch] + chunks(rest) =~= seq![batch]);
    } else {
        assert(all.take(BATCH_CAPACITY as int) =~= batch);
        assert(all.skip(BATCH_CAPACITY as int) =~= rest);
    }
}

/// From any place in the feed and with any batch that is not full, a host for whom
/// everything succeeds is asked to record the ids of the fresh events that are left,
/// in order, and to dispatch the batch and their notifications, cut into batches.
pub proof fn lemma_play_from(watch: LoopView, origin: spec_fn(int) -> GhostCategory)
    requires
        0 <= watch.cursor <= watch.feed.len(),
        watch.batch.len() < BATCH_CAPACITY,
        0 <= watch.seen <= watch.cursor,
    ensures
        watch.advance().0.well_formed(),
        awaits(watch.advance().0, watch.advance().1),
        play(watch.advance().0, watch.advance().1, origin).recorded == fresh_ids(
            watch.feed,
            watch.known,
            watch.cursor,
        ),
        play(watch.advance().0, watch.advance().1, origin).flushes == chunks(
            watch.batch + fresh_units(watch.feed, watch.known, origin, watch.cursor),
        ),
    decreases watch.feed.len() - watch.cursor,
{
    let feed = watch.feed;
    let known = watch.known;
    let at = next_fresh(feed, known, watch.cursor);
    lemma_next_fresh(feed, known, watch.cursor);
    lemma_fresh_skips_known(feed, known, origin, watch.cursor);
    let (first, task) = watch.advance();
    let trace = play(first, task, origin);
    if at >= feed.len() {
        assert(fresh_ids(feed, known, at) =~= Seq::<Seq<char>>::empty());
        assert(fresh_units(feed, known, origin, at) =~= Seq::<EmbedView>::empty());
        assert(watch.batch + fresh_units(feed, known, origin, at) =~= watch.batch);
        if watch.batch.len() > 0 {
            let next = first.step(success(first, task, origin));
            assert(next_fresh(feed, known, at) == at);
            assert(next.1 == TaskView::Sleep { seconds: POLL_INTERVAL_SECS });
            assert(next.0.well_formed());
            let rest = play(next.0, next.1, origin);
            assert(rest.recorded =~= Seq::<Seq<char>>::empty());
            assert(rest.flushes =~= Seq::<Seq<EmbedView>>::empty());
            assert(trace.recorded =~= Seq::<Seq<char>>::empty());
            assert(trace.flushes =~= seq![watch.batch]);
        } else {
            assert(trace.recorded =~= Seq::<Seq<char>>::empty());
            assert(trace.flushes =~= Seq::<Seq<EmbedView>>::empty());
        }
    } else {
        let event = feed[at];
        let category = origin_of(event, origin(at));
        let unit = embed_of(event, category);
        let batch = watch.batch.push(unit);
        // The loop as it waits for the store to take the id.
        let recording = LoopView {
            phase: Phase::Recording,
            cursor: at,
            seen: watch.seen + (at - watch.cursor),
            category,
            ..watch
        };
        let record = TaskView::Record { id: event.id };
        assert(recording.well_formed());
        assert(awaits(recording, record));
        let after = recording.step(success(recording, record, origin));
        lemma_success_shrinks_effort(recording, record, origin);
        assert(after.0.well_formed());
        assert(awaits(after.0, after.1));
        let later = play(after.0, after.1, origin);
        assert(play(recording, record, origin).flushes == later.flushes);
        assert(play(recording, record, origin).recorded == seq![event.id] + later.recorded);
        assert(play(recording, record, origin) == (Trace {
            recorded: seq![event.id] + later.recorded,
            flushes: later.flushes,
        }));
        if event.origin_tag() is Some {
            assert(first.well_formed());
            assert(first.step(success(first, task, origin)) == (recording, record));
            assert(trace == play(recording, record, origin));
        } else {
            assert((first, task) == (recording, record));
        }
        assert(fresh_ids(feed, known, at) == seq![event.id] + fresh_ids(feed, known, at + 1));
        assert(fresh_units(feed, known, origin, at) == seq![unit] + fresh_units(
            feed,
            known,
            origin,
            at + 1,
        ));
        let units = fresh_units(feed, known, origin, at + 1);
        assert(watch.batch + (seq![unit] + units) =~= batch + units);
        if batch.len() >= BATCH_CAPACITY {
            let emptied = LoopView {
                phase: Phase::Dispatching,
                cursor: at + 1,
                batch: Seq::empty(),
                ..recording
            };
            let dispatch = TaskView::Dispatch { batch };
            assert(after == (emptied, dispatch));
            assert(emptied.well_formed());
            lemma_play_from(emptied, origin);
            let resumed = emptied.step(success(emptied, dispatch, origin));
            assert(resumed == emptied.advance());
            let tail = play(resumed.0, resumed.1, origin);
            assert(later == (Trace { recorded: tail.recorded, flushes: seq![batch] + tail.flushes }));
            assert(emptied.batch + units =~= units);
            lemma_chunks_full(batch, units);
        } else {
            let filled = LoopView { cursor: at + 1, batch, ..recording };
            assert(after == filled.advance());
            lemma_play_from(filled, origin);
        }
    }
}

/// End to end: in a cycle in which everything succeeds, the host is asked to
/// record exactly the ids of the events that the store did not know, in the order of
/// the feed, and to dispatch exactly their notifications, in that order, cut into
/// batches of which each is full but the last.
pub proof fn law_cycle(
    watch: LoopView,
    known: Set<Seq<char>>,
    feed: Seq<EventView>,
    origin: spec_fn(int) -> GhostCategory,
)
    requires
        watch.well_formed(),
        watch.phase == Phase::Polling,
    ensures
        cycle(watch, known, feed, origin).recorded == fresh_ids(feed, known, 0),
        cycle(watch, known, feed, origin).flushes == chunks(fresh_units(feed, known, origin, 0)),
{
    let begun = LoopView {
        known,
        feed,
        cursor: 0,
        seen: 0,
        batch: Seq::empty(),
        ..watch
    };
    assert(watch.step(ReportView::Polled { known: Some(known), feed: Some(feed) }) == begun.advance());
    lemma_play_from(begun, origin);
    assert(begun.batch + fresh_units(feed, known, origin, 0) =~= fresh_units(feed, known, origin, 0));
}

/// Batch capacity: a run of notifications is cut into as few batches as hold it;
/// none is empty, none holds more than `BATCH_CAPACITY`, each but the last is full,
/// and together, in order, they are the run.
pub proof fn law_chunks(units: Seq<EmbedView>)
    ensures
        chunks(units).len() == (units.len() + BATCH_CAPACITY - 1) / (BATCH_CAPACITY as int),
        forall|i: int|
            0 <= i < chunks(units).len() ==> 0 < (#[trigger] chunks(units)[i]).len()
                <= BATCH_CAPACITY,
        forall|i: int|
            0 <= i < chunks(units).len() - 1 ==> (#[trigger] chunks(units)[i]).len()
                == BATCH_CAPACITY,
        chunks(units).flatten() == units,
    decreases units.len(),
{
    let cut = chunks(units);
    if units.len() == 0 {
        assert(cut.flatten() =~= units);
    } else if units.len() <= BATCH_CAPACITY {
        assert(cut.drop_first() =~= Seq::<Seq<EmbedView>>::empty());
        assert(cut.drop_first().flatten() =~= Seq::<EmbedView>::empty());
        assert(cut.flatten() =~= units);
    } else {
        let head = units.take(BATCH_CAPACITY as int);
        let tail = units.skip(BATCH_CAPACITY as int);
        law_chunks(tail);
        assert(cut.drop_first() =~= chunks(tail));
        assert(cut.flatten() =~= head + tail);
        assert(head + tail =~= units);
        assert forall|i: int| 0 <= i < cut.len() implies 0 < (#[trigger] cut[i]).len()
            <= BATCH_CAPACITY by {
            if i > 0 {
                assert(cut[i] == chunks(tail)[i - 1]);
            }
        }
        assert forall|i: int| 0 <= i < cut.len() - 1 implies (#[trigger] cut[i]).len()
            == BATCH_CAPACITY by {
            if i > 0 {
                assert(cut[i] == chunks(tail)[i - 1]);
            }
        }
    }
}

/// The fresh events that are left are all known to a store that knows every id of the feed.
pub proof fn lemma_nothing_fresh(
    feed: Seq<EventView>,
    known: Set<Seq<char>>,
    origin: spec_fn(int) -> GhostCategory,
    from: int,
)
    requires
        0 <= from <= feed.len(),
        forall|i: int| 0 <= i < feed.len() ==> known.contains(#[trigger] feed[i].id),
    ensures
        fresh_ids(feed, known, from) == Seq::<Seq<char>>::empty(),
        fresh_units(feed, known, origin, from) == Seq::<EmbedView>::empty(),
    decreases feed.len() - from,
{
    if from < feed.len() {
        lemma_nothing_fresh(feed, known, origin, from + 1);
    }
}

/// Every event of the feed is known to the store or among the fresh ones.
pub proof fn lemma_fresh_ids_cover(feed: Seq<EventView>, known: Set<Seq<char>>, from: int, i: int)
    requires
        0 <= from <= i < feed.len(),
    ensures
        known.contains(feed[i].id) || fresh_ids(feed, known, from).contains(feed[i].id),
    decreases feed.len() - from,
{
    if !known.contains(feed[i].id) {
        if from == i {
            assert(fresh_ids(feed, known, from)[0] == feed[i].id);
        } else {
            lemma_fresh_ids_cover(feed, known, from + 1, i);
            let rest = fresh_ids(feed, known, from + 1);
            let k = choose|k: int| 0 <= k < rest.len() && rest[k] == feed[i].id;
            if known.contains(feed[from].id) {
            } else {
                assert(fresh_ids(feed, known, from)[k + 1] == rest[k]);
            }
        }
    }
}

/// Idempotent re-poll: when a cycle in which everything succeeds is followed by a
/// poll that finds the same feed, and in the store at least what it held before and
/// what the first cycle recorded, the second cycle records nothing and dispatches
/// nothing.
pub proof fn law_repoll_is_quiet(
    first: LoopView,
    second: LoopView,
    known: Set<Seq<char>>,
    later: Set<Seq<char>>,
    feed: Seq<EventView>,
    origin: spec_fn(int) -> GhostCategory,
    again: spec_fn(int) -> GhostCategory,
)
    requires
        first.well_formed(),
        first.phase == Phase::Polling,
        second.well_formed(),
        second.phase == Phase::Polling,
        known.subset_of(later),
        cycle(first, known, feed, origin).recorded.to_set().subset_of(later),
    ensures
        cycle(second, later, feed, again).recorded == Seq::<Seq<char>>::empty(),
        cycle(second, later, feed, again).flushes == Seq::<Seq<EmbedView>>::empty(),
{
    law_cycle(first, known, feed, origin);
    assert forall|i: int| 0 <= i < feed.len() implies later.contains(#[trigger] feed[i].id) by {
        lemma_fresh_ids_cover(feed, known, 0, i);
    }
    lemma_nothing_fresh(feed, later, again, 0);
    law_cycle(second, later, feed, again);
}

/// Each fresh id is the id of an event at or behind the place from which they are
/// counted, and is not known to the store.
pub proof fn lemma_fresh_ids_come_from_feed(
    feed: Seq<EventView>,
    known: Set<Seq<char>>,
    from: int,
    k: int,
) -> (place: int)
    requires
        0 <= from <= feed.len(),
        0 <= k < fresh_ids(feed, known, from).len(),
    ensures
        from <= place < feed.len(),
        feed[place].id == fresh_ids(feed, known, from)[k],
        !known.contains(feed[place].id),
    decreases feed.len() - from,
{
    if known.contains(feed[from].id) {
        lemma_fresh_ids_come_from_feed(feed, known, from + 1, k)
    } else if k == 0 {
        from
    } else {
        lemma_fresh_ids_come_from_feed(feed, known, from + 1, k - 1)
    }
}

/// Where no two events of the feed share an id, no id is fresh twice.
pub proof fn lemma_fresh_ids_distinct(feed: Seq<EventView>, known: Set<Seq<char>>, from: int)
    requires
        0 <= from <= feed.len(),
        forall|i: int, j: int| 0 <= i < j < feed.len() ==> feed[i].id != feed[j].id,
    ensures
        fresh_ids(feed, known, from).no_duplicates(),
    decreases feed.len() - from,
{
    if from < feed.len() {
        lemma_fresh_ids_distinct(feed, known, from + 1);
        if !known.contains(feed[from].id) {
            let rest = fresh_ids(feed, known, from + 1);
            let all = fresh_ids(feed, known, from);
            assert forall|a: int, b: int| 0 <= a < all.len() && 0 <= b < all.len() && a != b implies all[a]
                != all[b] by {
                if a > 0 && b > 0 {
                    assert(all[a] == rest[a - 1] && all[b] == rest[b - 1]);
                } else if a == 0 {
                    let place = lemma_fresh_ids_come_from_feed(feed, known, from + 1, b - 1);
                    assert(all[b] == rest[b - 1]);
                } else {
                    let place = lemma_fresh_ids_come_from_feed(feed, known, from + 1, a - 1);
                    assert(all[a] == rest[a - 1]);
                }
            }
        }
    }
}

/// At most once: in a cycle in which everything succeeds, over a feed in which no two
/// events share an id, no id is recorded twice, none that is recorded was known to
/// the store, and every id of the feed that was not known is recorded.
pub proof fn law_each_event_once(
    watch: LoopView,
    known: Set<Seq<char>>,
    feed: Seq<EventView>,
    origin: spec_fn(int) -> GhostCategory,
)
    requires
        watch.well_formed(),
        watch.phase == Phase::Polling,
        forall|i: int, j: int| 0 <= i < j < feed.len() ==> feed[i].id != feed[j].id,
    ensures
        cycle(watch, known, feed, origin).recorded.no_duplicates(),
        forall|id: Seq<char>|
            cycle(watch, known, feed, origin).recorded.contains(id) ==> !known.contains(id),
        forall|i: int|
            0 <= i < feed.len() && !known.contains(#[trigger] feed[i].id) ==> cycle(
                watch,
                known,
                feed,
                origin,
            ).recorded.contains(feed[i].id),
{
    law_cycle(watch, known, feed, origin);
    lemma_fresh_ids_distinct(feed, known, 0);
    let recorded = fresh_ids(feed, known, 0);
    assert forall|id: Seq<char>| recorded.contains(id) implies !known.contains(id) by {
        let k = choose|k: int| 0 <= k < recorded.len() && recorded[k] == id;
        let place = lemma_fresh_ids_come_from_feed(feed, known, 0, k);
    }
    assert forall|i: int| 0 <= i < feed.len() && !known.contains(
        #[trigger] feed[i].id,
    ) implies recorded.contains(feed[i].id) by {
        lemma_fresh_ids_cover(feed, known, 0, i);
    }
}

} // verus!
