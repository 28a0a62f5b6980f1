use hauntbot::category::GhostCategory;
use hauntbot::dispatch::DispatchError;
use hauntbot::embed::Embed;
use hauntbot::hauntings::{Event, HauntingMetadata};
use hauntbot::store::Store;
use hauntbot::watch::{
    watch, Phase, Report, Task, WatchError, WatchLoop, BACKOFF_SECS, BATCH_CAPACITY,
    POLL_INTERVAL_SECS,
};

fn haunting(id: &str, player: Option<&str>) -> Event {
    Event {
        id: id.to_string(),
        description: format!("about {}", id),
        created: format!("at {}", id),
        season: 3,
        day: 7,
        metadata: HauntingMetadata { modification: "INHABITING".to_string() },
        player_tags: player.iter().map(|p| p.to_string()).collect(),
    }
}

fn feed_of(ids: &[&str]) -> Vec<Event> {
    ids.iter().map(|id| haunting(id, Some("p"))).collect()
}

fn numbered(n: usize) -> Vec<Event> {
    (0..n).map(|i| haunting(&format!("e{}", i), Some("p"))).collect()
}

fn polled(known: &[&str], feed: Vec<Event>) -> Report {
    Report::Polled { known: Some(known.iter().map(|s| s.to_string()).collect()), feed: Some(feed) }
}

/// What a host saw of one cycle.
#[derive(Default)]
struct Seen {
    classified: Vec<String>,
    recorded: Vec<String>,
    flushes: Vec<Vec<Embed>>,
    order: Vec<String>,
}

/// Plays the host for one cycle in which everything succeeds, against `store`.
fn cycle(watch: &mut WatchLoop, store: &mut Store, feed: Vec<Event>) -> (Seen, Task) {
    let mut seen = Seen::default();
    let mut task = watch.step(Report::Polled { known: Some(store.event_ids()), feed: Some(feed) });
    loop {
        task = match task {
            Task::Classify { player } => {
                seen.order.push(format!("classify {}", player));
                seen.classified.push(player);
                watch.step(Report::Classified(Some(GhostCategory::InternetLeague)))
            }
            Task::Record { id } => {
                seen.order.push(format!("record {}", id));
                store.record_event_id(&id);
                seen.recorded.push(id);
                watch.step(Report::Recorded(true))
            }
            Task::Dispatch { batch } => {
                seen.order.push(format!("dispatch {}", batch.len()));
                seen.flushes.push(batch);
                watch.step(Report::Dispatched(Ok(())))
            }
            other => return (seen, other),
        };
    }
}

fn titles(flushes: &[Vec<Embed>]) -> Vec<Vec<String>> {
    flushes.iter().map(|b| b.iter().map(|e| e.title.clone()).collect()).collect()
}

fn sizes(flushes: &[Vec<Embed>]) -> Vec<usize> {
    flushes.iter().map(|b| b.len()).collect()
}

#[test]
fn the_loop_starts_by_polling() {
    let (watch, task) = WatchLoop::start();
    assert!(matches!(task, Task::Poll));
    assert_eq!(watch.phase(), Phase::Polling);
    assert_eq!(watch.seen(), 0);
}

#[test]
fn cadence_constants() {
    assert_eq!(BATCH_CAPACITY, 10);
    assert_eq!(POLL_INTERVAL_SECS, 5);
    assert_eq!(BACKOFF_SECS, 30);
}

#[test]
fn end_to_end_scenario() {
    let mut store = Store::new();
    store.record_event_id("e1");
    let (mut watch, _) = WatchLoop::start();
    let (seen, last) = cycle(&mut watch, &mut store, feed_of(&["e1", "e2", "e3"]));
    assert_eq!(seen.recorded, vec!["e2", "e3"]);
    assert_eq!(titles(&seen.flushes), vec![vec!["about e2", "about e3"]]);
    assert_eq!(
        seen.order,
        vec!["classify p", "record e2", "classify p", "record e3", "dispatch 2"]
    );
    assert!(matches!(last, Task::Sleep { seconds: 5 }));
    assert_eq!(watch.phase(), Phase::Sleeping);
    assert_eq!(watch.seen(), 1);
    assert!(store.contains_event_id("e2"));
    assert!(store.contains_event_id("e3"));
    let embed = &seen.flushes[0][0];
    assert_eq!(embed.footer.text, "Season 4 Day 8 • Origin: Internet League Blaseball");
    assert_eq!(embed.timestamp, "at e2");
}

#[test]
fn twenty_five_new_events_make_three_flushes() {
    let mut store = Store::new();
    let (mut watch, _) = WatchLoop::start();
    let (seen, last) = cycle(&mut watch, &mut store, numbered(25));
    assert_eq!(sizes(&seen.flushes), vec![10, 10, 5]);
    assert_eq!(seen.recorded.len(), 25);
    let all: Vec<String> = titles(&seen.flushes).into_iter().flatten().collect();
    let expected: Vec<String> = (0..25).map(|i| format!("about e{}", i)).collect();
    assert_eq!(all, expected);
    assert!(matches!(last, Task::Sleep { seconds: 5 }));
}

#[test]
fn full_batch_is_flushed_before_the_next_event_is_taken() {
    let mut store = Store::new();
    let (mut watch, _) = WatchLoop::start();
    let (seen, _) = cycle(&mut watch, &mut store, numbered(11));
    assert_eq!(seen.order[18], "classify p");
    assert_eq!(seen.order[19], "record e9");
    assert_eq!(seen.order[20], "dispatch 10");
    assert_eq!(seen.order[21], "classify p");
    assert_eq!(seen.order[22], "record e10");
    assert_eq!(seen.order[23], "dispatch 1");
    assert_eq!(seen.order.len(), 24);
}

#[test]
fn flushes_by_the_number_of_new_events() {
    for n in [0usize, 1, 9, 10, 11, 19, 20, 21, 30, 95] {
        let mut store = Store::new();
        let (mut watch, _) = WatchLoop::start();
        let (seen, last) = cycle(&mut watch, &mut store, numbered(n));
        let mut expected = vec![10; n / 10];
        if n % 10 > 0 {
            expected.push(n % 10);
        }
        assert_eq!(sizes(&seen.flushes), expected, "{} events", n);
        assert!(seen.flushes.iter().all(|b| !b.is_empty() && b.len() <= BATCH_CAPACITY));
        assert!(matches!(last, Task::Sleep { seconds: 5 }));
    }
}

#[test]
fn known_events_do_not_fill_batches() {
    let mut store = Store::new();
    for i in 0..40 {
        if i % 2 == 0 {
            store.record_event_id(&format!("e{}", i));
        }
    }
    let (mut watch, _) = WatchLoop::start();
    let (seen, _) = cycle(&mut watch, &mut store, numbered(40));
    assert_eq!(sizes(&seen.flushes), vec![10, 10]);
    let expected: Vec<String> = (0..40).filter(|i| i % 2 == 1).map(|i| format!("e{}", i)).collect();
    assert_eq!(seen.recorded, expected);
    assert_eq!(watch.seen(), 20);
}

#[test]
fn polling_the_same_feed_again_dispatches_nothing() {
    let mut store = Store::new();
    store.record_event_id("e3");
    let (mut watch, _) = WatchLoop::start();
    let (first, last) = cycle(&mut watch, &mut store, numbered(12));
    assert_eq!(first.recorded.len(), 11);
    assert!(matches!(last, Task::Sleep { seconds: 5 }));
    assert!(matches!(watch.step(Report::Slept), Task::Poll));
    let (second, last) = cycle(&mut watch, &mut store, numbered(12));
    assert!(second.classified.is_empty());
    assert!(second.recorded.is_empty());
    assert!(second.flushes.is_empty());
    assert!(matches!(last, Task::Sleep { seconds: 5 }));
    assert_eq!(watch.seen(), 12);
}

#[test]
fn only_what_is_new_in_a_later_poll_is_dispatched() {
    let mut store = Store::new();
    let (mut watch, _) = WatchLoop::start();
    cycle(&mut watch, &mut store, feed_of(&["e1", "e2"]));
    assert!(matches!(watch.step(Report::Slept), Task::Poll));
    let (seen, _) = cycle(&mut watch, &mut store, feed_of(&["e3", "e1", "e2", "e4"]));
    assert_eq!(seen.recorded, vec!["e3", "e4"]);
    assert_eq!(titles(&seen.flushes), vec![vec!["about e3", "about e4"]]);
}

#[test]
fn empty_feed_goes_straight_to_sleep() {
    let (mut watch, _) = WatchLoop::start();
    assert!(matches!(watch.step(polled(&["e1"], Vec::new())), Task::Sleep { seconds: 5 }));
    assert_eq!(watch.phase(), Phase::Sleeping);
    assert!(matches!(watch.step(Report::Slept), Task::Poll));
    assert_eq!(watch.phase(), Phase::Polling);
}

#[test]
fn failed_fetch_backs_off_and_polls_again() {
    let (mut watch, _) = WatchLoop::start();
    for _ in 0..3 {
        let task = watch.step(Report::Polled { known: Some(Vec::new()), feed: None });
        assert!(matches!(task, Task::Sleep { seconds: 30 }));
        assert_eq!(watch.phase(), Phase::ErrorBackoff);
        assert!(matches!(watch.step(Report::Slept), Task::Poll));
        assert_eq!(watch.phase(), Phase::Polling);
    }
    let task = watch.step(polled(&[], feed_of(&["e1"])));
    assert!(matches!(task, Task::Classify { .. }));
}

#[test]
fn unreadable_store_stops_the_loop() {
    let (mut watch, _) = WatchLoop::start();
    let task = watch.step(Report::Polled { known: None, feed: Some(feed_of(&["e1"])) });
    assert!(matches!(task, Task::Stop { error: WatchError::Store }));
    assert_eq!(watch.phase(), Phase::Stopped);

    let (mut watch, _) = WatchLoop::start();
    let task = watch.step(Report::Polled { known: None, feed: None });
    assert!(matches!(task, Task::Stop { error: WatchError::Store }));
}

#[test]
fn failed_lookup_stops_the_loop() {
    let (mut watch, _) = WatchLoop::start();
    assert!(matches!(watch.step(polled(&[], feed_of(&["e1"]))), Task::Classify { .. }));
    let task = watch.step(Report::Classified(None));
    assert!(matches!(task, Task::Stop { error: WatchError::Classify }));
    assert_eq!(watch.phase(), Phase::Stopped);
}

#[test]
fn failed_record_stops_the_loop() {
    let (mut watch, _) = WatchLoop::start();
    watch.step(polled(&[], feed_of(&["e1"])));
    assert!(matches!(
        watch.step(Report::Classified(Some(GhostCategory::Unknown))),
        Task::Record { .. }
    ));
    let task = watch.step(Report::Recorded(false));
    assert!(matches!(task, Task::Stop { error: WatchError::Store }));
}

#[test]
fn failed_dispatch_stops_the_loop_and_the_event_stays_recorded() {
    let mut store = Store::new();
    let (mut watch, _) = WatchLoop::start();
    watch.step(Report::Polled { known: Some(store.event_ids()), feed: Some(feed_of(&["e1"])) });
    let task = watch.step(Report::Classified(Some(GhostCategory::Unknown)));
    if let Task::Record { id } = task {
        store.record_event_id(&id);
    } else {
        panic!("the event is to be recorded before it is dispatched");
    }
    assert!(matches!(watch.step(Report::Recorded(true)), Task::Dispatch { .. }));
    let task = watch.step(Report::Dispatched(Err(DispatchError::Rejected(500))));
    assert!(matches!(
        task,
        Task::Stop { error: WatchError::Dispatch(DispatchError::Rejected(500)) }
    ));
    assert_eq!(watch.phase(), Phase::Stopped);
    assert!(store.contains_event_id("e1"));
    assert!(matches!(watch.step(Report::Slept), Task::Stop { error: WatchError::Unexpected }));
}

#[test]
fn event_without_a_player_is_of_unknown_origin() {
    let (mut watch, _) = WatchLoop::start();
    let task = watch.step(polled(&[], vec![haunting("e1", None)]));
    assert!(matches!(&task, Task::Record { id } if id == "e1"));
    assert_eq!(watch.phase(), Phase::Recording);
    match watch.step(Report::Recorded(true)) {
        Task::Dispatch { batch } => {
            assert_eq!(batch.len(), 1);
            assert_eq!(batch[0].footer.text, "Season 4 Day 8 • Origin: Unknown");
        }
        _ => panic!("the batch is to be dispatched at the end of the feed"),
    }
}

#[test]
fn the_first_player_of_an_event_is_looked_up() {
    let mut event = haunting("e1", Some("first"));
    event.player_tags.push("second".to_string());
    let (mut watch, _) = WatchLoop::start();
    let task = watch.step(polled(&[], vec![event]));
    assert!(matches!(&task, Task::Classify { player } if player == "first"));
    assert_eq!(watch.phase(), Phase::Classifying);
    let task = watch.step(Report::Classified(Some(GhostCategory::UltraLeague)));
    assert!(matches!(&task, Task::Record { id } if id == "e1"));
    match watch.step(Report::Recorded(true)) {
        Task::Dispatch { batch } => {
            assert_eq!(batch[0].footer.text, "Season 4 Day 8 • Origin: Ultra League Blaseball");
        }
        _ => panic!("the batch is to be dispatched at the end of the feed"),
    }
}

#[test]
fn reports_that_are_not_awaited_stop_the_loop() {
    let (mut watch, _) = WatchLoop::start();
    assert!(matches!(watch.step(Report::Slept), Task::Stop { error: WatchError::Unexpected }));
    assert_eq!(watch.phase(), Phase::Stopped);

    let (mut watch, _) = WatchLoop::start();
    watch.step(polled(&[], feed_of(&["e1"])));
    let task = watch.step(Report::Recorded(true));
    assert!(matches!(task, Task::Stop { error: WatchError::Unexpected }));

    let (mut watch, _) = WatchLoop::start();
    watch.step(polled(&[], Vec::new()));
    let task = watch.step(Report::Dispatched(Ok(())));
    assert!(matches!(task, Task::Stop { error: WatchError::Unexpected }));
}

#[test]
fn watch_begins_a_loop_that_polls() {
    let (mut started, task) = watch();
    assert!(matches!(task, Task::Poll));
    assert_eq!(started.phase(), Phase::Polling);
    let mut store = Store::new();
    let (seen, last) = cycle(&mut started, &mut store, feed_of(&["e1"]));
    assert_eq!(seen.recorded, vec!["e1"]);
    assert!(matches!(last, Task::Sleep { seconds: 5 }));
}

#[test]
fn an_id_that_the_feed_repeats_is_dispatched_for_each_occurrence_of_one_poll() {
    let mut store = Store::new();
    let (mut watch, _) = WatchLoop::start();
    let (seen, _) = cycle(&mut watch, &mut store, feed_of(&["e1", "e1"]));
    assert_eq!(seen.recorded, vec!["e1", "e1"]);
    assert_eq!(sizes(&seen.flushes), vec![2]);
    assert!(matches!(watch.step(Report::Slept), Task::Poll));
    let (again, _) = cycle(&mut watch, &mut store, feed_of(&["e1", "e1"]));
    assert!(again.recorded.is_empty());
    assert!(again.flushes.is_empty());
}
