use hauntbot::calendar::{start_of_day, Timestamp};
use hauntbot::category::GhostCategory;
use hauntbot::embed::{format_event, WebhookPayload};
use hauntbot::hauntings::{
    categorize, classify, hauntings_query, oldest_version, oldest_version_query, Event,
    HauntingMetadata, Player, PlayerData,
};
use hauntbot::players;

fn pair(a: &str, b: &str) -> (String, String) {
    (a.to_string(), b.to_string())
}

fn record(secs: i64, nanos: u32, deceased: bool) -> Player {
    Player { first_seen: Timestamp { secs, nanos }, data: PlayerData { deceased } }
}

fn haunting(id: &str, description: &str, season: isize, day: isize) -> Event {
    Event {
        id: id.to_string(),
        description: description.to_string(),
        created: "2021-04-05T16:00:00.000Z".to_string(),
        season,
        day,
        metadata: HauntingMetadata { modification: "INHABITING".to_string() },
        player_tags: vec!["ann".to_string()],
    }
}

#[test]
fn timestamps_order_by_seconds_then_nanoseconds() {
    let a = Timestamp { secs: 10, nanos: 5 };
    assert!(Timestamp { secs: 11, nanos: 0 }.after(&a));
    assert!(Timestamp { secs: 10, nanos: 6 }.after(&a));
    assert!(!a.after(&a));
    assert!(!Timestamp { secs: 10, nanos: 4 }.after(&a));
    assert!(!Timestamp { secs: 9, nanos: 999_999_999 }.after(&a));
    assert!(Timestamp { secs: -1, nanos: 0 }.after(&Timestamp { secs: -2, nanos: 7 }));
}

#[test]
fn start_of_day_counts_from_1970() {
    assert_eq!(start_of_day(1970, 1, 1), Some(Timestamp { secs: 0, nanos: 0 }));
    assert_eq!(start_of_day(1970, 1, 2), Some(Timestamp { secs: 86_400, nanos: 0 }));
    assert_eq!(start_of_day(2021, 3, 1), Some(Timestamp { secs: 1_614_556_800, nanos: 0 }));
    assert_eq!(start_of_day(2020, 2, 29), Some(Timestamp { secs: 1_582_934_400, nanos: 0 }));
    assert_eq!(start_of_day(1969, 12, 31), Some(Timestamp { secs: -86_400, nanos: 0 }));
}

#[test]
fn start_of_day_knows_no_day_that_does_not_exist() {
    assert_eq!(start_of_day(2021, 2, 29), None);
    assert_eq!(start_of_day(2021, 4, 31), None);
    assert_eq!(start_of_day(2021, 13, 1), None);
    assert_eq!(start_of_day(2021, 0, 1), None);
    assert_eq!(start_of_day(2021, 1, 0), None);
    assert_eq!(start_of_day(1900, 2, 29), None);
}

#[test]
fn start_of_day_has_every_day_of_the_common_years() {
    let lengths = [31u32, 28, 31, 30, 31, 30, 31, 31, 30, 31, 30, 31];
    for year in [1, 4, 100, 400, 1900, 1999, 2000, 2021, 2024, 9999] {
        let leap = year % 4 == 0 && (year % 100 != 0 || year % 400 == 0);
        for month in 1..=12u32 {
            let mut days = lengths[(month - 1) as usize];
            if month == 2 && leap {
                days = 29;
            }
            for day in 1..=days {
                assert!(start_of_day(year, month, day).is_some(), "{}-{}-{}", year, month, day);
            }
        }
    }
}

#[test]
fn classification_scenario() {
    // 2021-04-01T00:00:00Z
    let a = Some(record(1_617_235_200, 0, true));
    assert_eq!(categorize(&a), GhostCategory::UltraLeague);
    let b = Some(record(1_617_235_200, 0, false));
    assert_eq!(categorize(&b), GhostCategory::InternetLeague);
    assert_eq!(categorize(&None), GhostCategory::Unknown);
}

#[test]
fn categorize_cuts_at_the_start_of_march_2021() {
    let cutoff = 1_614_556_800;
    assert_eq!(categorize(&Some(record(cutoff, 0, true))), GhostCategory::InternetLeague);
    assert_eq!(categorize(&Some(record(cutoff, 1, true))), GhostCategory::UltraLeague);
    assert_eq!(categorize(&Some(record(cutoff + 1, 0, true))), GhostCategory::UltraLeague);
    assert_eq!(
        categorize(&Some(record(cutoff - 1, 999_999_999, true))),
        GhostCategory::InternetLeague
    );
    assert_eq!(categorize(&Some(record(cutoff + 1, 0, false))), GhostCategory::InternetLeague);
    assert_eq!(categorize(&Some(record(0, 0, true))), GhostCategory::InternetLeague);
}

#[test]
fn classify_takes_any_cutoff() {
    let cutoff = Timestamp { secs: 100, nanos: 500 };
    assert_eq!(classify(&Some(record(100, 501, true)), &cutoff), GhostCategory::UltraLeague);
    assert_eq!(classify(&Some(record(100, 500, true)), &cutoff), GhostCategory::InternetLeague);
    assert_eq!(classify(&Some(record(200, 0, false)), &cutoff), GhostCategory::InternetLeague);
    assert_eq!(classify(&None, &cutoff), GhostCategory::Unknown);
}

#[test]
fn categorize_agrees_with_classify_at_the_calendar_cutoff() {
    let cutoff = start_of_day(2021, 3, 1).unwrap();
    for secs in [0, 1_614_556_799, 1_614_556_800, 1_614_556_801, 2_000_000_000] {
        for nanos in [0, 1, 999_999_999, 1_500_000_000] {
            for deceased in [false, true] {
                let oldest = Some(record(secs, nanos, deceased));
                assert_eq!(categorize(&oldest), classify(&oldest, &cutoff));
            }
        }
    }
}

#[test]
fn metadata_gives_one_parameter() {
    let metadata = HauntingMetadata { modification: "INHABITING".to_string() };
    assert_eq!(metadata.serialize_params(), vec![pair("metadata.mod", "INHABITING")]);
    let empty = HauntingMetadata { modification: String::new() };
    assert_eq!(empty.serialize_params(), vec![pair("metadata.mod", "")]);
}

#[test]
fn hauntings_query_asks_for_the_newest_hundred() {
    assert_eq!(
        hauntings_query(),
        vec![
            pair("limit", "100"),
            pair("sortorder", "desc"),
            pair("sortby", "{created}"),
            pair("type", "106"),
            pair("metadata.mod", "INHABITING"),
        ]
    );
}

#[test]
fn oldest_version_query_asks_for_one_record() {
    assert_eq!(
        oldest_version_query("abc-123"),
        vec![pair("order", "asc"), pair("player", "abc-123"), pair("limit", "1")]
    );
}

#[test]
fn oldest_version_is_the_first_record() {
    let first = record(5, 0, true);
    let second = record(9, 0, false);
    assert_eq!(oldest_version(&vec![first, second]), Some(first));
    assert_eq!(oldest_version(&vec![second]), Some(second));
    assert_eq!(oldest_version(&Vec::new()), None);
}

#[test]
fn format_event_fills_title_footer_and_timestamp() {
    let event = haunting("e1", "A ghost inhabits the batter", 11, 33);
    let embed = format_event(&event, GhostCategory::Unknown);
    assert_eq!(embed.title, "A ghost inhabits the batter");
    assert_eq!(embed.footer.text, "Season 12 Day 34 • Origin: Unknown");
    assert_eq!(embed.timestamp, "2021-04-05T16:00:00.000Z");
}

#[test]
fn format_event_names_the_origin() {
    let event = haunting("e1", "x", 0, 0);
    assert_eq!(
        format_event(&event, GhostCategory::UltraLeague).footer.text,
        "Season 1 Day 1 • Origin: Ultra League Blaseball"
    );
    assert_eq!(
        format_event(&event, GhostCategory::InternetLeague).footer.text,
        "Season 1 Day 1 • Origin: Internet League Blaseball"
    );
}

#[test]
fn format_event_counts_from_one_at_the_edges() {
    let negative = haunting("e1", "x", -1, -2);
    assert_eq!(
        format_event(&negative, GhostCategory::Unknown).footer.text,
        "Season 0 Day -1 • Origin: Unknown"
    );
    let huge = haunting("e1", "x", isize::MAX, isize::MIN);
    assert_eq!(
        format_event(&huge, GhostCategory::Unknown).footer.text,
        format!(
            "Season {} Day {} • Origin: Unknown",
            isize::MAX as i128 + 1,
            isize::MIN as i128 + 1
        )
    );
}

fn roster_entry(id: &str, name: &str, attrs: &[&str]) -> players::Player {
    players::Player {
        data: players::PlayerData {
            id: id.to_string(),
            name: name.to_string(),
            perm_attrs: attrs.iter().map(|a| a.to_string()).collect(),
        },
    }
}

#[test]
fn redacted_keeps_the_redacted_in_order() {
    let roster = vec![
        roster_entry("1", "Ann", &["REDACTED"]),
        roster_entry("2", "Bo", &[]),
        roster_entry("3", "Cy", &["FIRE", "REDACTED", "REDACTED"]),
        roster_entry("4", "Di", &["redacted", "REDACTED "]),
        roster_entry("5", "Ed", &["SHELLED", "REDACTED"]),
    ];
    let found = players::redacted(&roster);
    let ids: Vec<&str> = found.iter().map(|d| d.id.as_str()).collect();
    assert_eq!(ids, vec!["1", "3", "5"]);
    assert_eq!(found[1].name, "Cy");
    assert_eq!(found[1].perm_attrs, vec!["FIRE", "REDACTED", "REDACTED"]);
    assert!(players::redacted(&Vec::new()).is_empty());
}

#[test]
fn payload_carries_the_batch() {
    let batch = vec![
        format_event(&haunting("e1", "first", 0, 0), GhostCategory::Unknown),
        format_event(&haunting("e2", "second", 0, 1), GhostCategory::Unknown),
    ];
    let payload = WebhookPayload::new(&batch);
    assert_eq!(payload.embeds.len(), 2);
    assert_eq!(payload.embeds[0].title, "first");
    assert_eq!(payload.embeds[1].title, "second");
    assert!(WebhookPayload::new(&[]).embeds.is_empty());
}
