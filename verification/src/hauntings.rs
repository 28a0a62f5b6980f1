use crate::calendar::{is_civil, start_of_day, utc_seconds, Timestamp};
use crate::category::GhostCategory;
use crate::text::{natural, natural_text, pair_texts, texts};
use vstd::prelude::*;

verus! {

/// The modification that an event carries.
#[derive(Debug)]
pub struct HauntingMetadata {
    pub modification: String,
}

impl HauntingMetadata {
    /// The metadata as parameters of a feed query: one pair, the filter on the modification.
    pub open spec fn params(self) -> Seq<(Seq<char>, Seq<char>)> {
        seq![("metadata.mod"@, self.modification@)]
    }

    /// Gives the metadata as parameters of a feed query.
    pub fn serialize_params(&self) -> (pairs: Vec<(String, String)>)
        ensures
            pair_texts(pairs@) == self.params(),
    {
        let mut pairs: Vec<(String, String)> = Vec::new();
        pairs.push((String::from_str("metadata.mod"), self.modification.clone()));
        assert(pair_texts(pairs@) =~= self.params());
        pairs
    }
}

/// One occurrence in the feed. Two events with the same `id` are the same occurrence.
#[derive(Debug)]
pub struct Event {
    pub id: String,
    pub description: String,
    pub created: String,
    pub season: isize,
    pub day: isize,
    pub metadata: HauntingMetadata,
    pub player_tags: Vec<String>,
}

/// An event as a mathematical value.
pub ghost struct EventView {
    pub id: Seq<char>,
    pub description: Seq<char>,
    pub created: Seq<char>,
    pub season: int,
    pub day: int,
    pub modification: Seq<char>,
    pub player_tags: Seq<Seq<char>>,
}

impl EventView {
    /// The player that the event is about: the first of its tags, if it has one.
    pub open spec fn origin_tag(self) -> Option<Seq<char>> {
        if self.player_tags.len() > 0 {
            Some(self.player_tags[0])
        } else {
            None
        }
    }
}

impl View for Event {
    type V = EventView;

    open spec fn view(&self) -> EventView {
        EventView {
            id: self.id@,
            description: self.description@,
            created: self.created@,
            season: self.season as int,
            day: self.day as int,
            modification: self.metadata.modification@,
            player_tags: texts(self.player_tags@),
        }
    }
}

/// The views of a sequence of events, in order.
pub open spec fn event_views(v: Seq<Event>) -> Seq<EventView> {
    v.map_values(|e: Event| e@)
}

/// What a player's record says of the player.
#[derive(Clone, Copy, Debug, PartialEq, Eq, Structural)]
pub struct PlayerData {
    pub deceased: bool,
}

/// One record of a player: when the player was first seen, and the data at that time.
#[derive(Clone, Copy, Debug, PartialEq, Eq, Structural)]
pub struct Player {
    pub first_seen: Timestamp,
    pub data: PlayerData,
}

/// The parameters of the query for the newest hauntings.
pub open spec fn hauntings_params() -> Seq<(Seq<char>, Seq<char>)> {
    seq![
        ("limit"@, natural_text(100)),
        ("sortorder"@, "desc"@),
        ("sortby"@, "{created}"@),
        ("type"@, natural_text(106)),
        ("metadata.mod"@, "INHABITING"@),
    ]
}

/// Builds the query for the newest hauntings: a page of a hundred events of the
/// haunting type, newest first, whose modification is an inhabiting.
pub fn hauntings_query() -> (pairs: Vec<(String, String)>)
    ensures
        pair_texts(pairs@) == hauntings_params(),
{
    let metadata = HauntingMetadata { modification: String::from_str("INHABITING") };
    let mut pairs: Vec<(String, String)> = Vec::new();
    pairs.push((String::from_str("limit"), natural(100)));
    pairs.push((String::from_str("sortorder"), String::from_str("desc")));
    pairs.push((String::from_str("sortby"), String::from_str("{created}")));
    pairs.push((String::from_str("type"), natural(106)));
    let mut filter = metadata.serialize_params();
    assert(pair_texts(filter@).len() == 1);
    assert(pair_texts(filter@)[0] == metadata.params()[0]);
    let last = filter.pop().unwrap();
    assert(last.0@ == "metadata.mod"@ && last.1@ == "INHABITING"@);
    pairs.push(last);
    assert(pair_texts(pairs@) =~= hauntings_params());
    pairs
}

/// The parameters of the query for a player's earliest record.
pub open spec fn oldest_version_params(player: Seq<char>) -> Seq<(Seq<char>, Seq<char>)> {
    seq![("order"@, "asc"@), ("player"@, player), ("limit"@, natural_text(1))]
}

/// Builds the query for a player's earliest record: the player's records, oldest
/// first, cut after one.
pub fn oldest_version_query(player: &str) -> (pairs: Vec<(String, String)>)
    ensures
        pair_texts(pairs@) == oldest_version_params(player@),
{
    let mut pairs: Vec<(String, String)> = Vec::new();
    pairs.push((String::from_str("order"), String::from_str("asc")));
    pairs.push((String::from_str("player"), String::from_str(player)));
    pairs.push((String::from_str("limit"), natural(1)));
    assert(pair_texts(pairs@) =~= oldest_version_params(player@));
    pairs
}

/// The earliest record among those that a lookup gave back, oldest first.
pub fn oldest_version(records: &Vec<Player>) -> (oldest: Option<Player>)
    ensures
        oldest == if records@.len() > 0 {
            Some(records@[0])
        } else {
            None
        },
{
    if records.len() > 0 {
        Some(records[0])
    } else {
        None
    }
}

/// The category of a ghost whose player's earliest record is `oldest`: a player who
/// was first seen after `cutoff` and is deceased in that record is of the ultra
/// league; any other player with a record is of the internet league; without a
/// record the category is unknown.
pub open spec fn category_of(oldest: Option<Player>, cutoff: Timestamp) -> GhostCategory {
    match oldest {
        Some(player) => if player.data.deceased && player.first_seen.is_after(cutoff) {
            GhostCategory::UltraLeague
        } else {
            GhostCategory::InternetLeague
        },
        None => GhostCategory::Unknown,
    }
}

/// Classifies a ghost by its player's earliest record and a cutoff.
pub fn classify(oldest: &Option<Player>, cutoff: &Timestamp) -> (category: GhostCategory)
    ensures
        category == category_of(*oldest, *cutoff),
{
    match oldest {
        Some(player) => {
            if player.data.deceased && player.first_seen.after(cutoff) {
                GhostCategory::UltraLeague
            } else {
                GhostCategory::InternetLeague
            }
        },
        None => GhostCategory::Unknown,
    }
}

/// The year in which the expansion era began.
pub const EXPANSION_YEAR: i32 = 2021;

/// The month in which the expansion era began.
pub const EXPANSION_MONTH: u32 = 3;

/// The day of the month on which the expansion era began.
pub const EXPANSION_DAY: u32 = 1;

/// The first instant of the expansion era, as the calendar counts it.
pub open spec fn expansion_era() -> Timestamp {
    Timestamp {
        secs: utc_seconds(EXPANSION_YEAR, EXPANSION_MONTH, EXPANSION_DAY, 0, 0, 0).unwrap(),
        nanos: 0,
    }
}

/// Classifies a ghost by its player's earliest record, with the start of the
/// expansion era as the cutoff.
pub fn categorize(oldest: &Option<Player>) -> (category: GhostCategory)
    ensures
        category == category_of(*oldest, expansion_era()),
{
    assert(is_civil(EXPANSION_YEAR, EXPANSION_MONTH, EXPANSION_DAY, 0, 0, 0));
    let cutoff = start_of_day(EXPANSION_YEAR, EXPANSION_MONTH, EXPANSION_DAY).unwrap();
    classify(oldest, &cutoff)
}

} // verus!
