use crate::text::{copy_texts, has_text, texts};
use vstd::prelude::*;

verus! {

/// What the roster says of a player.
#[derive(Debug)]
pub struct PlayerData {
    pub id: String,
    pub name: String,
    pub perm_attrs: Vec<String>,
}

/// One entry of the roster.
#[derive(Debug)]
pub struct Player {
    pub data: PlayerData,
}

/// A roster entry's data as a mathematical value.
pub ghost struct PlayerDataView {
    pub id: Seq<char>,
    pub name: Seq<char>,
    pub perm_attrs: Seq<Seq<char>>,
}

impl PlayerDataView {
    /// Whether the player carries the permanent attribute `REDACTED`.
    pub open spec fn is_redacted(self) -> bool {
        self.perm_attrs.contains("REDACTED"@)
    }
}

impl View for PlayerData {
    type V = PlayerDataView;

    open spec fn view(&self) -> PlayerDataView {
        PlayerDataView { id: self.id@, name: self.name@, perm_attrs: texts(self.perm_attrs@) }
    }
}

/// The data of each roster entry, in order.
pub open spec fn roster_data(players: Seq<Player>) -> Seq<PlayerDataView> {
    players.map_values(|p: Player| p.data@)
}

/// The views of a sequence of player data, in order.
pub open spec fn data_views(v: Seq<PlayerData>) -> Seq<PlayerDataView> {
    v.map_values(|d: PlayerData| d@)
}

/// The data among `s` that carry the permanent attribute `REDACTED`, in order.
pub open spec fn redacted_only(s: Seq<PlayerDataView>) -> Seq<PlayerDataView> {
    s.filter(|d: PlayerDataView| d.is_redacted())
}

/// One more entry adds itself to the redacted ones if it is redacted, and nothing otherwise.
pub proof fn lemma_redacted_only_push(s: Seq<PlayerDataView>, d: PlayerDataView)
    ensures
        redacted_only(s.push(d)) == if d.is_redacted() {
            redacted_only(s).push(d)
        } else {
            redacted_only(s)
        },
{
    s.lemma_filter_push(d, |d: PlayerDataView| d.is_redacted());
}

/// The players of the roster that carry the permanent attribute `REDACTED`, in the
/// roster's order.
pub fn redacted(players: &Vec<Player>) -> (found: Vec<PlayerData>)
    ensures
        data_views(found@) == redacted_only(roster_data(players@)),
{
    let mut found: Vec<PlayerData> = Vec::new();
    let mut i: usize = 0;
    assert(data_views(found@) =~= redacted_only(roster_data(players@.take(0))));
    while i < players.len()
        invariant
            i <= players.len(),
            data_views(found@) == redacted_only(roster_data(players@.take(i as int))),
        decreases players.len() - i,
    {
        let player = &players[i];
        proof {
            let before = roster_data(players@.take(i as int));
            assert(roster_data(players@.take(i + 1)) =~= before.push(player.data@));
            lemma_redacted_only_push(before, player.data@);
        }
        if has_text(&player.data.perm_attrs, "REDACTED") {
            let data = PlayerData {
                id: player.data.id.clone(),
                name: player.data.name.clone(),
                perm_attrs: copy_texts(&player.data.perm_attrs),
            };
            assert(data@ == player.data@);
            assert(data_views(found@.push(data)) =~= data_views(found@).push(data@));
            found.push(data);
        }
        i = i + 1;
    }
    assert(players@.take(i as int) =~= players@);
    found
}

} // verus!
