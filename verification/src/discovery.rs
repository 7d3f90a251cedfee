//! Catalog discovery: selecting, out of the global configuration's list
//! of games, the configuration location of the one game this tool
//! manages. A missing game is an explicit error, not an assumption.

use vstd::prelude::*;
use vstd::string::StringExecFns;

verus! {

/// One game in the global configuration: its identifier and the location
/// of its own configuration document.
pub struct GameEntry {
    pub game_id: String,
    pub game_config: String,
}

pub ghost struct GameEntryView {
    pub game_id: Seq<char>,
    pub game_config: Seq<char>,
}

impl View for GameEntry {
    type V = GameEntryView;

    open spec fn view(&self) -> GameEntryView {
        GameEntryView { game_id: self.game_id@, game_config: self.game_config@ }
    }
}

impl DeepView for GameEntry {
    type V = GameEntryView;

    open spec fn deep_view(&self) -> GameEntryView {
        self.view()
    }
}

/// The error catalog discovery raises: the global configuration lists no
/// game under the wanted identifier.
#[derive(Debug, PartialEq, Eq, Structural, Clone, Copy)]
pub enum DiscoveryError {
    GameMissing,
}

/// Index of the first game with the wanted identifier.
pub open spec fn find_game(games: Seq<GameEntryView>, id: Seq<char>, i: int) -> Option<int>
    decreases games.len() - i when 0 <= i
{
    if i >= games.len() {
        None
    } else if games[i].game_id == id {
        Some(i)
    } else {
        find_game(games, id, i + 1)
    }
}

/// The configuration location of the first game carrying the wanted
/// identifier, or an error when none does.
pub fn find_game_config(games: &Vec<GameEntry>, id: &str) -> (r: Result<String, DiscoveryError>)
    ensures
        match find_game(games.deep_view(), id@, 0) {
            Some(i) => r matches Ok(u) && u@ == games.deep_view()[i].game_config,
            None => r == Err::<String, DiscoveryError>(DiscoveryError::GameMissing),
        },
{
    let wanted = String::from_str(id);
    let mut i: usize = 0;
    while i < games.len()
        invariant
            i <= games.len(),
            wanted@ == id@,
            find_game(games.deep_view(), id@, 0) == find_game(games.deep_view(), id@, i as int),
        decreases games.len() - i,
    {
        if games[i].game_id == wanted {
            return Ok(games[i].game_config.clone());
        }
        i = i + 1;
    }
    Err(DiscoveryError::GameMissing)
}

} // verus!
