//! The parsed-snapshot store and the save-file plumbing types.
//!
//! One store value holds the latest parsed snapshot text; the surrounding
//! process guards it with its own lock and hands it in here by reference.

use vstd::prelude::*;

verus! {


/// The decoded content of one save archive: its name, the game it belongs
/// to, and the two decoded documents.
pub struct GameContent {
    pub filename: String,
    pub game_id: String,
    pub meta: Box<String>,
    pub gamestate: Box<String>,
}

/// Holds the latest parsed snapshot text.
pub struct GamestateData {
    pub parsed: Box<String>,
}

impl GamestateData {
    /// An empty store.
    pub fn new() -> (r: GamestateData)
        ensures
            r.parsed@ == Seq::<char>::empty(),
    {
        GamestateData { parsed: Box::new(String::new()) }
    }
}

/// Reads the stored snapshot text.
pub fn get_game_data(data: &GamestateData) -> (r: Box<String>)
    ensures
        r@ == data.parsed@,
{
    data.parsed.clone()
}

/// Replaces the stored snapshot text.
pub fn set_game_data(data: &mut GamestateData, content: String)
    ensures
        final (data).parsed@ == content@,
{
    data.parsed = Box::new(content);
}

/// Whether a path names a save archive: it ends in `.sav` with a non-empty
/// stem. The watcher reacts only to such paths.
pub open spec fn spec_is_save_path(p: Seq<char>) -> bool {
    p.len() > 4 && p.subrange(p.len() - 4, p.len() as int) == ".sav"@
}

/// Decides whether a newly created path is a save archive worth parsing.
pub fn is_save_path(path: &str) -> (r: bool)
    ensures
        r == spec_is_save_path(path@),
{
    let chars = crate::text::str_to_chars(path);
    if chars.len() <= 4 {
        return false;
    }
    let tail = crate::text::subvec(&chars, chars.len() - 4, chars.len());
    let suffix = crate::text::str_to_chars(".sav");
    crate::text::chars_eq(&tail, &suffix)
}

} // verus!
