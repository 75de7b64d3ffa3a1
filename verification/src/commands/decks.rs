//! The `deck` command and its subcommands, which manage the cards of a deck.

use vstd::prelude::*;

verus! {

/// Arguments of `deck`: the deck and what to do with it.
pub struct DeckArgs {
    pub deck_id: String,
    pub cmd: DeckCommands,
}

/// The subcommands of `deck`.
pub enum DeckCommands {
    /// Add a card to the deck.
    Add(AddArgs),
    /// Import cards from a CSV file.
    Import(ImportArgs),
    /// Remove a card from the deck.
    Remove(RemoveArgs),
    /// Undo the last review.
    Undo,
}

/// Arguments of `deck add`: the card's id, front and back; each one missing
/// is asked for.
pub struct AddArgs {
    pub id: Option<String>,
    pub front: Option<String>,
    pub back: Option<String>,
}

/// Arguments of `deck import`: the CSV file to read cards from.
pub struct ImportArgs {
    pub file: String,
}

/// Arguments of `deck remove`: the id of the card to remove.
pub struct RemoveArgs {
    pub id: Option<String>,
}

} // verus!
