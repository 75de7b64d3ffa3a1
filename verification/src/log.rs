//! A deck's review log, and undoing the last review.

use vstd::prelude::*;
use crate::paths::{path_join, spec_joined, spec_verbatim_like, spec_plain_file_name};
use crate::progress::{
    find_progress, spec_has_progress_id, spec_progress_position, Progress, ProgressCard,
};
use crate::schedule::ReviewLog;

verus! {

/// One review: the card as it was before, and the scheduler's record.
pub struct LogEntry {
    pub last_card: ProgressCard,
    pub log: ReviewLog,
}

impl Clone for LogEntry {
    fn clone(&self) -> (r: Self)
        ensures
            r == *self,
    {
        LogEntry { last_card: self.last_card.clone(), log: self.log }
    }
}

/// A deck's log file: its location, the deck's id, and the reviews in order.
pub struct Log {
    pub path: String,
    pub deck_id: String,
    pub entries: Vec<LogEntry>,
}

/// The progress cards after undoing `entry`: the first card with the entry's
/// id is put back as it was before that review.
pub open spec fn spec_undone_cards(cards: Seq<ProgressCard>, entry: LogEntry) -> Seq<ProgressCard> {
    cards.update(spec_progress_position(cards, entry.last_card.id@), entry.last_card)
}

impl Log {
    /// An empty log for the deck `deck_id` kept in the directory `deck_path`;
    /// it is stored in the file `.log.json` there.
    pub fn new(deck_id: String, deck_path: &str) -> (l: Log)
        ensures
            l.deck_id == deck_id,
            !spec_verbatim_like(deck_path@) ==> spec_joined(l.path@, deck_path@, ".log.json"@),
            l.entries@.len() == 0,
    {
        proof {
            reveal_strlit(".log.json");
            let name = ".log.json"@;
            assert(name.len() == 9);
            assert(name != seq!['.'] && name != seq!['.', '.']);
            assert(spec_plain_file_name(name));
        }
        let path = path_join(deck_path, ".log.json");
        Log { path, deck_id, entries: Vec::new() }
    }

    /// Undoes the last review: removes the last entry and puts the first
    /// progress card with its id back as it was before that review.
    pub fn undo(&mut self, progress: &mut Progress)
        requires
            old(self).entries@.len() > 0,
            spec_has_progress_id(
                old(progress).cards@,
                old(self).entries@.last().last_card.id@,
            ),
        ensures
            final(self).path == old(self).path,
            final(self).deck_id == old(self).deck_id,
            final(self).entries@ == old(self).entries@.drop_last(),
            final(progress).path == old(progress).path,
            final(progress).deck_id == old(progress).deck_id,
            final(progress).cards@ == spec_undone_cards(
                old(progress).cards@,
                old(self).entries@.last(),
            ),
    {
        let last = self.entries.pop().unwrap();
        let pos = find_progress(&progress.cards, &last.last_card.id).unwrap();
        progress.cards.set(pos, last.last_card);
    }
}

impl Default for Log {
    /// An empty log with no location and no deck.
    fn default() -> (l: Log)
        ensures
            l.path@.len() == 0,
            l.deck_id@.len() == 0,
            l.entries@.len() == 0,
    {
        Log { path: String::new(), deck_id: String::new(), entries: Vec::new() }
    }
}

} // verus!
