//! A deck's study progress: the scheduler's memory of each card.

use vstd::prelude::*;
use crate::paths::{path_join, spec_joined, spec_verbatim_like, spec_plain_file_name};
use crate::schedule::FsrsCard;

verus! {

/// The scheduler's memory of the card with the id `id`.
pub struct ProgressCard {
    pub id: String,
    pub fsrs: FsrsCard,
}

impl Clone for ProgressCard {
    fn clone(&self) -> (r: Self)
        ensures
            r == *self,
    {
        ProgressCard { id: self.id.clone(), fsrs: self.fsrs }
    }
}

/// Some card in `cards` has the id `id`.
pub open spec fn spec_has_progress_id(cards: Seq<ProgressCard>, id: Seq<char>) -> bool {
    exists|i: int| 0 <= i < cards.len() && #[trigger] cards[i].id@ == id
}

/// `i` is the first position in `cards` whose card has the id `id`.
pub open spec fn spec_first_progress_at(cards: Seq<ProgressCard>, id: Seq<char>, i: int) -> bool {
    &&& 0 <= i < cards.len()
    &&& cards[i].id@ == id
    &&& forall|j: int| 0 <= j < i ==> #[trigger] cards[j].id@ != id
}

/// The first position in `cards` whose card has the id `id` (meaningful where
/// `spec_has_progress_id(cards, id)` holds).
pub open spec fn spec_progress_position(cards: Seq<ProgressCard>, id: Seq<char>) -> int {
    choose|i: int| spec_first_progress_at(cards, id, i)
}

/// Where some card has the id, the first such position is where
/// `spec_progress_position` points.
pub proof fn lemma_progress_position(cards: Seq<ProgressCard>, id: Seq<char>)
    requires
        spec_has_progress_id(cards, id),
    ensures
        spec_first_progress_at(cards, id, spec_progress_position(cards, id)),
    decreases cards.len(),
{
    if cards[0].id@ == id {
        assert(spec_first_progress_at(cards, id, 0));
    } else {
        let rest = cards.drop_first();
        let k = choose|i: int| 0 <= i < cards.len() && #[trigger] cards[i].id@ == id;
        assert(rest[k - 1].id@ == id);
        lemma_progress_position(rest, id);
        let p = spec_progress_position(rest, id);
        assert forall|j: int| 0 <= j < p + 1 implies #[trigger] cards[j].id@ != id by {
            if j > 0 {
                assert(cards[j] == rest[j - 1]);
            }
        }
        assert(spec_first_progress_at(cards, id, p + 1));
    }
}

/// The first position in `cards` holding a card with the id `id`, if any.
pub fn find_progress(cards: &Vec<ProgressCard>, id: &String) -> (r: Option<usize>)
    ensures
        r is None <==> !spec_has_progress_id(cards@, id@),
        r matches Some(i) ==> i == spec_progress_position(cards@, id@)
            && spec_first_progress_at(cards@, id@, i as int),
{
    let n = cards.len();
    let mut i: usize = 0;
    while i < n
        invariant
            n == cards@.len(),
            0 <= i <= n,
            forall|j: int| 0 <= j < i ==> #[trigger] cards@[j].id@ != id@,
        decreases n - i,
    {
        if cards[i].id == *id {
            proof {
                assert(spec_first_progress_at(cards@, id@, i as int));
                lemma_progress_position(cards@, id@);
            }
            return Some(i);
        }
        i = i + 1;
    }
    None
}

/// A deck's progress file: its location, the deck's id, and one entry per card.
pub struct Progress {
    pub path: String,
    pub deck_id: String,
    pub cards: Vec<ProgressCard>,
}

impl Progress {
    /// Empty progress for the deck `deck_id` kept in the directory `deck_path`;
    /// it is stored in the file `.progress.json` there.
    pub fn new(deck_id: String, deck_path: &str) -> (p: Progress)
        ensures
            p.deck_id == deck_id,
            !spec_verbatim_like(deck_path@) ==> spec_joined(p.path@, deck_path@, ".progress.json"@),
            p.cards@.len() == 0,
    {
        proof {
            reveal_strlit(".progress.json");
            let name = ".progress.json"@;
            assert(name.len() == 14);
            assert(name != seq!['.'] && name != seq!['.', '.']);
            assert(spec_plain_file_name(name));
        }
        let path = path_join(deck_path, ".progress.json");
        Progress { path, deck_id, cards: Vec::new() }
    }

}

impl Default for Progress {
    /// Empty progress with no location and no deck.
    fn default() -> (p: Progress)
        ensures
            p.path@.len() == 0,
            p.deck_id@.len() == 0,
            p.cards@.len() == 0,
    {
        Progress { path: String::new(), deck_id: String::new(), cards: Vec::new() }
    }
}

} // verus!
