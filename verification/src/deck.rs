//! Decks of flashcards.

use vstd::prelude::*;
use crate::config::DeckEntry;
use crate::log::Log;
use crate::paths::{spec_joined, spec_verbatim_like};
use crate::progress::Progress;

verus! {

/// A flashcard: an id unique in its deck, a question and an answer.
pub struct Card {
    pub id: String,
    pub front: String,
    pub back: String,
}

impl Clone for Card {
    fn clone(&self) -> (r: Self)
        ensures
            r == *self,
    {
        Card { id: self.id.clone(), front: self.front.clone(), back: self.back.clone() }
    }
}

/// `c` is a lowercase hexadecimal digit.
pub open spec fn spec_lower_hex(c: char) -> bool {
    ('0' <= c && c <= '9') || ('a' <= c && c <= 'f')
}

/// `s` is a version-4 UUID in lowercase hyphenated form: 36 characters, hyphens
/// at positions 8, 13, 18 and 23, lowercase hex digits elsewhere, the version
/// digit `4` at position 14 and the variant digit (`8`, `9`, `a` or `b`) at
/// position 19.
pub open spec fn spec_uuid_v4_text(s: Seq<char>) -> bool {
    &&& s.len() == 36
    &&& forall|i: int|
        0 <= i < 36 ==> if i == 8 || i == 13 || i == 18 || i == 23 {
            s[i] == '-'
        } else {
            spec_lower_hex(#[trigger] s[i])
        }
    &&& s[14] == '4'
    &&& (s[19] == '8' || s[19] == '9' || s[19] == 'a' || s[19] == 'b')
}

/// A random version-4 UUID from `uuid::Uuid::new_v4`, written out by its
/// `Display` impl. `new_v4` masks the random bits so that the version nibble is
/// 4 and the variant bits are `10`; `Display` writes the lowercase hyphenated
/// form of 36 characters. The random digits are left to chance; the contract
/// states that form.
#[verifier::external_body]
fn random_card_id() -> (s: String)
    ensures
        spec_uuid_v4_text(s@),
{
    uuid::Uuid::new_v4().to_string()
}

/// The card a card editor submits: it keeps the id of the card being edited,
/// and a new card gets a random UUID as its id.
pub fn card_for(card_id: Option<String>, front: String, back: String) -> (c: Card)
    ensures
        card_id matches Some(id) ==> c.id == id,
        card_id is None ==> spec_uuid_v4_text(c.id@),
        c.front == front,
        c.back == back,
{
    let id = match card_id {
        Some(id) => id,
        None => random_card_id(),
    };
    Card { id, front, back }
}

/// Some card in `cards` has the id `id`.
pub open spec fn spec_has_card_id(cards: Seq<Card>, id: Seq<char>) -> bool {
    exists|i: int| 0 <= i < cards.len() && #[trigger] cards[i].id@ == id
}

/// `i` is the first position in `cards` whose card has the id `id`.
pub open spec fn spec_first_card_at(cards: Seq<Card>, id: Seq<char>, i: int) -> bool {
    &&& 0 <= i < cards.len()
    &&& cards[i].id@ == id
    &&& forall|j: int| 0 <= j < i ==> #[trigger] cards[j].id@ != id
}

/// The first position in `cards` whose card has the id `id` (meaningful where
/// `spec_has_card_id(cards, id)` holds).
pub open spec fn spec_card_position(cards: Seq<Card>, id: Seq<char>) -> int {
    choose|i: int| spec_first_card_at(cards, id, i)
}

/// Where some card has the id, the first such position is where
/// `spec_card_position` points.
pub proof fn lemma_card_position(cards: Seq<Card>, id: Seq<char>)
    requires
        spec_has_card_id(cards, id),
    ensures
        spec_first_card_at(cards, id, spec_card_position(cards, id)),
    decreases cards.len(),
{
    if cards[0].id@ == id {
        assert(spec_first_card_at(cards, id, 0));
    } else {
        let rest = cards.drop_first();
        let k = choose|i: int| 0 <= i < cards.len() && #[trigger] cards[i].id@ == id;
        assert(rest[k - 1].id@ == id);
        lemma_card_position(rest, id);
        let p = spec_card_position(rest, id);
        assert forall|j: int| 0 <= j < p + 1 implies #[trigger] cards[j].id@ != id by {
            if j > 0 {
                assert(cards[j] == rest[j - 1]);
            }
        }
        assert(spec_first_card_at(cards, id, p + 1));
    }
}

/// The first position in `cards` holding a card with the id `id`, if any.
pub fn find_card_position(cards: &Vec<Card>, id: &String) -> (r: Option<usize>)
    ensures
        r is None <==> !spec_has_card_id(cards@, id@),
        r matches Some(i) ==> i == spec_card_position(cards@, id@)
            && spec_first_card_at(cards@, id@, i as int),
{
    let n = cards.len();
    let mut i: usize = 0;
    while i < n
        invariant
            n == cards@.len(),
            0 <= i <= n,
            forall|j: int| 0 <= j < i ==> #[trigger] cards@[j].id@ != id@,
        decreases n - i,
    {
        if cards[i].id == *id {
            proof {
                assert(spec_first_card_at(cards@, id@, i as int));
                lemma_card_position(cards@, id@);
            }
            return Some(i);
        }
        i = i + 1;
    }
    None
}

/// The cards of `cards` whose id is not `id`, in order.
pub open spec fn spec_without_card(cards: Seq<Card>, id: Seq<char>) -> Seq<Card> {
    cards.filter(|c: Card| c.id@ != id)
}

/// `cards` with every card whose id is `card.id` replaced by `card`.
pub open spec fn spec_replace_card(cards: Seq<Card>, card: Card) -> Seq<Card> {
    cards.map_values(|c: Card| if c.id@ == card.id@ { card } else { c })
}

/// After removing the cards with an id, no card has that id.
pub proof fn lemma_removed_card_absent(cards: Seq<Card>, id: Seq<char>)
    ensures
        !spec_has_card_id(spec_without_card(cards, id), id),
{
    broadcast use vstd::seq_lib::group_filter_ensures;

    let out = spec_without_card(cards, id);
    assert forall|i: int| 0 <= i < out.len() implies #[trigger] out[i].id@ != id by {
        assert((|c: Card| c.id@ != id)(out[i]));
    }
}

/// Removing the cards with an id keeps every card with another id.
pub proof fn lemma_removed_card_keeps_others(cards: Seq<Card>, id: Seq<char>, i: int)
    requires
        0 <= i < cards.len(),
        cards[i].id@ != id,
    ensures
        spec_without_card(cards, id).contains(cards[i]),
{
    broadcast use vstd::seq_lib::group_filter_ensures;

    assert((|c: Card| c.id@ != id)(cards[i]));
}

/// Removing the cards with an id from no cards gives no cards; removing them
/// from a list with one more card at the end gives the same result as before,
/// followed by that card where its id differs. Together these fix the result:
/// the cards with other ids, in their order.
pub proof fn lemma_removed_card_step(cards: Seq<Card>, card: Card, id: Seq<char>)
    ensures
        spec_without_card(Seq::<Card>::empty(), id) == Seq::<Card>::empty(),
        card.id@ != id ==> spec_without_card(cards.push(card), id)
            == spec_without_card(cards, id).push(card),
        card.id@ == id ==> spec_without_card(cards.push(card), id) == spec_without_card(cards, id),
{
    reveal(Seq::filter);
    assert(cards.push(card).drop_last() == cards);
    assert(cards.push(card).last() == card);
}

/// Removing an id that no card has leaves the cards as they were.
pub proof fn lemma_removed_absent_card_unchanged(cards: Seq<Card>, id: Seq<char>)
    requires
        !spec_has_card_id(cards, id),
    ensures
        spec_without_card(cards, id) == cards,
    decreases cards.len(),
{
    reveal(Seq::filter);
    if cards.len() > 0 {
        let rest = cards.drop_last();
        assert forall|i: int| 0 <= i < rest.len() implies #[trigger] rest[i].id@ != id by {
            assert(rest[i] == cards[i]);
        }
        lemma_removed_absent_card_unchanged(rest, id);
        assert(cards.last().id@ != id);
        assert(rest.push(cards.last()) =~= cards);
    }
}

/// A card added under an id no other card has is the one found by that id.
pub proof fn lemma_added_card_found(cards: Seq<Card>, card: Card)
    requires
        !spec_has_card_id(cards, card.id@),
    ensures
        spec_has_card_id(cards.push(card), card.id@),
        cards.push(card)[spec_card_position(cards.push(card), card.id@)] == card,
{
    let after = cards.push(card);
    assert(after[cards.len() as int] == card);
    lemma_card_position(after, card.id@);
    let p = spec_card_position(after, card.id@);
    if p < cards.len() {
        assert(after[p] == cards[p]);
    }
}

/// After saving an edited card, the card found by its id is the saved one.
pub proof fn lemma_edited_card_found(cards: Seq<Card>, card: Card)
    requires
        spec_has_card_id(cards, card.id@),
    ensures
        spec_has_card_id(spec_replace_card(cards, card), card.id@),
        spec_replace_card(cards, card)[spec_card_position(spec_replace_card(cards, card), card.id@)]
            == card,
{
    let after = spec_replace_card(cards, card);
    let w = choose|i: int| 0 <= i < cards.len() && #[trigger] cards[i].id@ == card.id@;
    assert(after[w].id@ == card.id@);
    lemma_card_position(after, card.id@);
    let p = spec_card_position(after, card.id@);
    assert(after[p].id@ == card.id@);
    if cards[p].id@ != card.id@ {
        assert(after[p] == cards[p]);
    }
}

/// A deck: its id, description and cards (the parts stored in `deck.json`),
/// the directory it lives in, and its progress and log.
pub struct Deck {
    pub id: String,
    pub description: String,
    pub cards: Vec<Card>,
    pub path: String,
    pub progress: Progress,
    pub log: Log,
}

impl Deck {
    /// A new deck without cards, living in the directory `path`, with empty
    /// progress and log kept in that directory.
    pub fn new(id: String, path: String, description: String) -> (d: Deck)
        ensures
            d.id == id,
            d.path == path,
            d.description == description,
            d.cards@.len() == 0,
            d.progress.deck_id == id,
            !spec_verbatim_like(path@) ==> spec_joined(d.progress.path@, path@, ".progress.json"@),
            d.progress.cards@.len() == 0,
            d.log.deck_id == id,
            !spec_verbatim_like(path@) ==> spec_joined(d.log.path@, path@, ".log.json"@),
            d.log.entries@.len() == 0,
    {
        let progress = Progress::new(id.clone(), path.as_str());
        let log = Log::new(id.clone(), path.as_str());
        Deck { path, id, description, cards: Vec::new(), progress, log }
    }

    /// The entry that records this deck in the configuration.
    pub fn to_entry(&self) -> (e: DeckEntry)
        ensures
            e.id == self.id,
            e.path == self.path,
    {
        DeckEntry::new(self.id.clone(), self.path.clone())
    }

    /// Whether some card of the deck has the id `id`.
    pub fn has_card(&self, id: &String) -> (b: bool)
        ensures
            b == spec_has_card_id(self.cards@, id@),
    {
        find_card_position(&self.cards, id).is_some()
    }

    /// The first card with the id `id`, if any.
    pub fn find_card(&self, id: &String) -> (r: Option<Card>)
        ensures
            r is None <==> !spec_has_card_id(self.cards@, id@),
            r matches Some(c) ==> c == self.cards@[spec_card_position(self.cards@, id@)],
    {
        match find_card_position(&self.cards, id) {
            Some(i) => Some(self.cards[i].clone()),
            None => None,
        }
    }

    /// Appends `card` to the deck.
    pub fn add_card(&mut self, card: Card)
        ensures
            final(self).cards@ == old(self).cards@.push(card),
            final(self).id == old(self).id,
            final(self).description == old(self).description,
            final(self).path == old(self).path,
            final(self).progress == old(self).progress,
            final(self).log == old(self).log,
    {
        self.cards.push(card);
    }

    /// Appends the cards `cards`, in order.
    pub fn import_cards(&mut self, cards: Vec<Card>)
        ensures
            final(self).cards@ == old(self).cards@ + cards@,
            final(self).id == old(self).id,
            final(self).description == old(self).description,
            final(self).path == old(self).path,
            final(self).progress == old(self).progress,
            final(self).log == old(self).log,
    {
        let mut more = cards;
        self.cards.append(&mut more);
    }

    /// Removes every card with the id `id`, keeping the others in order.
    pub fn remove_card(&mut self, id: &String)
        ensures
            final(self).cards@ == spec_without_card(old(self).cards@, id@),
            final(self).id == old(self).id,
            final(self).description == old(self).description,
            final(self).path == old(self).path,
            final(self).progress == old(self).progress,
            final(self).log == old(self).log,
    {
        let ghost before = self.cards@;
        let mut kept: Vec<Card> = Vec::new();
        let n = self.cards.len();
        let mut i: usize = 0;
        while i < n
            invariant
                n == before.len(),
                self.cards@ == before,
                0 <= i <= n,
                kept@ == spec_without_card(before.take(i as int), id@),
            decreases n - i,
        {
            proof {
                reveal(Seq::filter);
                assert(before.take(i + 1).drop_last() == before.take(i as int));
            }
            if self.cards[i].id != *id {
                kept.push(self.cards[i].clone());
            }
            i = i + 1;
        }
        assert(before.take(n as int) == before);
        self.cards = kept;
    }

    /// Stores `card`: where `is_edit`, every card with its id is replaced by
    /// it; otherwise it is appended.
    pub fn save_card(&mut self, card: Card, is_edit: bool)
        ensures
            is_edit ==> final(self).cards@ == spec_replace_card(old(self).cards@, card),
            !is_edit ==> final(self).cards@ == old(self).cards@.push(card),
            final(self).id == old(self).id,
            final(self).description == old(self).description,
            final(self).path == old(self).path,
            final(self).progress == old(self).progress,
            final(self).log == old(self).log,
    {
        if is_edit {
            let ghost before = self.cards@;
            let mut out: Vec<Card> = Vec::new();
            let n = self.cards.len();
            let mut i: usize = 0;
            while i < n
                invariant
                    n == before.len(),
                    self.cards@ == before,
                    0 <= i <= n,
                    out@ == spec_replace_card(before.take(i as int), card),
                decreases n - i,
            {
                if self.cards[i].id == card.id {
                    out.push(card.clone());
                } else {
                    out.push(self.cards[i].clone());
                }
                assert(spec_replace_card(before.take(i + 1), card)
                    =~= spec_replace_card(before.take(i as int), card).push(out@.last()));
                i = i + 1;
            }
            assert(before.take(n as int) == before);
            self.cards = out;
        } else {
            self.cards.push(card);
        }
    }

    /// Gives the deck a new id and description.
    pub fn set_details(&mut self, id: String, description: String)
        ensures
            final(self).id == id,
            final(self).description == description,
            final(self).cards == old(self).cards,
            final(self).path == old(self).path,
            final(self).progress == old(self).progress,
            final(self).log == old(self).log,
    {
        self.id = id;
        self.description = description;
    }
}

impl Default for Deck {
    /// A deck with every text empty and no cards; its empty progress and log
    /// are located in the empty directory, that is at `.progress.json` and
    /// `.log.json`.
    fn default() -> (d: Deck)
        ensures
            d.id@.len() == 0,
            d.description@.len() == 0,
            d.path@.len() == 0,
            d.cards@.len() == 0,
            d.progress.path@ == ".progress.json"@,
            d.progress.deck_id@.len() == 0,
            d.progress.cards@.len() == 0,
            d.log.path@ == ".log.json"@,
            d.log.deck_id@.len() == 0,
            d.log.entries@.len() == 0,
    {
        proof {
            reveal_strlit("");
        }
        Deck {
            path: String::new(),
            id: String::new(),
            description: String::new(),
            cards: Vec::new(),
            progress: Progress::new(String::new(), ""),
            log: Log::new(String::new(), ""),
        }
    }
}

} // verus!
