//! The configuration: the list of known decks.

use vstd::prelude::*;

verus! {

/// A known deck: its id and the directory it lives in.
pub struct DeckEntry {
    pub id: String,
    pub path: String,
}

impl Clone for DeckEntry {
    fn clone(&self) -> (r: Self)
        ensures
            r == *self,
    {
        DeckEntry { id: self.id.clone(), path: self.path.clone() }
    }
}

impl DeckEntry {
    /// The entry for the deck `id` in the directory `path`.
    pub fn new(id: String, path: String) -> (e: DeckEntry)
        ensures
            e.id == id,
            e.path == path,
    {
        DeckEntry { id, path }
    }

    /// The text that names the entry: its id.
    pub fn to_string(&self) -> (s: String)
        ensures
            s == self.id,
    {
        self.id.clone()
    }
}

/// Some entry in `decks` has the id `id`.
pub open spec fn spec_has_deck_id(decks: Seq<DeckEntry>, id: Seq<char>) -> bool {
    exists|i: int| 0 <= i < decks.len() && #[trigger] decks[i].id@ == id
}

/// `i` is the first position in `decks` whose entry has the id `id`.
pub open spec fn spec_first_deck_at(decks: Seq<DeckEntry>, id: Seq<char>, i: int) -> bool {
    &&& 0 <= i < decks.len()
    &&& decks[i].id@ == id
    &&& forall|j: int| 0 <= j < i ==> #[trigger] decks[j].id@ != id
}

/// The entries of `decks` whose id is not `id`, in order.
pub open spec fn spec_without_deck(decks: Seq<DeckEntry>, id: Seq<char>) -> Seq<DeckEntry> {
    decks.filter(|e: DeckEntry| e.id@ != id)
}

/// The ids of `decks`, in order.
pub open spec fn spec_deck_ids(decks: Seq<DeckEntry>) -> Seq<Seq<char>> {
    decks.map_values(|e: DeckEntry| e.id@)
}

/// After forgetting the decks with an id, no known deck has that id.
pub proof fn lemma_removed_deck_absent(decks: Seq<DeckEntry>, id: Seq<char>)
    ensures
        !spec_has_deck_id(spec_without_deck(decks, id), id),
{
    broadcast use vstd::seq_lib::group_filter_ensures;

    let out = spec_without_deck(decks, id);
    assert forall|i: int| 0 <= i < out.len() implies #[trigger] out[i].id@ != id by {
        assert((|e: DeckEntry| e.id@ != id)(out[i]));
    }
}

/// Forgetting the decks with an id keeps every deck with another id.
pub proof fn lemma_removed_deck_keeps_others(decks: Seq<DeckEntry>, id: Seq<char>, i: int)
    requires
        0 <= i < decks.len(),
        decks[i].id@ != id,
    ensures
        spec_without_deck(decks, id).contains(decks[i]),
{
    broadcast use vstd::seq_lib::group_filter_ensures;

    assert((|e: DeckEntry| e.id@ != id)(decks[i]));
}

/// Forgetting the decks with an id from no decks gives no decks; forgetting
/// them from a list with one more entry at the end gives the same result as
/// before, followed by that entry where its id differs. Together these fix the
/// result: the entries with other ids, in the order they were added.
pub proof fn lemma_removed_deck_step(decks: Seq<DeckEntry>, entry: DeckEntry, id: Seq<char>)
    ensures
        spec_without_deck(Seq::<DeckEntry>::empty(), id) == Seq::<DeckEntry>::empty(),
        entry.id@ != id ==> spec_without_deck(decks.push(entry), id)
            == spec_without_deck(decks, id).push(entry),
        entry.id@ == id ==> spec_without_deck(decks.push(entry), id) == spec_without_deck(decks, id),
{
    reveal(Seq::filter);
    assert(decks.push(entry).drop_last() == decks);
    assert(decks.push(entry).last() == entry);
}

/// Forgetting an id that no deck has leaves the configuration as it was.
pub proof fn lemma_removed_absent_deck_unchanged(decks: Seq<DeckEntry>, id: Seq<char>)
    requires
        !spec_has_deck_id(decks, id),
    ensures
        spec_without_deck(decks, id) == decks,
    decreases decks.len(),
{
    reveal(Seq::filter);
    if decks.len() > 0 {
        let rest = decks.drop_last();
        assert forall|i: int| 0 <= i < rest.len() implies #[trigger] rest[i].id@ != id by {
            assert(rest[i] == decks[i]);
        }
        lemma_removed_absent_deck_unchanged(rest, id);
        assert(decks.last().id@ != id);
        assert(rest.push(decks.last()) =~= decks);
    }
}

/// The listed ids are the entries' ids, position by position.
pub proof fn lemma_deck_ids_by_position(decks: Seq<DeckEntry>)
    ensures
        spec_deck_ids(decks).len() == decks.len(),
        forall|i: int| 0 <= i < decks.len() ==> #[trigger] spec_deck_ids(decks)[i] == decks[i].id@,
{
}

/// A deck that was added is known.
pub proof fn lemma_added_deck_known(decks: Seq<DeckEntry>, entry: DeckEntry)
    ensures
        spec_has_deck_id(decks.push(entry), entry.id@),
{
    assert(decks.push(entry)[decks.len() as int] == entry);
}

/// The configuration: the known decks, in the order they were added.
pub struct Config {
    pub decks: Vec<DeckEntry>,
}

impl Config {
    /// Whether some known deck has the id `id`.
    pub fn contains(&self, id: &String) -> (b: bool)
        ensures
            b == spec_has_deck_id(self.decks@, id@),
    {
        self.find_entry(id).is_some()
    }

    /// The first known deck with the id `id`, if any.
    pub fn find_entry(&self, id: &String) -> (r: Option<DeckEntry>)
        ensures
            r is None <==> !spec_has_deck_id(self.decks@, id@),
            r matches Some(e) ==> exists|i: int|
                spec_first_deck_at(self.decks@, id@, i) && e == self.decks@[i],
    {
        let n = self.decks.len();
        let mut i: usize = 0;
        while i < n
            invariant
                n == self.decks@.len(),
                0 <= i <= n,
                forall|j: int| 0 <= j < i ==> #[trigger] self.decks@[j].id@ != id@,
            decreases n - i,
        {
            if self.decks[i].id == *id {
                assert(spec_first_deck_at(self.decks@, id@, i as int));
                return Some(self.decks[i].clone());
            }
            i = i + 1;
        }
        None
    }

    /// The ids of the known decks, in order.
    pub fn ids(&self) -> (v: Vec<String>)
        ensures
            v@.map_values(|s: String| s@) == spec_deck_ids(self.decks@),
            v@.len() == self.decks@.len(),
            forall|i: int| 0 <= i < self.decks@.len() ==> #[trigger] v@[i]@ == self.decks@[i].id@,
    {
        let mut v: Vec<String> = Vec::new();
        let n = self.decks.len();
        let mut i: usize = 0;
        while i < n
            invariant
                n == self.decks@.len(),
                0 <= i <= n,
                v@.len() == i,
                forall|j: int| 0 <= j < i ==> #[trigger] v@[j]@ == self.decks@[j].id@,
            decreases n - i,
        {
            v.push(self.decks[i].id.clone());
            i = i + 1;
        }
        assert(v@.map_values(|s: String| s@) =~= spec_deck_ids(self.decks@));
        v
    }

    /// Records a deck, after those already known.
    pub fn add_deck(&mut self, entry: DeckEntry)
        ensures
            final(self).decks@ == old(self).decks@.push(entry),
    {
        self.decks.push(entry);
    }

    /// Forgets every deck with the id `id`, keeping the others in order.
    pub fn remove_deck(&mut self, id: &String)
        ensures
            final(self).decks@ == spec_without_deck(old(self).decks@, id@),
    {
        let ghost before = self.decks@;
        let mut kept: Vec<DeckEntry> = Vec::new();
        let n = self.decks.len();
        let mut i: usize = 0;
        while i < n
            invariant
                n == before.len(),
                self.decks@ == before,
                0 <= i <= n,
                kept@ == spec_without_deck(before.take(i as int), id@),
            decreases n - i,
        {
            proof {
                reveal(Seq::filter);
                assert(before.take(i + 1).drop_last() == before.take(i as int));
            }
            if self.decks[i].id != *id {
                kept.push(self.decks[i].clone());
            }
            i = i + 1;
        }
        assert(before.take(n as int) == before);
        self.decks = kept;
    }
}

impl Default for Config {
    /// A configuration that knows no deck.
    fn default() -> (c: Config)
        ensures
            c.decks@.len() == 0,
    {
        Config { decks: Vec::new() }
    }
}

} // verus!
