//! A study session: choosing the cards to study, recording reviews, and the
//! order in which cards are asked.

use vstd::prelude::*;
use rand::seq::SliceRandom;
use crate::deck::{
    find_card_position, lemma_card_position, spec_card_position, spec_has_card_id, Card,
};
use crate::log::{spec_undone_cards, Log, LogEntry};
use crate::progress::{
    find_progress, lemma_progress_position, spec_first_progress_at, spec_has_progress_id,
    spec_progress_position, Progress, ProgressCard,
};
use crate::schedule::{spec_fresh_fsrs_card, CardState, FsrsCard, ReviewLog};
use crate::time::{clock_now, Timestamp};

verus! {

broadcast use vstd::seq_lib::group_filter_ensures;

/// The progress cards that belong to a card of the deck, in order.
pub open spec fn spec_kept_cards(progress: Seq<ProgressCard>, deck: Seq<Card>) -> Seq<ProgressCard> {
    progress.filter(|p: ProgressCard| spec_has_card_id(deck, p.id@))
}

/// The progress cards due strictly before `now`, in order.
pub open spec fn spec_due_cards(cards: Seq<ProgressCard>, now: Timestamp) -> Seq<ProgressCard> {
    cards.filter(|p: ProgressCard| p.fsrs.due.spec_before(now))
}

/// The fresh progress cards for the cards of `deck` that `kept` does not
/// cover, one per id, in the order the deck first names them.
pub open spec fn spec_added_cards(deck: Seq<Card>, kept: Seq<ProgressCard>) -> Seq<ProgressCard>
    decreases deck.len(),
{
    if deck.len() == 0 {
        Seq::empty()
    } else {
        let before = spec_added_cards(deck.drop_last(), kept);
        if spec_has_progress_id(kept + before, deck.last().id@) {
            before
        } else {
            before.push(ProgressCard { id: deck.last().id, fsrs: spec_fresh_fsrs_card() })
        }
    }
}

/// The progress after preparing a session: the cards that still belong to the
/// deck, then a fresh card for each deck card that had none.
pub open spec fn spec_prepared_progress(deck: Seq<Card>, progress: Seq<ProgressCard>) -> Seq<ProgressCard> {
    let kept = spec_kept_cards(progress, deck);
    kept + spec_added_cards(deck, kept)
}

/// The cards to study: those kept that are due before `now`, then the fresh ones.
pub open spec fn spec_study_cards(deck: Seq<Card>, progress: Seq<ProgressCard>, now: Timestamp) -> Seq<ProgressCard> {
    let kept = spec_kept_cards(progress, deck);
    spec_due_cards(kept, now) + spec_added_cards(deck, kept)
}

/// Prepares a study session at the time `now`: drops the progress of cards
/// that left the deck, adds fresh progress for new cards, and returns the new
/// progress together with the cards to study.
pub fn prepare_study(deck: &Vec<Card>, progress: &Vec<ProgressCard>, now: &Timestamp) -> (r: (
    Vec<ProgressCard>,
    Vec<ProgressCard>,
))
    ensures
        r.0@ == spec_prepared_progress(deck@, progress@),
        r.1@ == spec_study_cards(deck@, progress@, *now),
{
    let ghost kept_spec = spec_kept_cards(progress@, deck@);
    let mut kept: Vec<ProgressCard> = Vec::new();
    let n = progress.len();
    let mut i: usize = 0;
    while i < n
        invariant
            n == progress@.len(),
            0 <= i <= n,
            kept@ == spec_kept_cards(progress@.take(i as int), deck@),
        decreases n - i,
    {
        proof {
            reveal(Seq::filter);
            assert(progress@.take(i + 1).drop_last() == progress@.take(i as int));
        }
        if find_card_position(deck, &progress[i].id).is_some() {
            kept.push(progress[i].clone());
        }
        i = i + 1;
    }
    assert(progress@.take(n as int) == progress@);

    let mut study: Vec<ProgressCard> = Vec::new();
    let k = kept.len();
    let mut i: usize = 0;
    while i < k
        invariant
            k == kept@.len(),
            kept@ == kept_spec,
            0 <= i <= k,
            study@ == spec_due_cards(kept_spec.take(i as int), *now),
        decreases k - i,
    {
        proof {
            reveal(Seq::filter);
            assert(kept_spec.take(i + 1).drop_last() == kept_spec.take(i as int));
        }
        if kept[i].fsrs.is_due(now) {
            study.push(kept[i].clone());
        }
        i = i + 1;
    }
    assert(kept_spec.take(k as int) == kept_spec);
    let ghost due_spec = study@;

    let m = deck.len();
    let mut i: usize = 0;
    while i < m
        invariant
            m == deck@.len(),
            0 <= i <= m,
            kept@ == kept_spec + spec_added_cards(deck@.take(i as int), kept_spec),
            study@ == due_spec + spec_added_cards(deck@.take(i as int), kept_spec),
        decreases m - i,
    {
        let ghost prefix = deck@.take(i + 1);
        assert(prefix.drop_last() == deck@.take(i as int));
        assert(prefix.last() == deck@[i as int]);
        if find_progress(&kept, &deck[i].id).is_none() {
            let card = ProgressCard { id: deck[i].id.clone(), fsrs: FsrsCard::fresh() };
            kept.push(card.clone());
            study.push(card);
        }
        i = i + 1;
    }
    assert(deck@.take(m as int) == deck@);
    (kept, study)
}

/// Prepares a study session at the current time (see `prepare_study`).
pub fn prepare_study_now(deck: &Vec<Card>, progress: &Vec<ProgressCard>) -> (r: (
    Vec<ProgressCard>,
    Vec<ProgressCard>,
))
    ensures
        r.0@ == spec_prepared_progress(deck@, progress@),
        exists|now: Timestamp| r.1@ == spec_study_cards(deck@, progress@, now),
{
    let now = clock_now();
    prepare_study(deck, progress, &now)
}


/// The progress cards after a review of the card `id`: the first card with
/// that id takes the scheduler's new memory `next`.
pub open spec fn spec_reviewed_cards(cards: Seq<ProgressCard>, id: Seq<char>, next: FsrsCard) -> Seq<ProgressCard> {
    let i = spec_progress_position(cards, id);
    cards.update(i, ProgressCard { id: cards[i].id, fsrs: next })
}

/// Records the review of `studied`: the first progress card with its id takes
/// the scheduler's new memory `next`, and the log gains an entry holding the
/// card as it was studied and the scheduler's record `review`.
pub fn record_review(
    progress: &mut Progress,
    log: &mut Log,
    studied: &ProgressCard,
    next: FsrsCard,
    review: ReviewLog,
)
    requires
        spec_has_progress_id(old(progress).cards@, studied.id@),
    ensures
        final(progress).cards@ == spec_reviewed_cards(old(progress).cards@, studied.id@, next),
        final(progress).path == old(progress).path,
        final(progress).deck_id == old(progress).deck_id,
        final(log).entries@ == old(log).entries@.push(
            LogEntry { last_card: *studied, log: review },
        ),
        final(log).path == old(log).path,
        final(log).deck_id == old(log).deck_id,
{
    let pos = find_progress(&progress.cards, &studied.id).unwrap();
    let updated = ProgressCard { id: progress.cards[pos].id.clone(), fsrs: next };
    progress.cards.set(pos, updated);
    log.entries.push(LogEntry { last_card: studied.clone(), log: review });
}

/// A review changes only the memory of the reviewed card: every card keeps
/// its id and place, and every other card stays as it was.
pub proof fn lemma_review_keeps_other_cards(cards: Seq<ProgressCard>, id: Seq<char>, next: FsrsCard, i: int)
    requires
        spec_has_progress_id(cards, id),
        0 <= i < cards.len(),
    ensures
        spec_reviewed_cards(cards, id, next).len() == cards.len(),
        spec_reviewed_cards(cards, id, next)[i].id == cards[i].id,
        i != spec_progress_position(cards, id) ==> spec_reviewed_cards(cards, id, next)[i] == cards[i],
        i == spec_progress_position(cards, id) ==> spec_reviewed_cards(cards, id, next)[i].fsrs == next,
{
    lemma_progress_position(cards, id);
}

/// Undoing a review gives back the progress and the log as they were before
/// it, provided the studied card was the first progress card with its id.
pub proof fn lemma_undo_reverts_review(
    cards: Seq<ProgressCard>,
    entries: Seq<LogEntry>,
    studied: ProgressCard,
    next: FsrsCard,
    review: ReviewLog,
)
    requires
        spec_has_progress_id(cards, studied.id@),
        cards[spec_progress_position(cards, studied.id@)] == studied,
    ensures
        ({
            let reviewed = spec_reviewed_cards(cards, studied.id@, next);
            let logged = entries.push(LogEntry { last_card: studied, log: review });
            &&& spec_has_progress_id(reviewed, logged.last().last_card.id@)
            &&& logged.drop_last() == entries
            &&& spec_undone_cards(reviewed, logged.last()) == cards
        }),
{
    let id = studied.id@;
    lemma_progress_position(cards, id);
    let p = spec_progress_position(cards, id);
    let reviewed = spec_reviewed_cards(cards, id, next);
    assert(spec_first_progress_at(reviewed, id, p)) by {
        assert forall|j: int| 0 <= j < p implies #[trigger] reviewed[j].id@ != id by {
            assert(reviewed[j] == cards[j]);
        }
    }
    lemma_progress_position(reviewed, id);
    let q = spec_progress_position(reviewed, id);
    assert(q == p) by {
        if q < p {
            assert(reviewed[q] == cards[q]);
        }
        if p < q {
            assert(reviewed[p].id@ == id);
        }
    }
    let logged = entries.push(LogEntry { last_card: studied, log: review });
    assert(logged.drop_last() == entries);
    assert(spec_undone_cards(reviewed, logged.last()) =~= cards);
}

proof fn lemma_filter_within<A>(s: Seq<A>, pred: spec_fn(A) -> bool, i: int)
    requires
        0 <= i < s.filter(pred).len(),
    ensures
        s.contains(s.filter(pred)[i]),
    decreases s.len(),
{
    reveal(Seq::filter);
    let rest = s.drop_last().filter(pred);
    if i < rest.len() {
        lemma_filter_within(s.drop_last(), pred, i);
        let w = choose|j: int| 0 <= j < s.drop_last().len() && s.drop_last()[j] == rest[i];
        assert(s[w] == s.drop_last()[w]);
        assert(s.filter(pred)[i] == rest[i]);
    } else {
        assert(s.filter(pred)[i] == s[s.len() - 1]);
    }
}

/// After preparing a session, every card of the deck has progress.
pub proof fn lemma_prepared_progress_covers_deck(deck: Seq<Card>, progress: Seq<ProgressCard>, i: int)
    requires
        0 <= i < deck.len(),
    ensures
        spec_has_progress_id(spec_prepared_progress(deck, progress), deck[i].id@),
{
    let kept = spec_kept_cards(progress, deck);
    lemma_added_covers(deck, kept, i);
}

proof fn lemma_added_covers(deck: Seq<Card>, kept: Seq<ProgressCard>, i: int)
    requires
        0 <= i < deck.len(),
    ensures
        spec_has_progress_id(kept + spec_added_cards(deck, kept), deck[i].id@),
    decreases deck.len(),
{
    let before = spec_added_cards(deck.drop_last(), kept);
    let all = kept + spec_added_cards(deck, kept);
    if i < deck.len() - 1 {
        lemma_added_covers(deck.drop_last(), kept, i);
        assert(deck.drop_last()[i] == deck[i]);
        let w = choose|j: int| 0 <= j < (kept + before).len() && #[trigger] (kept + before)[j].id@ == deck[i].id@;
        assert(all[w] == (kept + before)[w]);
    } else {
        if spec_has_progress_id(kept + before, deck.last().id@) {
            assert(all == kept + before);
        } else {
            assert(all[all.len() - 1].id@ == deck.last().id@);
        }
    }
}

/// After preparing a session, every progress card belongs to a card of the deck.
pub proof fn lemma_prepared_progress_within_deck(deck: Seq<Card>, progress: Seq<ProgressCard>, i: int)
    requires
        0 <= i < spec_prepared_progress(deck, progress).len(),
    ensures
        spec_has_card_id(deck, spec_prepared_progress(deck, progress)[i].id@),
{
    let kept = spec_kept_cards(progress, deck);
    if i < kept.len() {
        assert(spec_prepared_progress(deck, progress)[i] == kept[i]);
    } else {
        lemma_added_within(deck, kept, i - kept.len());
    }
}

proof fn lemma_added_within(deck: Seq<Card>, kept: Seq<ProgressCard>, i: int)
    requires
        0 <= i < spec_added_cards(deck, kept).len(),
    ensures
        spec_has_card_id(deck, spec_added_cards(deck, kept)[i].id@),
    decreases deck.len(),
{
    let before = spec_added_cards(deck.drop_last(), kept);
    if i < before.len() {
        lemma_added_within(deck.drop_last(), kept, i);
        let w = choose|j: int| 0 <= j < deck.drop_last().len() && #[trigger] deck.drop_last()[j].id@ == before[i].id@;
        assert(deck[w] == deck.drop_last()[w]);
    } else {
        assert(deck[deck.len() - 1].id@ == spec_added_cards(deck, kept)[i].id@);
    }
}

proof fn lemma_filter_all<A>(s: Seq<A>, pred: spec_fn(A) -> bool)
    requires
        forall|i: int| 0 <= i < s.len() ==> pred(#[trigger] s[i]),
    ensures
        s.filter(pred) == s,
    decreases s.len(),
{
    reveal(Seq::filter);
    if s.len() > 0 {
        assert forall|i: int| 0 <= i < s.drop_last().len() implies pred(
            #[trigger] s.drop_last()[i],
        ) by {
            assert(s.drop_last()[i] == s[i]);
        }
        lemma_filter_all(s.drop_last(), pred);
        assert(pred(s[s.len() - 1]));
        assert(s.drop_last().push(s.last()) =~= s);
    }
}

proof fn lemma_added_none(deck: Seq<Card>, kept: Seq<ProgressCard>)
    requires
        forall|i: int| 0 <= i < deck.len() ==> spec_has_progress_id(kept, #[trigger] deck[i].id@),
    ensures
        spec_added_cards(deck, kept) == Seq::<ProgressCard>::empty(),
    decreases deck.len(),
{
    if deck.len() > 0 {
        assert forall|i: int| 0 <= i < deck.drop_last().len() implies spec_has_progress_id(
            kept,
            #[trigger] deck.drop_last()[i].id@,
        ) by {
            assert(deck.drop_last()[i] == deck[i]);
        }
        lemma_added_none(deck.drop_last(), kept);
        assert(kept + Seq::<ProgressCard>::empty() =~= kept);
        assert(spec_has_progress_id(kept, deck[deck.len() - 1].id@));
    }
}

/// Preparing a session twice gives the same progress as preparing it once.
pub proof fn lemma_prepare_is_stable(deck: Seq<Card>, progress: Seq<ProgressCard>)
    ensures
        spec_prepared_progress(deck, spec_prepared_progress(deck, progress))
            == spec_prepared_progress(deck, progress),
{
    let once = spec_prepared_progress(deck, progress);
    assert forall|i: int| 0 <= i < once.len() implies spec_has_card_id(deck, #[trigger] once[i].id@) by {
        lemma_prepared_progress_within_deck(deck, progress, i);
    }
    lemma_filter_all(once, |p: ProgressCard| spec_has_card_id(deck, p.id@));
    assert(spec_kept_cards(once, deck) == once);
    assert forall|i: int| 0 <= i < deck.len() implies spec_has_progress_id(once, #[trigger] deck[i].id@) by {
        lemma_prepared_progress_covers_deck(deck, progress, i);
    }
    lemma_added_none(deck, once);
    assert(once + Seq::<ProgressCard>::empty() =~= once);
}

/// No two cards of `cards` share an id.
pub open spec fn spec_distinct_progress_ids(cards: Seq<ProgressCard>) -> bool {
    forall|i: int, j: int|
        0 <= i < j < cards.len() ==> #[trigger] cards[i].id@ != #[trigger] cards[j].id@
}

proof fn lemma_filter_keeps_distinct(s: Seq<ProgressCard>, pred: spec_fn(ProgressCard) -> bool)
    requires
        spec_distinct_progress_ids(s),
    ensures
        spec_distinct_progress_ids(s.filter(pred)),
    decreases s.len(),
{
    reveal(Seq::filter);
    if s.len() > 0 {
        let rest = s.drop_last();
        assert(spec_distinct_progress_ids(rest)) by {
            assert forall|i: int, j: int| 0 <= i < j < rest.len() implies #[trigger] rest[i].id@
                != #[trigger] rest[j].id@ by {
                assert(rest[i] == s[i] && rest[j] == s[j]);
            }
        }
        lemma_filter_keeps_distinct(rest, pred);
        let fr = rest.filter(pred);
        if pred(s.last()) {
            let out = fr.push(s.last());
            assert forall|i: int, j: int| 0 <= i < j < out.len() implies #[trigger] out[i].id@
                != #[trigger] out[j].id@ by {
                if j == out.len() - 1 {
                    lemma_filter_within(rest, pred, i);
                    let w = choose|k: int| 0 <= k < rest.len() && rest[k] == fr[i];
                    assert(rest[w] == s[w]);
                    assert(out[i] == fr[i]);
                    assert(out[j] == s[s.len() - 1]);
                } else {
                    assert(out[i] == fr[i] && out[j] == fr[j]);
                }
            }
            assert(s.filter(pred) == out);
        } else {
            assert(s.filter(pred) == fr);
        }
    }
}

proof fn lemma_added_keeps_distinct(deck: Seq<Card>, kept: Seq<ProgressCard>)
    requires
        spec_distinct_progress_ids(kept),
    ensures
        spec_distinct_progress_ids(kept + spec_added_cards(deck, kept)),
    decreases deck.len(),
{
    if deck.len() == 0 {
        assert(kept + spec_added_cards(deck, kept) =~= kept);
    } else {
        lemma_added_keeps_distinct(deck.drop_last(), kept);
        let before = spec_added_cards(deck.drop_last(), kept);
        let all = kept + before;
        if !spec_has_progress_id(all, deck.last().id@) {
            let card = ProgressCard { id: deck.last().id, fsrs: spec_fresh_fsrs_card() };
            let out = all.push(card);
            assert(kept + before.push(card) =~= out);
            assert forall|i: int, j: int| 0 <= i < j < out.len() implies #[trigger] out[i].id@
                != #[trigger] out[j].id@ by {
                if j == out.len() - 1 {
                    assert(out[i] == all[i]);
                    assert(out[j] == card);
                } else {
                    assert(out[i] == all[i] && out[j] == all[j]);
                }
            }
        }
    }
}

/// Preparing a session creates no two progress cards with the same id, where
/// the old progress had none.
pub proof fn lemma_prepared_ids_distinct(deck: Seq<Card>, progress: Seq<ProgressCard>)
    requires
        spec_distinct_progress_ids(progress),
    ensures
        spec_distinct_progress_ids(spec_prepared_progress(deck, progress)),
{
    let kept = spec_kept_cards(progress, deck);
    lemma_filter_keeps_distinct(progress, |p: ProgressCard| spec_has_card_id(deck, p.id@));
    lemma_added_keeps_distinct(deck, kept);
}

proof fn lemma_filter_keeps_order<A>(s: Seq<A>, pred: spec_fn(A) -> bool, i: int, j: int)
    requires
        0 <= i < j < s.len(),
        pred(s[i]),
        pred(s[j]),
    ensures
        exists|a: int, b: int|
            0 <= a < b < s.filter(pred).len() && s.filter(pred)[a] == s[i] && s.filter(pred)[b]
                == s[j],
    decreases s.len(),
{
    reveal(Seq::filter);
    let rest = s.drop_last();
    let fr = rest.filter(pred);
    assert(rest[i] == s[i]);
    if j == s.len() - 1 {
        rest.lemma_filter_contains(pred, i);
        let a = choose|a: int| 0 <= a < fr.len() && fr[a] == rest[i];
        let out = fr.push(s.last());
        assert(s.filter(pred) == out);
        assert(out[a] == s[i]);
        assert(out[fr.len() as int] == s[j]);
    } else {
        assert(rest[j] == s[j]);
        lemma_filter_keeps_order(rest, pred, i, j);
        let (a, b) = choose|a: int, b: int|
            0 <= a < b < fr.len() && fr[a] == rest[i] && fr[b] == rest[j];
        if pred(s.last()) {
            let out = fr.push(s.last());
            assert(s.filter(pred) == out);
            assert(out[a] == fr[a] && out[b] == fr[b]);
        } else {
            assert(s.filter(pred) == fr);
        }
    }
}

proof fn lemma_added_are_fresh(deck: Seq<Card>, kept: Seq<ProgressCard>, i: int)
    requires
        0 <= i < spec_added_cards(deck, kept).len(),
    ensures
        spec_added_cards(deck, kept)[i].fsrs == spec_fresh_fsrs_card(),
        !spec_has_progress_id(kept, spec_added_cards(deck, kept)[i].id@),
    decreases deck.len(),
{
    let before = spec_added_cards(deck.drop_last(), kept);
    if i < before.len() {
        lemma_added_are_fresh(deck.drop_last(), kept, i);
    } else {
        let id = deck.last().id@;
        assert(!spec_has_progress_id(kept + before, id));
        assert forall|w: int| 0 <= w < kept.len() implies #[trigger] kept[w].id@ != id by {
            assert((kept + before)[w] == kept[w]);
        }
    }
}

/// Every progress card whose card is still in the deck and that is due
/// strictly before `now` is among the cards to study.
pub proof fn lemma_due_cards_are_studied(
    deck: Seq<Card>,
    progress: Seq<ProgressCard>,
    now: Timestamp,
    i: int,
)
    requires
        0 <= i < progress.len(),
        spec_has_card_id(deck, progress[i].id@),
        progress[i].fsrs.due.secs < now.secs || (progress[i].fsrs.due.secs == now.secs
            && progress[i].fsrs.due.nanos < now.nanos),
    ensures
        spec_study_cards(deck, progress, now).contains(progress[i]),
{
    let in_deck = |p: ProgressCard| spec_has_card_id(deck, p.id@);
    let due = |p: ProgressCard| p.fsrs.due.spec_before(now);
    let kept = progress.filter(in_deck);
    assert(in_deck(progress[i]));
    progress.lemma_filter_contains(in_deck, i);
    let a = choose|a: int| 0 <= a < kept.len() && kept[a] == progress[i];
    assert(due(kept[a]));
    kept.lemma_filter_contains(due, a);
    let d = kept.filter(due);
    let b = choose|b: int| 0 <= b < d.len() && d[b] == progress[i];
    let study = spec_study_cards(deck, progress, now);
    assert(study[b] == progress[i]);
}

/// The cards studied because they are due come in the order of the progress.
pub proof fn lemma_due_cards_keep_order(
    deck: Seq<Card>,
    progress: Seq<ProgressCard>,
    now: Timestamp,
    i: int,
    j: int,
)
    requires
        0 <= i < j < progress.len(),
        spec_has_card_id(deck, progress[i].id@),
        spec_has_card_id(deck, progress[j].id@),
        progress[i].fsrs.due.spec_before(now),
        progress[j].fsrs.due.spec_before(now),
    ensures
        exists|a: int, b: int|
            0 <= a < b < spec_study_cards(deck, progress, now).len()
                && spec_study_cards(deck, progress, now)[a] == progress[i]
                && spec_study_cards(deck, progress, now)[b] == progress[j],
{
    let in_deck = |p: ProgressCard| spec_has_card_id(deck, p.id@);
    let due = |p: ProgressCard| p.fsrs.due.spec_before(now);
    let kept = progress.filter(in_deck);
    assert(in_deck(progress[i]) && in_deck(progress[j]));
    lemma_filter_keeps_order(progress, in_deck, i, j);
    let (a, b) = choose|a: int, b: int|
        0 <= a < b < kept.len() && kept[a] == progress[i] && kept[b] == progress[j];
    assert(due(kept[a]) && due(kept[b]));
    lemma_filter_keeps_order(kept, due, a, b);
    let d = kept.filter(due);
    let (x, y) = choose|x: int, y: int| 0 <= x < y < d.len() && d[x] == kept[a] && d[y] == kept[b];
    let study = spec_study_cards(deck, progress, now);
    assert(study[x] == progress[i] && study[y] == progress[j]);
}

/// Every card to study belongs to the deck and is either a progress card due
/// strictly before `now`, or a never-reviewed card (state `New`, no
/// repetitions or lapses, zero memory, due and reviewed at the epoch) for a
/// card that had no progress at all.
pub proof fn lemma_studied_cards_origin(
    deck: Seq<Card>,
    progress: Seq<ProgressCard>,
    now: Timestamp,
    k: int,
)
    requires
        0 <= k < spec_study_cards(deck, progress, now).len(),
    ensures
        ({
            let c = spec_study_cards(deck, progress, now)[k];
            &&& spec_has_card_id(deck, c.id@)
            &&& ({
                ||| progress.contains(c) && (c.fsrs.due.secs < now.secs || (c.fsrs.due.secs
                    == now.secs && c.fsrs.due.nanos < now.nanos))
                ||| {
                    &&& !spec_has_progress_id(progress, c.id@)
                    &&& c.fsrs.state == CardState::New
                    &&& c.fsrs.reps == 0
                    &&& c.fsrs.lapses == 0
                    &&& c.fsrs.elapsed_days == 0
                    &&& c.fsrs.scheduled_days == 0
                    &&& c.fsrs.stability_bits == 0
                    &&& c.fsrs.difficulty_bits == 0
                    &&& c.fsrs.due == Timestamp { secs: 0, nanos: 0 }
                    &&& c.fsrs.last_review == Timestamp { secs: 0, nanos: 0 }
                }
            })
        }),
{
    let in_deck = |p: ProgressCard| spec_has_card_id(deck, p.id@);
    let due = |p: ProgressCard| p.fsrs.due.spec_before(now);
    let kept = progress.filter(in_deck);
    let d = kept.filter(due);
    let added = spec_added_cards(deck, kept);
    let study = spec_study_cards(deck, progress, now);
    let c = study[k];
    if k < d.len() {
        assert(c == d[k]);
        kept.lemma_filter_pred(due, k);
        lemma_filter_within(kept, due, k);
        let w = choose|w: int| 0 <= w < kept.len() && kept[w] == c;
        progress.lemma_filter_pred(in_deck, w);
        lemma_filter_within(progress, in_deck, w);
    } else {
        let m = k - d.len();
        assert(c == added[m]);
        lemma_added_within(deck, kept, m);
        lemma_added_are_fresh(deck, kept, m);
        if spec_has_progress_id(progress, c.id@) {
            let w = choose|w: int| 0 <= w < progress.len() && #[trigger] progress[w].id@ == c.id@;
            assert(in_deck(progress[w]));
            progress.lemma_filter_contains(in_deck, w);
            let v = choose|v: int| 0 <= v < kept.len() && kept[v] == progress[w];
            assert(kept[v].id@ == c.id@);
        }
    }
}

/// Every progress card whose card is still in the deck stays in the prepared
/// progress, unchanged.
pub proof fn lemma_deck_progress_is_kept(deck: Seq<Card>, progress: Seq<ProgressCard>, i: int)
    requires
        0 <= i < progress.len(),
        spec_has_card_id(deck, progress[i].id@),
    ensures
        spec_prepared_progress(deck, progress).contains(progress[i]),
{
    let in_deck = |p: ProgressCard| spec_has_card_id(deck, p.id@);
    let kept = progress.filter(in_deck);
    assert(in_deck(progress[i]));
    progress.lemma_filter_contains(in_deck, i);
    let a = choose|a: int| 0 <= a < kept.len() && kept[a] == progress[i];
    assert(spec_prepared_progress(deck, progress)[a] == progress[i]);
}

/// The progress cards kept for the deck stay in their order.
pub proof fn lemma_deck_progress_keeps_order(
    deck: Seq<Card>,
    progress: Seq<ProgressCard>,
    i: int,
    j: int,
)
    requires
        0 <= i < j < progress.len(),
        spec_has_card_id(deck, progress[i].id@),
        spec_has_card_id(deck, progress[j].id@),
    ensures
        exists|a: int, b: int|
            0 <= a < b < spec_prepared_progress(deck, progress).len()
                && spec_prepared_progress(deck, progress)[a] == progress[i]
                && spec_prepared_progress(deck, progress)[b] == progress[j],
{
    let in_deck = |p: ProgressCard| spec_has_card_id(deck, p.id@);
    let kept = progress.filter(in_deck);
    assert(in_deck(progress[i]) && in_deck(progress[j]));
    lemma_filter_keeps_order(progress, in_deck, i, j);
    let (a, b) = choose|a: int, b: int|
        0 <= a < b < kept.len() && kept[a] == progress[i] && kept[b] == progress[j];
    let all = spec_prepared_progress(deck, progress);
    assert(all[a] == progress[i] && all[b] == progress[j]);
}

/// Every prepared progress card belongs to the deck and is either an old
/// progress card or a never-reviewed card (state `New`, no repetitions or
/// lapses, zero memory, due and reviewed at the epoch) for a card that had no
/// progress at all.
pub proof fn lemma_prepared_cards_origin(deck: Seq<Card>, progress: Seq<ProgressCard>, k: int)
    requires
        0 <= k < spec_prepared_progress(deck, progress).len(),
    ensures
        ({
            let c = spec_prepared_progress(deck, progress)[k];
            &&& spec_has_card_id(deck, c.id@)
            &&& ({
                ||| progress.contains(c)
                ||| {
                    &&& !spec_has_progress_id(progress, c.id@)
                    &&& c.fsrs.state == CardState::New
                    &&& c.fsrs.reps == 0
                    &&& c.fsrs.lapses == 0
                    &&& c.fsrs.elapsed_days == 0
                    &&& c.fsrs.scheduled_days == 0
                    &&& c.fsrs.stability_bits == 0
                    &&& c.fsrs.difficulty_bits == 0
                    &&& c.fsrs.due == Timestamp { secs: 0, nanos: 0 }
                    &&& c.fsrs.last_review == Timestamp { secs: 0, nanos: 0 }
                }
            })
        }),
{
    let in_deck = |p: ProgressCard| spec_has_card_id(deck, p.id@);
    let kept = progress.filter(in_deck);
    let added = spec_added_cards(deck, kept);
    let all = spec_prepared_progress(deck, progress);
    let c = all[k];
    if k < kept.len() {
        assert(c == kept[k]);
        progress.lemma_filter_pred(in_deck, k);
        lemma_filter_within(progress, in_deck, k);
    } else {
        let m = k - kept.len();
        assert(c == added[m]);
        lemma_added_within(deck, kept, m);
        lemma_added_are_fresh(deck, kept, m);
        if spec_has_progress_id(progress, c.id@) {
            let w = choose|w: int| 0 <= w < progress.len() && #[trigger] progress[w].id@ == c.id@;
            assert(in_deck(progress[w]));
            progress.lemma_filter_contains(in_deck, w);
            let v = choose|v: int| 0 <= v < kept.len() && kept[v] == progress[w];
            assert(kept[v].id@ == c.id@);
        }
    }
}

/// Every card chosen for study is among the prepared progress cards.
pub proof fn lemma_study_cards_in_progress(deck: Seq<Card>, progress: Seq<ProgressCard>, now: Timestamp, i: int)
    requires
        0 <= i < spec_study_cards(deck, progress, now).len(),
    ensures
        spec_prepared_progress(deck, progress).contains(spec_study_cards(deck, progress, now)[i]),
{
    let kept = spec_kept_cards(progress, deck);
    let due = spec_due_cards(kept, now);
    let added = spec_added_cards(deck, kept);
    let all = kept + added;
    let c = spec_study_cards(deck, progress, now)[i];
    if i < due.len() {
        assert(c == due[i]);
        lemma_filter_within(kept, |p: ProgressCard| p.fsrs.due.spec_before(now), i);
        assert(kept.contains(c));
        let w = choose|j: int| 0 <= j < kept.len() && kept[j] == c;
        assert(all[w] == c);
    } else {
        assert(c == added[i - due.len()]);
        assert(all[kept.len() + i - due.len()] == c);
    }
}


/// Every card of `cards` has a card with its id in `deck`.
pub open spec fn spec_all_in_deck(cards: Seq<ProgressCard>, deck: Seq<Card>) -> bool {
    forall|i: int| 0 <= i < cards.len() ==> spec_has_card_id(deck, #[trigger] cards[i].id@)
}

/// `shown` holds, for each progress card, the first deck card with its id.
pub open spec fn spec_matching_deck_cards(shown: Seq<Card>, cards: Seq<ProgressCard>, deck: Seq<Card>) -> bool {
    &&& shown.len() == cards.len()
    &&& forall|i: int| 0 <= i < cards.len() ==>
        #[trigger] shown[i] == deck[spec_card_position(deck, cards[i].id@)]
}

/// Every card chosen for study belongs to a card of the deck, so a session
/// over them can always start.
pub proof fn lemma_study_cards_in_deck(deck: Seq<Card>, progress: Seq<ProgressCard>, now: Timestamp)
    ensures
        spec_all_in_deck(spec_study_cards(deck, progress, now), deck),
{
    let study = spec_study_cards(deck, progress, now);
    let all = spec_prepared_progress(deck, progress);
    assert forall|i: int| 0 <= i < study.len() implies spec_has_card_id(deck, #[trigger] study[i].id@) by {
        lemma_study_cards_in_progress(deck, progress, now, i);
        let w = choose|j: int| 0 <= j < all.len() && all[j] == study[i];
        lemma_prepared_progress_within_deck(deck, progress, w);
    }
}

/// Whether every card of `cards` has a card with its id in `deck`.
pub fn all_in_deck(cards: &Vec<ProgressCard>, deck: &Vec<Card>) -> (b: bool)
    ensures
        b == spec_all_in_deck(cards@, deck@),
{
    let n = cards.len();
    let mut i: usize = 0;
    while i < n
        invariant
            n == cards@.len(),
            0 <= i <= n,
            forall|j: int| 0 <= j < i ==> spec_has_card_id(deck@, #[trigger] cards@[j].id@),
        decreases n - i,
    {
        if find_card_position(deck, &cards[i].id).is_none() {
            return false;
        }
        i = i + 1;
    }
    true
}

/// The deck card to show for each progress card: the first with its id.
pub fn match_deck_cards(cards: &Vec<ProgressCard>, deck: &Vec<Card>) -> (shown: Vec<Card>)
    requires
        spec_all_in_deck(cards@, deck@),
    ensures
        spec_matching_deck_cards(shown@, cards@, deck@),
{
    let mut shown: Vec<Card> = Vec::new();
    let n = cards.len();
    let mut i: usize = 0;
    while i < n
        invariant
            n == cards@.len(),
            0 <= i <= n,
            spec_all_in_deck(cards@, deck@),
            shown@.len() == i,
            forall|j: int| 0 <= j < i ==>
                #[trigger] shown@[j] == deck@[spec_card_position(deck@, cards@[j].id@)],
        decreases n - i,
    {
        assert(spec_has_card_id(deck@, cards@[i as int].id@));
        let pos = find_card_position(deck, &cards[i].id).unwrap();
        shown.push(deck[pos].clone());
        i = i + 1;
    }
    shown
}

/// Shuffles `cards` in place with `rand::seq::SliceRandom::shuffle` and the
/// thread-local generator `rand::thread_rng`. The order is left to chance; the
/// crate documents the result as a permutation of the input, so the contract
/// states that the cards are the same, counted with multiplicity.
#[verifier::external_body]
fn shuffle_progress(cards: &mut Vec<ProgressCard>)
    ensures
        final(cards)@.to_multiset() == old(cards)@.to_multiset(),
{
    cards.shuffle(&mut rand::thread_rng());
}

/// The state of a study session: the deck studied, and the cards still to be
/// asked with the deck card shown for each; the last ones are asked first.
pub struct StudyData {
    pub deck_id: String,
    pub progress_cards: Vec<ProgressCard>,
    pub deck_cards: Vec<Card>,
}

impl Clone for StudyData {
    fn clone(&self) -> (r: Self)
        ensures
            r.deck_id == self.deck_id,
            r.progress_cards@ == self.progress_cards@,
            r.deck_cards@ == self.deck_cards@,
    {
        let progress_cards = self.progress_cards.clone();
        let deck_cards = self.deck_cards.clone();
        assert(progress_cards@ =~= self.progress_cards@);
        assert(deck_cards@ =~= self.deck_cards@);
        StudyData { deck_id: self.deck_id.clone(), progress_cards, deck_cards }
    }
}

impl StudyData {
    /// Starts a session over `cards` in a random order, pairing each with the
    /// deck card that shows it.
    pub fn start(deck_id: String, deck: &Vec<Card>, cards: Vec<ProgressCard>) -> (d: StudyData)
        requires
            spec_all_in_deck(cards@, deck@),
        ensures
            d.deck_id == deck_id,
            d.progress_cards@.to_multiset() == cards@.to_multiset(),
            spec_matching_deck_cards(d.deck_cards@, d.progress_cards@, deck@),
    {
        broadcast use vstd::seq_lib::group_to_multiset_ensures;

        let ghost before = cards@;
        let mut shuffled = cards;
        shuffle_progress(&mut shuffled);
        assert forall|i: int| 0 <= i < shuffled@.len() implies spec_has_card_id(
            deck@,
            #[trigger] shuffled@[i].id@,
        ) by {
            assert(shuffled@.contains(shuffled@[i]));
            assert(shuffled@.to_multiset().count(shuffled@[i]) > 0);
            assert(before.contains(shuffled@[i]));
            let w = choose|j: int| 0 <= j < before.len() && before[j] == shuffled@[i];
            assert(spec_has_card_id(deck@, before[w].id@));
        }
        let deck_cards = match_deck_cards(&shuffled, deck);
        StudyData { deck_id, progress_cards: shuffled, deck_cards }
    }

    /// Takes the next card to ask: the last progress card and the last deck
    /// card. Where no progress card is left nothing changes; where a progress
    /// card but no deck card is left, the progress card is dropped.
    pub fn next_card(&mut self) -> (r: Option<(ProgressCard, Card)>)
        ensures
            final(self).deck_id == old(self).deck_id,
            old(self).progress_cards@.len() == 0 ==> {
                &&& r is None
                &&& final(self).progress_cards@ == old(self).progress_cards@
                &&& final(self).deck_cards@ == old(self).deck_cards@
            },
            old(self).progress_cards@.len() > 0 && old(self).deck_cards@.len() == 0 ==> {
                &&& r is None
                &&& final(self).progress_cards@ == old(self).progress_cards@.drop_last()
                &&& final(self).deck_cards@ == old(self).deck_cards@
            },
            old(self).progress_cards@.len() > 0 && old(self).deck_cards@.len() > 0 ==> {
                &&& r == Some((old(self).progress_cards@.last(), old(self).deck_cards@.last()))
                &&& final(self).progress_cards@ == old(self).progress_cards@.drop_last()
                &&& final(self).deck_cards@ == old(self).deck_cards@.drop_last()
            },
    {
        let progress_card = match self.progress_cards.pop() {
            Some(p) => p,
            None => {
                return None;
            },
        };
        let deck_card = match self.deck_cards.pop() {
            Some(c) => c,
            None => {
                return None;
            },
        };
        Some((progress_card, deck_card))
    }
}


} // verus!
