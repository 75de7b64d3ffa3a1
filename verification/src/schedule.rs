//! The scheduler's per-card memory and review records, held as plain values,
//! and the four answers a learner can give.

use vstd::prelude::*;
use crate::time::Timestamp;

verus! {

/// How well a card was recalled.
#[derive(Clone, Copy, Debug, PartialEq, Eq, Hash, Structural)]
pub enum Rating {
    Easy,
    Good,
    Hard,
    Again,
}

/// The answers in the order they are offered to the learner.
pub open spec fn spec_rating_order() -> Seq<Rating> {
    seq![Rating::Easy, Rating::Good, Rating::Hard, Rating::Again]
}

/// The name shown for a rating.
pub open spec fn spec_rating_name(r: Rating) -> Seq<char> {
    match r {
        Rating::Easy => seq!['E', 'a', 's', 'y'],
        Rating::Good => seq!['G', 'o', 'o', 'd'],
        Rating::Hard => seq!['H', 'a', 'r', 'd'],
        Rating::Again => seq!['A', 'g', 'a', 'i', 'n'],
    }
}

/// Every rating is offered, and each only once.
pub proof fn lemma_rating_order_complete(r: Rating)
    ensures
        spec_rating_order().contains(r),
        spec_rating_order().len() == 4,
        forall|i: int, j: int|
            0 <= i < j < 4 ==> spec_rating_order()[i] != spec_rating_order()[j],
{
    let s = spec_rating_order();
    match r {
        Rating::Easy => assert(s[0] == r),
        Rating::Good => assert(s[1] == r),
        Rating::Hard => assert(s[2] == r),
        Rating::Again => assert(s[3] == r),
    }
}

impl Rating {
    /// All four ratings, easiest first.
    pub fn iter() -> (v: Vec<Rating>)
        ensures
            v@ == spec_rating_order(),
    {
        let mut v: Vec<Rating> = Vec::new();
        v.push(Rating::Easy);
        v.push(Rating::Good);
        v.push(Rating::Hard);
        v.push(Rating::Again);
        v
    }

    /// The rating's name, as shown to the learner.
    pub fn to_string(&self) -> (s: String)
        ensures
            s@ == spec_rating_name(*self),
    {
        let s = match self {
            Rating::Easy => String::from_str("Easy"),
            Rating::Good => String::from_str("Good"),
            Rating::Hard => String::from_str("Hard"),
            Rating::Again => String::from_str("Again"),
        };
        proof {
            reveal_strlit("Easy");
            reveal_strlit("Good");
            reveal_strlit("Hard");
            reveal_strlit("Again");
        }
        s
    }
}

/// The learning stage a card is in.
#[derive(Clone, Copy, Debug, PartialEq, Eq, Hash, Structural)]
pub enum CardState {
    New,
    Learning,
    Review,
    Relearning,
}

/// The scheduler's memory of one card. Stability and difficulty are kept as
/// the bit patterns of their IEEE-754 doubles, so that they pass through
/// unchanged.
#[derive(Clone, Copy, Debug, PartialEq, Eq, Hash, Structural)]
pub struct FsrsCard {
    pub due: Timestamp,
    pub stability_bits: u64,
    pub difficulty_bits: u64,
    pub elapsed_days: i64,
    pub scheduled_days: i64,
    pub reps: i32,
    pub lapses: i32,
    pub state: CardState,
    pub last_review: Timestamp,
}

/// A card that was never reviewed: due at the epoch, all counters zero,
/// stability and difficulty zero.
pub open spec fn spec_fresh_fsrs_card() -> FsrsCard {
    FsrsCard {
        due: Timestamp { secs: 0, nanos: 0 },
        stability_bits: 0,
        difficulty_bits: 0,
        elapsed_days: 0,
        scheduled_days: 0,
        reps: 0,
        lapses: 0,
        state: CardState::New,
        last_review: Timestamp { secs: 0, nanos: 0 },
    }
}

/// A fresh card has never been reviewed: it is `New`, with no repetitions or
/// lapses, no elapsed or scheduled days, zero stability and difficulty, and is
/// due and last reviewed at the epoch.
pub proof fn lemma_fresh_card_never_reviewed()
    ensures
        spec_fresh_fsrs_card().state == CardState::New,
        spec_fresh_fsrs_card().reps == 0,
        spec_fresh_fsrs_card().lapses == 0,
        spec_fresh_fsrs_card().elapsed_days == 0,
        spec_fresh_fsrs_card().scheduled_days == 0,
        spec_fresh_fsrs_card().stability_bits == 0,
        spec_fresh_fsrs_card().difficulty_bits == 0,
        spec_fresh_fsrs_card().due.secs == 0 && spec_fresh_fsrs_card().due.nanos == 0,
        spec_fresh_fsrs_card().last_review.secs == 0
            && spec_fresh_fsrs_card().last_review.nanos == 0,
{
}

impl FsrsCard {
    /// A card that was never reviewed.
    pub fn fresh() -> (c: FsrsCard)
        ensures
            c == spec_fresh_fsrs_card(),
            c.state == CardState::New,
            c.reps == 0,
            c.lapses == 0,
            c.elapsed_days == 0,
            c.scheduled_days == 0,
            c.stability_bits == 0,
            c.difficulty_bits == 0,
            c.due.secs == 0 && c.due.nanos == 0,
            c.last_review.secs == 0 && c.last_review.nanos == 0,
    {
        FsrsCard {
            due: Timestamp::epoch(),
            stability_bits: 0,
            difficulty_bits: 0,
            elapsed_days: 0,
            scheduled_days: 0,
            reps: 0,
            lapses: 0,
            state: CardState::New,
            last_review: Timestamp::epoch(),
        }
    }

    /// Whether the card is due strictly before `now`.
    pub fn is_due(&self, now: &Timestamp) -> (b: bool)
        ensures
            b == self.due.spec_before(*now),
    {
        self.due.before(now)
    }
}

/// The record the scheduler keeps of one review.
#[derive(Clone, Copy, Debug, PartialEq, Eq, Hash, Structural)]
pub struct ReviewLog {
    pub rating: Rating,
    pub elapsed_days: i64,
    pub scheduled_days: i64,
    pub state: CardState,
    pub reviewed_date: Timestamp,
}

} // verus!
