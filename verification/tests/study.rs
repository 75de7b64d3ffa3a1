use ducki::deck::Card;
use ducki::log::{Log, LogEntry};
use ducki::progress::{find_progress, Progress, ProgressCard};
use ducki::schedule::{CardState, FsrsCard, Rating, ReviewLog};
use ducki::study::{match_deck_cards, prepare_study, prepare_study_now, record_review, StudyData};
use ducki::time::Timestamp;

fn card(id: &str) -> Card {
    Card { id: id.to_string(), front: format!("front {id}"), back: format!("back {id}") }
}

fn at(secs: i64) -> Timestamp {
    Timestamp { secs, nanos: 0 }
}

fn progress_card(id: &str, due: Timestamp) -> ProgressCard {
    let mut fsrs = FsrsCard::fresh();
    fsrs.due = due;
    fsrs.reps = 3;
    ProgressCard { id: id.to_string(), fsrs }
}

fn ids(cards: &[ProgressCard]) -> Vec<String> {
    cards.iter().map(|c| c.id.clone()).collect()
}

#[test]
fn prepare_drops_removed_keeps_due_and_adds_new() {
    let deck = vec![card("a"), card("b"), card("c")];
    let progress = vec![
        progress_card("gone", at(1)),
        progress_card("b", at(100)),
        progress_card("a", at(5)),
    ];
    let (new_progress, study) = prepare_study(&deck, &progress, &at(10));
    assert_eq!(ids(&new_progress), vec!["b", "a", "c"]);
    assert_eq!(ids(&study), vec!["a", "c"]);
    assert_eq!(new_progress[2].fsrs, FsrsCard::fresh());
    assert_eq!(study[0].fsrs.reps, 3);
}

#[test]
fn prepare_due_is_strictly_before_now() {
    let deck = vec![card("a"), card("b")];
    let mut exact = progress_card("a", at(10));
    exact.fsrs.due.nanos = 0;
    let mut earlier = progress_card("b", at(10));
    earlier.fsrs.due = Timestamp { secs: 9, nanos: 999_999_999 };
    let (_, study) = prepare_study(&deck, &vec![exact, earlier], &at(10));
    assert_eq!(ids(&study), vec!["b"]);
}

#[test]
fn prepare_empty_deck_gives_nothing_to_study() {
    let progress = vec![progress_card("a", at(1))];
    let (new_progress, study) = prepare_study(&Vec::new(), &progress, &at(10));
    assert!(new_progress.is_empty());
    assert!(study.is_empty());
}

#[test]
fn prepare_adds_one_card_per_repeated_deck_id() {
    let deck = vec![card("a"), card("a")];
    let (new_progress, study) = prepare_study(&deck, &Vec::new(), &at(10));
    assert_eq!(ids(&new_progress), vec!["a"]);
    assert_eq!(ids(&study), vec!["a"]);
}

#[test]
fn prepare_twice_is_stable() {
    let deck = vec![card("a"), card("b")];
    let progress = vec![progress_card("x", at(1)), progress_card("b", at(1))];
    let (once, _) = prepare_study(&deck, &progress, &at(10));
    let (twice, _) = prepare_study(&deck, &once, &at(10));
    assert_eq!(ids(&once), ids(&twice));
    assert_eq!(once[1].fsrs, twice[1].fsrs);
}

#[test]
fn prepare_now_studies_new_cards() {
    let deck = vec![card("a")];
    let (new_progress, study) = prepare_study_now(&deck, &Vec::new());
    assert_eq!(ids(&new_progress), vec!["a"]);
    assert_eq!(ids(&study), vec!["a"]);
}

fn review_of(rating: Rating) -> ReviewLog {
    ReviewLog {
        rating,
        elapsed_days: 0,
        scheduled_days: 2,
        state: CardState::Review,
        reviewed_date: at(50),
    }
}

#[test]
fn review_then_undo_restores_progress_and_log() {
    let mut progress = Progress::new("deck".to_string(), "dir");
    progress.cards = vec![progress_card("a", at(1)), progress_card("b", at(2))];
    let mut log = Log::new("deck".to_string(), "dir");
    let before_cards = progress.cards.clone();
    let studied = progress.cards[1].clone();
    let mut next = studied.fsrs;
    next.due = at(1000);
    next.reps = 4;
    record_review(&mut progress, &mut log, &studied, next, review_of(Rating::Good));
    assert_eq!(progress.cards[1].fsrs.due, at(1000));
    assert_eq!(progress.cards[0].fsrs, before_cards[0].fsrs);
    assert_eq!(log.entries.len(), 1);
    assert_eq!(log.entries[0].last_card.fsrs, studied.fsrs);
    assert_eq!(log.entries[0].log.rating, Rating::Good);

    log.undo(&mut progress);
    assert!(log.entries.is_empty());
    assert_eq!(ids(&progress.cards), ids(&before_cards));
    assert_eq!(progress.cards[1].fsrs, before_cards[1].fsrs);
    assert_eq!(progress.cards[0].fsrs, before_cards[0].fsrs);
}

#[test]
fn undo_replaces_first_card_with_the_id() {
    let mut progress = Progress::default();
    progress.cards = vec![progress_card("a", at(1)), progress_card("a", at(2))];
    let mut log = Log::default();
    log.entries.push(LogEntry { last_card: progress_card("a", at(7)), log: review_of(Rating::Again) });
    log.undo(&mut progress);
    assert_eq!(progress.cards[0].fsrs.due, at(7));
    assert_eq!(progress.cards[1].fsrs.due, at(2));
}

#[test]
fn find_progress_gives_first_position() {
    let cards = vec![progress_card("a", at(1)), progress_card("b", at(1)), progress_card("b", at(2))];
    assert_eq!(find_progress(&cards, &"b".to_string()), Some(1));
    assert_eq!(find_progress(&cards, &"z".to_string()), None);
}

#[test]
fn study_session_pairs_cards_and_asks_last_first() {
    let deck = vec![card("a"), card("b"), card("c")];
    let cards = vec![progress_card("c", at(1)), progress_card("a", at(1))];
    let mut data = StudyData::start("deck".to_string(), &deck, cards);
    assert_eq!(data.deck_id, "deck");
    let mut shuffled = ids(&data.progress_cards);
    shuffled.sort();
    assert_eq!(shuffled, vec!["a", "c"]);
    for (p, d) in data.progress_cards.iter().zip(data.deck_cards.iter()) {
        assert_eq!(p.id, d.id);
    }
    let expected_last = data.progress_cards[1].id.clone();
    let (p, d) = data.next_card().unwrap();
    assert_eq!(p.id, expected_last);
    assert_eq!(d.front, format!("front {}", expected_last));
    assert!(data.next_card().is_some());
    assert!(data.next_card().is_none());
}

#[test]
fn next_card_without_deck_card_drops_progress_card() {
    let mut data = StudyData {
        deck_id: "d".to_string(),
        progress_cards: vec![progress_card("a", at(1))],
        deck_cards: Vec::new(),
    };
    assert!(data.next_card().is_none());
    assert!(data.progress_cards.is_empty());
}

#[test]
fn match_deck_cards_uses_first_card_with_id() {
    let mut second = card("a");
    second.front = "other".to_string();
    let deck = vec![card("a"), second, card("b")];
    let shown = match_deck_cards(&vec![progress_card("b", at(1)), progress_card("a", at(1))], &deck);
    assert_eq!(shown.len(), 2);
    assert_eq!(shown[0].id, "b");
    assert_eq!(shown[1].front, "front a");
}

#[test]
fn prepare_keeps_progress_ids_distinct() {
    let deck = vec![card("a"), card("b"), card("a"), card("c")];
    let progress = vec![progress_card("c", at(1)), progress_card("z", at(1))];
    let (new_progress, _) = prepare_study(&deck, &progress, &at(10));
    let mut seen = ids(&new_progress);
    let n = seen.len();
    seen.sort();
    seen.dedup();
    assert_eq!(seen.len(), n);
    assert_eq!(ids(&new_progress), vec!["c", "a", "b"]);
}
