use ducki::config::{Config, DeckEntry};
use ducki::deck::{card_for, Card, Deck};
use ducki::log::Log;
use ducki::progress::Progress;

fn card(id: &str, front: &str) -> Card {
    Card { id: id.to_string(), front: front.to_string(), back: "back".to_string() }
}

#[test]
fn new_deck_is_empty_and_keeps_files_in_its_directory() {
    let deck = Deck::new("spanish".to_string(), "/decks/spanish".to_string(), "words".to_string());
    assert_eq!(deck.id, "spanish");
    assert_eq!(deck.description, "words");
    assert!(deck.cards.is_empty());
    assert_eq!(deck.progress.deck_id, "spanish");
    assert_eq!(deck.progress.path, "/decks/spanish/.progress.json");
    assert_eq!(deck.log.path, "/decks/spanish/.log.json");
    assert!(deck.progress.cards.is_empty());
    assert!(deck.log.entries.is_empty());
}

#[test]
fn progress_and_log_paths_add_one_separator() {
    assert_eq!(Progress::new("d".to_string(), "dir/").path, "dir/.progress.json");
    assert_eq!(Log::new("d".to_string(), "").path, ".log.json");
}

#[test]
fn default_deck_is_blank() {
    let deck = Deck::default();
    assert!(deck.id.is_empty() && deck.path.is_empty() && deck.description.is_empty());
    assert!(deck.cards.is_empty());
    assert_eq!(deck.progress.path, ".progress.json");
    assert_eq!(deck.log.path, ".log.json");
    assert!(deck.progress.deck_id.is_empty() && deck.log.entries.is_empty());
}

#[test]
fn deck_to_entry() {
    let deck = Deck::new("a".to_string(), "/p".to_string(), String::new());
    let entry = deck.to_entry();
    assert_eq!(entry.id, "a");
    assert_eq!(entry.path, "/p");
}

#[test]
fn add_find_and_remove_cards() {
    let mut deck = Deck::default();
    assert!(!deck.has_card(&"x".to_string()));
    deck.add_card(card("x", "one"));
    deck.add_card(card("y", "two"));
    deck.add_card(card("x", "three"));
    assert!(deck.has_card(&"x".to_string()));
    assert_eq!(deck.find_card(&"x".to_string()).unwrap().front, "one");
    assert!(deck.find_card(&"z".to_string()).is_none());
    deck.remove_card(&"x".to_string());
    assert_eq!(deck.cards.len(), 1);
    assert_eq!(deck.cards[0].id, "y");
    assert!(!deck.has_card(&"x".to_string()));
    deck.remove_card(&"absent".to_string());
    assert_eq!(deck.cards.len(), 1);
}

#[test]
fn save_card_edits_or_appends() {
    let mut deck = Deck::default();
    deck.add_card(card("a", "old"));
    deck.add_card(card("b", "keep"));
    deck.save_card(card("a", "new"), true);
    assert_eq!(deck.cards.len(), 2);
    assert_eq!(deck.cards[0].front, "new");
    assert_eq!(deck.cards[1].front, "keep");
    deck.save_card(card("c", "added"), false);
    assert_eq!(deck.cards.len(), 3);
    assert_eq!(deck.find_card(&"c".to_string()).unwrap().front, "added");
    deck.save_card(card("zzz", "nothing"), true);
    assert_eq!(deck.cards.len(), 3);
}

#[test]
fn import_appends_in_order() {
    let mut deck = Deck::default();
    deck.add_card(card("a", "1"));
    deck.import_cards(vec![card("b", "2"), card("c", "3")]);
    let ids: Vec<&str> = deck.cards.iter().map(|c| c.id.as_str()).collect();
    assert_eq!(ids, vec!["a", "b", "c"]);
}

#[test]
fn set_details_changes_id_and_description_only() {
    let mut deck = Deck::new("a".to_string(), "/p".to_string(), "d".to_string());
    deck.add_card(card("x", "1"));
    deck.set_details("b".to_string(), "e".to_string());
    assert_eq!(deck.id, "b");
    assert_eq!(deck.description, "e");
    assert_eq!(deck.cards.len(), 1);
    assert_eq!(deck.path, "/p");
}

#[test]
fn card_for_keeps_or_makes_an_id() {
    let kept = card_for(Some("id1".to_string()), "f".to_string(), "b".to_string());
    assert_eq!(kept.id, "id1");
    assert_eq!(kept.front, "f");
    assert_eq!(kept.back, "b");
    let fresh = card_for(None, "f".to_string(), "b".to_string());
    assert_eq!(fresh.id.len(), 36);
    assert_eq!(fresh.id.chars().nth(14), Some('4'));
    assert!(matches!(fresh.id.chars().nth(19), Some('8' | '9' | 'a' | 'b')));
    for (i, c) in fresh.id.chars().enumerate() {
        if i == 8 || i == 13 || i == 18 || i == 23 {
            assert_eq!(c, '-');
        } else {
            assert!(c.is_ascii_digit() || ('a'..='f').contains(&c));
        }
    }
    let other = card_for(None, "f".to_string(), "b".to_string());
    assert_ne!(fresh.id, other.id);
}

#[test]
fn config_add_find_remove() {
    let mut config = Config::default();
    assert!(config.decks.is_empty());
    assert!(!config.contains(&"a".to_string()));
    config.add_deck(DeckEntry::new("a".to_string(), "/a".to_string()));
    config.add_deck(DeckEntry::new("b".to_string(), "/b".to_string()));
    config.add_deck(DeckEntry::new("a".to_string(), "/a2".to_string()));
    assert!(config.contains(&"a".to_string()));
    assert_eq!(config.find_entry(&"a".to_string()).unwrap().path, "/a");
    assert!(config.find_entry(&"c".to_string()).is_none());
    assert_eq!(config.ids(), vec!["a", "b", "a"]);
    config.remove_deck(&"a".to_string());
    assert_eq!(config.ids(), vec!["b"]);
    assert!(!config.contains(&"a".to_string()));
}
