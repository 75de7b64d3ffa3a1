use ducki::commands::decks::{AddArgs as CardAddArgs, DeckArgs, DeckCommands, ImportArgs, RemoveArgs as CardRemoveArgs};
use ducki::commands::{init_location, menu_choice, AddArgs, Args, Commands, DeckLocation, InitArgs, MenuChoice, RemoveArgs, StudyArgs};
use ducki::schedule::{FsrsCard, Rating};
use ducki::time::Timestamp;

#[test]
fn rating_iter_lists_all_easiest_first() {
    assert_eq!(Rating::iter(), vec![Rating::Easy, Rating::Good, Rating::Hard, Rating::Again]);
}

#[test]
fn rating_names() {
    let names: Vec<String> = Rating::iter().iter().map(|r| r.to_string()).collect();
    assert_eq!(names, vec!["Easy", "Good", "Hard", "Again"]);
}

#[test]
fn fresh_card_is_due_at_epoch() {
    let c = FsrsCard::fresh();
    assert_eq!(c.due, Timestamp::epoch());
    assert_eq!(c.reps, 0);
    assert!(c.is_due(&Timestamp { secs: 0, nanos: 1 }));
    assert!(!c.is_due(&Timestamp::epoch()));
}

#[test]
fn timestamps_order_by_seconds_then_nanos() {
    let a = Timestamp { secs: 1, nanos: 5 };
    assert!(a.before(&Timestamp { secs: 2, nanos: 0 }));
    assert!(a.before(&Timestamp { secs: 1, nanos: 6 }));
    assert!(!a.before(&a));
    assert!(!Timestamp { secs: 2, nanos: 0 }.before(&a));
}

#[test]
fn init_location_of_ids() {
    assert!(matches!(init_location(&".".to_string()), DeckLocation::CurrentDir));
    assert!(matches!(init_location(&".hidden".to_string()), DeckLocation::CurrentDir));
    match init_location(&"spanish".to_string()) {
        DeckLocation::SubDir(id) => assert_eq!(id, "spanish"),
        DeckLocation::CurrentDir => panic!("expected a subdirectory"),
    }
}

#[test]
fn add_location_of_ids() {
    assert!(matches!(AddArgs { id: None }.location(), DeckLocation::CurrentDir));
    assert!(matches!(AddArgs { id: Some(".".to_string()) }.location(), DeckLocation::CurrentDir));
    match (AddArgs { id: Some("./x".to_string()) }).location() {
        DeckLocation::SubDir(id) => assert_eq!(id, "./x"),
        DeckLocation::CurrentDir => panic!("expected a subdirectory"),
    }
}

#[test]
fn menu_choice_reads_add_entry() {
    assert!(matches!(menu_choice(":add"), MenuChoice::AddNew));
    match menu_choice("spanish") {
        MenuChoice::Open(id) => assert_eq!(id, "spanish"),
        MenuChoice::AddNew => panic!("expected a deck"),
    }
    assert!(matches!(menu_choice(":ad"), MenuChoice::Open(_)));
}

#[test]
fn command_values_hold_their_arguments() {
    let args = Args {
        cmd: Some(Commands::Deck(DeckArgs {
            deck_id: "d".to_string(),
            cmd: DeckCommands::Add(CardAddArgs { id: Some("c".to_string()), front: None, back: None }),
        })),
    };
    match args.cmd {
        Some(Commands::Deck(d)) => {
            assert_eq!(d.deck_id, "d");
            assert!(matches!(d.cmd, DeckCommands::Add(a) if a.id.as_deref() == Some("c")));
        }
        _ => panic!("expected a deck command"),
    }
    let others = vec![
        Commands::Help,
        Commands::List,
        Commands::Init(InitArgs { id: None }),
        Commands::Remove(RemoveArgs { id: None }),
        Commands::Study(StudyArgs { id: "s".to_string() }),
    ];
    assert_eq!(others.len(), 5);
    let sub = vec![
        DeckCommands::Import(ImportArgs { file: "cards.csv".to_string() }),
        DeckCommands::Remove(CardRemoveArgs { id: None }),
        DeckCommands::Undo,
    ];
    assert_eq!(sub.len(), 3);
}
