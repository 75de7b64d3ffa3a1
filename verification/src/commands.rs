//! The command line: what each command is given, and the choices it makes
//! before touching any file.

use vstd::prelude::*;

pub mod decks;

use crate::commands::decks::DeckArgs;

verus! {

/// The parsed command line.
pub struct Args {
    pub cmd: Option<Commands>,
}

/// The commands.
pub enum Commands {
    /// Print help information.
    Help,
    /// List all decks.
    List,
    /// Initialize a new deck and add it to the config.
    Init(InitArgs),
    /// Add an existing deck to the config.
    Add(AddArgs),
    /// Remove a deck from the config.
    Remove(RemoveArgs),
    /// Study a deck.
    Study(StudyArgs),
    /// Manage cards in a deck.
    Deck(DeckArgs),
}

/// Arguments of `init`: the new deck's id, or `.` for the current directory.
pub struct InitArgs {
    pub id: Option<String>,
}

/// Arguments of `add`: the deck's id, or `.` for the current directory.
pub struct AddArgs {
    pub id: Option<String>,
}

/// Arguments of `remove`: the id of the deck to forget.
pub struct RemoveArgs {
    pub id: Option<String>,
}

/// Arguments of `study`: the id of the deck to study.
pub struct StudyArgs {
    pub id: String,
}

/// Where a deck lives, relative to the current directory.
#[derive(Debug)]
pub enum DeckLocation {
    /// The current directory itself; the deck takes its name.
    CurrentDir,
    /// The subdirectory with this name, which is also the deck's id.
    SubDir(String),
}

/// `s` is the one-character text `.`.
pub open spec fn spec_is_dot(s: Seq<char>) -> bool {
    s.len() == 1 && s[0] == '.'
}

/// Where `init` puts the deck named `id`: an id that starts with `.` means the
/// current directory, any other the subdirectory of that name.
pub fn init_location(id: &String) -> (l: DeckLocation)
    requires
        id@.len() > 0,
    ensures
        id@[0] == '.' ==> l == DeckLocation::CurrentDir,
        id@[0] != '.' ==> l == DeckLocation::SubDir(*id),
{
    if id.as_str().get_char(0) == '.' {
        DeckLocation::CurrentDir
    } else {
        DeckLocation::SubDir(id.clone())
    }
}

impl AddArgs {
    /// Where the deck to add lives: the current directory when no id or `.` is
    /// given, the subdirectory of that name otherwise.
    pub fn location(&self) -> (l: DeckLocation)
        ensures
            self.id is Some && !spec_is_dot(self.id->0@) ==> l == DeckLocation::SubDir(self.id->0),
            self.id is None || spec_is_dot(self.id->0@) ==> l == DeckLocation::CurrentDir,
    {
        match &self.id {
            None => DeckLocation::CurrentDir,
            Some(id) => {
                let s = id.as_str();
                if s.unicode_len() == 1 && s.get_char(0) == '.' {
                    DeckLocation::CurrentDir
                } else {
                    DeckLocation::SubDir(id.clone())
                }
            },
        }
    }
}

/// What the entry picked in a list of decks or of cards asks for.
#[derive(Debug)]
pub enum MenuChoice {
    /// The `< Add new ... >` entry, whose value is `:add`.
    AddNew,
    /// The deck or card with this id.
    Open(String),
}

/// The value of the `< Add new ... >` entry in a list.
pub open spec fn spec_add_item() -> Seq<char> {
    seq![':', 'a', 'd', 'd']
}

/// Reads the value of the entry picked in a list.
pub fn menu_choice(value: &str) -> (c: MenuChoice)
    ensures
        value@ == spec_add_item() ==> c == MenuChoice::AddNew,
        value@ != spec_add_item() ==> (c matches MenuChoice::Open(id) && id@ == value@),
{
    let n = value.unicode_len();
    let is_add = n == 4 && value.get_char(0) == ':' && value.get_char(1) == 'a'
        && value.get_char(2) == 'd' && value.get_char(3) == 'd';
    if is_add {
        assert(value@ =~= spec_add_item());
        MenuChoice::AddNew
    } else {
        assert(value@ != spec_add_item());
        MenuChoice::Open(value.to_string())
    }
}

} // verus!
