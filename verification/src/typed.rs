//! Commands that are typed by name, with arguments.

use crate::strings;
use vstd::prelude::*;

verus! {

/// What a typed command does.
#[derive(Clone, Copy, Debug, PartialEq, Eq, Structural)]
pub enum Typed {
    Quit,
    ForceQuit,
    Open,
    Write,
    NewFile,
    Format,
    SetIndentStyle,
    Earlier,
    Later,
    WriteQuit,
    ForceWriteQuit,
    WriteAll,
    WriteAllQuit,
    ForceWriteAllQuit,
    QuitAll,
    ForceQuitAll,
}

/// What completes the arguments of a command.
#[derive(Clone, Copy, Debug, PartialEq, Eq, Structural)]
pub enum Completer {
    Filename,
}

/// A command that is typed by name.
#[derive(Clone, Copy, Debug)]
pub struct TypableCommand {
    pub name: &'static str,
    pub alias: Option<&'static str>,
    pub doc: &'static str,
    pub fun: Typed,
    pub completer: Option<Completer>,
}

/// Every command that can be typed, in the order in which they are offered.
pub const TYPABLE_COMMAND_LIST: [Typed; 16] = [
    Typed::Quit,
    Typed::ForceQuit,
    Typed::Open,
    Typed::Write,
    Typed::NewFile,
    Typed::Format,
    Typed::SetIndentStyle,
    Typed::Earlier,
    Typed::Later,
    Typed::WriteQuit,
    Typed::ForceWriteQuit,
    Typed::WriteAll,
    Typed::WriteAllQuit,
    Typed::ForceWriteAllQuit,
    Typed::QuitAll,
    Typed::ForceQuitAll,
];

impl Typed {
    /// The name that the command is typed by.
    pub open spec fn named(self) -> Seq<char> {
        match self {
            Typed::Quit => "quit"@,
            Typed::ForceQuit => "quit!"@,
            Typed::Open => "open"@,
            Typed::Write => "write"@,
            Typed::NewFile => "new"@,
            Typed::Format => "format"@,
            Typed::SetIndentStyle => "indent-style"@,
            Typed::Earlier => "earlier"@,
            Typed::Later => "later"@,
            Typed::WriteQuit => "write-quit"@,
            Typed::ForceWriteQuit => "write-quit!"@,
            Typed::WriteAll => "write-all"@,
            Typed::WriteAllQuit => "write-quit-all"@,
            Typed::ForceWriteAllQuit => "write-quit-all!"@,
            Typed::QuitAll => "quit-all"@,
            Typed::ForceQuitAll => "quit-all!"@,
        }
    }

    /// The shorter name that it can be typed by too.
    pub open spec fn aliased(self) -> Option<Seq<char>> {
        match self {
            Typed::Quit => Some("q"@),
            Typed::ForceQuit => Some("q!"@),
            Typed::Open => Some("o"@),
            Typed::Write => Some("w"@),
            Typed::NewFile => Some("n"@),
            Typed::Format => Some("fmt"@),
            Typed::SetIndentStyle => None,
            Typed::Earlier => Some("ear"@),
            Typed::Later => Some("lat"@),
            Typed::WriteQuit => Some("wq"@),
            Typed::ForceWriteQuit => Some("wq!"@),
            Typed::WriteAll => Some("wa"@),
            Typed::WriteAllQuit => Some("wqa"@),
            Typed::ForceWriteAllQuit => Some("wqa!"@),
            Typed::QuitAll => Some("qa"@),
            Typed::ForceQuitAll => Some("qa!"@),
        }
    }

    /// What is said of it.
    pub open spec fn documented(self) -> Seq<char> {
        match self {
            Typed::Quit => "Close the current view."@,
            Typed::ForceQuit => "Close the current view."@,
            Typed::Open => "Open a file from disk into the current view."@,
            Typed::Write => "Write changes to disk. Accepts an optional path (:write some/path.txt)"@,
            Typed::NewFile => "Create a new scratch buffer."@,
            Typed::Format => "Format the file using a formatter."@,
            Typed::SetIndentStyle => "Set the indentation style for editing. ('t' for tabs or 1-8 for number of spaces.)"@,
            Typed::Earlier => "Jump back to an earlier point in edit history. Accepts a number of steps or a time span."@,
            Typed::Later => "Jump to a later point in edit history. Accepts a number of steps or a time span."@,
            Typed::WriteQuit => "Writes changes to disk and closes the current view. Accepts an optional path (:wq some/path.txt)"@,
            Typed::ForceWriteQuit => "Writes changes to disk and closes the current view forcefully. Accepts an optional path (:wq! some/path.txt)"@,
            Typed::WriteAll => "Writes changes from all views to disk."@,
            Typed::WriteAllQuit => "Writes changes from all views to disk and close all views."@,
            Typed::ForceWriteAllQuit => "Writes changes from all views to disk and close all views forcefully (ignoring unsaved changes)."@,
            Typed::QuitAll => "Close all views."@,
            Typed::ForceQuitAll => "Close all views forcefully (ignoring unsaved changes)."@,
        }
    }

    /// What completes its arguments: the names of files, for the commands that
    /// take one, and for the one that makes a new file.
    pub open spec fn completed(self) -> Option<Completer> {
        match self {
            Typed::Open
            | Typed::Write
            | Typed::NewFile
            | Typed::WriteQuit
            | Typed::ForceWriteQuit => Some(Completer::Filename),
            _ => None,
        }
    }

    /// Where it stands in the list.
    pub open spec fn index(self) -> int {
        match self {
            Typed::Quit => 0,
            Typed::ForceQuit => 1,
            Typed::Open => 2,
            Typed::Write => 3,
            Typed::NewFile => 4,
            Typed::Format => 5,
            Typed::SetIndentStyle => 6,
            Typed::Earlier => 7,
            Typed::Later => 8,
            Typed::WriteQuit => 9,
            Typed::ForceWriteQuit => 10,
            Typed::WriteAll => 11,
            Typed::WriteAllQuit => 12,
            Typed::ForceWriteAllQuit => 13,
            Typed::QuitAll => 14,
            Typed::ForceQuitAll => 15,
        }
    }

    /// Whether it can be typed this way: by its name or by its alias.
    pub open spec fn called(self, s: Seq<char>) -> bool {
        self.named() == s || self.aliased() == Some(s)
    }

    /// The command with its name, its alias and what is said of it.
    pub fn command(self) -> (command: TypableCommand)
        ensures
            command.name@ == self.named(),
            match command.alias {
                Some(alias) => self.aliased() == Some(alias@),
                None => self.aliased() is None,
            },
            command.doc@ == self.documented(),
            command.fun == self,
            command.completer == self.completed(),
    {
        match self {
            Typed::Quit => TypableCommand {
                name: "quit",
                alias: Some("q"),
                doc: "Close the current view.",
                fun: self,
                completer: None,
            },
            Typed::ForceQuit => TypableCommand {
                name: "quit!",
                alias: Some("q!"),
                doc: "Close the current view.",
                fun: self,
                completer: None,
            },
            Typed::Open => TypableCommand {
                name: "open",
                alias: Some("o"),
                doc: "Open a file from disk into the current view.",
                fun: self,
                completer: Some(Completer::Filename),
            },
            Typed::Write => TypableCommand {
                name: "write",
                alias: Some("w"),
                doc: "Write changes to disk. Accepts an optional path (:write some/path.txt)",
                fun: self,
                completer: Some(Completer::Filename),
            },
            Typed::NewFile => TypableCommand {
                name: "new",
                alias: Some("n"),
                doc: "Create a new scratch buffer.",
                fun: self,
                completer: Some(Completer::Filename),
            },
            Typed::Format => TypableCommand {
                name: "format",
                alias: Some("fmt"),
                doc: "Format the file using a formatter.",
                fun: self,
                completer: None,
            },
            Typed::SetIndentStyle => TypableCommand {
                name: "indent-style",
                alias: None,
                doc: "Set the indentation style for editing. ('t' for tabs or 1-8 for number of spaces.)",
                fun: self,
                completer: None,
            },
            Typed::Earlier => TypableCommand {
                name: "earlier",
                alias: Some("ear"),
                doc: "Jump back to an earlier point in edit history. Accepts a number of steps or a time span.",
                fun: self,
                completer: None,
            },
            Typed::Later => TypableCommand {
                name: "later",
                alias: Some("lat"),
                doc: "Jump to a later point in edit history. Accepts a number of steps or a time span.",
                fun: self,
                completer: None,
            },
            Typed::WriteQuit => TypableCommand {
                name: "write-quit",
                alias: Some("wq"),
                doc: "Writes changes to disk and closes the current view. Accepts an optional path (:wq some/path.txt)",
                fun: self,
                completer: Some(Completer::Filename),
            },
            Typed::ForceWriteQuit => TypableCommand {
                name: "write-quit!",
                alias: Some("wq!"),
                doc: "Writes changes to disk and closes the current view forcefully. Accepts an optional path (:wq! some/path.txt)",
                fun: self,
                completer: Some(Completer::Filename),
            },
            Typed::WriteAll => TypableCommand {
                name: "write-all",
                alias: Some("wa"),
                doc: "Writes changes from all views to disk.",
                fun: self,
                completer: None,
            },
            Typed::WriteAllQuit => TypableCommand {
                name: "write-quit-all",
                alias: Some("wqa"),
                doc: "Writes changes from all views to disk and close all views.",
                fun: self,
                completer: None,
            },
            Typed::ForceWriteAllQuit => TypableCommand {
                name: "write-quit-all!",
                alias: Some("wqa!"),
                doc: "Writes changes from all views to disk and close all views forcefully (ignoring unsaved changes).",
                fun: self,
                completer: None,
            },
            Typed::QuitAll => TypableCommand {
                name: "quit-all",
                alias: Some("qa"),
                doc: "Close all views.",
                fun: self,
                completer: None,
            },
            Typed::ForceQuitAll => TypableCommand {
                name: "quit-all!",
                alias: Some("qa!"),
                doc: "Close all views forcefully (ignoring unsaved changes).",
                fun: self,
                completer: None,
            },
        }
    }

    /// What tells the names and aliases apart: the length, and the characters at
    /// both ends.
    spec fn key(s: Seq<char>) -> (nat, char, char) {
        (s.len(), s[0], s[s.len() - 1])
    }

    /// The command whose name or alias has the key.
    spec fn with_key(key: (nat, char, char)) -> Typed {
        if key == (4nat, 'q', 't') {
            Typed::Quit
        } else if key == (1nat, 'q', 'q') {
            Typed::Quit
        } else if key == (5nat, 'q', '!') {
            Typed::ForceQuit
        } else if key == (2nat, 'q', '!') {
            Typed::ForceQuit
        } else if key == (4nat, 'o', 'n') {
            Typed::Open
        } else if key == (1nat, 'o', 'o') {
            Typed::Open
        } else if key == (5nat, 'w', 'e') {
            Typed::Write
        } else if key == (1nat, 'w', 'w') {
            Typed::Write
        } else if key == (3nat, 'n', 'w') {
            Typed::NewFile
        } else if key == (1nat, 'n', 'n') {
            Typed::NewFile
        } else if key == (6nat, 'f', 't') {
            Typed::Format
        } else if key == (3nat, 'f', 't') {
            Typed::Format
        } else if key == (12nat, 'i', 'e') {
            Typed::SetIndentStyle
        } else if key == (7nat, 'e', 'r') {
            Typed::Earlier
        } else if key == (3nat, 'e', 'r') {
            Typed::Earlier
        } else if key == (5nat, 'l', 'r') {
            Typed::Later
        } else if key == (3nat, 'l', 't') {
            Typed::Later
        } else if key == (10nat, 'w', 't') {
            Typed::WriteQuit
        } else if key == (2nat, 'w', 'q') {
            Typed::WriteQuit
        } else if key == (11nat, 'w', '!') {
            Typed::ForceWriteQuit
        } else if key == (3nat, 'w', '!') {
            Typed::ForceWriteQuit
        } else if key == (9nat, 'w', 'l') {
            Typed::WriteAll
        } else if key == (2nat, 'w', 'a') {
            Typed::WriteAll
        } else if key == (14nat, 'w', 'l') {
            Typed::WriteAllQuit
        } else if key == (3nat, 'w', 'a') {
            Typed::WriteAllQuit
        } else if key == (15nat, 'w', '!') {
            Typed::ForceWriteAllQuit
        } else if key == (4nat, 'w', '!') {
            Typed::ForceWriteAllQuit
        } else if key == (8nat, 'q', 'l') {
            Typed::QuitAll
        } else if key == (2nat, 'q', 'a') {
            Typed::QuitAll
        } else if key == (9nat, 'q', '!') {
            Typed::ForceQuitAll
        } else {
            Typed::ForceQuitAll
        }
    }

    proof fn lemma_key(self)
        ensures
            Typed::with_key(Typed::key(self.named())) == self,
            self.aliased() matches Some(alias) ==> Typed::with_key(Typed::key(alias)) == self,
    {
        match self {
            Typed::Quit => {
                reveal_strlit("quit");
                reveal_strlit("q");
            },
            Typed::ForceQuit => {
                reveal_strlit("quit!");
                reveal_strlit("q!");
            },
            Typed::Open => {
                reveal_strlit("open");
                reveal_strlit("o");
            },
            Typed::Write => {
                reveal_strlit("write");
                reveal_strlit("w");
            },
            Typed::NewFile => {
                reveal_strlit("new");
                reveal_strlit("n");
            },
            Typed::Format => {
                reveal_strlit("format");
                reveal_strlit("fmt");
            },
            Typed::SetIndentStyle => {
                reveal_strlit("indent-style");
            },
            Typed::Earlier => {
                reveal_strlit("earlier");
                reveal_strlit("ear");
            },
            Typed::Later => {
                reveal_strlit("later");
                reveal_strlit("lat");
            },
            Typed::WriteQuit => {
                reveal_strlit("write-quit");
                reveal_strlit("wq");
            },
            Typed::ForceWriteQuit => {
                reveal_strlit("write-quit!");
                reveal_strlit("wq!");
            },
            Typed::WriteAll => {
                reveal_strlit("write-all");
                reveal_strlit("wa");
            },
            Typed::WriteAllQuit => {
                reveal_strlit("write-quit-all");
                reveal_strlit("wqa");
            },
            Typed::ForceWriteAllQuit => {
                reveal_strlit("write-quit-all!");
                reveal_strlit("wqa!");
            },
            Typed::QuitAll => {
                reveal_strlit("quit-all");
                reveal_strlit("qa");
            },
            Typed::ForceQuitAll => {
                reveal_strlit("quit-all!");
                reveal_strlit("qa!");
            },
        }
    }

    /// No two commands can be typed the same way, neither by name nor by alias.
    pub proof fn names_are_distinct(a: Typed, b: Typed, s: Seq<char>)
        requires
            a.called(s),
            b.called(s),
        ensures
            a == b,
    {
        a.lemma_key();
        b.lemma_key();
    }

    /// Every command stands in the list, at its index.
    pub proof fn lemma_listed(self)
        ensures
            0 <= self.index() < TYPABLE_COMMAND_LIST@.len(),
            TYPABLE_COMMAND_LIST@[self.index()] == self,
    {
    }
}

/// The command that is typed this way, if there is one.
pub open spec fn command_called(s: Seq<char>) -> Option<Typed> {
    if exists|typed: Typed| typed.called(s) {
        Some(choose|typed: Typed| typed.called(s))
    } else {
        None
    }
}

/// The command that is typed this way.
pub proof fn lemma_command_called(typed: Typed, s: Seq<char>)
    requires
        typed.called(s),
    ensures
        command_called(s) == Some(typed),
{
    Typed::names_are_distinct(typed, choose|other: Typed| other.called(s), s);
}

/// The command that is typed this way, if there is one.
pub fn get(s: &str) -> (typed: Option<Typed>)
    ensures
        typed == command_called(s@),
{
    let mut i: usize = 0;
    while i < TYPABLE_COMMAND_LIST.len()
        invariant
            i <= TYPABLE_COMMAND_LIST@.len(),
            forall|j: int| 0 <= j < i ==> !(#[trigger] TYPABLE_COMMAND_LIST@[j]).called(s@),
        decreases TYPABLE_COMMAND_LIST@.len() - i,
    {
        let typed = TYPABLE_COMMAND_LIST[i];
        let command = typed.command();
        let aliased = match command.alias {
            Some(alias) => strings::same(alias, s),
            None => false,
        };
        if aliased || strings::same(command.name, s) {
            proof {
                lemma_command_called(typed, s@);
            }
            return Some(typed);
        }
        i += 1;
    }
    assert forall|typed: Typed| !(#[trigger] typed.called(s@)) by {
        typed.lemma_listed();
    }
    None
}

} // verus!
