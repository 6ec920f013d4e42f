//! Dispatch: one parsed command acts on the store and yields what the
//! surrounding program must do next — lines to print, a file to write or
//! read, or the wish to stop.

use vstd::prelude::*;

use crate::list::{
    TaskModel, TodoError, TodoList, add_ok, has_id, line_of, spec_add, spec_complete, spec_update,
    wf_model,
};
use crate::parse::{CmdModel, Command, msg_add, msg_range};
use crate::storage::{enc_list, p_list};

verus! {

/// What the surrounding program must do after a command was dispatched.
pub enum Action {
    /// Show these lines, in order.
    Print(Vec<String>),
    /// Write the second text to the file of the first name.
    Save(String, String),
    /// Read the file of this name and hand its text to `load_text`.
    Load(String),
    /// Stop reading commands.
    Exit,
}

/// The lines the help command shows.
pub open spec fn help_lines() -> Seq<Seq<char>> {
    seq![
        "Commands:"@,
        "help | Lists the available options"@,
        "add [-text] | adds a new ToDo element with your description"@,
        "list | Lists all the ToDo elements"@,
        "update [-id] [-text] | Updates the element with that id with the new text"@,
        "complete [-id] | Marks the element with that id as completed"@,
        "save [-filename] | Saves the current list to the specified file"@,
        "load [-filename] | Loads the specified list"@,
        "new | creates a new empty list"@,
        "exit | Close the program"@,
    ]
}

/// The message shown when the id counter is spent.
pub open spec fn msg_counter_full() -> Seq<char> {
    "No id is left to assign: the list cannot take another task"@
}

/// The message shown when a stored list cannot be read back.
pub open spec fn msg_load_failed() -> Seq<char> {
    "Unable to read Todo list, are you sure the file exists?"@
}

/// The help text, one line per entry.
pub fn help() -> (r: Vec<String>)
    ensures
        r@.map_values(|t: String| t@) == help_lines(),
{
    let mut v: Vec<String> = Vec::new();
    v.push(String::from_str("Commands:"));
    v.push(String::from_str("help | Lists the available options"));
    v.push(String::from_str("add [-text] | adds a new ToDo element with your description"));
    v.push(String::from_str("list | Lists all the ToDo elements"));
    v.push(
        String::from_str(
            "update [-id] [-text] | Updates the element with that id with the new text",
        ),
    );
    v.push(String::from_str("complete [-id] | Marks the element with that id as completed"));
    v.push(String::from_str("save [-filename] | Saves the current list to the specified file"));
    v.push(String::from_str("load [-filename] | Loads the specified list"));
    v.push(String::from_str("new | creates a new empty list"));
    v.push(String::from_str("exit | Close the program"));
    proof {
        assert(v@.map_values(|t: String| t@) =~~= help_lines());
    }
    v
}

fn one_line(text: &str) -> (r: Vec<String>)
    ensures
        r@.len() == 1,
        r@[0]@ == text@,
{
    let mut v: Vec<String> = Vec::new();
    v.push(String::from_str(text));
    v
}

impl TodoList {
    /// Performs one command on the store and says what to do next. The store
    /// changes exactly as the command asks; a command that performs no store
    /// work leaves it untouched.
    pub fn step(&mut self, cmd: Command) -> (a: Action)
        requires
            wf_model(old(self)@),
        ensures
            wf_model(final(self)@),
            match cmd@ {
                CmdModel::Help => final(self)@ == old(self)@ && (a matches Action::Print(v)
                    && v@.map_values(|t: String| t@) == help_lines()),
                CmdModel::ListAll => final(self)@ == old(self)@ && (a matches Action::Print(v)
                    && v@.len() == old(self)@.entries.len() && (forall|i: int|
                    0 <= i < v@.len() ==> (#[trigger] v@[i])@ == line_of(old(self)@.entries[i]))),
                CmdModel::Add(text) => if add_ok(old(self)@, text) {
                    final(self)@ =~~= spec_add(old(self)@, text) && (a matches Action::Print(v)
                        && v@.len() == 0)
                } else {
                    final(self)@ == old(self)@ && (a matches Action::Print(v) && v@.len() == 1
                        && v@[0]@ == (if text.len() == 0 {
                        msg_add()
                    } else {
                        msg_counter_full()
                    }))
                },
                CmdModel::UpdateText(id, text) => if has_id(old(self)@.entries, id) {
                    final(self)@ =~~= spec_update(old(self)@, id, text) && (a matches
                    Action::Print(v) && v@.len() == 0)
                } else {
                    final(self)@ == old(self)@ && (a matches Action::Print(v) && v@.len() == 1
                        && v@[0]@ == msg_range())
                },
                CmdModel::Complete(id) => if has_id(old(self)@.entries, id) {
                    final(self)@ =~~= spec_complete(old(self)@, id) && (a matches Action::Print(v)
                        && v@.len() == 0)
                } else {
                    final(self)@ == old(self)@ && (a matches Action::Print(v) && v@.len() == 1
                        && v@[0]@ == msg_range())
                },
                CmdModel::Error(m) => final(self)@ == old(self)@ && (a matches Action::Print(v)
                    && v@.len() == 1 && v@[0]@ == m),
                CmdModel::New => final(self)@.entries =~= Seq::<TaskModel>::empty()
                    && final(self)@.index == 0 && (a matches Action::Print(v) && v@.len() == 0),
                CmdModel::Load(f) => final(self)@ == old(self)@ && (a matches Action::Load(name)
                    && name@ == f),
                CmdModel::Save(f) => final(self)@ == old(self)@ && (a matches Action::Save(
                    name,
                    content,
                ) && name@ == f && content@ == enc_list(old(self)@)),
                CmdModel::Exit => final(self)@ == old(self)@ && a is Exit,
            },
    {
        match cmd {
            Command::Help => Action::Print(help()),
            Command::ListAll => Action::Print(self.list_all()),
            Command::Add(text) => {
                let ghost t = text@;
                match self.add(text) {
                    Ok(_) => Action::Print(Vec::new()),
                    Err(TodoError::EmptyText) => Action::Print(
                        one_line("[add] requires a non-empty text parameter [-text]"),
                    ),
                    Err(_) => Action::Print(
                        one_line("No id is left to assign: the list cannot take another task"),
                    ),
                }
            },
            Command::UpdateText(id, text) => {
                match self.update_text(id, text) {
                    Ok(_) => Action::Print(Vec::new()),
                    Err(_) => Action::Print(
                        one_line(
                            "The specified index is outside of the element range. Try [list] to check the indexes",
                        ),
                    ),
                }
            },
            Command::Complete(id) => {
                match self.complete(id) {
                    Ok(_) => Action::Print(Vec::new()),
                    Err(_) => Action::Print(
                        one_line(
                            "The specified index is outside of the element range. Try [list] to check the indexes",
                        ),
                    ),
                }
            },
            Command::Error(m) => {
                let mut v: Vec<String> = Vec::new();
                v.push(m);
                Action::Print(v)
            },
            Command::New => {
                *self = TodoList::new();
                Action::Print(Vec::new())
            },
            Command::Load(name) => Action::Load(name),
            Command::Save(name) => {
                let content = self.to_storage();
                Action::Save(name, content)
            },
            Command::Exit => Action::Exit,
        }
    }

    /// Takes the text read back from a file: a text that carries exactly one
    /// well-formed record replaces the store; any other text leaves the store
    /// unchanged and yields the message to show.
    pub fn load_text(&mut self, content: &str) -> (r: Vec<String>)
        requires
            wf_model(old(self)@),
        ensures
            wf_model(final(self)@),
            match p_list(content@) {
                Some(m) => final(self)@ == m && r@.len() == 0,
                None => final(self)@ == old(self)@ && r@.len() == 1 && r@[0]@
                    == msg_load_failed(),
            },
    {
        match TodoList::from_storage(content) {
            Some(l) => {
                *self = l;
                Vec::new()
            },
            None => one_line("Unable to read Todo list, are you sure the file exists?"),
        }
    }
}

} // verus!
