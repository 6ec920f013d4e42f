//! The task store: an ordered sequence of tasks plus a monotonic id counter.
//!
//! Every task carries a stable identifier assigned at creation. Identifiers
//! are unique within a list and never reused; editing operations locate a
//! task by its identifier, never by its position.

use vstd::prelude::*;

use crate::num::{enc_nat, push_u32};

verus! {

/// The status word a rendered line shows for a done flag.
pub open spec fn status_text(done: bool) -> Seq<char> {
    if done {
        "[Completed]"@
    } else {
        "[Uncompleted]"@
    }
}

/// One rendered line of the listing: id, status, text.
pub open spec fn line_of(t: TaskModel) -> Seq<char> {
    "Id: "@ + enc_nat(t.id as nat) + " - Status: "@ + status_text(t.done) + "\nTask: "@ + t.text
}

/// Mathematical model of a single task.
#[verifier::ext_equal]
pub struct TaskModel {
    pub id: u32,
    pub text: Seq<char>,
    pub done: bool,
}

/// Mathematical model of a whole list: tasks in display order plus the
/// counter that the next added task will take as its id.
#[verifier::ext_equal]
pub struct ListModel {
    pub entries: Seq<TaskModel>,
    pub index: u32,
}

/// A single to-do record.
pub struct TodoElement {
    pub id: u32,
    pub text: String,
    pub done: bool,
}

impl View for TodoElement {
    type V = TaskModel;

    open spec fn view(&self) -> TaskModel {
        TaskModel { id: self.id, text: self.text@, done: self.done }
    }
}

/// The ordered collection of tasks plus the next id to assign.
pub struct TodoList {
    pub entries: Vec<TodoElement>,
    pub index: u32,
}

impl View for TodoList {
    type V = ListModel;

    open spec fn view(&self) -> ListModel {
        ListModel {
            entries: self.entries@.map_values(|e: TodoElement| e@),
            index: self.index,
        }
    }
}

/// Why a store operation was refused; the store is unchanged in every case.
#[derive(Clone, Copy, Debug, PartialEq, Eq, Structural)]
pub enum TodoError {
    /// `add` was given an empty text.
    EmptyText,
    /// No task in the list carries the given id.
    NotFound,
    /// The id counter has reached its maximum, so no id is left to assign.
    CounterFull,
}

/// Some task in `entries` carries the id `id`.
pub open spec fn has_id(entries: Seq<TaskModel>, id: u32) -> bool {
    exists|i: int| 0 <= i < entries.len() && entries[i].id == id
}

/// The position of the task carrying `id` (meaningful when `has_id` holds
/// and, under `wf_model`, unique).
pub open spec fn idx_of(entries: Seq<TaskModel>, id: u32) -> int {
    choose|i: int| 0 <= i < entries.len() && entries[i].id == id
}

/// Well-formedness of a list: every id is below the counter, and ids are
/// pairwise distinct.
pub open spec fn wf_model(l: ListModel) -> bool {
    &&& forall|i: int| 0 <= i < l.entries.len() ==> (#[trigger] l.entries[i]).id < l.index
    &&& forall|i: int, j: int|
        0 <= i < j < l.entries.len() ==> l.entries[i].id != l.entries[j].id
}

/// `add` succeeds exactly when the text is non-empty and an id is left.
pub open spec fn add_ok(l: ListModel, text: Seq<char>) -> bool {
    text.len() > 0 && l.index < u32::MAX
}

/// The list after a successful `add`: the new task is appended with the
/// counter as its id, and the counter moves up by one.
pub open spec fn spec_add(l: ListModel, text: Seq<char>) -> ListModel {
    ListModel {
        entries: l.entries.push(TaskModel { id: l.index, text, done: false }),
        index: (l.index + 1) as u32,
    }
}

/// The list after a successful `update_text`: the one task whose id matches
/// keeps its id and done flag and takes the new text.
pub open spec fn spec_update(l: ListModel, id: u32, text: Seq<char>) -> ListModel {
    let i = idx_of(l.entries, id);
    ListModel {
        entries: l.entries.update(i, TaskModel { id, text, done: l.entries[i].done }),
        index: l.index,
    }
}

/// The list after a successful `complete`: the one task whose id matches
/// keeps its id and text and has its done flag set.
pub open spec fn spec_complete(l: ListModel, id: u32) -> ListModel {
    let i = idx_of(l.entries, id);
    ListModel {
        entries: l.entries.update(i, TaskModel { id, text: l.entries[i].text, done: true }),
        index: l.index,
    }
}

/// The list after a run of successful `add` calls, one per text, in order.
pub open spec fn spec_add_all(l: ListModel, texts: Seq<Seq<char>>) -> ListModel
    decreases texts.len(),
{
    if texts.len() == 0 {
        l
    } else {
        spec_add_all(spec_add(l, texts[0]), texts.skip(1))
    }
}

proof fn lemma_add_all(l: ListModel, texts: Seq<Seq<char>>)
    requires
        l.index + texts.len() <= u32::MAX,
    ensures
        ({
            let r = spec_add_all(l, texts);
            &&& r.index == l.index + texts.len()
            &&& r.entries.len() == l.entries.len() + texts.len()
            &&& forall|k: int| 0 <= k < l.entries.len() ==> r.entries[k] == l.entries[k]
            &&& forall|k: int|
                0 <= k < texts.len() ==> r.entries[l.entries.len() + k] =~~= (TaskModel {
                    id: (l.index + k) as u32,
                    text: texts[k],
                    done: false,
                })
        }),
    decreases texts.len(),
{
    if texts.len() > 0 {
        lemma_add_all(spec_add(l, texts[0]), texts.skip(1));
        let r = spec_add_all(l, texts);
        let m = spec_add(l, texts[0]);
        assert forall|k: int| 1 <= k < texts.len() implies r.entries[l.entries.len() + k]
            =~~= (TaskModel { id: (l.index + k) as u32, text: texts[k], done: false }) by {
            assert(r.entries[m.entries.len() + (k - 1)] =~~= (TaskModel {
                id: (m.index + (k - 1)) as u32,
                text: texts.skip(1)[k - 1],
                done: false,
            }));
            assert(texts.skip(1)[k - 1] == texts[k]);
            assert(m.entries.len() + (k - 1) == l.entries.len() + k);
        };
    }
}

/// Id monotonicity: after a run of successful `add` calls on the empty list,
/// one per text, the ids assigned are exactly 0, 1, ... in order, and the
/// counter equals the number of tasks added.
pub proof fn lemma_id_monotonicity(texts: Seq<Seq<char>>)
    requires
        texts.len() <= u32::MAX,
    ensures
        ({
            let l = spec_add_all(ListModel { entries: Seq::empty(), index: 0 }, texts);
            &&& l.index == texts.len()
            &&& l.entries.len() == texts.len()
            &&& forall|k: int|
                0 <= k < texts.len() ==> (#[trigger] l.entries[k]) =~~= (TaskModel {
                    id: k as u32,
                    text: texts[k],
                    done: false,
                })
        }),
{
    lemma_add_all(ListModel { entries: Seq::empty(), index: 0 }, texts);
}

/// Identity stability: `update_text` and `complete` affect the task whose id
/// field equals the given id — under well-formedness that position is unique
/// — and leave every other task, and the counter, untouched.
pub proof fn lemma_identity_stability(l: ListModel, id: u32, text: Seq<char>)
    requires
        wf_model(l),
        has_id(l.entries, id),
    ensures
        ({
            let i = idx_of(l.entries, id);
            &&& 0 <= i < l.entries.len()
            &&& l.entries[i].id == id
            &&& forall|j: int| 0 <= j < l.entries.len() && l.entries[j].id == id ==> j == i
            &&& spec_update(l, id, text).entries[i] =~~= (TaskModel {
                id,
                text,
                done: l.entries[i].done,
            })
            &&& spec_complete(l, id).entries[i] =~~= (TaskModel {
                id,
                text: l.entries[i].text,
                done: true,
            })
            &&& spec_update(l, id, text).index == l.index
            &&& spec_complete(l, id).index == l.index
            &&& forall|j: int|
                0 <= j < l.entries.len() && j != idx_of(l.entries, id)
                    ==> spec_update(l, id, text).entries[j] == l.entries[j]
                    && spec_complete(l, id).entries[j] == l.entries[j]
        }),
{
    let i = idx_of(l.entries, id);
    assert(0 <= i < l.entries.len() && l.entries[i].id == id);
}

impl TodoElement {
    /// Builds a task record from its parts.
    pub fn new(id: u32, text: String, done: bool) -> (r: TodoElement)
        ensures
            r@ == (TaskModel { id, text: text@, done }),
    {
        TodoElement { id, text, done }
    }
}

impl TodoList {
    /// The empty list: no tasks, counter at zero.
    pub fn new() -> (r: TodoList)
        ensures
            r@.entries =~= Seq::<TaskModel>::empty(),
            r@.index == 0,
            wf_model(r@),
    {
        let r = TodoList { entries: Vec::new(), index: 0 };
        proof {
            assert(r@.entries =~= Seq::<TaskModel>::empty());
        }
        r
    }

    /// Appends a new task with the counter as its id and moves the counter
    /// up. Rejects an empty text and a spent counter, changing nothing.
    pub fn add(&mut self, text: String) -> (r: Result<u32, TodoError>)
        requires
            wf_model(old(self)@),
        ensures
            wf_model(final(self)@),
            match r {
                Ok(id) => {
                    &&& add_ok(old(self)@, text@)
                    &&& id == old(self)@.index
                    &&& final(self)@ =~~= spec_add(old(self)@, text@)
                },
                Err(e) => {
                    &&& !add_ok(old(self)@, text@)
                    &&& final(self)@ == old(self)@
                    &&& e == (if text@.len() == 0 { TodoError::EmptyText } else {
                        TodoError::CounterFull
                    })
                },
            },
    {
        if text.as_str().is_empty() {
            return Err(TodoError::EmptyText);
        }
        if self.index == u32::MAX {
            return Err(TodoError::CounterFull);
        }
        let id = self.index;
        let ghost pre = self@;
        let ghost t = text@;
        self.entries.push(TodoElement { id, text, done: false });
        self.index = id + 1;
        proof {
            assert(self@.entries =~~= pre.entries.push(TaskModel { id, text: t, done: false }));
        }
        Ok(id)
    }

    /// Replaces the text of the task whose id field equals `id`; reports
    /// `NotFound` and changes nothing when no task carries that id.
    pub fn update_text(&mut self, id: u32, text: String) -> (r: Result<(), TodoError>)
        requires
            wf_model(old(self)@),
        ensures
            wf_model(final(self)@),
            match r {
                Ok(()) => {
                    &&& has_id(old(self)@.entries, id)
                    &&& final(self)@ =~~= spec_update(old(self)@, id, text@)
                },
                Err(e) => {
                    &&& e == TodoError::NotFound
                    &&& !has_id(old(self)@.entries, id)
                    &&& final(self)@ == old(self)@
                },
            },
    {
        let ghost pre = self@;
        let n = self.entries.len();
        let mut i: usize = 0;
        while i < n
            invariant
                n == self.entries.len(),
                i <= n,
                *self == *old(self),
                wf_model(pre),
                pre == self@,
                forall|k: int| 0 <= k < i ==> pre.entries[k].id != id,
            decreases n - i,
        {
            if self.entries[i].id == id {
                let ghost tx = text@;
                let done = self.entries[i].done;
                self.entries[i] = TodoElement { id, text, done };
                proof {
                    assert(pre.entries[i as int].id == id);
                    assert(has_id(pre.entries, id));
                    let j = idx_of(pre.entries, id);
                    assert(0 <= j < pre.entries.len() && pre.entries[j].id == id);
                    if j != i {
                        assert(false);
                    }
                    assert(self@.entries =~~= spec_update(pre, id, tx).entries);
                    assert(forall|k: int|
                        0 <= k < self@.entries.len() ==> (#[trigger] self@.entries[k]).id
                            == pre.entries[k].id);
                }
                return Ok(());
            }
            i = i + 1;
        }
        proof {
            assert(!has_id(pre.entries, id));
        }
        Err(TodoError::NotFound)
    }

    /// Renders each task as one line, in display order; the list is not
    /// changed.
    pub fn list_all(&self) -> (r: Vec<String>)
        ensures
            r@.len() == self@.entries.len(),
            forall|i: int| 0 <= i < r@.len() ==> (#[trigger] r@[i])@ == line_of(self@.entries[i]),
    {
        let mut r: Vec<String> = Vec::new();
        let n = self.entries.len();
        let mut i: usize = 0;
        while i < n
            invariant
                i <= n,
                n == self.entries.len(),
                self@.entries.len() == n,
                r@.len() == i,
                forall|k: int| 0 <= k < i ==> (#[trigger] r@[k])@ == line_of(self@.entries[k]),
                forall|k: int| 0 <= k < n ==> #[trigger] self@.entries[k] == self.entries@[k]@,
            decreases n - i,
        {
            let e = &self.entries[i];
            let mut line = String::new();
            line.append("Id: ");
            push_u32(&mut line, e.id);
            line.append(" - Status: ");
            if e.done {
                line.append("[Completed]");
            } else {
                line.append("[Uncompleted]");
            }
            line.append("\nTask: ");
            line.append(e.text.as_str());
            proof {
                assert(line@ =~= line_of(self@.entries[i as int]));
            }
            r.push(line);
            i = i + 1;
        }
        r
    }

    /// Sets the done flag of the task whose id field equals `id`; reports
    /// `NotFound` and changes nothing when no task carries that id.
    pub fn complete(&mut self, id: u32) -> (r: Result<(), TodoError>)
        requires
            wf_model(old(self)@),
        ensures
            wf_model(final(self)@),
            match r {
                Ok(()) => {
                    &&& has_id(old(self)@.entries, id)
                    &&& final(self)@ =~~= spec_complete(old(self)@, id)
                },
                Err(e) => {
                    &&& e == TodoError::NotFound
                    &&& !has_id(old(self)@.entries, id)
                    &&& final(self)@ == old(self)@
                },
            },
    {
        let ghost pre = self@;
        let n = self.entries.len();
        let mut i: usize = 0;
        while i < n
            invariant
                n == self.entries.len(),
                i <= n,
                *self == *old(self),
                wf_model(pre),
                pre == self@,
                forall|k: int| 0 <= k < i ==> pre.entries[k].id != id,
            decreases n - i,
        {
            if self.entries[i].id == id {
                let text = self.entries[i].text.clone();
                self.entries[i] = TodoElement { id, text, done: true };
                proof {
                    assert(pre.entries[i as int].id == id);
                    assert(has_id(pre.entries, id));
                    let j = idx_of(pre.entries, id);
                    assert(0 <= j < pre.entries.len() && pre.entries[j].id == id);
                    if j != i {
                        assert(false);
                    }
                    assert(self@.entries =~~= spec_complete(pre, id).entries);
                    assert(forall|k: int|
                        0 <= k < self@.entries.len() ==> (#[trigger] self@.entries[k]).id
                            == pre.entries[k].id);
                }
                return Ok(());
            }
            i = i + 1;
        }
        proof {
            assert(!has_id(pre.entries, id));
        }
        Err(TodoError::NotFound)
    }
}

} // verus!
