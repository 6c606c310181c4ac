use vstd::prelude::*;

verus! {

/// Urgency level a task may carry.  It is entered on the command line as a
/// lower-case token and stored and displayed with a capitalised tag.
#[derive(Clone, Copy, Debug, PartialEq, Eq, Structural)]
pub enum Priority {
    Low,
    Medium,
    High,
}

/// One trackable item of the store.
///
/// `id` is assigned as the store's length plus one at creation time, so after
/// a deletion a fresh task may share its id with a surviving one; operations
/// that take an id act on the first record that carries it.
#[derive(Clone, Debug, PartialEq)]
pub struct Task {
    pub id: u32,
    pub title: String,
    pub completed: bool,
    pub due_date: Option<String>,
    pub priority: Option<Priority>,
}

/// Mathematical image of a task: the title and due date as character
/// sequences, the other fields as themselves.
#[verifier::ext_equal]
pub struct TaskView {
    pub id: u32,
    pub title: Seq<char>,
    pub completed: bool,
    pub due_date: Option<Seq<char>>,
    pub priority: Option<Priority>,
}

impl DeepView for Task {
    type V = TaskView;

    open spec fn deep_view(&self) -> TaskView {
        TaskView {
            id: self.id,
            title: self.title@,
            completed: self.completed,
            due_date: self.due_date.deep_view(),
            priority: self.priority,
        }
    }
}

} // verus!
