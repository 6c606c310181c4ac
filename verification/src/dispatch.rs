use vstd::prelude::*;

use crate::cmd::Command;
use crate::ops::add_due_date;
use crate::ops::add_task;
use crate::ops::complete_task;
use crate::ops::delete_task;
use crate::ops::list_tasks;
use crate::ops::set_priority;
use crate::ops::{spec_add, spec_add_due_date, spec_complete, spec_delete, spec_render_lines};
use crate::ops::spec_set_priority;
use crate::task::Task;

verus! {

/// What one dispatched command leaves behind: whether the store changed and
/// must be persisted, and the lines to print, in order.
pub struct Outcome {
    pub save: bool,
    pub lines: Vec<String>,
}

/// The fixed usage block, printed for an unrecognised command line.
pub open spec fn spec_usage() -> Seq<Seq<char>> {
    seq![
        "Usage:"@,
        "todo add \"task\""@,
        "todo complete 1"@,
        "todo delete 1"@,
        "todo list"@,
        "todo priority 1 high"@,
        "todo end 1 \"2024-12-31\""@,
    ]
}

/// Runs the one operation a parsed command calls for.  Every command but
/// `List` mutates the store and asks for it to be persisted; `List` renders
/// it; no command at all yields the usage block.
pub fn dispatch(tasks: &mut Vec<Task>, cmd: Option<Command>) -> (out: Outcome)
    requires
        cmd matches Some(Command::Add(_)) ==> old(tasks)@.len() < u32::MAX,
    ensures
        match cmd {
            Some(Command::Add(title)) => final(tasks).deep_view() == spec_add(
                old(tasks).deep_view(),
                title@,
            ) && out.save && out.lines@.len() == 0,
            Some(Command::Complete(id)) => final(tasks).deep_view() == spec_complete(
                old(tasks).deep_view(),
                id,
            ) && out.save && out.lines@.len() == 0,
            Some(Command::Delete(id)) => final(tasks).deep_view() == spec_delete(
                old(tasks).deep_view(),
                id,
            ) && out.save && out.lines@.len() == 0,
            Some(Command::List) => final(tasks).deep_view() == old(tasks).deep_view() && !out.save
                && out.lines.deep_view() == spec_render_lines(old(tasks).deep_view()),
            Some(Command::Priority(id, p)) => final(tasks).deep_view() == spec_set_priority(
                old(tasks).deep_view(),
                id,
                p,
            ) && out.save && out.lines@.len() == 0,
            Some(Command::AddDueDate(id, d)) => final(tasks).deep_view() == spec_add_due_date(
                old(tasks).deep_view(),
                id,
                d@,
            ) && out.save && out.lines@.len() == 0,
            None => final(tasks).deep_view() == old(tasks).deep_view() && !out.save
                && out.lines.deep_view() == spec_usage(),
        },
{
    match cmd {
        Some(Command::Add(title)) => {
            add_task(tasks, title);
            Outcome { save: true, lines: Vec::new() }
        },
        Some(Command::Complete(id)) => {
            complete_task(tasks, id);
            Outcome { save: true, lines: Vec::new() }
        },
        Some(Command::Delete(id)) => {
            delete_task(tasks, id);
            Outcome { save: true, lines: Vec::new() }
        },
        Some(Command::List) => {
            let lines = list_tasks(tasks);
            Outcome { save: false, lines }
        },
        Some(Command::Priority(id, p)) => {
            set_priority(tasks, id, p);
            Outcome { save: true, lines: Vec::new() }
        },
        Some(Command::AddDueDate(id, d)) => {
            add_due_date(tasks, id, d);
            Outcome { save: true, lines: Vec::new() }
        },
        None => {
            let mut lines: Vec<String> = Vec::new();
            lines.push(String::from_str("Usage:"));
            lines.push(String::from_str("todo add \"task\""));
            lines.push(String::from_str("todo complete 1"));
            lines.push(String::from_str("todo delete 1"));
            lines.push(String::from_str("todo list"));
            lines.push(String::from_str("todo priority 1 high"));
            lines.push(String::from_str("todo end 1 \"2024-12-31\""));
            proof {
                assert(lines.deep_view() =~= spec_usage());
            }
            Outcome { save: false, lines }
        },
    }
}

} // verus!
