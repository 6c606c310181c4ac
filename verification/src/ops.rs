use vstd::prelude::*;

use crate::num::{dec_digits, push_dec};
use crate::task::{Priority, Task, TaskView};

verus! {

/// Index of the first record carrying `id`, if any.
pub open spec fn spec_first_with_id(s: Seq<TaskView>, id: u32) -> Option<int>
    decreases s.len(),
{
    if s.len() == 0 {
        None
    } else if s[0].id == id {
        Some(0)
    } else {
        match spec_first_with_id(s.skip(1), id) {
            None => None,
            Some(j) => Some(j + 1),
        }
    }
}

/// The same record with its completion flag raised.
pub open spec fn spec_mark_completed(t: TaskView) -> TaskView {
    TaskView {
        id: t.id,
        title: t.title,
        completed: true,
        due_date: t.due_date,
        priority: t.priority,
    }
}

/// The same record with the due date set.
pub open spec fn spec_with_due(t: TaskView, d: Seq<char>) -> TaskView {
    TaskView {
        id: t.id,
        title: t.title,
        completed: t.completed,
        due_date: Some(d),
        priority: t.priority,
    }
}

/// The same record with the priority set.
pub open spec fn spec_with_priority(t: TaskView, p: Priority) -> TaskView {
    TaskView {
        id: t.id,
        title: t.title,
        completed: t.completed,
        due_date: t.due_date,
        priority: Some(p),
    }
}

/// Appending a fresh record: its id is the store's length plus one, and it
/// starts incomplete, without due date or priority.
pub open spec fn spec_add(s: Seq<TaskView>, title: Seq<char>) -> Seq<TaskView> {
    s.push(
        TaskView {
            id: (s.len() + 1) as u32,
            title: title,
            completed: false,
            due_date: None,
            priority: None,
        },
    )
}

/// Completing: the first record carrying `id` has its flag raised; a store
/// with no such record is left as it is.
pub open spec fn spec_complete(s: Seq<TaskView>, id: u32) -> Seq<TaskView> {
    match spec_first_with_id(s, id) {
        None => s,
        Some(j) => s.update(j, spec_mark_completed(s[j])),
    }
}

/// Setting a priority on the first record carrying `id`; no-op otherwise.
pub open spec fn spec_set_priority(s: Seq<TaskView>, id: u32, p: Priority) -> Seq<TaskView> {
    match spec_first_with_id(s, id) {
        None => s,
        Some(j) => s.update(j, spec_with_priority(s[j], p)),
    }
}

/// Setting a due date on the first record carrying `id`; no-op otherwise.
pub open spec fn spec_add_due_date(s: Seq<TaskView>, id: u32, d: Seq<char>) -> Seq<TaskView> {
    match spec_first_with_id(s, id) {
        None => s,
        Some(j) => s.update(j, spec_with_due(s[j], d)),
    }
}

/// Deleting: every record carrying `id` goes, the rest keep their order.
pub open spec fn spec_delete(s: Seq<TaskView>, id: u32) -> Seq<TaskView> {
    s.filter(|t: TaskView| t.id != id)
}

/// What `spec_first_with_id` finds is the first match.
pub proof fn lemma_first_with_id(s: Seq<TaskView>, id: u32)
    ensures
        match spec_first_with_id(s, id) {
            None => forall|k: int| 0 <= k < s.len() ==> (#[trigger] s[k]).id != id,
            Some(j) => 0 <= j < s.len() && s[j].id == id && forall|k: int|
                0 <= k < j ==> (#[trigger] s[k]).id != id,
        },
    decreases s.len(),
{
    if s.len() == 0 {
    } else if s[0].id == id {
    } else {
        lemma_first_with_id(s.skip(1), id);
        match spec_first_with_id(s.skip(1), id) {
            None => {
                assert forall|k: int| 0 <= k < s.len() implies (#[trigger] s[k]).id != id by {
                    if k > 0 {
                        assert(s.skip(1)[k - 1] == s[k]);
                    }
                }
            },
            Some(j) => {
                assert(s.skip(1)[j] == s[j + 1]);
                assert forall|k: int| 0 <= k < j + 1 implies (#[trigger] s[k]).id != id by {
                    if k > 0 {
                        assert(s.skip(1)[k - 1] == s[k]);
                    }
                }
            },
        }
    }
}

/// A first match at `j` is what `spec_first_with_id` returns.
pub proof fn lemma_first_with_id_at(s: Seq<TaskView>, id: u32, j: int)
    requires
        0 <= j < s.len(),
        s[j].id == id,
        forall|k: int| 0 <= k < j ==> (#[trigger] s[k]).id != id,
    ensures
        spec_first_with_id(s, id) == Some(j),
    decreases s.len(),
{
    if j == 0 {
    } else {
        assert(forall|k: int| 0 <= k < s.len() - 1 ==> s.skip(1)[k] == s[k + 1]);
        lemma_first_with_id_at(s.skip(1), id, j - 1);
    }
}

/// With no match at all, `spec_first_with_id` finds none.
pub proof fn lemma_first_with_id_none(s: Seq<TaskView>, id: u32)
    requires
        forall|k: int| 0 <= k < s.len() ==> (#[trigger] s[k]).id != id,
    ensures
        spec_first_with_id(s, id) is None,
    decreases s.len(),
{
    if s.len() > 0 {
        assert(forall|k: int| 0 <= k < s.len() - 1 ==> s.skip(1)[k] == s[k + 1]);
        lemma_first_with_id_none(s.skip(1), id);
    }
}

/// An exact copy of an option of text.
fn clone_opt_string(o: &Option<String>) -> (r: Option<String>)
    ensures
        r.deep_view() == o.deep_view(),
{
    match o {
        Some(d) => Some(d.clone()),
        None => None,
    }
}

/// An exact copy of a record.
fn clone_task(t: &Task) -> (r: Task)
    ensures
        r.deep_view() == t.deep_view(),
{
    Task {
        id: t.id,
        title: t.title.clone(),
        completed: t.completed,
        due_date: clone_opt_string(&t.due_date),
        priority: t.priority,
    }
}

/// Position of the first record carrying `id`, if any.
pub fn find_task(tasks: &Vec<Task>, id: u32) -> (r: Option<usize>)
    ensures
        match r {
            None => spec_first_with_id(tasks.deep_view(), id) is None,
            Some(i) => i < tasks@.len() && spec_first_with_id(tasks.deep_view(), id) == Some(
                i as int,
            ),
        },
{
    let mut i: usize = 0;
    while i < tasks.len()
        invariant
            0 <= i <= tasks@.len(),
            forall|k: int| 0 <= k < i ==> (#[trigger] tasks.deep_view()[k]).id != id,
        decreases tasks@.len() - i,
    {
        if tasks[i].id == id {
            proof {
                assert(tasks.deep_view()[i as int].id == id);
                lemma_first_with_id_at(tasks.deep_view(), id, i as int);
            }
            return Some(i);
        }
        proof {
            assert(tasks.deep_view()[i as int].id != id);
        }
        i = i + 1;
    }
    proof {
        lemma_first_with_id_none(tasks.deep_view(), id);
    }
    None
}

/// Appends a fresh record titled `title`.
pub fn add_task(tasks: &mut Vec<Task>, title: String)
    requires
        old(tasks)@.len() < u32::MAX,
    ensures
        final(tasks).deep_view() == spec_add(old(tasks).deep_view(), title@),
{
    let ghost tv = title@;
    let id = tasks.len() as u32 + 1;
    tasks.push(
        Task { id, title, completed: false, due_date: None, priority: None },
    );
    proof {
        assert(tasks.deep_view() =~= spec_add(old(tasks).deep_view(), tv));
    }
}

/// Raises the completion flag of the first record carrying `id`.
pub fn complete_task(tasks: &mut Vec<Task>, id: u32)
    ensures
        final(tasks).deep_view() == spec_complete(old(tasks).deep_view(), id),
{
    match find_task(tasks, id) {
        None => {},
        Some(i) => {
            let t = Task {
                id: tasks[i].id,
                title: tasks[i].title.clone(),
                completed: true,
                due_date: clone_opt_string(&tasks[i].due_date),
                priority: tasks[i].priority,
            };
            tasks[i] = t;
            proof {
                assert(tasks.deep_view() =~= spec_complete(old(tasks).deep_view(), id));
            }
        },
    }
}

/// Sets the priority of the first record carrying `id`.
pub fn set_priority(tasks: &mut Vec<Task>, id: u32, priority: Priority)
    ensures
        final(tasks).deep_view() == spec_set_priority(old(tasks).deep_view(), id, priority),
{
    match find_task(tasks, id) {
        None => {},
        Some(i) => {
            let t = Task {
                id: tasks[i].id,
                title: tasks[i].title.clone(),
                completed: tasks[i].completed,
                due_date: clone_opt_string(&tasks[i].due_date),
                priority: Some(priority),
            };
            tasks[i] = t;
            proof {
                assert(tasks.deep_view() =~= spec_set_priority(old(tasks).deep_view(), id, priority));
            }
        },
    }
}

/// Sets the due date of the first record carrying `id`.
pub fn add_due_date(tasks: &mut Vec<Task>, id: u32, due_date: String)
    ensures
        final(tasks).deep_view() == spec_add_due_date(old(tasks).deep_view(), id, due_date@),
{
    let ghost dv = due_date@;
    match find_task(tasks, id) {
        None => {},
        Some(i) => {
            let t = Task {
                id: tasks[i].id,
                title: tasks[i].title.clone(),
                completed: tasks[i].completed,
                due_date: Some(due_date),
                priority: tasks[i].priority,
            };
            tasks[i] = t;
            proof {
                assert(tasks.deep_view() =~= spec_add_due_date(old(tasks).deep_view(), id, dv));
            }
        },
    }
}

/// One filtering step: keeping or dropping the record at `i`.
proof fn lemma_delete_step(s: Seq<TaskView>, id: u32, i: int)
    requires
        0 <= i < s.len(),
    ensures
        spec_delete(s.take(i + 1), id) == if s[i].id != id {
            spec_delete(s.take(i), id).push(s[i])
        } else {
            spec_delete(s.take(i), id)
        },
{
    reveal(Seq::filter);
    assert(s.take(i + 1).drop_last() =~= s.take(i));
    assert(s.take(i + 1).last() == s[i]);
}

/// Removes every record carrying `id`; the rest keep their relative order.
pub fn delete_task(tasks: &mut Vec<Task>, id: u32)
    ensures
        final(tasks).deep_view() == spec_delete(old(tasks).deep_view(), id),
{
    let ghost s = tasks.deep_view();
    let mut kept: Vec<Task> = Vec::new();
    proof {
        reveal(Seq::filter);
        assert(s.take(0) =~= Seq::<TaskView>::empty());
        assert(kept.deep_view() =~= spec_delete(s.take(0), id));
    }
    let mut i: usize = 0;
    while i < tasks.len()
        invariant
            0 <= i <= tasks@.len(),
            s == tasks.deep_view(),
            kept.deep_view() == spec_delete(s.take(i as int), id),
        decreases tasks@.len() - i,
    {
        proof {
            lemma_delete_step(s, id, i as int);
        }
        if tasks[i].id != id {
            kept.push(clone_task(&tasks[i]));
            proof {
                assert(kept.deep_view() =~= spec_delete(s.take(i + 1), id));
            }
        }
        i = i + 1;
    }
    proof {
        assert(s.take(tasks@.len() as int) =~= s);
    }
    *tasks = kept;
}

/// Capitalised display tag of a priority.
pub open spec fn spec_prio_tag(p: Priority) -> Seq<char> {
    match p {
        Priority::Low => "Low"@,
        Priority::Medium => "Medium"@,
        Priority::High => "High"@,
    }
}

/// One line of list output: id, title, completion marker, due date and
/// priority, separated by ` | `.
pub open spec fn spec_render_line(t: TaskView) -> Seq<char> {
    dec_digits(t.id as int) + " | "@ + t.title + " | ["@ + (if t.completed {
        "x"@
    } else {
        " "@
    }) + "] | "@ + (match t.due_date {
        Some(d) => "Due: "@ + d,
        None => "No due date"@,
    }) + " | "@ + (match t.priority {
        Some(p) => "Priority: "@ + spec_prio_tag(p),
        None => "No priority"@,
    })
}

/// The list output: one line per record, in store order.
pub open spec fn spec_render_lines(s: Seq<TaskView>) -> Seq<Seq<char>> {
    Seq::new(s.len(), |i: int| spec_render_line(s[i]))
}

/// Renders one record as its list line.
pub fn render_line(t: &Task) -> (r: String)
    ensures
        r@ == spec_render_line(t.deep_view()),
{
    let mut out = String::new();
    push_dec(&mut out, t.id);
    out.append(" | ");
    out.append(t.title.as_str());
    out.append(" | [");
    if t.completed {
        out.append("x");
    } else {
        out.append(" ");
    }
    out.append("] | ");
    match &t.due_date {
        Some(d) => {
            out.append("Due: ");
            out.append(d.as_str());
        },
        None => {
            out.append("No due date");
        },
    }
    out.append(" | ");
    match t.priority {
        Some(Priority::Low) => {
            out.append("Priority: ");
            out.append("Low");
        },
        Some(Priority::Medium) => {
            out.append("Priority: ");
            out.append("Medium");
        },
        Some(Priority::High) => {
            out.append("Priority: ");
            out.append("High");
        },
        None => {
            out.append("No priority");
        },
    }
    proof {
        assert(out@ =~= spec_render_line(t.deep_view()));
    }
    out
}

/// Renders the whole store, one line per record, in store order.
pub fn list_tasks(tasks: &Vec<Task>) -> (r: Vec<String>)
    ensures
        r.deep_view() == spec_render_lines(tasks.deep_view()),
{
    let ghost s = tasks.deep_view();
    let mut out: Vec<String> = Vec::new();
    let mut i: usize = 0;
    while i < tasks.len()
        invariant
            0 <= i <= tasks@.len(),
            s == tasks.deep_view(),
            out.deep_view() == spec_render_lines(s.take(i as int)),
        decreases tasks@.len() - i,
    {
        let ghost before = out.deep_view();
        let ghost bv = out@;
        let line = render_line(&tasks[i]);
        let ghost lv = line@;
        out.push(line);
        proof {
            assert(out@ == bv.push(line));
            assert(before.len() == bv.len());
            assert(before.len() == spec_render_lines(s.take(i as int)).len());
            assert(bv.len() == i as int);
            assert(out@[i as int] == line);
            assert(line.deep_view() == lv);
            assert(s[i as int] == tasks@[i as int].deep_view());
            assert(lv == spec_render_line(s[i as int]));
            assert forall|k: int| 0 <= k < before.len() implies out.deep_view()[k] == before[k] by {
                assert(out@[k] == bv[k]);
            }
            assert(out.deep_view()[i as int] == lv);
            assert forall|k: int| 0 <= k < out.deep_view().len() implies out.deep_view()[k]
                == spec_render_lines(s.take(i + 1))[k] by {
                assert(spec_render_lines(s.take(i + 1))[k] == spec_render_line(s.take(i + 1)[k]));
                if k < i as int {
                    assert(out.deep_view()[k] == before[k]);
                    assert(before[k] == spec_render_line(s.take(i as int)[k]));
                    assert(s.take(i + 1)[k] == s.take(i as int)[k]);
                } else {
                    assert(s.take(i + 1)[k] == s[i as int]);
                }
            }
            assert(out.deep_view() =~= spec_render_lines(s.take(i + 1)));
        }
        i = i + 1;
    }
    proof {
        assert(s.take(tasks@.len() as int) =~= s);
    }
    out
}

} // verus!
