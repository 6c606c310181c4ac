use todo::codec::{load_tasks, save_tasks};
use todo::ops::{add_due_date, add_task, complete_task, delete_task, list_tasks, set_priority};
use todo::task::{Priority, Task};

fn sample_store() -> Vec<Task> {
    let mut tasks: Vec<Task> = Vec::new();
    add_task(&mut tasks, String::from("Buy milk"));
    add_task(&mut tasks, String::from("Pay rent"));
    add_task(&mut tasks, String::from("Walk dog"));
    set_priority(&mut tasks, 1, Priority::High);
    add_due_date(&mut tasks, 2, String::from("2024-12-31"));
    complete_task(&mut tasks, 3);
    tasks
}

#[test]
fn round_trip_after_operations() {
    let tasks = sample_store();
    let text = save_tasks(&tasks);
    let back = load_tasks(Some(text.as_str()));
    assert_eq!(back, tasks);
}

#[test]
fn round_trip_empty_store() {
    let tasks: Vec<Task> = Vec::new();
    let text = save_tasks(&tasks);
    assert_eq!(text, "[]");
    assert_eq!(load_tasks(Some(text.as_str())), tasks);
}

#[test]
fn round_trip_awkward_title() {
    let mut tasks: Vec<Task> = Vec::new();
    add_task(&mut tasks, String::from("say \"hi\" \\ twice\nplease"));
    add_due_date(&mut tasks, 1, String::from("sometime \"soon\""));
    let text = save_tasks(&tasks);
    let back = load_tasks(Some(text.as_str()));
    assert_eq!(back, tasks);
}

#[test]
fn round_trip_tolerates_trailing_newline() {
    let tasks = sample_store();
    let mut text = save_tasks(&tasks);
    text.push('\n');
    assert_eq!(load_tasks(Some(text.as_str())), tasks);
}

#[test]
fn save_writes_the_exact_shape() {
    let mut tasks: Vec<Task> = Vec::new();
    add_task(&mut tasks, String::from("Buy milk"));
    set_priority(&mut tasks, 1, Priority::High);
    let text = save_tasks(&tasks);
    let expected = "[\n  {\n    \"id\": 1,\n    \"title\": \"Buy milk\",\n    \"completed\": false,\n    \"due_date\": null,\n    \"priority\": \"High\"\n  }\n]";
    assert_eq!(text, expected);
}

#[test]
fn load_reads_a_hand_written_document() {
    let text = "[\n  {\n    \"id\": 2,\n    \"title\": \"a \\\"b\\\" \\\\ c\",\n    \"completed\": true,\n    \"due_date\": \"2024-12-31\",\n    \"priority\": \"Medium\"\n  }\n]\n";
    let tasks = load_tasks(Some(text));
    assert_eq!(tasks.len(), 1);
    assert_eq!(tasks[0].id, 2);
    assert_eq!(tasks[0].title, "a \"b\" \\ c");
    assert!(tasks[0].completed);
    assert_eq!(tasks[0].due_date, Some(String::from("2024-12-31")));
    assert_eq!(tasks[0].priority, Some(Priority::Medium));
}

#[test]
fn load_missing_file_is_empty() {
    assert_eq!(load_tasks(None), Vec::<Task>::new());
}

#[test]
fn load_blank_text_is_empty() {
    assert_eq!(load_tasks(Some("")), Vec::<Task>::new());
    assert_eq!(load_tasks(Some("  \n\t \r\n")), Vec::<Task>::new());
}

#[test]
fn load_malformed_text_is_empty() {
    assert_eq!(load_tasks(Some("not a store")), Vec::<Task>::new());
    assert_eq!(load_tasks(Some("{\"id\": 1}")), Vec::<Task>::new());
    let full = save_tasks(&sample_store());
    let truncated = &full[..full.len() - 4];
    assert_eq!(load_tasks(Some(truncated)), Vec::<Task>::new());
}

#[test]
fn complete_is_idempotent() {
    let mut tasks = sample_store();
    complete_task(&mut tasks, 2);
    let once = tasks.clone();
    complete_task(&mut tasks, 2);
    assert_eq!(tasks, once);
    assert!(tasks[1].completed);
}

#[test]
fn complete_unknown_id_is_a_no_op() {
    let mut tasks = sample_store();
    let before = tasks.clone();
    complete_task(&mut tasks, 99);
    assert_eq!(tasks, before);
}

#[test]
fn delete_removes_exactly_the_id_and_keeps_order() {
    let mut tasks = sample_store();
    delete_task(&mut tasks, 2);
    assert_eq!(tasks.len(), 2);
    assert_eq!(tasks[0].id, 1);
    assert_eq!(tasks[0].title, "Buy milk");
    assert_eq!(tasks[1].id, 3);
    assert_eq!(tasks[1].title, "Walk dog");
}

#[test]
fn delete_removes_every_record_with_the_id() {
    let mut tasks: Vec<Task> = Vec::new();
    add_task(&mut tasks, String::from("a"));
    add_task(&mut tasks, String::from("b"));
    add_task(&mut tasks, String::from("c"));
    delete_task(&mut tasks, 2);
    add_task(&mut tasks, String::from("d"));
    assert_eq!(tasks[1].id, 3);
    assert_eq!(tasks[2].id, 3);
    delete_task(&mut tasks, 3);
    assert_eq!(tasks.len(), 1);
    assert_eq!(tasks[0].title, "a");
}

#[test]
fn add_assigns_length_based_ids() {
    let mut tasks: Vec<Task> = Vec::new();
    add_task(&mut tasks, String::from("first"));
    add_task(&mut tasks, String::from("second"));
    add_task(&mut tasks, String::from("third"));
    assert_eq!(tasks[0].id, 1);
    assert_eq!(tasks[1].id, 2);
    assert_eq!(tasks[2].id, 3);
    delete_task(&mut tasks, 2);
    add_task(&mut tasks, String::from("fourth"));
    assert_eq!(tasks[2].id, 3);
    assert_eq!(tasks[1].id, 3);
    assert_eq!(tasks[2].title, "fourth");
}

#[test]
fn add_starts_incomplete_and_bare() {
    let mut tasks: Vec<Task> = Vec::new();
    add_task(&mut tasks, String::from("only"));
    assert!(!tasks[0].completed);
    assert_eq!(tasks[0].due_date, None);
    assert_eq!(tasks[0].priority, None);
}

#[test]
fn set_priority_and_due_date_touch_only_their_field() {
    let mut tasks: Vec<Task> = Vec::new();
    add_task(&mut tasks, String::from("a"));
    add_task(&mut tasks, String::from("b"));
    set_priority(&mut tasks, 2, Priority::Low);
    assert_eq!(tasks[1].priority, Some(Priority::Low));
    assert_eq!(tasks[1].due_date, None);
    assert_eq!(tasks[0].priority, None);
    add_due_date(&mut tasks, 1, String::from("2025-01-01"));
    assert_eq!(tasks[0].due_date, Some(String::from("2025-01-01")));
    assert_eq!(tasks[0].priority, None);
}

#[test]
fn list_renders_one_line_per_task_in_order() {
    let tasks = sample_store();
    let lines = list_tasks(&tasks);
    assert_eq!(lines.len(), 3);
    assert_eq!(lines[0], "1 | Buy milk | [ ] | No due date | Priority: High");
    assert_eq!(lines[1], "2 | Pay rent | [ ] | Due: 2024-12-31 | No priority");
    assert_eq!(lines[2], "3 | Walk dog | [x] | No due date | No priority");
}
