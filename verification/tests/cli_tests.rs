use todo::cmd::{parse_command, Command};
use todo::dispatch::dispatch;
use todo::task::{Priority, Task};

fn argv(parts: &[&str]) -> Vec<String> {
    parts.iter().map(|p| String::from(*p)).collect()
}

#[test]
fn parse_rejects_a_bad_priority_level() {
    assert!(parse_command(argv(&["prog", "priority", "2", "urgent"])).is_none());
}

#[test]
fn parse_accepts_a_good_priority_level() {
    let cmd = parse_command(argv(&["prog", "priority", "2", "high"]));
    assert_eq!(cmd, Some(Command::Priority(2, Priority::High)));
}

#[test]
fn parse_levels_are_lower_case_only() {
    assert!(parse_command(argv(&["prog", "priority", "2", "High"])).is_none());
    assert_eq!(
        parse_command(argv(&["prog", "priority", "2", "low"])),
        Some(Command::Priority(2, Priority::Low))
    );
    assert_eq!(
        parse_command(argv(&["prog", "priority", "2", "medium"])),
        Some(Command::Priority(2, Priority::Medium))
    );
}

#[test]
fn parse_needs_a_verb() {
    assert!(parse_command(argv(&[])).is_none());
    assert!(parse_command(argv(&["prog"])).is_none());
}

#[test]
fn parse_rejects_an_unknown_verb() {
    assert!(parse_command(argv(&["prog", "remove", "1"])).is_none());
}

#[test]
fn parse_add_needs_a_title() {
    assert!(parse_command(argv(&["prog", "add"])).is_none());
    assert_eq!(
        parse_command(argv(&["prog", "add", "Buy milk"])),
        Some(Command::Add(String::from("Buy milk")))
    );
}

#[test]
fn parse_ids_must_be_small_decimal_numbers() {
    assert!(parse_command(argv(&["prog", "complete"])).is_none());
    assert!(parse_command(argv(&["prog", "complete", "one"])).is_none());
    assert!(parse_command(argv(&["prog", "complete", ""])).is_none());
    assert!(parse_command(argv(&["prog", "complete", "4294967296"])).is_none());
    assert_eq!(
        parse_command(argv(&["prog", "complete", "4294967295"])),
        Some(Command::Complete(4294967295))
    );
    assert_eq!(parse_command(argv(&["prog", "delete", "7"])), Some(Command::Delete(7)));
}

#[test]
fn parse_end_needs_id_and_date() {
    assert!(parse_command(argv(&["prog", "end", "1"])).is_none());
    assert!(parse_command(argv(&["prog", "end", "x", "2024-12-31"])).is_none());
    assert_eq!(
        parse_command(argv(&["prog", "end", "1", "2024-12-31"])),
        Some(Command::AddDueDate(1, String::from("2024-12-31")))
    );
}

#[test]
fn parse_list_takes_no_argument() {
    assert_eq!(parse_command(argv(&["prog", "list"])), Some(Command::List));
    assert_eq!(parse_command(argv(&["prog", "list", "extra"])), Some(Command::List));
}

#[test]
fn dispatch_prints_usage_when_nothing_parses() {
    let mut tasks: Vec<Task> = Vec::new();
    let out = dispatch(&mut tasks, None);
    assert!(!out.save);
    let expected = vec![
        "Usage:",
        "todo add \"task\"",
        "todo complete 1",
        "todo delete 1",
        "todo list",
        "todo priority 1 high",
        "todo end 1 \"2024-12-31\"",
    ];
    assert_eq!(out.lines, expected);
    assert!(tasks.is_empty());
}

#[test]
fn scenario_from_empty_store_to_list() {
    let mut tasks: Vec<Task> = Vec::new();
    let steps: Vec<Vec<String>> = vec![
        argv(&["todo", "add", "Buy milk"]),
        argv(&["todo", "add", "Pay rent"]),
        argv(&["todo", "priority", "1", "high"]),
        argv(&["todo", "end", "2", "2024-12-31"]),
        argv(&["todo", "complete", "1"]),
    ];
    for step in steps {
        let out = dispatch(&mut tasks, parse_command(step));
        assert!(out.save);
        assert!(out.lines.is_empty());
    }
    let out = dispatch(&mut tasks, parse_command(argv(&["todo", "list"])));
    assert!(!out.save);
    let expected = vec![
        "1 | Buy milk | [x] | No due date | Priority: High",
        "2 | Pay rent | [ ] | Due: 2024-12-31 | No priority",
    ];
    assert_eq!(out.lines, expected);
}

#[test]
fn mutating_commands_ask_to_save_and_print_nothing() {
    let mut tasks: Vec<Task> = Vec::new();
    let out = dispatch(&mut tasks, parse_command(argv(&["todo", "add", "a"])));
    assert!(out.save && out.lines.is_empty());
    let out = dispatch(&mut tasks, parse_command(argv(&["todo", "complete", "1"])));
    assert!(out.save && out.lines.is_empty());
    let out = dispatch(&mut tasks, parse_command(argv(&["todo", "delete", "1"])));
    assert!(out.save && out.lines.is_empty());
    assert!(tasks.is_empty());
}
