use vstd::prelude::*;

use crate::num::{parse_u32_str, spec_parse_u32};
use crate::strutil::str_eq;
use crate::task::Priority;

verus! {

/// One parsed user intent: a verb with its validated arguments.
#[derive(Debug, PartialEq)]
pub enum Command {
    Add(String),
    Complete(u32),
    Delete(u32),
    List,
    Priority(u32, Priority),
    AddDueDate(u32, String),
}

/// Mathematical image of a command, with texts as character sequences.
#[verifier::ext_equal]
pub enum CommandView {
    Add(Seq<char>),
    Complete(u32),
    Delete(u32),
    List,
    Priority(u32, Priority),
    AddDueDate(u32, Seq<char>),
}

impl DeepView for Command {
    type V = CommandView;

    open spec fn deep_view(&self) -> CommandView {
        match self {
            Command::Add(t) => CommandView::Add(t@),
            Command::Complete(id) => CommandView::Complete(*id),
            Command::Delete(id) => CommandView::Delete(*id),
            Command::List => CommandView::List,
            Command::Priority(id, p) => CommandView::Priority(*id, *p),
            Command::AddDueDate(id, d) => CommandView::AddDueDate(*id, d@),
        }
    }
}

/// The priority level named by a lower-case command-line token.
pub open spec fn spec_level(s: Seq<char>) -> Option<Priority> {
    if s == "low"@ {
        Some(Priority::Low)
    } else if s == "medium"@ {
        Some(Priority::Medium)
    } else if s == "high"@ {
        Some(Priority::High)
    } else {
        None
    }
}

/// What the raw argument sequence parses to.  The first argument is the
/// program name and is ignored; anything that does not fit one of the six
/// recognised shapes is no command at all.
pub open spec fn spec_parse_command(args: Seq<Seq<char>>) -> Option<CommandView> {
    if args.len() < 2 {
        None
    } else if args[1] == "add"@ {
        if args.len() >= 3 {
            Some(CommandView::Add(args[2]))
        } else {
            None
        }
    } else if args[1] == "complete"@ {
        if args.len() >= 3 {
            match spec_parse_u32(args[2]) {
                Some(id) => Some(CommandView::Complete(id)),
                None => None,
            }
        } else {
            None
        }
    } else if args[1] == "delete"@ {
        if args.len() >= 3 {
            match spec_parse_u32(args[2]) {
                Some(id) => Some(CommandView::Delete(id)),
                None => None,
            }
        } else {
            None
        }
    } else if args[1] == "priority"@ {
        if args.len() >= 4 {
            match spec_parse_u32(args[2]) {
                Some(id) => match spec_level(args[3]) {
                    Some(p) => Some(CommandView::Priority(id, p)),
                    None => None,
                },
                None => None,
            }
        } else {
            None
        }
    } else if args[1] == "end"@ {
        if args.len() >= 4 {
            match spec_parse_u32(args[2]) {
                Some(id) => Some(CommandView::AddDueDate(id, args[3])),
                None => None,
            }
        } else {
            None
        }
    } else if args[1] == "list"@ {
        Some(CommandView::List)
    } else {
        None
    }
}

/// Parses the raw argument sequence, exactly as [`spec_parse_command`] says.
pub fn parse_command(args: Vec<String>) -> (r: Option<Command>)
    ensures
        r.deep_view() == spec_parse_command(args.deep_view()),
{
    let ghost av = args.deep_view();
    proof {
        assert(av.len() == args@.len());
        assert forall|k: int| 0 <= k < av.len() implies #[trigger] av[k] == args@[k]@ by {}
    }
    if args.len() < 2 {
        return None;
    }
    if str_eq(args[1].as_str(), "add") {
        if args.len() >= 3 {
            Some(Command::Add(args[2].clone()))
        } else {
            None
        }
    } else if str_eq(args[1].as_str(), "complete") {
        if args.len() >= 3 {
            match parse_u32_str(args[2].as_str()) {
                Some(id) => Some(Command::Complete(id)),
                None => None,
            }
        } else {
            None
        }
    } else if str_eq(args[1].as_str(), "delete") {
        if args.len() >= 3 {
            match parse_u32_str(args[2].as_str()) {
                Some(id) => Some(Command::Delete(id)),
                None => None,
            }
        } else {
            None
        }
    } else if str_eq(args[1].as_str(), "priority") {
        if args.len() >= 4 {
            match parse_u32_str(args[2].as_str()) {
                Some(id) => {
                    if str_eq(args[3].as_str(), "low") {
                        Some(Command::Priority(id, Priority::Low))
                    } else if str_eq(args[3].as_str(), "medium") {
                        Some(Command::Priority(id, Priority::Medium))
                    } else if str_eq(args[3].as_str(), "high") {
                        Some(Command::Priority(id, Priority::High))
                    } else {
                        None
                    }
                },
                None => None,
            }
        } else {
            None
        }
    } else if str_eq(args[1].as_str(), "end") {
        if args.len() >= 4 {
            match parse_u32_str(args[2].as_str()) {
                Some(id) => Some(Command::AddDueDate(id, args[3].clone())),
                None => None,
            }
        } else {
            None
        }
    } else if str_eq(args[1].as_str(), "list") {
        Some(Command::List)
    } else {
        None
    }
}

} // verus!
