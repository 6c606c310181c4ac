use vstd::prelude::*;

use crate::num::{char_digit, dec_value, is_digit, push_dec};
use crate::num::dec_digits;
use crate::strutil::push_char;
use crate::task::{Priority, Task, TaskView};

verus! {

// ---------------------------------------------------------------------------
// The persisted shape: the store is written as an ordered sequence of
// objects with the keys id, title, completed, due_date and priority, two
// spaces of indentation per level, and is read back by a parser that accepts
// exactly that text (with optional trailing whitespace).  Anything else is
// malformed and loads as the empty store.
// ---------------------------------------------------------------------------
// Rendering
/// A title or date character as it stands in the file: quotes and
/// backslashes carry a backslash in front, everything else is itself.
pub open spec fn spec_escape_char(c: char) -> Seq<char> {
    if c == '"' || c == '\\' {
        seq!['\\', c]
    } else {
        seq![c]
    }
}

/// A whole text escaped character by character.
pub open spec fn spec_escape(s: Seq<char>) -> Seq<char>
    decreases s.len(),
{
    if s.len() == 0 {
        Seq::empty()
    } else {
        spec_escape_char(s[0]) + spec_escape(s.skip(1))
    }
}

/// An escaped text between double quotes.
pub open spec fn spec_quoted(s: Seq<char>) -> Seq<char> {
    seq!['"'] + spec_escape(s) + seq!['"']
}

/// A boolean as it stands in the file.
pub open spec fn spec_bool_text(b: bool) -> Seq<char> {
    if b {
        "true"@
    } else {
        "false"@
    }
}

/// An optional text: quoted when present, `null` when absent.
pub open spec fn spec_opt_text(d: Option<Seq<char>>) -> Seq<char> {
    match d {
        Some(x) => spec_quoted(x),
        None => "null"@,
    }
}

/// An optional priority: its quoted capitalised tag, or `null`.
pub open spec fn spec_prio_text(p: Option<Priority>) -> Seq<char> {
    match p {
        Some(Priority::Low) => "\"Low\""@,
        Some(Priority::Medium) => "\"Medium\""@,
        Some(Priority::High) => "\"High\""@,
        None => "null"@,
    }
}

/// One record as it stands in the file.
pub open spec fn spec_render_task(t: TaskView) -> Seq<char> {
    "  {\n    \"id\": "@ + dec_digits(t.id as int) + ",\n    \"title\": "@ + spec_quoted(t.title)
        + ",\n    \"completed\": "@ + spec_bool_text(t.completed) + ",\n    \"due_date\": "@
        + spec_opt_text(t.due_date) + ",\n    \"priority\": "@ + spec_prio_text(t.priority)
        + "\n  }"@
}

/// A non-empty run of records, separated by a comma and a line break.
pub open spec fn spec_render_items(ts: Seq<TaskView>) -> Seq<char>
    recommends
        ts.len() >= 1,
    decreases ts.len(),
{
    if ts.len() <= 1 {
        spec_render_task(ts[0])
    } else {
        spec_render_task(ts[0]) + ",\n"@ + spec_render_items(ts.skip(1))
    }
}

/// The whole store as it stands in the file.
pub open spec fn spec_save(ts: Seq<TaskView>) -> Seq<char> {
    if ts.len() == 0 {
        "[]"@
    } else {
        "[\n"@ + spec_render_items(ts) + "\n]"@
    }
}

// ---------------------------------------------------------------------------
// Parsing.  Each function consumes a prefix of its input and yields the
// value it read together with the rest of the text, or nothing when the
// text is not in the written shape.
/// The whitespace characters tolerated around the document.
pub open spec fn spec_is_ws(c: char) -> bool {
    ||| c == ' '
    ||| c == '\t'
    ||| c == '\n'
    ||| c == '\r'
}

/// Nothing but whitespace.
pub open spec fn spec_all_ws(t: Seq<char>) -> bool {
    forall|k: int| 0 <= k < t.len() ==> spec_is_ws(#[trigger] t[k])
}

/// Consumes the literal `l` in front of `t`, if it stands there.
pub open spec fn spec_expect(t: Seq<char>, l: Seq<char>) -> Option<Seq<char>> {
    if l.len() <= t.len() && t.subrange(0, l.len() as int) == l {
        Some(t.skip(l.len() as int))
    } else {
        None
    }
}

/// Splits off the leading run of decimal digits.
pub open spec fn spec_p_digits(t: Seq<char>) -> (Seq<char>, Seq<char>)
    decreases t.len(),
{
    if t.len() > 0 && is_digit(t[0]) {
        let (ds, rest) = spec_p_digits(t.skip(1));
        (seq![t[0]] + ds, rest)
    } else {
        (Seq::empty(), t)
    }
}

/// Reads a `u32`: a non-empty digit run whose value fits.
pub open spec fn spec_p_u32(t: Seq<char>) -> Option<(u32, Seq<char>)> {
    let (ds, rest) = spec_p_digits(t);
    if ds.len() == 0 || dec_value(ds) > u32::MAX {
        None
    } else {
        Some((dec_value(ds) as u32, rest))
    }
}

/// Reads the body of a quoted text up to and over its closing quote,
/// undoing the escapes.
pub open spec fn spec_p_strbody(t: Seq<char>) -> Option<(Seq<char>, Seq<char>)>
    decreases t.len(),
{
    if t.len() == 0 {
        None
    } else if t[0] == '"' {
        Some((Seq::empty(), t.skip(1)))
    } else if t[0] == '\\' {
        if t.len() >= 2 && (t[1] == '"' || t[1] == '\\') {
            match spec_p_strbody(t.skip(2)) {
                None => None,
                Some((v, r)) => Some((seq![t[1]] + v, r)),
            }
        } else {
            None
        }
    } else {
        match spec_p_strbody(t.skip(1)) {
            None => None,
            Some((v, r)) => Some((seq![t[0]] + v, r)),
        }
    }
}

/// Reads a quoted text, opening quote included.
pub open spec fn spec_p_quoted(t: Seq<char>) -> Option<(Seq<char>, Seq<char>)> {
    if t.len() > 0 && t[0] == '"' {
        spec_p_strbody(t.skip(1))
    } else {
        None
    }
}

/// Reads `true` or `false`.
pub open spec fn spec_p_bool(t: Seq<char>) -> Option<(bool, Seq<char>)> {
    match spec_expect(t, "true"@) {
        Some(r) => Some((true, r)),
        None => match spec_expect(t, "false"@) {
            Some(r) => Some((false, r)),
            None => None,
        },
    }
}

/// Reads `null` or a quoted text.
pub open spec fn spec_p_opt_str(t: Seq<char>) -> Option<(Option<Seq<char>>, Seq<char>)> {
    match spec_expect(t, "null"@) {
        Some(r) => Some((None, r)),
        None => match spec_p_quoted(t) {
            Some((s, r)) => Some((Some(s), r)),
            None => None,
        },
    }
}

/// Reads `null` or one of the three quoted priority tags.
pub open spec fn spec_p_prio(t: Seq<char>) -> Option<(Option<Priority>, Seq<char>)> {
    match spec_expect(t, "null"@) {
        Some(r) => Some((None, r)),
        None => match spec_expect(t, "\"Low\""@) {
            Some(r) => Some((Some(Priority::Low), r)),
            None => match spec_expect(t, "\"Medium\""@) {
                Some(r) => Some((Some(Priority::Medium), r)),
                None => match spec_expect(t, "\"High\""@) {
                    Some(r) => Some((Some(Priority::High), r)),
                    None => None,
                },
            },
        },
    }
}

/// Reads one record object, field by field, in the written order.
pub open spec fn spec_p_task(t: Seq<char>) -> Option<(TaskView, Seq<char>)> {
    match spec_expect(t, "  {\n    \"id\": "@) {
        None => None,
        Some(t1) => match spec_p_u32(t1) {
            None => None,
            Some((id, t2)) => match spec_expect(t2, ",\n    \"title\": "@) {
                None => None,
                Some(t3) => match spec_p_quoted(t3) {
                    None => None,
                    Some((title, t4)) => match spec_expect(t4, ",\n    \"completed\": "@) {
                        None => None,
                        Some(t5) => match spec_p_bool(t5) {
                            None => None,
                            Some((completed, t6)) => match spec_expect(
                                t6,
                                ",\n    \"due_date\": "@,
                            ) {
                                None => None,
                                Some(t7) => match spec_p_opt_str(t7) {
                                    None => None,
                                    Some((due_date, t8)) => match spec_expect(
                                        t8,
                                        ",\n    \"priority\": "@,
                                    ) {
                                        None => None,
                                        Some(t9) => match spec_p_prio(t9) {
                                            None => None,
                                            Some((priority, t10)) => match spec_expect(
                                                t10,
                                                "\n  }"@,
                                            ) {
                                                None => None,
                                                Some(t11) => Some(
                                                    (
                                                        TaskView {
                                                            id,
                                                            title,
                                                            completed,
                                                            due_date,
                                                            priority,
                                                        },
                                                        t11,
                                                    ),
                                                ),
                                            },
                                        },
                                    },
                                },
                            },
                        },
                    },
                },
            },
        },
    }
}

/// The digit splitter never leaves more text than it got.
pub proof fn lemma_p_digits_len(t: Seq<char>)
    ensures
        spec_p_digits(t).1.len() <= t.len(),
    decreases t.len(),
{
    if t.len() > 0 && is_digit(t[0]) {
        lemma_p_digits_len(t.skip(1));
    }
}

/// Reading a quoted body consumes at least the closing quote.
pub proof fn lemma_p_strbody_shrink(t: Seq<char>)
    ensures
        match spec_p_strbody(t) {
            None => true,
            Some((v, r)) => r.len() < t.len(),
        },
    decreases t.len(),
{
    if t.len() == 0 {
    } else if t[0] == '"' {
    } else if t[0] == '\\' {
        if t.len() >= 2 && (t[1] == '"' || t[1] == '\\') {
            lemma_p_strbody_shrink(t.skip(2));
        }
    } else {
        lemma_p_strbody_shrink(t.skip(1));
    }
}

/// Reading one record consumes at least one character.
pub proof fn lemma_p_task_shrink(t: Seq<char>)
    ensures
        match spec_p_task(t) {
            None => true,
            Some((v, r)) => r.len() < t.len(),
        },
{
    if let Some(t1) = spec_expect(t, "  {\n    \"id\": "@) {
        lemma_p_digits_len(t1);
        if let Some((id, t2)) = spec_p_u32(t1) {
            if let Some(t3) = spec_expect(t2, ",\n    \"title\": "@) {
                if t3.len() > 0 && t3[0] == '"' {
                    lemma_p_strbody_shrink(t3.skip(1));
                }
                if let Some((title, t4)) = spec_p_quoted(t3) {
                    if let Some(t5) = spec_expect(t4, ",\n    \"completed\": "@) {
                        if let Some((completed, t6)) = spec_p_bool(t5) {
                            if let Some(t7) = spec_expect(t6, ",\n    \"due_date\": "@) {
                                if t7.len() > 0 && t7[0] == '"' {
                                    lemma_p_strbody_shrink(t7.skip(1));
                                }
                                if let Some((due_date, t8)) = spec_p_opt_str(t7) {
                                    if let Some(t9) = spec_expect(t8, ",\n    \"priority\": "@) {
                                        if let Some((priority, t10)) = spec_p_prio(t9) {
                                        }
                                    }
                                }
                            }
                        }
                    }
                }
            }
        }
    }
}

/// Reads the non-empty run of records and the closing `\n]`.
pub open spec fn spec_p_items(t: Seq<char>) -> Option<(Seq<TaskView>, Seq<char>)>
    decreases t.len(),
{
    match spec_p_task(t) {
        None => None,
        Some((tv, t1)) => match spec_expect(t1, ",\n"@) {
            Some(t2) => {
                proof {
                    lemma_p_task_shrink(t);
                }
                match spec_p_items(t2) {
                    None => None,
                    Some((ts, t3)) => Some((seq![tv] + ts, t3)),
                }
            },
            None => match spec_expect(t1, "\n]"@) {
                None => None,
                Some(t2) => Some((seq![tv], t2)),
            },
        },
    }
}

/// Reads a whole document: `[]`, or the bracketed run of records, with
/// nothing but whitespace behind it.
pub open spec fn spec_p_doc(t: Seq<char>) -> Option<Seq<TaskView>> {
    match spec_expect(t, "["@) {
        None => None,
        Some(t1) => match spec_expect(t1, "]"@) {
            Some(t2) => if spec_all_ws(t2) {
                Some(Seq::empty())
            } else {
                None
            },
            None => match spec_expect(t1, "\n"@) {
                None => None,
                Some(t2) => match spec_p_items(t2) {
                    None => None,
                    Some((ts, rest)) => if spec_all_ws(rest) {
                        Some(ts)
                    } else {
                        None
                    },
                },
            },
        },
    }
}

/// What loading yields: the empty store for a missing, blank or malformed
/// backing text, and the parsed records otherwise.
pub open spec fn spec_load(c: Option<Seq<char>>) -> Seq<TaskView> {
    match c {
        None => Seq::empty(),
        Some(t) => if spec_all_ws(t) {
            Seq::empty()
        } else {
            match spec_p_doc(t) {
                Some(ts) => ts,
                None => Seq::empty(),
            }
        },
    }
}

// ---------------------------------------------------------------------------
// Executable rendering
/// Appends the escaped form of `s` from position `i` on.
fn push_escaped(out: &mut String, s: &str, i: usize, n: usize)
    requires
        i <= n,
        n == s@.len(),
    ensures
        final(out)@ == old(out)@ + spec_escape(s@.skip(i as int)),
    decreases n - i,
{
    if i == n {
        proof {
            assert(old(out)@ + spec_escape(s@.skip(i as int)) =~= old(out)@);
        }
        return ;
    }
    let c = s.get_char(i);
    if c == '"' || c == '\\' {
        push_char(out, '\\');
        push_char(out, c);
    } else {
        push_char(out, c);
    }
    push_escaped(out, s, i + 1, n);
    proof {
        let t = s@.skip(i as int);
        assert(t[0] == s@[i as int]);
        assert(t.skip(1) =~= s@.skip(i + 1));
        assert(out@ =~= old(out)@ + spec_escape(t));
    }
}

/// Appends `s` escaped and between double quotes.
fn push_quoted(out: &mut String, s: &str)
    ensures
        final(out)@ == old(out)@ + spec_quoted(s@),
{
    let n = s.unicode_len();
    push_char(out, '"');
    push_escaped(out, s, 0, n);
    push_char(out, '"');
    proof {
        assert(s@.skip(0) =~= s@);
        assert(out@ =~= old(out)@ + spec_quoted(s@));
    }
}

/// Appends one record in its written shape.
fn render_task_into(out: &mut String, t: &Task)
    ensures
        final(out)@ == old(out)@ + spec_render_task(t.deep_view()),
{
    out.append("  {\n    \"id\": ");
    push_dec(out, t.id);
    out.append(",\n    \"title\": ");
    push_quoted(out, t.title.as_str());
    out.append(",\n    \"completed\": ");
    if t.completed {
        out.append("true");
    } else {
        out.append("false");
    }
    out.append(",\n    \"due_date\": ");
    match &t.due_date {
        Some(d) => push_quoted(out, d.as_str()),
        None => out.append("null"),
    }
    out.append(",\n    \"priority\": ");
    match t.priority {
        Some(Priority::Low) => out.append("\"Low\""),
        Some(Priority::Medium) => out.append("\"Medium\""),
        Some(Priority::High) => out.append("\"High\""),
        None => out.append("null"),
    }
    out.append("\n  }");
    proof {
        assert(out@ =~= old(out)@ + spec_render_task(t.deep_view()));
    }
}

/// Appends the records from position `i` on, separated as written.
fn render_items_into(out: &mut String, tasks: &Vec<Task>, i: usize)
    requires
        i < tasks@.len(),
    ensures
        final(out)@ == old(out)@ + spec_render_items(tasks.deep_view().skip(i as int)),
    decreases tasks@.len() - i,
{
    let ghost s = tasks.deep_view();
    render_task_into(out, &tasks[i]);
    proof {
        assert(tasks@[i as int].deep_view() == s[i as int]);
        assert(s.skip(i as int)[0] == s[i as int]);
    }
    let len = tasks.len();
    if i < len - 1 {
        out.append(",\n");
        render_items_into(out, tasks, i + 1);
        proof {
            assert(s.skip(i as int).skip(1) =~= s.skip(i + 1));
            assert(s.skip(i as int).len() > 1);
            assert(out@ =~= old(out)@ + spec_render_items(s.skip(i as int)));
        }
    } else {
        proof {
            assert(s.skip(i as int).len() == 1);
            assert(out@ =~= old(out)@ + spec_render_items(s.skip(i as int)));
        }
    }
}

/// Serialises the whole store to the text that the backing file holds.
pub fn save_tasks(tasks: &Vec<Task>) -> (r: String)
    ensures
        r@ == spec_save(tasks.deep_view()),
{
    let mut out = String::new();
    if tasks.len() == 0 {
        out.append("[]");
        proof {
            assert(out@ =~= spec_save(tasks.deep_view()));
        }
    } else {
        out.append("[\n");
        render_items_into(&mut out, tasks, 0);
        out.append("\n]");
        proof {
            assert(tasks.deep_view().skip(0) =~= tasks.deep_view());
            assert(out@ =~= spec_save(tasks.deep_view()));
        }
    }
    out
}

// ---------------------------------------------------------------------------
// Executable parsing
/// Whether position `j` holds a decimal digit.
fn digit_at(s: &str, j: usize, n: usize) -> (r: bool)
    requires
        j <= n,
        n == s@.len(),
    ensures
        r == (j < n && is_digit(s@[j as int])),
{
    if j < n {
        char_digit(s.get_char(j)).is_some()
    } else {
        false
    }
}

/// Whether everything from position `i` on is whitespace.
fn all_ws_from(s: &str, i: usize, n: usize) -> (r: bool)
    requires
        i <= n,
        n == s@.len(),
    ensures
        r == spec_all_ws(s@.skip(i as int)),
{
    let mut k: usize = i;
    while k < n
        invariant
            i <= k <= n,
            n == s@.len(),
            forall|x: int| i <= x < k ==> spec_is_ws(#[trigger] s@[x]),
        decreases n - k,
    {
        let c = s.get_char(k);
        if !(c == ' ' || c == '\t' || c == '\n' || c == '\r') {
            proof {
                assert(s@.skip(i as int)[k - i] == s@[k as int]);
            }
            return false;
        }
        k = k + 1;
    }
    proof {
        assert forall|x: int| 0 <= x < s@.skip(i as int).len() implies spec_is_ws(
            #[trigger] s@.skip(i as int)[x],
        ) by {
            assert(s@.skip(i as int)[x] == s@[i + x]);
        }
    }
    true
}

/// Consumes the literal `lit` at position `i`, if it stands there.
fn expect_lit(s: &str, i: usize, n: usize, lit: &str) -> (r: Option<usize>)
    requires
        i <= n,
        n == s@.len(),
    ensures
        match spec_expect(s@.skip(i as int), lit@) {
            None => r is None,
            Some(rest) => r matches Some(j) && i <= j <= n && j == i + lit@.len() && s@.skip(
                j as int,
            ) == rest,
        },
{
    let m = lit.unicode_len();
    if n - i < m {
        proof {
            assert(s@.skip(i as int).len() < lit@.len());
        }
        return None;
    }
    let mut k: usize = 0;
    while k < m
        invariant
            i + m <= n,
            n == s@.len(),
            m == lit@.len(),
            0 <= k <= m,
            forall|x: int| 0 <= x < k ==> s@[i + x] == lit@[x],
        decreases m - k,
    {
        if s.get_char(i + k) != lit.get_char(k) {
            proof {
                let t = s@.skip(i as int);
                assert(t[k as int] == s@[i + k]);
                if spec_expect(t, lit@) is Some {
                    assert(t.subrange(0, lit@.len() as int) == lit@);
                    assert(t.subrange(0, lit@.len() as int)[k as int] == t[k as int]);
                    assert(false);
                }
            }
            return None;
        }
        k = k + 1;
    }
    proof {
        let t = s@.skip(i as int);
        assert forall|x: int| 0 <= x < m implies t.subrange(0, m as int)[x] == lit@[x] by {
            assert(t[x] == s@[i + x]);
        }
        assert(t.subrange(0, m as int) =~= lit@);
        assert(t.skip(m as int) =~= s@.skip(i + m));
    }
    Some(i + m)
}

/// Reads a `u32` at position `i`.
fn p_u32_at(s: &str, i: usize, n: usize) -> (r: Option<(u32, usize)>)
    requires
        i <= n,
        n == s@.len(),
    ensures
        match spec_p_u32(s@.skip(i as int)) {
            None => r is None,
            Some((v, rest)) => r matches Some(p) && p.0 == v && i <= p.1 <= n && s@.skip(
                p.1 as int,
            ) == rest,
        },
{
    let ghost t = s@.skip(i as int);
    let mut j: usize = i;
    while digit_at(s, j, n)
        invariant
            i <= j <= n,
            n == s@.len(),
            forall|x: int| i <= x < j ==> is_digit(#[trigger] s@[x]),
        decreases n - j,
    {
        j = j + 1;
    }
    proof {
        assert forall|x: int| 0 <= x < j - i implies is_digit(#[trigger] t[x]) by {
            assert(t[x] == s@[i + x]);
        }
        if (j - i) < t.len() {
            assert(t[j - i] == s@[j as int]);
        }
        lemma_p_digits_split(t, j - i);
    }
    let ghost ds = t.take(j - i);
    if j == i {
        proof {
            assert(ds.len() == 0);
        }
        return None;
    }
    let mut acc: u64 = 0;
    let mut x: usize = i;
    while x < j
        invariant
            i < j,
            i <= x <= j <= n,
            n == s@.len(),
            t == s@.skip(i as int),
            ds == t.take(j - i),
            ds.len() == j - i,
            spec_p_digits(t) == (ds, t.skip(j - i)),
            forall|y: int| i <= y < j ==> is_digit(#[trigger] s@[y]),
            forall|y: int| 0 <= y < ds.len() ==> is_digit(#[trigger] ds[y]),
            acc == dec_value(ds.take(x - i)),
            acc <= u32::MAX,
        decreases j - x,
    {
        let c = s.get_char(x);
        let d = match char_digit(c) {
            Some(d) => d,
            None => {
                proof {
                    assert(false);
                }
                0
            },
        };
        proof {
            assert(ds[x - i] == t[x - i]);
            assert(t[x - i] == s@[x as int]);
            crate::num::lemma_dec_value_take_step(ds, x - i);
        }
        let acc2: u64 = acc * 10 + d as u64;
        if acc2 > u32::MAX as u64 {
            proof {
                crate::num::lemma_dec_value_take_monotone(ds, x - i + 1);
            }
            return None;
        }
        acc = acc2;
        x = x + 1;
    }
    proof {
        assert(ds.take(j - i) =~= ds);
        assert(t.skip(j - i) =~= s@.skip(j as int));
    }
    Some((acc as u32, j))
}

/// The digit splitter agrees with any split at the first non-digit.
pub proof fn lemma_p_digits_split(t: Seq<char>, k: int)
    requires
        0 <= k <= t.len(),
        forall|x: int| 0 <= x < k ==> is_digit(#[trigger] t[x]),
        k == t.len() || !is_digit(t[k]),
    ensures
        spec_p_digits(t) == (t.take(k), t.skip(k)),
    decreases k,
{
    if k == 0 {
        assert(t.take(0) =~= Seq::<char>::empty());
        assert(t.skip(0) =~= t);
    } else {
        assert forall|x: int| 0 <= x < k - 1 implies is_digit(#[trigger] t.skip(1)[x]) by {
            assert(t.skip(1)[x] == t[x + 1]);
        }
        if k - 1 < t.skip(1).len() {
            assert(t.skip(1)[k - 1] == t[k]);
        }
        lemma_p_digits_split(t.skip(1), k - 1);
        assert(seq![t[0]] + t.skip(1).take(k - 1) =~= t.take(k));
        assert(t.skip(1).skip(k - 1) =~= t.skip(k));
    }
}

/// Reads a quoted body at position `i`, appending the text it holds.
fn p_strbody_at(s: &str, i: usize, n: usize, out: &mut String) -> (r: Option<usize>)
    requires
        i <= n,
        n == s@.len(),
    ensures
        match spec_p_strbody(s@.skip(i as int)) {
            None => r is None,
            Some((v, rest)) => r matches Some(j) && i <= j <= n && final(out)@ == old(out)@ + v
                && s@.skip(j as int) == rest,
        },
    decreases n - i,
{
    let ghost t = s@.skip(i as int);
    if i == n {
        return None;
    }
    let c = s.get_char(i);
    proof {
        assert(t[0] == s@[i as int]);
    }
    if c == '"' {
        proof {
            assert(t.skip(1) =~= s@.skip(i + 1));
            assert(out@ =~= old(out)@ + Seq::<char>::empty());
        }
        Some(i + 1)
    } else if c == '\\' {
        if i + 1 == n {
            return None;
        }
        let c2 = s.get_char(i + 1);
        proof {
            assert(t[1] == s@[i + 1]);
        }
        if c2 == '"' || c2 == '\\' {
            push_char(out, c2);
            let r2 = p_strbody_at(s, i + 2, n, out);
            proof {
                assert(t.skip(2) =~= s@.skip(i + 2));
            }
            match r2 {
                None => None,
                Some(j) => {
                    proof {
                        if let Some((v2, rest2)) = spec_p_strbody(s@.skip(i + 2)) {
                            assert(out@ =~= old(out)@ + (seq![t[1]] + v2));
                        }
                    }
                    Some(j)
                },
            }
        } else {
            None
        }
    } else {
        push_char(out, c);
        let r2 = p_strbody_at(s, i + 1, n, out);
        proof {
            assert(t.skip(1) =~= s@.skip(i + 1));
        }
        match r2 {
            None => None,
            Some(j) => {
                proof {
                    if let Some((v2, rest2)) = spec_p_strbody(s@.skip(i + 1)) {
                        assert(out@ =~= old(out)@ + (seq![t[0]] + v2));
                    }
                }
                Some(j)
            },
        }
    }
}

/// Reads a quoted text at position `i`.
fn p_quoted_at(s: &str, i: usize, n: usize) -> (r: Option<(String, usize)>)
    requires
        i <= n,
        n == s@.len(),
    ensures
        match spec_p_quoted(s@.skip(i as int)) {
            None => r is None,
            Some((v, rest)) => r matches Some(p) && p.0@ == v && i <= p.1 <= n && s@.skip(
                p.1 as int,
            ) == rest,
        },
{
    let ghost t = s@.skip(i as int);
    if i == n {
        return None;
    }
    let c = s.get_char(i);
    proof {
        assert(t[0] == s@[i as int]);
    }
    if c != '"' {
        return None;
    }
    let mut out = String::new();
    let r2 = p_strbody_at(s, i + 1, n, &mut out);
    proof {
        assert(t.skip(1) =~= s@.skip(i + 1));
    }
    match r2 {
        None => None,
        Some(j) => {
            proof {
                if let Some((v, rest)) = spec_p_strbody(s@.skip(i + 1)) {
                    assert(out@ =~= v);
                }
            }
            Some((out, j))
        },
    }
}

/// Reads `true` or `false` at position `i`.
fn p_bool_at(s: &str, i: usize, n: usize) -> (r: Option<(bool, usize)>)
    requires
        i <= n,
        n == s@.len(),
    ensures
        match spec_p_bool(s@.skip(i as int)) {
            None => r is None,
            Some((v, rest)) => r matches Some(p) && p.0 == v && i <= p.1 <= n && s@.skip(
                p.1 as int,
            ) == rest,
        },
{
    match expect_lit(s, i, n, "true") {
        Some(j) => Some((true, j)),
        None => match expect_lit(s, i, n, "false") {
            Some(j) => Some((false, j)),
            None => None,
        },
    }
}

/// Reads `null` or a quoted text at position `i`.
fn p_opt_str_at(s: &str, i: usize, n: usize) -> (r: Option<(Option<String>, usize)>)
    requires
        i <= n,
        n == s@.len(),
    ensures
        match spec_p_opt_str(s@.skip(i as int)) {
            None => r is None,
            Some((v, rest)) => r matches Some(p) && p.0.deep_view() == v && i <= p.1 <= n
                && s@.skip(p.1 as int) == rest,
        },
{
    match expect_lit(s, i, n, "null") {
        Some(j) => Some((None, j)),
        None => match p_quoted_at(s, i, n) {
            Some((v, j)) => Some((Some(v), j)),
            None => None,
        },
    }
}

/// Reads `null` or a quoted priority tag at position `i`.
fn p_prio_at(s: &str, i: usize, n: usize) -> (r: Option<(Option<Priority>, usize)>)
    requires
        i <= n,
        n == s@.len(),
    ensures
        match spec_p_prio(s@.skip(i as int)) {
            None => r is None,
            Some((v, rest)) => r matches Some(p) && p.0 == v && i <= p.1 <= n && s@.skip(
                p.1 as int,
            ) == rest,
        },
{
    match expect_lit(s, i, n, "null") {
        Some(j) => Some((None, j)),
        None => match expect_lit(s, i, n, "\"Low\"") {
            Some(j) => Some((Some(Priority::Low), j)),
            None => match expect_lit(s, i, n, "\"Medium\"") {
                Some(j) => Some((Some(Priority::Medium), j)),
                None => match expect_lit(s, i, n, "\"High\"") {
                    Some(j) => Some((Some(Priority::High), j)),
                    None => None,
                },
            },
        },
    }
}

/// Reads one record object at position `i`.
fn p_task_at(s: &str, i: usize, n: usize) -> (r: Option<(Task, usize)>)
    requires
        i <= n,
        n == s@.len(),
    ensures
        match spec_p_task(s@.skip(i as int)) {
            None => r is None,
            Some((tv, rest)) => r matches Some(p) && p.0.deep_view() == tv && i <= p.1 <= n
                && s@.skip(p.1 as int) == rest,
        },
{
    let j0 = match expect_lit(s, i, n, "  {\n    \"id\": ") {
        Some(j) => j,
        None => {
            return None;
        },
    };
    let (id, j1) = match p_u32_at(s, j0, n) {
        Some(p) => p,
        None => {
            return None;
        },
    };
    let j2 = match expect_lit(s, j1, n, ",\n    \"title\": ") {
        Some(j) => j,
        None => {
            return None;
        },
    };
    let (title, j3) = match p_quoted_at(s, j2, n) {
        Some(p) => p,
        None => {
            return None;
        },
    };
    let j4 = match expect_lit(s, j3, n, ",\n    \"completed\": ") {
        Some(j) => j,
        None => {
            return None;
        },
    };
    let (completed, j5) = match p_bool_at(s, j4, n) {
        Some(p) => p,
        None => {
            return None;
        },
    };
    let j6 = match expect_lit(s, j5, n, ",\n    \"due_date\": ") {
        Some(j) => j,
        None => {
            return None;
        },
    };
    let (due_date, j7) = match p_opt_str_at(s, j6, n) {
        Some(p) => p,
        None => {
            return None;
        },
    };
    let j8 = match expect_lit(s, j7, n, ",\n    \"priority\": ") {
        Some(j) => j,
        None => {
            return None;
        },
    };
    let (priority, j9) = match p_prio_at(s, j8, n) {
        Some(p) => p,
        None => {
            return None;
        },
    };
    let j10 = match expect_lit(s, j9, n, "\n  }") {
        Some(j) => j,
        None => {
            return None;
        },
    };
    Some((Task { id, title, completed, due_date, priority }, j10))
}

/// Reads the run of records and the closing `\n]`, appending the records.
fn p_items_at(s: &str, i: usize, n: usize, out: &mut Vec<Task>) -> (r: Option<usize>)
    requires
        i <= n,
        n == s@.len(),
    ensures
        match spec_p_items(s@.skip(i as int)) {
            None => r is None,
            Some((ts, rest)) => r matches Some(j) && i <= j <= n && final(out).deep_view() == old(
                out,
            ).deep_view() + ts && s@.skip(j as int) == rest,
        },
    decreases n - i,
{
    let (task, j1) = match p_task_at(s, i, n) {
        Some(p) => p,
        None => {
            return None;
        },
    };
    proof {
        lemma_p_task_shrink(s@.skip(i as int));
    }
    let ghost tv = task.deep_view();
    let ghost before = out.deep_view();
    out.push(task);
    proof {
        assert(out.deep_view() =~= before.push(tv));
        assert(before.push(tv) =~= before + seq![tv]);
    }
    match expect_lit(s, j1, n, ",\n") {
        Some(j2) => {
            let r2 = p_items_at(s, j2, n, out);
            match r2 {
                None => None,
                Some(j3) => {
                    proof {
                        if let Some((ts2, rest2)) = spec_p_items(s@.skip(j2 as int)) {
                            assert(out.deep_view() =~= before + (seq![tv] + ts2));
                        }
                    }
                    Some(j3)
                },
            }
        },
        None => match expect_lit(s, j1, n, "\n]") {
            Some(j2) => Some(j2),
            None => None,
        },
    }
}

/// Reads a whole document.
fn p_doc(s: &str) -> (r: Option<Vec<Task>>)
    ensures
        match spec_p_doc(s@) {
            None => r is None,
            Some(ts) => r matches Some(v) && v.deep_view() == ts,
        },
{
    let n = s.unicode_len();
    proof {
        assert(s@.skip(0) =~= s@);
    }
    let j1 = match expect_lit(s, 0, n, "[") {
        Some(j) => j,
        None => {
            return None;
        },
    };
    match expect_lit(s, j1, n, "]") {
        Some(j2) => {
            if all_ws_from(s, j2, n) {
                let empty: Vec<Task> = Vec::new();
                proof {
                    assert(empty.deep_view() =~= Seq::<TaskView>::empty());
                }
                Some(empty)
            } else {
                None
            }
        },
        None => {
            let j2 = match expect_lit(s, j1, n, "\n") {
                Some(j) => j,
                None => {
                    return None;
                },
            };
            let mut items: Vec<Task> = Vec::new();
            proof {
                assert(items.deep_view() =~= Seq::<TaskView>::empty());
            }
            match p_items_at(s, j2, n, &mut items) {
                None => None,
                Some(j3) => {
                    if all_ws_from(s, j3, n) {
                        proof {
                            if let Some((ts, rest)) = spec_p_items(s@.skip(j2 as int)) {
                                assert(items.deep_view() =~= ts);
                            }
                        }
                        Some(items)
                    } else {
                        None
                    }
                },
            }
        },
    }
}

/// Rebuilds the store from the backing text: a missing, blank or malformed
/// text yields the empty store, anything else its parsed records.
pub fn load_tasks(contents: Option<&str>) -> (r: Vec<Task>)
    ensures
        r.deep_view() == spec_load(
            match contents {
                Some(s) => Some(s@),
                None => None,
            },
        ),
{
    match contents {
        None => {
            let empty: Vec<Task> = Vec::new();
            proof {
                assert(empty.deep_view() =~= Seq::<TaskView>::empty());
            }
            empty
        },
        Some(s) => {
            let n = s.unicode_len();
            proof {
                assert(s@.skip(0) =~= s@);
            }
            if all_ws_from(s, 0, n) {
                let empty: Vec<Task> = Vec::new();
                proof {
                    assert(empty.deep_view() =~= Seq::<TaskView>::empty());
                }
                empty
            } else {
                match p_doc(s) {
                    Some(v) => v,
                    None => {
                        let empty: Vec<Task> = Vec::new();
                        proof {
                            assert(empty.deep_view() =~= Seq::<TaskView>::empty());
                        }
                        empty
                    },
                }
            }
        },
    }
}

} // verus!
