use vstd::prelude::*;

use crate::codec::{
    spec_all_ws, spec_bool_text, spec_escape, spec_expect, spec_is_ws, spec_load, spec_opt_text,
    spec_p_bool, spec_p_doc, spec_p_items, spec_p_opt_str, spec_p_prio, spec_p_quoted,
    spec_p_strbody, spec_p_task, spec_p_u32, spec_prio_text, spec_quoted, spec_render_items,
    spec_render_task, spec_save,
};
use crate::codec::lemma_p_digits_split;
use crate::num::{dec_digits, is_digit, lemma_dec_digits_wf};
use crate::ops::{
    lemma_first_with_id, lemma_first_with_id_at, spec_complete, spec_delete, spec_first_with_id,
    spec_mark_completed,
};
use crate::task::{Priority, TaskView};

verus! {

/// Consuming a literal that stands in front succeeds and leaves the rest.
proof fn lemma_expect_prefix(l: Seq<char>, rest: Seq<char>)
    ensures
        spec_expect(l + rest, l) == Some(rest),
{
    let t = l + rest;
    assert(t.subrange(0, l.len() as int) =~= l);
    assert(t.skip(l.len() as int) =~= rest);
}

/// Concatenation of texts re-associates.
proof fn lemma_add_assoc(a: Seq<char>, b: Seq<char>, c: Seq<char>)
    ensures
        a + b + c == a + (b + c),
{
    assert(a + b + c =~= a + (b + c));
}

/// Consuming a literal fails where some character differs.
proof fn lemma_expect_mismatch(t: Seq<char>, l: Seq<char>, k: int)
    requires
        0 <= k < l.len(),
        k < t.len(),
        t[k] != l[k],
    ensures
        spec_expect(t, l) is None,
{
    if spec_expect(t, l) is Some {
        assert(t.subrange(0, l.len() as int)[k] == t[k]);
        assert(false);
    }
}

/// A rendered id reads back as itself wherever no digit follows it.
proof fn lemma_p_u32_render(id: u32, rest: Seq<char>)
    requires
        rest.len() == 0 || !is_digit(rest[0]),
    ensures
        spec_p_u32(dec_digits(id as int) + rest) == Some((id, rest)),
{
    lemma_dec_digits_wf(id as int);
    let ds = dec_digits(id as int);
    let t = ds + rest;
    assert forall|x: int| 0 <= x < ds.len() implies is_digit(#[trigger] t[x]) by {
        assert(t[x] == ds[x]);
    }
    if ds.len() < t.len() {
        assert(t[ds.len() as int] == rest[0]);
    }
    lemma_p_digits_split(t, ds.len() as int);
    assert(t.take(ds.len() as int) =~= ds);
    assert(t.skip(ds.len() as int) =~= rest);
}

/// An escaped text followed by its closing quote reads back as itself.
proof fn lemma_p_strbody_unescape(sv: Seq<char>, rest: Seq<char>)
    ensures
        spec_p_strbody(spec_escape(sv) + seq!['"'] + rest) == Some((sv, rest)),
    decreases sv.len(),
{
    let t = spec_escape(sv) + seq!['"'] + rest;
    if sv.len() == 0 {
        assert(spec_escape(sv) =~= Seq::<char>::empty());
        assert(t =~= seq!['"'] + rest);
        assert(t[0] == '"');
        assert(t.skip(1) =~= rest);
    } else {
        let c = sv[0];
        let tail = spec_escape(sv.skip(1)) + seq!['"'] + rest;
        lemma_p_strbody_unescape(sv.skip(1), rest);
        if c == '"' || c == '\\' {
            assert(t =~= seq!['\\', c] + tail);
            assert(t[0] == '\\');
            assert(t.len() >= 2);
            assert(t[1] == c);
            assert(t.skip(2) =~= tail);
            assert(seq![c] + sv.skip(1) =~= sv);
        } else {
            assert(t =~= seq![c] + tail);
            assert(t[0] == c);
            assert(t.skip(1) =~= tail);
            assert(seq![c] + sv.skip(1) =~= sv);
        }
    }
}

/// A quoted text reads back as itself.
proof fn lemma_p_quoted_render(sv: Seq<char>, rest: Seq<char>)
    ensures
        spec_p_quoted(spec_quoted(sv) + rest) == Some((sv, rest)),
{
    let t = spec_quoted(sv) + rest;
    assert(t =~= seq!['"'] + (spec_escape(sv) + seq!['"'] + rest));
    assert(t[0] == '"');
    assert(t.skip(1) =~= spec_escape(sv) + seq!['"'] + rest);
    lemma_p_strbody_unescape(sv, rest);
}

/// A rendered boolean reads back as itself.
proof fn lemma_p_bool_render(b: bool, rest: Seq<char>)
    ensures
        spec_p_bool(spec_bool_text(b) + rest) == Some((b, rest)),
{
    reveal_strlit("true");
    reveal_strlit("false");
    if b {
        lemma_expect_prefix("true"@, rest);
    } else {
        let t = "false"@ + rest;
        assert(t[0] == 'f');
        lemma_expect_mismatch(t, "true"@, 0);
        lemma_expect_prefix("false"@, rest);
    }
}

/// A rendered optional text reads back as itself.
proof fn lemma_p_opt_str_render(d: Option<Seq<char>>, rest: Seq<char>)
    ensures
        spec_p_opt_str(spec_opt_text(d) + rest) == Some((d, rest)),
{
    reveal_strlit("null");
    match d {
        None => {
            lemma_expect_prefix("null"@, rest);
        },
        Some(sv) => {
            let t = spec_quoted(sv) + rest;
            assert(t =~= seq!['"'] + (spec_escape(sv) + seq!['"'] + rest));
            assert(t[0] == '"');
            lemma_expect_mismatch(t, "null"@, 0);
            lemma_p_quoted_render(sv, rest);
        },
    }
}

/// A rendered priority field reads back as itself.
proof fn lemma_p_prio_render(p: Option<Priority>, rest: Seq<char>)
    ensures
        spec_p_prio(spec_prio_text(p) + rest) == Some((p, rest)),
{
    reveal_strlit("null");
    reveal_strlit("\"Low\"");
    reveal_strlit("\"Medium\"");
    reveal_strlit("\"High\"");
    match p {
        None => {
            lemma_expect_prefix("null"@, rest);
        },
        Some(Priority::Low) => {
            let t = "\"Low\""@ + rest;
            assert(t[0] == '"');
            lemma_expect_mismatch(t, "null"@, 0);
            lemma_expect_prefix("\"Low\""@, rest);
        },
        Some(Priority::Medium) => {
            let t = "\"Medium\""@ + rest;
            assert(t[0] == '"');
            assert(t[1] == 'M');
            lemma_expect_mismatch(t, "null"@, 0);
            lemma_expect_mismatch(t, "\"Low\""@, 1);
            lemma_expect_prefix("\"Medium\""@, rest);
        },
        Some(Priority::High) => {
            let t = "\"High\""@ + rest;
            assert(t[0] == '"');
            assert(t[1] == 'H');
            lemma_expect_mismatch(t, "null"@, 0);
            lemma_expect_mismatch(t, "\"Low\""@, 1);
            lemma_expect_mismatch(t, "\"Medium\""@, 1);
            lemma_expect_prefix("\"High\""@, rest);
        },
    }
}

/// A rendered record reads back as itself.
#[verifier::rlimit(100)]
proof fn lemma_p_task_render(tv: TaskView, rest: Seq<char>)
    ensures
        spec_p_task(spec_render_task(tv) + rest) == Some((tv, rest)),
{
    reveal_strlit(",\n    \"title\": ");
    let h = "  {\n    \"id\": "@;
    let d = dec_digits(tv.id as int);
    let s1 = ",\n    \"title\": "@;
    let q = spec_quoted(tv.title);
    let s2 = ",\n    \"completed\": "@;
    let b = spec_bool_text(tv.completed);
    let s3 = ",\n    \"due_date\": "@;
    let o = spec_opt_text(tv.due_date);
    let s4 = ",\n    \"priority\": "@;
    let p = spec_prio_text(tv.priority);
    let tl = "\n  }"@;
    let r10 = tl + rest;
    let r9 = p + r10;
    let r8 = s4 + r9;
    let r7 = o + r8;
    let r6 = s3 + r7;
    let r5 = b + r6;
    let r4 = s2 + r5;
    let r3 = q + r4;
    let r2 = s1 + r3;
    let r1 = d + r2;
    let t = spec_render_task(tv) + rest;
    lemma_add_assoc(h + d + s1 + q + s2 + b + s3 + o + s4 + p, tl, rest);
    lemma_add_assoc(h + d + s1 + q + s2 + b + s3 + o + s4, p, r10);
    lemma_add_assoc(h + d + s1 + q + s2 + b + s3 + o, s4, r9);
    lemma_add_assoc(h + d + s1 + q + s2 + b + s3, o, r8);
    lemma_add_assoc(h + d + s1 + q + s2 + b, s3, r7);
    lemma_add_assoc(h + d + s1 + q + s2, b, r6);
    lemma_add_assoc(h + d + s1 + q, s2, r5);
    lemma_add_assoc(h + d + s1, q, r4);
    lemma_add_assoc(h + d, s1, r3);
    lemma_add_assoc(h, d, r2);
    assert(t == h + r1);
    lemma_expect_prefix(h, r1);
    assert(r2[0] == ',');
    assert(!is_digit(','));
    lemma_p_u32_render(tv.id, r2);
    lemma_expect_prefix(",\n    \"title\": "@, r3);
    lemma_p_quoted_render(tv.title, r4);
    lemma_expect_prefix(",\n    \"completed\": "@, r5);
    lemma_p_bool_render(tv.completed, r6);
    lemma_expect_prefix(",\n    \"due_date\": "@, r7);
    lemma_p_opt_str_render(tv.due_date, r8);
    lemma_expect_prefix(",\n    \"priority\": "@, r9);
    lemma_p_prio_render(tv.priority, r10);
    lemma_expect_prefix("\n  }"@, rest);
    assert(TaskView {
        id: tv.id,
        title: tv.title,
        completed: tv.completed,
        due_date: tv.due_date,
        priority: tv.priority,
    } =~= tv);
}

/// A rendered run of records, closed by `\n]`, reads back as itself.
#[verifier::rlimit(100)]
proof fn lemma_p_items_render(ts: Seq<TaskView>, rest: Seq<char>)
    requires
        ts.len() >= 1,
    ensures
        spec_p_items(spec_render_items(ts) + "\n]"@ + rest) == Some((ts, rest)),
    decreases ts.len(),
{
    reveal_strlit(",\n");
    reveal_strlit("\n]");
    let t = spec_render_items(ts) + "\n]"@ + rest;
    if ts.len() == 1 {
        let r1 = "\n]"@ + rest;
        assert(t =~= spec_render_task(ts[0]) + r1);
        lemma_p_task_render(ts[0], r1);
        assert(r1[0] == '\n');
        lemma_expect_mismatch(r1, ",\n"@, 0);
        lemma_expect_prefix("\n]"@, rest);
        assert(seq![ts[0]] =~= ts);
    } else {
        let tail = spec_render_items(ts.skip(1)) + "\n]"@ + rest;
        let r1 = ",\n"@ + tail;
        assert(t =~= spec_render_task(ts[0]) + r1);
        lemma_p_task_render(ts[0], r1);
        lemma_expect_prefix(",\n"@, tail);
        lemma_p_items_render(ts.skip(1), rest);
        assert(seq![ts[0]] + ts.skip(1) =~= ts);
    }
}

/// A saved store parses back as a whole document.
proof fn lemma_p_doc_save(ts: Seq<TaskView>)
    ensures
        spec_p_doc(spec_save(ts)) == Some(ts),
{
    reveal_strlit("[");
    reveal_strlit("]");
    reveal_strlit("[]");
    reveal_strlit("\n");
    reveal_strlit("[\n");
    let t = spec_save(ts);
    let empty = Seq::<char>::empty();
    assert(spec_all_ws(empty));
    if ts.len() == 0 {
        assert(t =~= "["@ + "]"@);
        lemma_expect_prefix("["@, "]"@);
        assert("]"@ =~= "]"@ + empty);
        lemma_expect_prefix("]"@, empty);
        assert(Seq::<TaskView>::empty() =~= ts);
    } else {
        let rest2 = spec_render_items(ts) + "\n]"@;
        let inner = "\n"@ + rest2;
        assert(t =~= "["@ + inner);
        lemma_expect_prefix("["@, inner);
        assert(inner[0] == '\n');
        lemma_expect_mismatch(inner, "]"@, 0);
        lemma_expect_prefix("\n"@, rest2);
        assert(rest2 =~= spec_render_items(ts) + "\n]"@ + empty);
        lemma_p_items_render(ts, empty);
    }
}

/// Round trip: loading what was saved yields the store again, record for
/// record and in order, whatever the store holds.
pub proof fn lemma_save_load_round_trip(ts: Seq<TaskView>)
    ensures
        spec_load(Some(spec_save(ts))) == ts,
{
    reveal_strlit("[]");
    reveal_strlit("[\n");
    let t = spec_save(ts);
    assert(t[0] == '[');
    assert(!spec_is_ws('['));
    assert(!spec_all_ws(t)) by {
        if spec_all_ws(t) {
            assert(spec_is_ws(t[0]));
        }
    }
    lemma_p_doc_save(ts);
}

/// Completing is idempotent: a second `complete` with the same id changes
/// nothing, and the record the first one touched stays completed.
pub proof fn lemma_complete_idempotent(s: Seq<TaskView>, id: u32)
    ensures
        spec_complete(spec_complete(s, id), id) == spec_complete(s, id),
        spec_first_with_id(s, id) matches Some(j) ==> spec_complete(s, id)[j].completed,
{
    lemma_first_with_id(s, id);
    match spec_first_with_id(s, id) {
        None => {},
        Some(j) => {
            let s1 = spec_complete(s, id);
            assert(s1.len() == s.len());
            assert(s1[j].id == id);
            assert forall|k: int| 0 <= k < j implies (#[trigger] s1[k]).id != id by {
                assert(s1[k] == s[k]);
            }
            lemma_first_with_id_at(s1, id, j);
            assert(spec_mark_completed(s1[j]) =~= s1[j]);
            assert(s1.update(j, spec_mark_completed(s1[j])) =~= s1);
        },
    }
}

/// Deleting removes exactly the records carrying the id: none survives,
/// every other record does, and a store with no match is left exactly as
/// it was.  (That the survivors keep their relative order is the ensures
/// of `delete_task` itself: the result is the in-order filter of the
/// store.)
pub proof fn lemma_delete_exact(s: Seq<TaskView>, id: u32)
    ensures
        forall|k: int|
            0 <= k < spec_delete(s, id).len() ==> (#[trigger] spec_delete(s, id)[k]).id != id,
        forall|k: int|
            0 <= k < s.len() && (#[trigger] s[k]).id != id ==> spec_delete(s, id).contains(s[k]),
        (forall|k: int| 0 <= k < s.len() ==> (#[trigger] s[k]).id != id) ==> spec_delete(s, id)
            == s,
    decreases s.len(),
{
    reveal(Seq::filter);
    if s.len() == 0 {
        assert(spec_delete(s, id) =~= s);
    } else {
        let pre = s.drop_last();
        lemma_delete_exact(pre, id);
        assert forall|k: int| 0 <= k < pre.len() implies #[trigger] pre[k] == s[k] by {}
        let r = spec_delete(s, id);
        let rp = spec_delete(pre, id);
        if s.last().id != id {
            assert(r == rp.push(s.last()));
            assert(r[r.len() - 1] == s.last());
        } else {
            assert(r == rp);
        }
        assert forall|k: int|
            0 <= k < s.len() && (#[trigger] s[k]).id != id implies r.contains(s[k]) by {
            if k < s.len() - 1 {
                assert(pre.len() == s.len() - 1);
                assert(pre[k] == s[k]);
                assert(pre[k].id != id);
                assert(rp.contains(pre[k]));
                assert(rp.contains(s[k]));
                let j = choose|j: int| 0 <= j < rp.len() && rp[j] == s[k];
                assert(r[j] == s[k]);
            } else {
                assert(s[k] == s.last());
                assert(r[r.len() - 1] == s.last());
            }
        }
        if forall|k: int| 0 <= k < s.len() ==> (#[trigger] s[k]).id != id {
            assert(spec_delete(pre, id) == pre);
            assert(pre.push(s.last()) =~= s);
        }
    }
}

} // verus!
