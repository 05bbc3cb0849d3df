//! What the lines of a newly written block say. A new focus block and a new
//! state history block are built line by line; the laws here state, over
//! every update, which line each field lands on: the line keyed by a field
//! holds that field's value and no other's.
use crate::focus::{
    body_blocks, body_scalars, focus_body_lines, group_lines, indented_block, indented_scalar,
    nested_views, render_focus_body_spec, FocusUpdate,
};
use crate::script::{block_lines, both, kept_values, scalar_line, words_lines};
use crate::characters::{Advisor, Commander, CountryLeader};
use crate::events::EventUpdate;
use crate::technologies::TechnologyUpdate;
use crate::state::{buildings_lines, point_lines, render_history_spec, value_lines, StateUpdate};
use crate::text::{join, trim_spec, views};
use vstd::prelude::*;

verus! {

/// `line` starts with `indent`, `key` and ` = `.
pub open spec fn keyed(line: Seq<char>, indent: Seq<char>, key: Seq<char>) -> bool {
    let p = indent + key + " = "@;
    p.len() <= line.len() && line.take(p.len() as int) == p
}

/// The lines of `ls` keyed by `key`, in order.
pub open spec fn keyed_lines(ls: Seq<Seq<char>>, indent: Seq<char>, key: Seq<char>) -> Seq<Seq<char>>
    decreases ls.len(),
{
    if ls.len() == 0 {
        Seq::empty()
    } else {
        let rest = keyed_lines(ls.drop_last(), indent, key);
        if keyed(ls.last(), indent, key) {
            rest.push(ls.last())
        } else {
            rest
        }
    }
}

/// Every line of `ls` is keyed by `key`.
pub open spec fn all_keyed(ls: Seq<Seq<char>>, indent: Seq<char>, key: Seq<char>) -> bool {
    forall|i: int| 0 <= i < ls.len() ==> keyed(#[trigger] ls[i], indent, key)
}

/// `key = value` under `indent` when the value is not blank, nothing when
/// it is.
pub open spec fn written_once(indent: Seq<char>, key: Seq<char>, value: Seq<char>) -> Seq<Seq<char>> {
    let t = trim_spec(value);
    if t.len() == 0 {
        Seq::empty()
    } else {
        seq![indent + key + " = "@ + t]
    }
}

/// `key = value` for each of `values` that is not blank, trimmed, in order.
pub open spec fn each_written(key: Seq<char>, values: Seq<Seq<char>>) -> Seq<Seq<char>> {
    Seq::new(kept_values(values).len(), |i: int| key + " = "@ + kept_values(values)[i])
}

proof fn lemma_keyed_line(indent: Seq<char>, key: Seq<char>, t: Seq<char>)
    ensures
        keyed(indent + key + " = "@ + t, indent, key),
{
    let p = indent + key + " = "@;
    assert((p + t).take(p.len() as int) =~= p);
}

proof fn lemma_keyed_plain(key: Seq<char>, t: Seq<char>)
    ensures
        keyed(key + " = "@ + t, Seq::empty(), key),
{
    let p = Seq::<char>::empty() + key + " = "@;
    assert(p =~= key + " = "@);
    assert((key + " = "@ + t).take(p.len() as int) =~= p);
}

/// A line keyed by one key is not keyed by another whose `key = ` differs
/// from the first's at `j`.
proof fn lemma_not_both(line: Seq<char>, indent: Seq<char>, k1: Seq<char>, k2: Seq<char>, j: int)
    requires
        keyed(line, indent, k1),
        0 <= j < (k1 + " = "@).len(),
        j < (k2 + " = "@).len(),
        (k1 + " = "@)[j] != (k2 + " = "@)[j],
    ensures
        !keyed(line, indent, k2),
{
    let p1 = indent + k1 + " = "@;
    let p2 = indent + k2 + " = "@;
    let at = indent.len() + j;
    assert(p1[at] == (k1 + " = "@)[j]);
    assert(line.take(p1.len() as int)[at] == line[at]);
    if keyed(line, indent, k2) {
        assert(p2[at] == (k2 + " = "@)[j]);
        assert(line.take(p2.len() as int)[at] == line[at]);
    }
}

proof fn lemma_keyed_concat(a: Seq<Seq<char>>, c: Seq<Seq<char>>, indent: Seq<char>, key: Seq<char>)
    ensures
        keyed_lines(a + c, indent, key) == keyed_lines(a, indent, key) + keyed_lines(c, indent, key),
    decreases c.len(),
{
    if c.len() == 0 {
        assert(a + c =~= a);
        assert(keyed_lines(a, indent, key) + keyed_lines(c, indent, key) =~= keyed_lines(a, indent, key));
    } else {
        assert((a + c).drop_last() =~= a + c.drop_last());
        assert((a + c).last() == c.last());
        lemma_keyed_concat(a, c.drop_last(), indent, key);
        let x = keyed_lines(a, indent, key);
        let y = keyed_lines(c.drop_last(), indent, key);
        assert((x + y).push(c.last()) =~= x + y.push(c.last()));
    }
}

proof fn lemma_keyed_all(ls: Seq<Seq<char>>, indent: Seq<char>, key: Seq<char>)
    requires
        all_keyed(ls, indent, key),
    ensures
        keyed_lines(ls, indent, key) == ls,
    decreases ls.len(),
{
    if ls.len() > 0 {
        assert forall|i: int| 0 <= i < ls.drop_last().len() implies keyed(#[trigger] ls.drop_last()[i], indent, key) by {
            assert(ls.drop_last()[i] == ls[i]);
        }
        lemma_keyed_all(ls.drop_last(), indent, key);
        assert(keyed(ls[ls.len() - 1], indent, key));
        assert(ls.drop_last().push(ls.last()) =~= ls);
    }
}

/// Lines each blank or keyed by `k1` have none keyed by a key whose
/// `key = ` differs from `k1`'s at `j`.
proof fn lemma_keyed_none(ls: Seq<Seq<char>>, indent: Seq<char>, k1: Seq<char>, k2: Seq<char>, j: int)
    requires
        forall|i: int| 0 <= i < ls.len() ==> (#[trigger] ls[i]).len() == 0 || keyed(ls[i], indent, k1),
        0 <= j < (k1 + " = "@).len(),
        j < (k2 + " = "@).len(),
        (k1 + " = "@)[j] != (k2 + " = "@)[j],
    ensures
        keyed_lines(ls, indent, k2) == Seq::<Seq<char>>::empty(),
    decreases ls.len(),
{
    if ls.len() > 0 {
        assert forall|i: int| 0 <= i < ls.drop_last().len() implies (#[trigger] ls.drop_last()[i]).len() == 0
            || keyed(ls.drop_last()[i], indent, k1) by {
            assert(ls.drop_last()[i] == ls[i]);
        }
        lemma_keyed_none(ls.drop_last(), indent, k1, k2, j);
        let l = ls[ls.len() - 1];
        if l.len() == 0 {
            reveal_strlit(" = ");
            assert(!keyed(l, indent, k2));
        } else {
            lemma_not_both(l, indent, k1, k2, j);
        }
    }
}

// ---------------------------------------------------------------------------
// A new focus block
// ---------------------------------------------------------------------------

proof fn lemma_scalar_keyed(indent: Seq<char>, key: Seq<char>, value: Seq<char>)
    ensures
        all_keyed(indented_scalar(indent, key, value), indent, key),
        indented_scalar(indent, key, value) == written_once(indent, key, value),
{
    lemma_keyed_line(indent, key, trim_spec(value));
}

proof fn lemma_block_keyed(indent: Seq<char>, newline: Seq<char>, key: Seq<char>, value: Seq<char>)
    ensures
        indented_block(indent, newline, key, value) matches Some(ls) ==> all_keyed(ls, indent, key),
{
    match crate::script::fmt_block(value, indent, newline) {
        Some(t) => lemma_keyed_line(indent, key, t),
        None => {},
    }
}

proof fn lemma_groups_keyed(indent: Seq<char>, newline: Seq<char>, key: Seq<char>, groups: Seq<Seq<Seq<char>>>)
    ensures
        group_lines(indent, newline, key, groups) matches Some(ls) ==> all_keyed(ls, indent, key),
    decreases groups.len(),
{
    if groups.len() > 0 {
        lemma_groups_keyed(indent, newline, key, groups.drop_last());
        let ids = crate::focus::normalise_ids_spec(groups.last());
        match group_lines(indent, newline, key, groups.drop_last()) {
            Some(ls) => {
                match crate::script::fmt_block(crate::focus::references_text(ids), indent, newline) {
                    Some(t) => {
                        lemma_keyed_line(indent, key, t);
                        let l = indent + key + " = "@ + t;
                        assert forall|i: int| 0 <= i < ls.push(l).len() implies keyed(#[trigger] ls.push(l)[i], indent, key) by {
                            if i < ls.len() {
                                assert(ls.push(l)[i] == ls[i]);
                            }
                        }
                    },
                    None => {},
                }
            },
            None => {},
        }
    }
}

/// The parts a new focus block's lines are made of.
proof fn lemma_focus_parts(f: FocusUpdate, indent: Seq<char>, newline: Seq<char>)
    requires
        focus_body_lines(f, indent, newline) is Some,
    ensures
        group_lines(indent, newline, "prerequisite"@, nested_views(f.prerequisites@)) is Some,
        group_lines(indent, newline, "mutually_exclusive"@, seq![views(f.mutually_exclusive@)]) is Some,
        indented_block(indent, newline, "available"@, f.available@) is Some,
        indented_block(indent, newline, "bypass"@, f.bypass@) is Some,
        indented_block(indent, newline, "allow_branch"@, f.allow_branch@) is Some,
        indented_block(indent, newline, "completion_reward"@, f.completion_reward@) is Some,
        indented_block(indent, newline, "ai_will_do"@, f.ai_will_do@) is Some,
        focus_body_lines(f, indent, newline)->0 == body_scalars(f, indent) + group_lines(
            indent,
            newline,
            "prerequisite"@,
            nested_views(f.prerequisites@),
        )->0 + group_lines(indent, newline, "mutually_exclusive"@, seq![views(f.mutually_exclusive@)])->0
            + (indented_block(indent, newline, "available"@, f.available@)->0 + indented_block(
            indent,
            newline,
            "bypass"@,
            f.bypass@,
        )->0 + indented_block(indent, newline, "allow_branch"@, f.allow_branch@)->0 + indented_block(
            indent,
            newline,
            "completion_reward"@,
            f.completion_reward@,
        )->0 + indented_block(indent, newline, "ai_will_do"@, f.ai_will_do@)->0),
{
    assert(body_blocks(f, indent, newline) is Some);
}

/// The lines of a new focus keyed `id`.
proof fn lemma_focus_field_id(f: FocusUpdate, indent: Seq<char>, newline: Seq<char>)
    requires
        focus_body_lines(f, indent, newline) is Some,
    ensures
        keyed_lines(focus_body_lines(f, indent, newline)->0, indent, "id"@) == written_once(indent, "id"@, f.id@),
{
    reveal_strlit("id");
    reveal_strlit("icon");
    reveal_strlit("x");
    reveal_strlit("y");
    reveal_strlit("relative_position_id");
    reveal_strlit("cost");
    reveal_strlit("prerequisite");
    reveal_strlit("mutually_exclusive");
    reveal_strlit("available");
    reveal_strlit("bypass");
    reveal_strlit("allow_branch");
    reveal_strlit("completion_reward");
    reveal_strlit("ai_will_do");
    reveal_strlit(" = ");
    lemma_focus_parts(f, indent, newline);
    let s0 = indented_scalar(indent, "id"@, f.id@);
    lemma_scalar_keyed(indent, "id"@, f.id@);
    let s1 = indented_scalar(indent, "icon"@, f.icon@);
    lemma_scalar_keyed(indent, "icon"@, f.icon@);
    let s2 = indented_scalar(indent, "x"@, f.x@);
    lemma_scalar_keyed(indent, "x"@, f.x@);
    let s3 = indented_scalar(indent, "y"@, f.y@);
    lemma_scalar_keyed(indent, "y"@, f.y@);
    let s4 = indented_scalar(indent, "relative_position_id"@, f.relative_position_id@);
    lemma_scalar_keyed(indent, "relative_position_id"@, f.relative_position_id@);
    let s5 = indented_scalar(indent, "cost"@, f.cost@);
    lemma_scalar_keyed(indent, "cost"@, f.cost@);
    lemma_groups_keyed(indent, newline, "prerequisite"@, nested_views(f.prerequisites@));
    let g0 = group_lines(indent, newline, "prerequisite"@, nested_views(f.prerequisites@))->0;
    lemma_groups_keyed(indent, newline, "mutually_exclusive"@, seq![views(f.mutually_exclusive@)]);
    let g1 = group_lines(indent, newline, "mutually_exclusive"@, seq![views(f.mutually_exclusive@)])->0;
    lemma_block_keyed(indent, newline, "available"@, f.available@);
    let b0 = indented_block(indent, newline, "available"@, f.available@)->0;
    lemma_block_keyed(indent, newline, "bypass"@, f.bypass@);
    let b1 = indented_block(indent, newline, "bypass"@, f.bypass@)->0;
    lemma_block_keyed(indent, newline, "allow_branch"@, f.allow_branch@);
    let b2 = indented_block(indent, newline, "allow_branch"@, f.allow_branch@)->0;
    lemma_block_keyed(indent, newline, "completion_reward"@, f.completion_reward@);
    let b3 = indented_block(indent, newline, "completion_reward"@, f.completion_reward@)->0;
    lemma_block_keyed(indent, newline, "ai_will_do"@, f.ai_will_do@);
    let b4 = indented_block(indent, newline, "ai_will_do"@, f.ai_will_do@)->0;
    lemma_keyed_all(s0, indent, "id"@);
    assert(("icon"@ + " = "@)[1] != ("id"@ + " = "@)[1]);
    lemma_keyed_none(s1, indent, "icon"@, "id"@, 1);
    assert(("x"@ + " = "@)[0] != ("id"@ + " = "@)[0]);
    lemma_keyed_none(s2, indent, "x"@, "id"@, 0);
    assert(("y"@ + " = "@)[0] != ("id"@ + " = "@)[0]);
    lemma_keyed_none(s3, indent, "y"@, "id"@, 0);
    assert(("relative_position_id"@ + " = "@)[0] != ("id"@ + " = "@)[0]);
    lemma_keyed_none(s4, indent, "relative_position_id"@, "id"@, 0);
    assert(("cost"@ + " = "@)[0] != ("id"@ + " = "@)[0]);
    lemma_keyed_none(s5, indent, "cost"@, "id"@, 0);
    assert(("prerequisite"@ + " = "@)[0] != ("id"@ + " = "@)[0]);
    lemma_keyed_none(g0, indent, "prerequisite"@, "id"@, 0);
    assert(("mutually_exclusive"@ + " = "@)[0] != ("id"@ + " = "@)[0]);
    lemma_keyed_none(g1, indent, "mutually_exclusive"@, "id"@, 0);
    assert(("available"@ + " = "@)[0] != ("id"@ + " = "@)[0]);
    lemma_keyed_none(b0, indent, "available"@, "id"@, 0);
    assert(("bypass"@ + " = "@)[0] != ("id"@ + " = "@)[0]);
    lemma_keyed_none(b1, indent, "bypass"@, "id"@, 0);
    assert(("allow_branch"@ + " = "@)[0] != ("id"@ + " = "@)[0]);
    lemma_keyed_none(b2, indent, "allow_branch"@, "id"@, 0);
    assert(("completion_reward"@ + " = "@)[0] != ("id"@ + " = "@)[0]);
    lemma_keyed_none(b3, indent, "completion_reward"@, "id"@, 0);
    assert(("ai_will_do"@ + " = "@)[0] != ("id"@ + " = "@)[0]);
    lemma_keyed_none(b4, indent, "ai_will_do"@, "id"@, 0);
    lemma_keyed_concat(s0, s1, indent, "id"@);
    lemma_keyed_concat(s0 + s1, s2, indent, "id"@);
    lemma_keyed_concat(s0 + s1 + s2, s3, indent, "id"@);
    lemma_keyed_concat(s0 + s1 + s2 + s3, s4, indent, "id"@);
    lemma_keyed_concat(s0 + s1 + s2 + s3 + s4, s5, indent, "id"@);
    lemma_keyed_concat(s0 + s1 + s2 + s3 + s4 + s5, g0, indent, "id"@);
    lemma_keyed_concat(s0 + s1 + s2 + s3 + s4 + s5 + g0, g1, indent, "id"@);
    lemma_keyed_concat(b0, b1, indent, "id"@);
    lemma_keyed_concat(b0 + b1, b2, indent, "id"@);
    lemma_keyed_concat(b0 + b1 + b2, b3, indent, "id"@);
    lemma_keyed_concat(b0 + b1 + b2 + b3, b4, indent, "id"@);
    lemma_keyed_concat(s0 + s1 + s2 + s3 + s4 + s5 + g0 + g1, b0 + b1 + b2 + b3 + b4, indent, "id"@);
    let e = Seq::<Seq<char>>::empty();
    assert(keyed_lines(focus_body_lines(f, indent, newline)->0, indent, "id"@) =~= written_once(indent, "id"@, f.id@));
}

/// The lines of a new focus keyed `icon`.
proof fn lemma_focus_field_icon(f: FocusUpdate, indent: Seq<char>, newline: Seq<char>)
    requires
        focus_body_lines(f, indent, newline) is Some,
    ensures
        keyed_lines(focus_body_lines(f, indent, newline)->0, indent, "icon"@) == written_once(indent, "icon"@, f.icon@),
{
    reveal_strlit("id");
    reveal_strlit("icon");
    reveal_strlit("x");
    reveal_strlit("y");
    reveal_strlit("relative_position_id");
    reveal_strlit("cost");
    reveal_strlit("prerequisite");
    reveal_strlit("mutually_exclusive");
    reveal_strlit("available");
    reveal_strlit("bypass");
    reveal_strlit("allow_branch");
    reveal_strlit("completion_reward");
    reveal_strlit("ai_will_do");
    reveal_strlit(" = ");
    lemma_focus_parts(f, indent, newline);
    let s0 = indented_scalar(indent, "id"@, f.id@);
    lemma_scalar_keyed(indent, "id"@, f.id@);
    let s1 = indented_scalar(indent, "icon"@, f.icon@);
    lemma_scalar_keyed(indent, "icon"@, f.icon@);
    let s2 = indented_scalar(indent, "x"@, f.x@);
    lemma_scalar_keyed(indent, "x"@, f.x@);
    let s3 = indented_scalar(indent, "y"@, f.y@);
    lemma_scalar_keyed(indent, "y"@, f.y@);
    let s4 = indented_scalar(indent, "relative_position_id"@, f.relative_position_id@);
    lemma_scalar_keyed(indent, "relative_position_id"@, f.relative_position_id@);
    let s5 = indented_scalar(indent, "cost"@, f.cost@);
    lemma_scalar_keyed(indent, "cost"@, f.cost@);
    lemma_groups_keyed(indent, newline, "prerequisite"@, nested_views(f.prerequisites@));
    let g0 = group_lines(indent, newline, "prerequisite"@, nested_views(f.prerequisites@))->0;
    lemma_groups_keyed(indent, newline, "mutually_exclusive"@, seq![views(f.mutually_exclusive@)]);
    let g1 = group_lines(indent, newline, "mutually_exclusive"@, seq![views(f.mutually_exclusive@)])->0;
    lemma_block_keyed(indent, newline, "available"@, f.available@);
    let b0 = indented_block(indent, newline, "available"@, f.available@)->0;
    lemma_block_keyed(indent, newline, "bypass"@, f.bypass@);
    let b1 = indented_block(indent, newline, "bypass"@, f.bypass@)->0;
    lemma_block_keyed(indent, newline, "allow_branch"@, f.allow_branch@);
    let b2 = indented_block(indent, newline, "allow_branch"@, f.allow_branch@)->0;
    lemma_block_keyed(indent, newline, "completion_reward"@, f.completion_reward@);
    let b3 = indented_block(indent, newline, "completion_reward"@, f.completion_reward@)->0;
    lemma_block_keyed(indent, newline, "ai_will_do"@, f.ai_will_do@);
    let b4 = indented_block(indent, newline, "ai_will_do"@, f.ai_will_do@)->0;
    assert(("id"@ + " = "@)[1] != ("icon"@ + " = "@)[1]);
    lemma_keyed_none(s0, indent, "id"@, "icon"@, 1);
    lemma_keyed_all(s1, indent, "icon"@);
    assert(("x"@ + " = "@)[0] != ("icon"@ + " = "@)[0]);
    lemma_keyed_none(s2, indent, "x"@, "icon"@, 0);
    assert(("y"@ + " = "@)[0] != ("icon"@ + " = "@)[0]);
    lemma_keyed_none(s3, indent, "y"@, "icon"@, 0);
    assert(("relative_position_id"@ + " = "@)[0] != ("icon"@ + " = "@)[0]);
    lemma_keyed_none(s4, indent, "relative_position_id"@, "icon"@, 0);
    assert(("cost"@ + " = "@)[0] != ("icon"@ + " = "@)[0]);
    lemma_keyed_none(s5, indent, "cost"@, "icon"@, 0);
    assert(("prerequisite"@ + " = "@)[0] != ("icon"@ + " = "@)[0]);
    lemma_keyed_none(g0, indent, "prerequisite"@, "icon"@, 0);
    assert(("mutually_exclusive"@ + " = "@)[0] != ("icon"@ + " = "@)[0]);
    lemma_keyed_none(g1, indent, "mutually_exclusive"@, "icon"@, 0);
    assert(("available"@ + " = "@)[0] != ("icon"@ + " = "@)[0]);
    lemma_keyed_none(b0, indent, "available"@, "icon"@, 0);
    assert(("bypass"@ + " = "@)[0] != ("icon"@ + " = "@)[0]);
    lemma_keyed_none(b1, indent, "bypass"@, "icon"@, 0);
    assert(("allow_branch"@ + " = "@)[0] != ("icon"@ + " = "@)[0]);
    lemma_keyed_none(b2, indent, "allow_branch"@, "icon"@, 0);
    assert(("completion_reward"@ + " = "@)[0] != ("icon"@ + " = "@)[0]);
    lemma_keyed_none(b3, indent, "completion_reward"@, "icon"@, 0);
    assert(("ai_will_do"@ + " = "@)[0] != ("icon"@ + " = "@)[0]);
    lemma_keyed_none(b4, indent, "ai_will_do"@, "icon"@, 0);
    lemma_keyed_concat(s0, s1, indent, "icon"@);
    lemma_keyed_concat(s0 + s1, s2, indent, "icon"@);
    lemma_keyed_concat(s0 + s1 + s2, s3, indent, "icon"@);
    lemma_keyed_concat(s0 + s1 + s2 + s3, s4, indent, "icon"@);
    lemma_keyed_concat(s0 + s1 + s2 + s3 + s4, s5, indent, "icon"@);
    lemma_keyed_concat(s0 + s1 + s2 + s3 + s4 + s5, g0, indent, "icon"@);
    lemma_keyed_concat(s0 + s1 + s2 + s3 + s4 + s5 + g0, g1, indent, "icon"@);
    lemma_keyed_concat(b0, b1, indent, "icon"@);
    lemma_keyed_concat(b0 + b1, b2, indent, "icon"@);
    lemma_keyed_concat(b0 + b1 + b2, b3, indent, "icon"@);
    lemma_keyed_concat(b0 + b1 + b2 + b3, b4, indent, "icon"@);
    lemma_keyed_concat(s0 + s1 + s2 + s3 + s4 + s5 + g0 + g1, b0 + b1 + b2 + b3 + b4, indent, "icon"@);
    let e = Seq::<Seq<char>>::empty();
    assert(keyed_lines(focus_body_lines(f, indent, newline)->0, indent, "icon"@) =~= written_once(indent, "icon"@, f.icon@));
}

/// The lines of a new focus keyed `x`.
proof fn lemma_focus_field_x(f: FocusUpdate, indent: Seq<char>, newline: Seq<char>)
    requires
        focus_body_lines(f, indent, newline) is Some,
    ensures
        keyed_lines(focus_body_lines(f, indent, newline)->0, indent, "x"@) == written_once(indent, "x"@, f.x@),
{
    reveal_strlit("id");
    reveal_strlit("icon");
    reveal_strlit("x");
    reveal_strlit("y");
    reveal_strlit("relative_position_id");
    reveal_strlit("cost");
    reveal_strlit("prerequisite");
    reveal_strlit("mutually_exclusive");
    reveal_strlit("available");
    reveal_strlit("bypass");
    reveal_strlit("allow_branch");
    reveal_strlit("completion_reward");
    reveal_strlit("ai_will_do");
    reveal_strlit(" = ");
    lemma_focus_parts(f, indent, newline);
    let s0 = indented_scalar(indent, "id"@, f.id@);
    lemma_scalar_keyed(indent, "id"@, f.id@);
    let s1 = indented_scalar(indent, "icon"@, f.icon@);
    lemma_scalar_keyed(indent, "icon"@, f.icon@);
    let s2 = indented_scalar(indent, "x"@, f.x@);
    lemma_scalar_keyed(indent, "x"@, f.x@);
    let s3 = indented_scalar(indent, "y"@, f.y@);
    lemma_scalar_keyed(indent, "y"@, f.y@);
    let s4 = indented_scalar(indent, "relative_position_id"@, f.relative_position_id@);
    lemma_scalar_keyed(indent, "relative_position_id"@, f.relative_position_id@);
    let s5 = indented_scalar(indent, "cost"@, f.cost@);
    lemma_scalar_keyed(indent, "cost"@, f.cost@);
    lemma_groups_keyed(indent, newline, "prerequisite"@, nested_views(f.prerequisites@));
    let g0 = group_lines(indent, newline, "prerequisite"@, nested_views(f.prerequisites@))->0;
    lemma_groups_keyed(indent, newline, "mutually_exclusive"@, seq![views(f.mutually_exclusive@)]);
    let g1 = group_lines(indent, newline, "mutually_exclusive"@, seq![views(f.mutually_exclusive@)])->0;
    lemma_block_keyed(indent, newline, "available"@, f.available@);
    let b0 = indented_block(indent, newline, "available"@, f.available@)->0;
    lemma_block_keyed(indent, newline, "bypass"@, f.bypass@);
    let b1 = indented_block(indent, newline, "bypass"@, f.bypass@)->0;
    lemma_block_keyed(indent, newline, "allow_branch"@, f.allow_branch@);
    let b2 = indented_block(indent, newline, "allow_branch"@, f.allow_branch@)->0;
    lemma_block_keyed(indent, newline, "completion_reward"@, f.completion_reward@);
    let b3 = indented_block(indent, newline, "completion_reward"@, f.completion_reward@)->0;
    lemma_block_keyed(indent, newline, "ai_will_do"@, f.ai_will_do@);
    let b4 = indented_block(indent, newline, "ai_will_do"@, f.ai_will_do@)->0;
    assert(("id"@ + " = "@)[0] != ("x"@ + " = "@)[0]);
    lemma_keyed_none(s0, indent, "id"@, "x"@, 0);
    assert(("icon"@ + " = "@)[0] != ("x"@ + " = "@)[0]);
    lemma_keyed_none(s1, indent, "icon"@, "x"@, 0);
    lemma_keyed_all(s2, indent, "x"@);
    assert(("y"@ + " = "@)[0] != ("x"@ + " = "@)[0]);
    lemma_keyed_none(s3, indent, "y"@, "x"@, 0);
    assert(("relative_position_id"@ + " = "@)[0] != ("x"@ + " = "@)[0]);
    lemma_keyed_none(s4, indent, "relative_position_id"@, "x"@, 0);
    assert(("cost"@ + " = "@)[0] != ("x"@ + " = "@)[0]);
    lemma_keyed_none(s5, indent, "cost"@, "x"@, 0);
    assert(("prerequisite"@ + " = "@)[0] != ("x"@ + " = "@)[0]);
    lemma_keyed_none(g0, indent, "prerequisite"@, "x"@, 0);
    assert(("mutually_exclusive"@ + " = "@)[0] != ("x"@ + " = "@)[0]);
    lemma_keyed_none(g1, indent, "mutually_exclusive"@, "x"@, 0);
    assert(("available"@ + " = "@)[0] != ("x"@ + " = "@)[0]);
    lemma_keyed_none(b0, indent, "available"@, "x"@, 0);
    assert(("bypass"@ + " = "@)[0] != ("x"@ + " = "@)[0]);
    lemma_keyed_none(b1, indent, "bypass"@, "x"@, 0);
    assert(("allow_branch"@ + " = "@)[0] != ("x"@ + " = "@)[0]);
    lemma_keyed_none(b2, indent, "allow_branch"@, "x"@, 0);
    assert(("completion_reward"@ + " = "@)[0] != ("x"@ + " = "@)[0]);
    lemma_keyed_none(b3, indent, "completion_reward"@, "x"@, 0);
    assert(("ai_will_do"@ + " = "@)[0] != ("x"@ + " = "@)[0]);
    lemma_keyed_none(b4, indent, "ai_will_do"@, "x"@, 0);
    lemma_keyed_concat(s0, s1, indent, "x"@);
    lemma_keyed_concat(s0 + s1, s2, indent, "x"@);
    lemma_keyed_concat(s0 + s1 + s2, s3, indent, "x"@);
    lemma_keyed_concat(s0 + s1 + s2 + s3, s4, indent, "x"@);
    lemma_keyed_concat(s0 + s1 + s2 + s3 + s4, s5, indent, "x"@);
    lemma_keyed_concat(s0 + s1 + s2 + s3 + s4 + s5, g0, indent, "x"@);
    lemma_keyed_concat(s0 + s1 + s2 + s3 + s4 + s5 + g0, g1, indent, "x"@);
    lemma_keyed_concat(b0, b1, indent, "x"@);
    lemma_keyed_concat(b0 + b1, b2, indent, "x"@);
    lemma_keyed_concat(b0 + b1 + b2, b3, indent, "x"@);
    lemma_keyed_concat(b0 + b1 + b2 + b3, b4, indent, "x"@);
    lemma_keyed_concat(s0 + s1 + s2 + s3 + s4 + s5 + g0 + g1, b0 + b1 + b2 + b3 + b4, indent, "x"@);
    let e = Seq::<Seq<char>>::empty();
    assert(keyed_lines(focus_body_lines(f, indent, newline)->0, indent, "x"@) =~= written_once(indent, "x"@, f.x@));
}

/// The lines of a new focus keyed `y`.
proof fn lemma_focus_field_y(f: FocusUpdate, indent: Seq<char>, newline: Seq<char>)
    requires
        focus_body_lines(f, indent, newline) is Some,
    ensures
        keyed_lines(focus_body_lines(f, indent, newline)->0, indent, "y"@) == written_once(indent, "y"@, f.y@),
{
    reveal_strlit("id");
    reveal_strlit("icon");
    reveal_strlit("x");
    reveal_strlit("y");
    reveal_strlit("relative_position_id");
    reveal_strlit("cost");
    reveal_strlit("prerequisite");
    reveal_strlit("mutually_exclusive");
    reveal_strlit("available");
    reveal_strlit("bypass");
    reveal_strlit("allow_branch");
    reveal_strlit("completion_reward");
    reveal_strlit("ai_will_do");
    reveal_strlit(" = ");
    lemma_focus_parts(f, indent, newline);
    let s0 = indented_scalar(indent, "id"@, f.id@);
    lemma_scalar_keyed(indent, "id"@, f.id@);
    let s1 = indented_scalar(indent, "icon"@, f.icon@);
    lemma_scalar_keyed(indent, "icon"@, f.icon@);
    let s2 = indented_scalar(indent, "x"@, f.x@);
    lemma_scalar_keyed(indent, "x"@, f.x@);
    let s3 = indented_scalar(indent, "y"@, f.y@);
    lemma_scalar_keyed(indent, "y"@, f.y@);
    let s4 = indented_scalar(indent, "relative_position_id"@, f.relative_position_id@);
    lemma_scalar_keyed(indent, "relative_position_id"@, f.relative_position_id@);
    let s5 = indented_scalar(indent, "cost"@, f.cost@);
    lemma_scalar_keyed(indent, "cost"@, f.cost@);
    lemma_groups_keyed(indent, newline, "prerequisite"@, nested_views(f.prerequisites@));
    let g0 = group_lines(indent, newline, "prerequisite"@, nested_views(f.prerequisites@))->0;
    lemma_groups_keyed(indent, newline, "mutually_exclusive"@, seq![views(f.mutually_exclusive@)]);
    let g1 = group_lines(indent, newline, "mutually_exclusive"@, seq![views(f.mutually_exclusive@)])->0;
    lemma_block_keyed(indent, newline, "available"@, f.available@);
    let b0 = indented_block(indent, newline, "available"@, f.available@)->0;
    lemma_block_keyed(indent, newline, "bypass"@, f.bypass@);
    let b1 = indented_block(indent, newline, "bypass"@, f.bypass@)->0;
    lemma_block_keyed(indent, newline, "allow_branch"@, f.allow_branch@);
    let b2 = indented_block(indent, newline, "allow_branch"@, f.allow_branch@)->0;
    lemma_block_keyed(indent, newline, "completion_reward"@, f.completion_reward@);
    let b3 = indented_block(indent, newline, "completion_reward"@, f.completion_reward@)->0;
    lemma_block_keyed(indent, newline, "ai_will_do"@, f.ai_will_do@);
    let b4 = indented_block(indent, newline, "ai_will_do"@, f.ai_will_do@)->0;
    assert(("id"@ + " = "@)[0] != ("y"@ + " = "@)[0]);
    lemma_keyed_none(s0, indent, "id"@, "y"@, 0);
    assert(("icon"@ + " = "@)[0] != ("y"@ + " = "@)[0]);
    lemma_keyed_none(s1, indent, "icon"@, "y"@, 0);
    assert(("x"@ + " = "@)[0] != ("y"@ + " = "@)[0]);
    lemma_keyed_none(s2, indent, "x"@, "y"@, 0);
    lemma_keyed_all(s3, indent, "y"@);
    assert(("relative_position_id"@ + " = "@)[0] != ("y"@ + " = "@)[0]);
    lemma_keyed_none(s4, indent, "relative_position_id"@, "y"@, 0);
    assert(("cost"@ + " = "@)[0] != ("y"@ + " = "@)[0]);
    lemma_keyed_none(s5, indent, "cost"@, "y"@, 0);
    assert(("prerequisite"@ + " = "@)[0] != ("y"@ + " = "@)[0]);
    lemma_keyed_none(g0, indent, "prerequisite"@, "y"@, 0);
    assert(("mutually_exclusive"@ + " = "@)[0] != ("y"@ + " = "@)[0]);
    lemma_keyed_none(g1, indent, "mutually_exclusive"@, "y"@, 0);
    assert(("available"@ + " = "@)[0] != ("y"@ + " = "@)[0]);
    lemma_keyed_none(b0, indent, "available"@, "y"@, 0);
    assert(("bypass"@ + " = "@)[0] != ("y"@ + " = "@)[0]);
    lemma_keyed_none(b1, indent, "bypass"@, "y"@, 0);
    assert(("allow_branch"@ + " = "@)[0] != ("y"@ + " = "@)[0]);
    lemma_keyed_none(b2, indent, "allow_branch"@, "y"@, 0);
    assert(("completion_reward"@ + " = "@)[0] != ("y"@ + " = "@)[0]);
    lemma_keyed_none(b3, indent, "completion_reward"@, "y"@, 0);
    assert(("ai_will_do"@ + " = "@)[0] != ("y"@ + " = "@)[0]);
    lemma_keyed_none(b4, indent, "ai_will_do"@, "y"@, 0);
    lemma_keyed_concat(s0, s1, indent, "y"@);
    lemma_keyed_concat(s0 + s1, s2, indent, "y"@);
    lemma_keyed_concat(s0 + s1 + s2, s3, indent, "y"@);
    lemma_keyed_concat(s0 + s1 + s2 + s3, s4, indent, "y"@);
    lemma_keyed_concat(s0 + s1 + s2 + s3 + s4, s5, indent, "y"@);
    lemma_keyed_concat(s0 + s1 + s2 + s3 + s4 + s5, g0, indent, "y"@);
    lemma_keyed_concat(s0 + s1 + s2 + s3 + s4 + s5 + g0, g1, indent, "y"@);
    lemma_keyed_concat(b0, b1, indent, "y"@);
    lemma_keyed_concat(b0 + b1, b2, indent, "y"@);
    lemma_keyed_concat(b0 + b1 + b2, b3, indent, "y"@);
    lemma_keyed_concat(b0 + b1 + b2 + b3, b4, indent, "y"@);
    lemma_keyed_concat(s0 + s1 + s2 + s3 + s4 + s5 + g0 + g1, b0 + b1 + b2 + b3 + b4, indent, "y"@);
    let e = Seq::<Seq<char>>::empty();
    assert(keyed_lines(focus_body_lines(f, indent, newline)->0, indent, "y"@) =~= written_once(indent, "y"@, f.y@));
}

/// The lines of a new focus keyed `relative_position_id`.
proof fn lemma_focus_field_relative_position_id(f: FocusUpdate, indent: Seq<char>, newline: Seq<char>)
    requires
        focus_body_lines(f, indent, newline) is Some,
    ensures
        keyed_lines(focus_body_lines(f, indent, newline)->0, indent, "relative_position_id"@) == written_once(indent, "relative_position_id"@, f.relative_position_id@),
{
    reveal_strlit("id");
    reveal_strlit("icon");
    reveal_strlit("x");
    reveal_strlit("y");
    reveal_strlit("relative_position_id");
    reveal_strlit("cost");
    reveal_strlit("prerequisite");
    reveal_strlit("mutually_exclusive");
    reveal_strlit("available");
    reveal_strlit("bypass");
    reveal_strlit("allow_branch");
    reveal_strlit("completion_reward");
    reveal_strlit("ai_will_do");
    reveal_strlit(" = ");
    lemma_focus_parts(f, indent, newline);
    let s0 = indented_scalar(indent, "id"@, f.id@);
    lemma_scalar_keyed(indent, "id"@, f.id@);
    let s1 = indented_scalar(indent, "icon"@, f.icon@);
    lemma_scalar_keyed(indent, "icon"@, f.icon@);
    let s2 = indented_scalar(indent, "x"@, f.x@);
    lemma_scalar_keyed(indent, "x"@, f.x@);
    let s3 = indented_scalar(indent, "y"@, f.y@);
    lemma_scalar_keyed(indent, "y"@, f.y@);
    let s4 = indented_scalar(indent, "relative_position_id"@, f.relative_position_id@);
    lemma_scalar_keyed(indent, "relative_position_id"@, f.relative_position_id@);
    let s5 = indented_scalar(indent, "cost"@, f.cost@);
    lemma_scalar_keyed(indent, "cost"@, f.cost@);
    lemma_groups_keyed(indent, newline, "prerequisite"@, nested_views(f.prerequisites@));
    let g0 = group_lines(indent, newline, "prerequisite"@, nested_views(f.prerequisites@))->0;
    lemma_groups_keyed(indent, newline, "mutually_exclusive"@, seq![views(f.mutually_exclusive@)]);
    let g1 = group_lines(indent, newline, "mutually_exclusive"@, seq![views(f.mutually_exclusive@)])->0;
    lemma_block_keyed(indent, newline, "available"@, f.available@);
    let b0 = indented_block(indent, newline, "available"@, f.available@)->0;
    lemma_block_keyed(indent, newline, "bypass"@, f.bypass@);
    let b1 = indented_block(indent, newline, "bypass"@, f.bypass@)->0;
    lemma_block_keyed(indent, newline, "allow_branch"@, f.allow_branch@);
    let b2 = indented_block(indent, newline, "allow_branch"@, f.allow_branch@)->0;
    lemma_block_keyed(indent, newline, "completion_reward"@, f.completion_reward@);
    let b3 = indented_block(indent, newline, "completion_reward"@, f.completion_reward@)->0;
    lemma_block_keyed(indent, newline, "ai_will_do"@, f.ai_will_do@);
    let b4 = indented_block(indent, newline, "ai_will_do"@, f.ai_will_do@)->0;
    assert(("id"@ + " = "@)[0] != ("relative_position_id"@ + " = "@)[0]);
    lemma_keyed_none(s0, indent, "id"@, "relative_position_id"@, 0);
    assert(("icon"@ + " = "@)[0] != ("relative_position_id"@ + " = "@)[0]);
    lemma_keyed_none(s1, indent, "icon"@, "relative_position_id"@, 0);
    assert(("x"@ + " = "@)[0] != ("relative_position_id"@ + " = "@)[0]);
    lemma_keyed_none(s2, indent, "x"@, "relative_position_id"@, 0);
    assert(("y"@ + " = "@)[0] != ("relative_position_id"@ + " = "@)[0]);
    lemma_keyed_none(s3, indent, "y"@, "relative_position_id"@, 0);
    lemma_keyed_all(s4, indent, "relative_position_id"@);
    assert(("cost"@ + " = "@)[0] != ("relative_position_id"@ + " = "@)[0]);
    lemma_keyed_none(s5, indent, "cost"@, "relative_position_id"@, 0);
    assert(("prerequisite"@ + " = "@)[0] != ("relative_position_id"@ + " = "@)[0]);
    lemma_keyed_none(g0, indent, "prerequisite"@, "relative_position_id"@, 0);
    assert(("mutually_exclusive"@ + " = "@)[0] != ("relative_position_id"@ + " = "@)[0]);
    lemma_keyed_none(g1, indent, "mutually_exclusive"@, "relative_position_id"@, 0);
    assert(("available"@ + " = "@)[0] != ("relative_position_id"@ + " = "@)[0]);
    lemma_keyed_none(b0, indent, "available"@, "relative_position_id"@, 0);
    assert(("bypass"@ + " = "@)[0] != ("relative_position_id"@ + " = "@)[0]);
    lemma_keyed_none(b1, indent, "bypass"@, "relative_position_id"@, 0);
    assert(("allow_branch"@ + " = "@)[0] != ("relative_position_id"@ + " = "@)[0]);
    lemma_keyed_none(b2, indent, "allow_branch"@, "relative_position_id"@, 0);
    assert(("completion_reward"@ + " = "@)[0] != ("relative_position_id"@ + " = "@)[0]);
    lemma_keyed_none(b3, indent, "completion_reward"@, "relative_position_id"@, 0);
    assert(("ai_will_do"@ + " = "@)[0] != ("relative_position_id"@ + " = "@)[0]);
    lemma_keyed_none(b4, indent, "ai_will_do"@, "relative_position_id"@, 0);
    lemma_keyed_concat(s0, s1, indent, "relative_position_id"@);
    lemma_keyed_concat(s0 + s1, s2, indent, "relative_position_id"@);
    lemma_keyed_concat(s0 + s1 + s2, s3, indent, "relative_position_id"@);
    lemma_keyed_concat(s0 + s1 + s2 + s3, s4, indent, "relative_position_id"@);
    lemma_keyed_concat(s0 + s1 + s2 + s3 + s4, s5, indent, "relative_position_id"@);
    lemma_keyed_concat(s0 + s1 + s2 + s3 + s4 + s5, g0, indent, "relative_position_id"@);
    lemma_keyed_concat(s0 + s1 + s2 + s3 + s4 + s5 + g0, g1, indent, "relative_position_id"@);
    lemma_keyed_concat(b0, b1, indent, "relative_position_id"@);
    lemma_keyed_concat(b0 + b1, b2, indent, "relative_position_id"@);
    lemma_keyed_concat(b0 + b1 + b2, b3, indent, "relative_position_id"@);
    lemma_keyed_concat(b0 + b1 + b2 + b3, b4, indent, "relative_position_id"@);
    lemma_keyed_concat(s0 + s1 + s2 + s3 + s4 + s5 + g0 + g1, b0 + b1 + b2 + b3 + b4, indent, "relative_position_id"@);
    let e = Seq::<Seq<char>>::empty();
    assert(keyed_lines(focus_body_lines(f, indent, newline)->0, indent, "relative_position_id"@) =~= written_once(indent, "relative_position_id"@, f.relative_position_id@));
}

/// The lines of a new focus keyed `cost`.
proof fn lemma_focus_field_cost(f: FocusUpdate, indent: Seq<char>, newline: Seq<char>)
    requires
        focus_body_lines(f, indent, newline) is Some,
    ensures
        keyed_lines(focus_body_lines(f, indent, newline)->0, indent, "cost"@) == written_once(indent, "cost"@, f.cost@),
{
    reveal_strlit("id");
    reveal_strlit("icon");
    reveal_strlit("x");
    reveal_strlit("y");
    reveal_strlit("relative_position_id");
    reveal_strlit("cost");
    reveal_strlit("prerequisite");
    reveal_strlit("mutually_exclusive");
    reveal_strlit("available");
    reveal_strlit("bypass");
    reveal_strlit("allow_branch");
    reveal_strlit("completion_reward");
    reveal_strlit("ai_will_do");
    reveal_strlit(" = ");
    lemma_focus_parts(f, indent, newline);
    let s0 = indented_scalar(indent, "id"@, f.id@);
    lemma_scalar_keyed(indent, "id"@, f.id@);
    let s1 = indented_scalar(indent, "icon"@, f.icon@);
    lemma_scalar_keyed(indent, "icon"@, f.icon@);
    let s2 = indented_scalar(indent, "x"@, f.x@);
    lemma_scalar_keyed(indent, "x"@, f.x@);
    let s3 = indented_scalar(indent, "y"@, f.y@);
    lemma_scalar_keyed(indent, "y"@, f.y@);
    let s4 = indented_scalar(indent, "relative_position_id"@, f.relative_position_id@);
    lemma_scalar_keyed(indent, "relative_position_id"@, f.relative_position_id@);
    let s5 = indented_scalar(indent, "cost"@, f.cost@);
    lemma_scalar_keyed(indent, "cost"@, f.cost@);
    lemma_groups_keyed(indent, newline, "prerequisite"@, nested_views(f.prerequisites@));
    let g0 = group_lines(indent, newline, "prerequisite"@, nested_views(f.prerequisites@))->0;
    lemma_groups_keyed(indent, newline, "mutually_exclusive"@, seq![views(f.mutually_exclusive@)]);
    let g1 = group_lines(indent, newline, "mutually_exclusive"@, seq![views(f.mutually_exclusive@)])->0;
    lemma_block_keyed(indent, newline, "available"@, f.available@);
    let b0 = indented_block(indent, newline, "available"@, f.available@)->0;
    lemma_block_keyed(indent, newline, "bypass"@, f.bypass@);
    let b1 = indented_block(indent, newline, "bypass"@, f.bypass@)->0;
    lemma_block_keyed(indent, newline, "allow_branch"@, f.allow_branch@);
    let b2 = indented_block(indent, newline, "allow_branch"@, f.allow_branch@)->0;
    lemma_block_keyed(indent, newline, "completion_reward"@, f.completion_reward@);
    let b3 = indented_block(indent, newline, "completion_reward"@, f.completion_reward@)->0;
    lemma_block_keyed(indent, newline, "ai_will_do"@, f.ai_will_do@);
    let b4 = indented_block(indent, newline, "ai_will_do"@, f.ai_will_do@)->0;
    assert(("id"@ + " = "@)[0] != ("cost"@ + " = "@)[0]);
    lemma_keyed_none(s0, indent, "id"@, "cost"@, 0);
    assert(("icon"@ + " = "@)[0] != ("cost"@ + " = "@)[0]);
    lemma_keyed_none(s1, indent, "icon"@, "cost"@, 0);
    assert(("x"@ + " = "@)[0] != ("cost"@ + " = "@)[0]);
    lemma_keyed_none(s2, indent, "x"@, "cost"@, 0);
    assert(("y"@ + " = "@)[0] != ("cost"@ + " = "@)[0]);
    lemma_keyed_none(s3, indent, "y"@, "cost"@, 0);
    assert(("relative_position_id"@ + " = "@)[0] != ("cost"@ + " = "@)[0]);
    lemma_keyed_none(s4, indent, "relative_position_id"@, "cost"@, 0);
    lemma_keyed_all(s5, indent, "cost"@);
    assert(("prerequisite"@ + " = "@)[0] != ("cost"@ + " = "@)[0]);
    lemma_keyed_none(g0, indent, "prerequisite"@, "cost"@, 0);
    assert(("mutually_exclusive"@ + " = "@)[0] != ("cost"@ + " = "@)[0]);
    lemma_keyed_none(g1, indent, "mutually_exclusive"@, "cost"@, 0);
    assert(("available"@ + " = "@)[0] != ("cost"@ + " = "@)[0]);
    lemma_keyed_none(b0, indent, "available"@, "cost"@, 0);
    assert(("bypass"@ + " = "@)[0] != ("cost"@ + " = "@)[0]);
    lemma_keyed_none(b1, indent, "bypass"@, "cost"@, 0);
    assert(("allow_branch"@ + " = "@)[0] != ("cost"@ + " = "@)[0]);
    lemma_keyed_none(b2, indent, "allow_branch"@, "cost"@, 0);
    assert(("completion_reward"@ + " = "@)[2] != ("cost"@ + " = "@)[2]);
    lemma_keyed_none(b3, indent, "completion_reward"@, "cost"@, 2);
    assert(("ai_will_do"@ + " = "@)[0] != ("cost"@ + " = "@)[0]);
    lemma_keyed_none(b4, indent, "ai_will_do"@, "cost"@, 0);
    lemma_keyed_concat(s0, s1, indent, "cost"@);
    lemma_keyed_concat(s0 + s1, s2, indent, "cost"@);
    lemma_keyed_concat(s0 + s1 + s2, s3, indent, "cost"@);
    lemma_keyed_concat(s0 + s1 + s2 + s3, s4, indent, "cost"@);
    lemma_keyed_concat(s0 + s1 + s2 + s3 + s4, s5, indent, "cost"@);
    lemma_keyed_concat(s0 + s1 + s2 + s3 + s4 + s5, g0, indent, "cost"@);
    lemma_keyed_concat(s0 + s1 + s2 + s3 + s4 + s5 + g0, g1, indent, "cost"@);
    lemma_keyed_concat(b0, b1, indent, "cost"@);
    lemma_keyed_concat(b0 + b1, b2, indent, "cost"@);
    lemma_keyed_concat(b0 + b1 + b2, b3, indent, "cost"@);
    lemma_keyed_concat(b0 + b1 + b2 + b3, b4, indent, "cost"@);
    lemma_keyed_concat(s0 + s1 + s2 + s3 + s4 + s5 + g0 + g1, b0 + b1 + b2 + b3 + b4, indent, "cost"@);
    let e = Seq::<Seq<char>>::empty();
    assert(keyed_lines(focus_body_lines(f, indent, newline)->0, indent, "cost"@) =~= written_once(indent, "cost"@, f.cost@));
}

/// Law: a new focus block writes each of its plain fields — id, icon,
/// position, relative position and cost — on a line of its own keyed by
/// that field and holding that field's value, trimmed; a blank field gets
/// no line. No field's value lands on another field's line.
pub proof fn law_a_new_focus_writes_each_field_on_its_own_line(
    f: FocusUpdate,
    indent: Seq<char>,
    newline: Seq<char>,
)
    ensures
        render_focus_body_spec(f, indent, newline) matches Some(body) ==> exists|ls: Seq<Seq<char>>|
            #[trigger] join(ls, newline) == body && keyed_lines(ls, indent, "id"@) == written_once(
                indent,
                "id"@,
                f.id@,
            ) && keyed_lines(ls, indent, "icon"@) == written_once(indent, "icon"@, f.icon@)
                && keyed_lines(ls, indent, "x"@) == written_once(indent, "x"@, f.x@) && keyed_lines(
                ls,
                indent,
                "y"@,
            ) == written_once(indent, "y"@, f.y@) && keyed_lines(ls, indent, "relative_position_id"@)
                == written_once(indent, "relative_position_id"@, f.relative_position_id@) && keyed_lines(
                ls,
                indent,
                "cost"@,
            ) == written_once(indent, "cost"@, f.cost@),
{
    if focus_body_lines(f, indent, newline) is Some {
        lemma_focus_field_id(f, indent, newline);
        lemma_focus_field_icon(f, indent, newline);
        lemma_focus_field_x(f, indent, newline);
        lemma_focus_field_y(f, indent, newline);
        lemma_focus_field_relative_position_id(f, indent, newline);
        lemma_focus_field_cost(f, indent, newline);
        let ls = focus_body_lines(f, indent, newline)->0;
        assert(join(ls, newline) == render_focus_body_spec(f, indent, newline)->0);
    }
}

// ---------------------------------------------------------------------------
// A new history block of a state
// ---------------------------------------------------------------------------

/// The lines a new history block is built from.
spec fn history_lines(u: StateUpdate) -> Seq<Seq<char>> {
    scalar_line("owner"@, u.owner@) + scalar_line("controller"@, u.controller@) + point_lines(
        views(u.victory_points@),
    ) + value_lines("add_core_of"@, views(u.cores@)) + value_lines("add_claim_by"@, views(u.claims@))
        + buildings_lines(u.buildings@)
}

proof fn lemma_each_written(key: Seq<char>, vs: Seq<Seq<char>>)
    ensures
        value_lines(key, vs) == each_written(key, vs),
        all_keyed(value_lines(key, vs), Seq::empty(), key),
    decreases vs.len(),
{
    if vs.len() > 0 {
        lemma_each_written(key, vs.drop_last());
        let t = trim_spec(vs.last());
        let before = value_lines(key, vs.drop_last());
        let line = scalar_line(key, vs.last());
        lemma_keyed_plain(key, t);
        assert forall|i: int| 0 <= i < (before + line).len() implies keyed(
            #[trigger] (before + line)[i],
            Seq::empty(),
            key,
        ) by {
            if i < before.len() {
                assert((before + line)[i] == before[i]);
            } else {
                assert((before + line)[i] == line[i - before.len()]);
            }
        }
        assert(value_lines(key, vs) =~= each_written(key, vs));
    }
}

proof fn lemma_points_keyed(ps: Seq<Seq<char>>)
    ensures
        all_keyed(point_lines(ps), Seq::empty(), "victory_points"@),
    decreases ps.len(),
{
    if ps.len() > 0 {
        lemma_points_keyed(ps.drop_last());
        let p = crate::script::single_spaced(ps.last());
        let before = point_lines(ps.drop_last());
        reveal_strlit("victory_points = { ");
        reveal_strlit("victory_points");
        reveal_strlit(" = ");
        let l = "victory_points = { "@ + p + " }"@;
        let k = Seq::<char>::empty() + "victory_points"@ + " = "@;
        assert(l.take(k.len() as int) =~= k);
        let tail: Seq<Seq<char>> = if p.len() == 0 {
            Seq::empty()
        } else {
            seq![l]
        };
        assert forall|i: int| 0 <= i < (before + tail).len() implies keyed(
            #[trigger] (before + tail)[i],
            Seq::empty(),
            "victory_points"@,
        ) by {
            if i < before.len() {
                assert((before + tail)[i] == before[i]);
            } else {
                assert((before + tail)[i] == l);
            }
        }
    }
}

proof fn lemma_buildings_keyed(b: Seq<char>)
    ensures
        all_keyed(buildings_lines(b), Seq::empty(), "buildings"@),
{
    if trim_spec(b).len() != 0 {
        let lines = crate::localisation::lines_of(b);
        let body = join(Seq::new(lines.len(), |k: int| seq!['\t'] + crate::text::trim_end_spec(lines[k])), "\n"@);
        reveal_strlit("buildings = {\n");
        reveal_strlit("buildings");
        reveal_strlit(" = ");
        let l = "buildings = {\n"@ + body + "\n}"@;
        let k = Seq::<char>::empty() + "buildings"@ + " = "@;
        assert(l.take(k.len() as int) =~= k);
        assert(buildings_lines(b)[0] == l);
    }
}

/// The parts a new history block's lines are made of.
proof fn lemma_history_parts(u: StateUpdate)
    ensures
        all_keyed(scalar_line("owner"@, u.owner@), Seq::empty(), "owner"@),
        scalar_line("owner"@, u.owner@) == each_written("owner"@, seq![u.owner@]),
        all_keyed(scalar_line("controller"@, u.controller@), Seq::empty(), "controller"@),
        scalar_line("controller"@, u.controller@) == each_written("controller"@, seq![u.controller@]),
        all_keyed(point_lines(views(u.victory_points@)), Seq::empty(), "victory_points"@),
        all_keyed(value_lines("add_core_of"@, views(u.cores@)), Seq::empty(), "add_core_of"@),
        value_lines("add_core_of"@, views(u.cores@)) == each_written("add_core_of"@, views(u.cores@)),
        all_keyed(value_lines("add_claim_by"@, views(u.claims@)), Seq::empty(), "add_claim_by"@),
        value_lines("add_claim_by"@, views(u.claims@)) == each_written("add_claim_by"@, views(u.claims@)),
        all_keyed(buildings_lines(u.buildings@), Seq::empty(), "buildings"@),
{
    lemma_each_written("owner"@, seq![u.owner@]);
    assert(seq![u.owner@].drop_last() =~= Seq::<Seq<char>>::empty());
    assert(seq![u.owner@].last() == u.owner@);
    assert(value_lines("owner"@, Seq::<Seq<char>>::empty()) =~= Seq::<Seq<char>>::empty());
    assert(Seq::<Seq<char>>::empty() + scalar_line("owner"@, u.owner@) =~= scalar_line("owner"@, u.owner@));
    assert(value_lines("owner"@, seq![u.owner@]) =~= scalar_line("owner"@, u.owner@));
    lemma_each_written("controller"@, seq![u.controller@]);
    assert(seq![u.controller@].drop_last() =~= Seq::<Seq<char>>::empty());
    assert(seq![u.controller@].last() == u.controller@);
    assert(value_lines("controller"@, Seq::<Seq<char>>::empty()) =~= Seq::<Seq<char>>::empty());
    assert(Seq::<Seq<char>>::empty() + scalar_line("controller"@, u.controller@) =~= scalar_line("controller"@, u.controller@));
    assert(value_lines("controller"@, seq![u.controller@]) =~= scalar_line("controller"@, u.controller@));
    lemma_points_keyed(views(u.victory_points@));
    lemma_each_written("add_core_of"@, views(u.cores@));
    lemma_each_written("add_claim_by"@, views(u.claims@));
    lemma_buildings_keyed(u.buildings@);
}

/// The lines of a new history block keyed `owner`.
proof fn lemma_history_field_owner(u: StateUpdate)
    ensures
        keyed_lines(history_lines(u), Seq::empty(), "owner"@) == each_written("owner"@, seq![u.owner@]),
{
    reveal_strlit("owner");
    reveal_strlit("controller");
    reveal_strlit("victory_points");
    reveal_strlit("add_core_of");
    reveal_strlit("add_claim_by");
    reveal_strlit("buildings");
    reveal_strlit(" = ");
    lemma_history_parts(u);
    let o = scalar_line("owner"@, u.owner@);
    let c = scalar_line("controller"@, u.controller@);
    let p = point_lines(views(u.victory_points@));
    let vc = value_lines("add_core_of"@, views(u.cores@));
    let vl = value_lines("add_claim_by"@, views(u.claims@));
    let bl = buildings_lines(u.buildings@);
    lemma_keyed_all(o, Seq::empty(), "owner"@);
    assert(("controller"@ + " = "@)[0] != ("owner"@ + " = "@)[0]);
    lemma_keyed_none(c, Seq::empty(), "controller"@, "owner"@, 0);
    assert(("victory_points"@ + " = "@)[0] != ("owner"@ + " = "@)[0]);
    lemma_keyed_none(p, Seq::empty(), "victory_points"@, "owner"@, 0);
    assert(("add_core_of"@ + " = "@)[0] != ("owner"@ + " = "@)[0]);
    lemma_keyed_none(vc, Seq::empty(), "add_core_of"@, "owner"@, 0);
    assert(("add_claim_by"@ + " = "@)[0] != ("owner"@ + " = "@)[0]);
    lemma_keyed_none(vl, Seq::empty(), "add_claim_by"@, "owner"@, 0);
    assert(("buildings"@ + " = "@)[0] != ("owner"@ + " = "@)[0]);
    lemma_keyed_none(bl, Seq::empty(), "buildings"@, "owner"@, 0);
    lemma_keyed_concat(o, c, Seq::empty(), "owner"@);
    lemma_keyed_concat(o + c, p, Seq::empty(), "owner"@);
    lemma_keyed_concat(o + c + p, vc, Seq::empty(), "owner"@);
    lemma_keyed_concat(o + c + p + vc, vl, Seq::empty(), "owner"@);
    lemma_keyed_concat(o + c + p + vc + vl, bl, Seq::empty(), "owner"@);
    assert(keyed_lines(history_lines(u), Seq::empty(), "owner"@) =~= each_written("owner"@, seq![u.owner@]));
}

/// The lines of a new history block keyed `controller`.
proof fn lemma_history_field_controller(u: StateUpdate)
    ensures
        keyed_lines(history_lines(u), Seq::empty(), "controller"@) == each_written("controller"@, seq![u.controller@]),
{
    reveal_strlit("owner");
    reveal_strlit("controller");
    reveal_strlit("victory_points");
    reveal_strlit("add_core_of");
    reveal_strlit("add_claim_by");
    reveal_strlit("buildings");
    reveal_strlit(" = ");
    lemma_history_parts(u);
    let o = scalar_line("owner"@, u.owner@);
    let c = scalar_line("controller"@, u.controller@);
    let p = point_lines(views(u.victory_points@));
    let vc = value_lines("add_core_of"@, views(u.cores@));
    let vl = value_lines("add_claim_by"@, views(u.claims@));
    let bl = buildings_lines(u.buildings@);
    assert(("owner"@ + " = "@)[0] != ("controller"@ + " = "@)[0]);
    lemma_keyed_none(o, Seq::empty(), "owner"@, "controller"@, 0);
    lemma_keyed_all(c, Seq::empty(), "controller"@);
    assert(("victory_points"@ + " = "@)[0] != ("controller"@ + " = "@)[0]);
    lemma_keyed_none(p, Seq::empty(), "victory_points"@, "controller"@, 0);
    assert(("add_core_of"@ + " = "@)[0] != ("controller"@ + " = "@)[0]);
    lemma_keyed_none(vc, Seq::empty(), "add_core_of"@, "controller"@, 0);
    assert(("add_claim_by"@ + " = "@)[0] != ("controller"@ + " = "@)[0]);
    lemma_keyed_none(vl, Seq::empty(), "add_claim_by"@, "controller"@, 0);
    assert(("buildings"@ + " = "@)[0] != ("controller"@ + " = "@)[0]);
    lemma_keyed_none(bl, Seq::empty(), "buildings"@, "controller"@, 0);
    lemma_keyed_concat(o, c, Seq::empty(), "controller"@);
    lemma_keyed_concat(o + c, p, Seq::empty(), "controller"@);
    lemma_keyed_concat(o + c + p, vc, Seq::empty(), "controller"@);
    lemma_keyed_concat(o + c + p + vc, vl, Seq::empty(), "controller"@);
    lemma_keyed_concat(o + c + p + vc + vl, bl, Seq::empty(), "controller"@);
    assert(keyed_lines(history_lines(u), Seq::empty(), "controller"@) =~= each_written("controller"@, seq![u.controller@]));
}

/// The lines of a new history block keyed `add_core_of`.
proof fn lemma_history_field_add_core_of(u: StateUpdate)
    ensures
        keyed_lines(history_lines(u), Seq::empty(), "add_core_of"@) == each_written("add_core_of"@, views(u.cores@)),
{
    reveal_strlit("owner");
    reveal_strlit("controller");
    reveal_strlit("victory_points");
    reveal_strlit("add_core_of");
    reveal_strlit("add_claim_by");
    reveal_strlit("buildings");
    reveal_strlit(" = ");
    lemma_history_parts(u);
    let o = scalar_line("owner"@, u.owner@);
    let c = scalar_line("controller"@, u.controller@);
    let p = point_lines(views(u.victory_points@));
    let vc = value_lines("add_core_of"@, views(u.cores@));
    let vl = value_lines("add_claim_by"@, views(u.claims@));
    let bl = buildings_lines(u.buildings@);
    assert(("owner"@ + " = "@)[0] != ("add_core_of"@ + " = "@)[0]);
    lemma_keyed_none(o, Seq::empty(), "owner"@, "add_core_of"@, 0);
    assert(("controller"@ + " = "@)[0] != ("add_core_of"@ + " = "@)[0]);
    lemma_keyed_none(c, Seq::empty(), "controller"@, "add_core_of"@, 0);
    assert(("victory_points"@ + " = "@)[0] != ("add_core_of"@ + " = "@)[0]);
    lemma_keyed_none(p, Seq::empty(), "victory_points"@, "add_core_of"@, 0);
    lemma_keyed_all(vc, Seq::empty(), "add_core_of"@);
    assert(("add_claim_by"@ + " = "@)[5] != ("add_core_of"@ + " = "@)[5]);
    lemma_keyed_none(vl, Seq::empty(), "add_claim_by"@, "add_core_of"@, 5);
    assert(("buildings"@ + " = "@)[0] != ("add_core_of"@ + " = "@)[0]);
    lemma_keyed_none(bl, Seq::empty(), "buildings"@, "add_core_of"@, 0);
    lemma_keyed_concat(o, c, Seq::empty(), "add_core_of"@);
    lemma_keyed_concat(o + c, p, Seq::empty(), "add_core_of"@);
    lemma_keyed_concat(o + c + p, vc, Seq::empty(), "add_core_of"@);
    lemma_keyed_concat(o + c + p + vc, vl, Seq::empty(), "add_core_of"@);
    lemma_keyed_concat(o + c + p + vc + vl, bl, Seq::empty(), "add_core_of"@);
    assert(keyed_lines(history_lines(u), Seq::empty(), "add_core_of"@) =~= each_written("add_core_of"@, views(u.cores@)));
}

/// The lines of a new history block keyed `add_claim_by`.
proof fn lemma_history_field_add_claim_by(u: StateUpdate)
    ensures
        keyed_lines(history_lines(u), Seq::empty(), "add_claim_by"@) == each_written("add_claim_by"@, views(u.claims@)),
{
    reveal_strlit("owner");
    reveal_strlit("controller");
    reveal_strlit("victory_points");
    reveal_strlit("add_core_of");
    reveal_strlit("add_claim_by");
    reveal_strlit("buildings");
    reveal_strlit(" = ");
    lemma_history_parts(u);
    let o = scalar_line("owner"@, u.owner@);
    let c = scalar_line("controller"@, u.controller@);
    let p = point_lines(views(u.victory_points@));
    let vc = value_lines("add_core_of"@, views(u.cores@));
    let vl = value_lines("add_claim_by"@, views(u.claims@));
    let bl = buildings_lines(u.buildings@);
    assert(("owner"@ + " = "@)[0] != ("add_claim_by"@ + " = "@)[0]);
    lemma_keyed_none(o, Seq::empty(), "owner"@, "add_claim_by"@, 0);
    assert(("controller"@ + " = "@)[0] != ("add_claim_by"@ + " = "@)[0]);
    lemma_keyed_none(c, Seq::empty(), "controller"@, "add_claim_by"@, 0);
    assert(("victory_points"@ + " = "@)[0] != ("add_claim_by"@ + " = "@)[0]);
    lemma_keyed_none(p, Seq::empty(), "victory_points"@, "add_claim_by"@, 0);
    assert(("add_core_of"@ + " = "@)[5] != ("add_claim_by"@ + " = "@)[5]);
    lemma_keyed_none(vc, Seq::empty(), "add_core_of"@, "add_claim_by"@, 5);
    lemma_keyed_all(vl, Seq::empty(), "add_claim_by"@);
    assert(("buildings"@ + " = "@)[0] != ("add_claim_by"@ + " = "@)[0]);
    lemma_keyed_none(bl, Seq::empty(), "buildings"@, "add_claim_by"@, 0);
    lemma_keyed_concat(o, c, Seq::empty(), "add_claim_by"@);
    lemma_keyed_concat(o + c, p, Seq::empty(), "add_claim_by"@);
    lemma_keyed_concat(o + c + p, vc, Seq::empty(), "add_claim_by"@);
    lemma_keyed_concat(o + c + p + vc, vl, Seq::empty(), "add_claim_by"@);
    lemma_keyed_concat(o + c + p + vc + vl, bl, Seq::empty(), "add_claim_by"@);
    assert(keyed_lines(history_lines(u), Seq::empty(), "add_claim_by"@) =~= each_written("add_claim_by"@, views(u.claims@)));
}

/// Law: a new history block written for a state holds one `owner` line
/// and one `controller` line with the update's values, one `add_core_of`
/// line for each of its cores and one `add_claim_by` line for each of its
/// claims, each trimmed and in order, blank ones left out: a core is never
/// written as a claim, nor a claim as a core.
pub proof fn law_a_new_history_block_writes_each_field_on_its_own_lines(u: StateUpdate)
    ensures
        exists|ls: Seq<Seq<char>>|
            #[trigger] join(ls, "\n"@) == render_history_spec(u) && keyed_lines(ls, Seq::empty(), "owner"@)
                == each_written("owner"@, seq![u.owner@]) && keyed_lines(ls, Seq::empty(), "controller"@)
                == each_written("controller"@, seq![u.controller@]) && keyed_lines(
                ls,
                Seq::empty(),
                "add_core_of"@,
            ) == each_written("add_core_of"@, views(u.cores@)) && keyed_lines(
                ls,
                Seq::empty(),
                "add_claim_by"@,
            ) == each_written("add_claim_by"@, views(u.claims@)),
{
    lemma_history_field_owner(u);
    lemma_history_field_controller(u);
    lemma_history_field_add_core_of(u);
    lemma_history_field_add_claim_by(u);
    assert(join(history_lines(u), "\n"@) == render_history_spec(u));
}


// ---------------------------------------------------------------------------
// The shapes of the lines new blocks are built from
// ---------------------------------------------------------------------------

/// Every line of `ls` is blank or keyed by `key`, with no indent.
pub open spec fn blank_or_keyed(ls: Seq<Seq<char>>, key: Seq<char>) -> bool {
    forall|i: int| 0 <= i < ls.len() ==> (#[trigger] ls[i]).len() == 0 || keyed(ls[i], Seq::empty(), key)
}

/// What an optional run of lines holds: blank lines and lines keyed by
/// `key`, when there is one.
pub open spec fn shaped(lines: Option<Seq<Seq<char>>>, key: Seq<char>) -> bool {
    lines matches Some(ls) ==> blank_or_keyed(ls, key)
}

/// `key = value` under no indent, with the value shown raw (quoted when it
/// has to be), when not blank.
pub open spec fn raw_written(key: Seq<char>, value: Seq<char>) -> Seq<Seq<char>> {
    let t = trim_spec(value);
    if t.len() == 0 {
        Seq::empty()
    } else {
        seq![key + " = "@ + crate::paradox::edit::raw_spec(t)]
    }
}

proof fn lemma_prefix_keyed(line: Seq<char>, key: Seq<char>)
    requires
        (key + " = "@).len() <= line.len(),
        line.take((key + " = "@).len() as int) == key + " = "@,
    ensures
        keyed(line, Seq::empty(), key),
{
    assert(Seq::<char>::empty() + key + " = "@ =~= key + " = "@);
}

proof fn lemma_one_keyed(l: Seq<char>, key: Seq<char>, t: Seq<char>)
    requires
        l == key + " = "@ + t,
    ensures
        blank_or_keyed(seq![l], key),
        blank_or_keyed(seq![Seq::<char>::empty(), l], key),
        blank_or_keyed(Seq::<Seq<char>>::empty(), key),
{
    lemma_keyed_plain(key, t);
    assert(seq![l][0] == l);
    assert(seq![Seq::<char>::empty(), l][1] == l);
}

proof fn lemma_scalar_line(key: Seq<char>, value: Seq<char>)
    ensures
        all_keyed(scalar_line(key, value), Seq::empty(), key),
        scalar_line(key, value) == each_written(key, seq![value]),
        blank_or_keyed(scalar_line(key, value), key),
{
    lemma_each_written(key, seq![value]);
    assert(seq![value].drop_last() =~= Seq::<Seq<char>>::empty());
    assert(seq![value].last() == value);
    assert(value_lines(key, Seq::<Seq<char>>::empty()) =~= Seq::<Seq<char>>::empty());
    assert(Seq::<Seq<char>>::empty() + scalar_line(key, value) =~= scalar_line(key, value));
}

proof fn lemma_raw_line(key: Seq<char>, value: Seq<char>)
    ensures
        all_keyed(crate::events::scalar_lines(key, value), Seq::empty(), key),
        crate::events::scalar_lines(key, value) == raw_written(key, value),
        blank_or_keyed(crate::events::scalar_lines(key, value), key),
{
    let t = trim_spec(value);
    lemma_keyed_plain(key, crate::paradox::edit::raw_spec(t));
}

proof fn lemma_words_shape(key: Seq<char>, values: Seq<Seq<char>>)
    ensures
        shaped(crate::script::words_lines(key, values), key),
{
    let words = crate::script::normalise_words_spec(values);
    match crate::script::fmt_block(crate::script::render_words_spec(words), Seq::empty(), "\n"@) {
        Some(t) => lemma_one_keyed(key + " = "@ + t, key, t),
        None => {},
    }
    lemma_one_keyed(key + " = "@, key, Seq::empty());
}

proof fn lemma_block_shape(key: Seq<char>, value: Seq<char>)
    ensures
        shaped(crate::script::block_lines(key, value), key),
{
    match crate::script::fmt_block(value, Seq::empty(), "\n"@) {
        Some(t) => lemma_one_keyed(key + " = "@ + t, key, t),
        None => {},
    }
    lemma_one_keyed(key + " = "@, key, Seq::empty());
}

proof fn lemma_entries_shape(key: Seq<char>, bodies: Seq<Seq<char>>)
    ensures
        shaped(crate::technologies::entry_lines(key, bodies), key),
    decreases bodies.len(),
{
    if bodies.len() > 0 {
        lemma_entries_shape(key, bodies.drop_last());
        match (
            crate::technologies::entry_lines(key, bodies.drop_last()),
            crate::script::fmt_lines(bodies.last(), Seq::empty(), "\n"@),
        ) {
            (Some(ls), Some(t)) => {
                let l = key + " = "@ + t;
                lemma_keyed_plain(key, t);
                assert forall|i: int| 0 <= i < ls.push(l).len() implies (#[trigger] ls.push(l)[i]).len() == 0
                    || keyed(ls.push(l)[i], Seq::empty(), key) by {
                    if i < ls.len() {
                        assert(ls.push(l)[i] == ls[i]);
                    }
                }
            },
            _ => {},
        }
    }
}

proof fn lemma_texts_shape(key: Seq<char>, values: Seq<Seq<char>>)
    ensures
        shaped(crate::events::text_lines(key, values), key),
    decreases values.len(),
{
    if values.len() > 0 {
        lemma_texts_shape(key, values.drop_last());
        let v = values.last();
        match crate::events::text_lines(key, values.drop_last()) {
            Some(ls) => {
                match crate::events::render_text_spec(trim_spec(v), Seq::empty(), "\n"@) {
                    Some(t) => {
                        let l = key + " = "@ + t;
                        lemma_keyed_plain(key, t);
                        assert forall|i: int| 0 <= i < ls.push(l).len() implies (#[trigger] ls.push(l)[i]).len()
                            == 0 || keyed(ls.push(l)[i], Seq::empty(), key) by {
                            if i < ls.len() {
                                assert(ls.push(l)[i] == ls[i]);
                            }
                        }
                    },
                    None => {},
                }
            },
            None => {},
        }
    }
}

proof fn lemma_section_lines_shape(key: Seq<char>, value: Seq<char>)
    ensures
        shaped(crate::events::section_lines(key, value), key),
{
    match crate::script::fmt_lines(value, Seq::empty(), "\n"@) {
        Some(t) => lemma_one_keyed(key + " = "@ + t, key, t),
        None => {},
    }
    lemma_one_keyed(key + " = "@, key, Seq::empty());
}

proof fn lemma_options_shape(os: Seq<crate::events::EventOption>)
    ensures
        shaped(crate::events::options_lines(os), "option"@),
    decreases os.len(),
{
    if os.len() > 0 {
        lemma_options_shape(os.drop_last());
        match (crate::events::options_lines(os.drop_last()), crate::events::render_option_spec(os.last())) {
            (Some(ls), Some(body)) => match crate::script::fmt_lines(body, Seq::empty(), "\n"@) {
                Some(t) => {
                    reveal_strlit("option = ");
                    reveal_strlit("option");
                    reveal_strlit(" = ");
                    assert("option = "@ =~= "option"@ + " = "@);
                    let l = "option = "@ + t;
                    lemma_keyed_plain("option"@, t);
                    let tail = seq![Seq::<char>::empty(), l];
                    assert forall|i: int| 0 <= i < (ls + tail).len() implies (#[trigger] (ls + tail)[i]).len() == 0
                        || keyed((ls + tail)[i], Seq::empty(), "option"@) by {
                        if i < ls.len() {
                            assert((ls + tail)[i] == ls[i]);
                        } else {
                            assert((ls + tail)[i] == tail[i - ls.len()]);
                        }
                    }
                },
                None => {},
            },
            _ => {},
        }
    }
}

proof fn lemma_section_shape(key: Seq<char>, body: Option<Seq<char>>)
    ensures
        shaped(crate::ideologies::section(key, body), key),
{
    match body {
        Some(b) => match crate::script::fmt_lines(b, Seq::empty(), "\n"@) {
            Some(t) => lemma_one_keyed(key + " = "@ + t, key, t),
            None => {},
        },
        None => {},
    }
}

proof fn lemma_literal_shape(lit: Seq<char>, key: Seq<char>, t: Seq<char>)
    requires
        (key + " = "@).len() <= lit.len(),
        lit.take((key + " = "@).len() as int) == key + " = "@,
    ensures
        blank_or_keyed(seq![lit + t], key),
{
    let l = lit + t;
    assert(l.take((key + " = "@).len() as int) =~= lit.take((key + " = "@).len() as int));
    lemma_prefix_keyed(l, key);
    assert(seq![l][0] == l);
}

proof fn lemma_categories_shape(values: Seq<Seq<char>>)
    ensures
        shaped(crate::technologies::categories_lines(values), "categories"@),
{
    reveal_strlit("categories = ");
    reveal_strlit("categories");
    reveal_strlit(" = ");
    let words = crate::script::normalise_words_spec(values);
    match crate::script::fmt_lines(join(words, "\n"@), Seq::empty(), "\n"@) {
        Some(t) => {
            assert("categories = "@.take(("categories"@ + " = "@).len() as int) =~= "categories"@ + " = "@);
            lemma_literal_shape("categories = "@, "categories"@, t);
        },
        None => {},
    }
    lemma_one_keyed("categories"@ + " = "@, "categories"@, Seq::empty());
}

proof fn lemma_doctrine_name_shape(name: Seq<char>)
    ensures
        blank_or_keyed(crate::technologies::doctrine_name_lines(name), "doctrine_name"@),
{
    reveal_strlit("doctrine_name = ");
    reveal_strlit("doctrine_name");
    reveal_strlit(" = ");
    assert("doctrine_name = "@.take(("doctrine_name"@ + " = "@).len() as int) =~= "doctrine_name"@ + " = "@);
    lemma_literal_shape("doctrine_name = "@, "doctrine_name"@, crate::paradox::lexer::quote_spec(trim_spec(name)));
    lemma_one_keyed("doctrine_name"@ + " = "@, "doctrine_name"@, Seq::empty());
}

proof fn lemma_colour_shape(colour: Seq<char>)
    ensures
        blank_or_keyed(crate::ideologies::colour_lines(colour), "color"@),
{
    reveal_strlit("color = { ");
    reveal_strlit("color");
    reveal_strlit(" = ");
    assert("color = { "@.take(("color"@ + " = "@).len() as int) =~= "color"@ + " = "@);
    let s = crate::script::single_spaced(colour);
    assert("color = { "@ + s + " }"@ == "color = { "@ + (s + " }"@));
    lemma_literal_shape("color = { "@, "color"@, s + " }"@);
    lemma_one_keyed("color"@ + " = "@, "color"@, Seq::empty());
}

/// The parts a new technology block's lines are made of.
proof fn lemma_technology_parts(u: crate::technologies::TechnologyUpdate)
    requires
        crate::technologies::technology_lines(u) is Some,
    ensures
        crate::script::words_lines("xor"@, views(u.xor@)) is Some,
        crate::script::words_lines("sub_technologies"@, views(u.sub_technologies@)) is Some,
        crate::script::words_lines("enable_equipments"@, views(u.enable_equipments@)) is Some,
        crate::script::words_lines("enable_equipment_modules"@, views(u.enable_equipment_modules@)) is Some,
        crate::script::words_lines("enable_subunits"@, views(u.enable_subunits@)) is Some,
        crate::technologies::entry_lines("path"@, crate::technologies::path_bodies(u.paths@)) is Some,
        crate::technologies::entry_lines("folder"@, crate::technologies::folder_bodies(u.folders@)) is Some,
        crate::technologies::categories_lines(views(u.categories@)) is Some,
        crate::script::block_lines("allow"@, u.allow@) is Some,
        crate::script::block_lines("allow_branch"@, u.allow_branch@) is Some,
        crate::script::block_lines("on_research_complete"@, u.on_research_complete@) is Some,
        crate::script::block_lines("ai_will_do"@, u.ai_will_do@) is Some,
        crate::script::block_lines("ai_research_weights"@, u.ai_research_weights@) is Some,
        crate::technologies::technology_lines(u)->0 == crate::technologies::lists_part(u)->0
            + crate::technologies::entry_lines("path"@, crate::technologies::path_bodies(u.paths@))->0
            + crate::technologies::scalars_part(u) + (crate::technologies::entry_lines(
            "folder"@,
            crate::technologies::folder_bodies(u.folders@),
        )->0 + crate::technologies::categories_lines(views(u.categories@))->0)
            + crate::technologies::blocks_part(u)->0,
{
    assert(crate::technologies::lists_part(u) is Some);
    assert(crate::technologies::blocks_part(u) is Some);
}

/// The parts a new event block's lines are made of.
proof fn lemma_event_parts(u: crate::events::EventUpdate)
    requires
        crate::events::event_lines(u) is Some,
    ensures
        crate::events::text_lines("title"@, views(u.titles@)) is Some,
        crate::events::text_lines("desc"@, views(u.descs@)) is Some,
        crate::events::section_lines("trigger"@, u.trigger@) is Some,
        crate::events::section_lines("mean_time_to_happen"@, u.mean_time_to_happen@) is Some,
        crate::events::section_lines("immediate"@, u.immediate@) is Some,
        crate::events::options_lines(u.options@) is Some,
        crate::events::event_lines(u)->0 == crate::events::scalar_lines("id"@, u.id@) + crate::events::text_lines(
            "title"@,
            views(u.titles@),
        )->0 + crate::events::text_lines("desc"@, views(u.descs@))->0 + crate::events::flags_part(u) + (
        crate::events::section_lines("trigger"@, u.trigger@)->0 + crate::events::section_lines(
            "mean_time_to_happen"@,
            u.mean_time_to_happen@,
        )->0 + crate::events::section_lines("immediate"@, u.immediate@)->0)
            + crate::events::options_lines(u.options@)->0,
{
}

/// The lines of a new ideology block.
spec fn ideology_lines(u: crate::ideologies::IdeologyUpdate) -> Seq<Seq<char>> {
    crate::ideologies::nested_part(u)->0 + crate::ideologies::scalars_part(u)
        + crate::ideologies::behaviour_lines(u.ai_behaviour@)
}

/// The parts a new ideology block's lines are made of.
proof fn lemma_ideology_parts(u: crate::ideologies::IdeologyUpdate)
    requires
        crate::ideologies::nested_part(u) is Some,
    ensures
        crate::ideologies::types_part(u) is Some,
        crate::ideologies::names_part(u) is Some,
        crate::ideologies::rules_part(u) is Some,
        crate::script::block_lines("modifiers"@, u.modifiers@) is Some,
        crate::script::block_lines("faction_modifiers"@, u.faction_modifiers@) is Some,
        crate::ideologies::nested_part(u)->0 == crate::ideologies::colour_lines(u.color@)
            + crate::ideologies::types_part(u)->0 + crate::ideologies::names_part(u)->0
            + crate::ideologies::rules_part(u)->0 + crate::script::block_lines("modifiers"@, u.modifiers@)->0
            + crate::script::block_lines("faction_modifiers"@, u.faction_modifiers@)->0,
{
}

proof fn lemma_types_part_shape(u: crate::ideologies::IdeologyUpdate)
    ensures
        shaped(crate::ideologies::types_part(u), "types"@),
{
    lemma_section_shape(
        "types"@,
        match crate::ideologies::types_lines(u.types@) {
            Some(ls) => Some(join(ls, "\n"@)),
            None => None,
        },
    );
}

proof fn lemma_names_part_shape(u: crate::ideologies::IdeologyUpdate)
    ensures
        shaped(crate::ideologies::names_part(u), "dynamic_faction_names"@),
{
    let names = crate::ideologies::wanted_names(views(u.dynamic_faction_names@));
    lemma_section_shape("dynamic_faction_names"@, Some(join(crate::ideologies::quoted_lines(names), "\n"@)));
}

proof fn lemma_rules_part_shape(u: crate::ideologies::IdeologyUpdate)
    ensures
        shaped(crate::ideologies::rules_part(u), "rules"@),
{
    let rules = crate::ideologies::wanted_rules(u.rules@);
    lemma_section_shape("rules"@, Some(join(crate::ideologies::rule_lines(rules), "\n"@)));
}

/// The `ai_<behaviour> = yes` line of a known behaviour is not keyed by a
/// field whose `key = ` differs from it at `j`.
proof fn lemma_behaviour_none(b: Seq<char>, key: Seq<char>, j: int)
    requires
        trim_spec(b).len() == 0 || crate::ideologies::known_behaviour(trim_spec(b)),
        0 <= j < (key + " = "@).len(),
        trim_spec(b).len() != 0 ==> j < ("ai_"@ + trim_spec(b) + " = yes"@).len() && ("ai_"@ + trim_spec(b)
            + " = yes"@)[j] != (key + " = "@)[j],
    ensures
        keyed_lines(crate::ideologies::behaviour_lines(b), Seq::empty(), key) == Seq::<Seq<char>>::empty(),
{
    let t = trim_spec(b);
    if t.len() != 0 {
        let l = "ai_"@ + t + " = yes"@;
        let p = Seq::<char>::empty() + key + " = "@;
        assert(p =~= key + " = "@);
        assert(!keyed(l, Seq::empty(), key)) by {
            if keyed(l, Seq::empty(), key) {
                assert(l.take(p.len() as int)[j] == l[j]);
                assert(l.take(p.len() as int) == p);
            }
        }
        assert(crate::ideologies::behaviour_lines(b) == seq![l]);
        assert(seq![l].drop_last() =~= Seq::<Seq<char>>::empty());
        assert(seq![l].last() == l);
        assert(keyed_lines(Seq::<Seq<char>>::empty(), Seq::empty(), key) =~= Seq::<Seq<char>>::empty());
    }
}

/// The lines of a new politics block.
spec fn politics_lines(p: crate::country_history::Politics) -> Seq<Seq<char>> {
    scalar_line("ruling_party"@, p.ruling_party@) + scalar_line("last_election"@, p.last_election@)
        + scalar_line("election_frequency"@, p.election_frequency@) + scalar_line(
        "elections_allowed"@,
        p.elections_allowed@,
    )
}

proof fn lemma_politics_parts(p: crate::country_history::Politics)
    ensures
        crate::country_history::render_politics_spec(p) == join(politics_lines(p), "\n"@),
{
}

proof fn lemma_technology_field_research_cost(u: TechnologyUpdate)
    requires
        crate::technologies::technology_lines(u) is Some,
    ensures
        keyed_lines(crate::technologies::technology_lines(u)->0, Seq::empty(), "research_cost"@) == each_written("research_cost"@, seq![u.research_cost@]),
{
    reveal_strlit("ai_research_weights");
    reveal_strlit("ai_will_do");
    reveal_strlit("allow");
    reveal_strlit("allow_branch");
    reveal_strlit("categories");
    reveal_strlit("doctrine");
    reveal_strlit("doctrine_name");
    reveal_strlit("enable_equipment_modules");
    reveal_strlit("enable_equipments");
    reveal_strlit("enable_subunits");
    reveal_strlit("folder");
    reveal_strlit("on_research_complete");
    reveal_strlit("path");
    reveal_strlit("research_cost");
    reveal_strlit("start_year");
    reveal_strlit("sub_technologies");
    reveal_strlit("xor");
    reveal_strlit("xp_research_bonus");
    reveal_strlit("xp_research_cost");
    reveal_strlit("xp_research_type");
    reveal_strlit(" = ");
    lemma_technology_parts(u);
    let w0 = crate::script::words_lines("xor"@, views(u.xor@))->0;
    lemma_words_shape("xor"@, views(u.xor@));
    assert(("xor"@ + " = "@)[0] != ("research_cost"@ + " = "@)[0]);
    lemma_keyed_none(w0, Seq::empty(), "xor"@, "research_cost"@, 0);
    let w1 = crate::script::words_lines("sub_technologies"@, views(u.sub_technologies@))->0;
    lemma_words_shape("sub_technologies"@, views(u.sub_technologies@));
    assert(("sub_technologies"@ + " = "@)[0] != ("research_cost"@ + " = "@)[0]);
    lemma_keyed_none(w1, Seq::empty(), "sub_technologies"@, "research_cost"@, 0);
    let w2 = crate::script::words_lines("enable_equipments"@, views(u.enable_equipments@))->0;
    lemma_words_shape("enable_equipments"@, views(u.enable_equipments@));
    assert(("enable_equipments"@ + " = "@)[0] != ("research_cost"@ + " = "@)[0]);
    lemma_keyed_none(w2, Seq::empty(), "enable_equipments"@, "research_cost"@, 0);
    let w3 = crate::script::words_lines("enable_equipment_modules"@, views(u.enable_equipment_modules@))->0;
    lemma_words_shape("enable_equipment_modules"@, views(u.enable_equipment_modules@));
    assert(("enable_equipment_modules"@ + " = "@)[0] != ("research_cost"@ + " = "@)[0]);
    lemma_keyed_none(w3, Seq::empty(), "enable_equipment_modules"@, "research_cost"@, 0);
    let w4 = crate::script::words_lines("enable_subunits"@, views(u.enable_subunits@))->0;
    lemma_words_shape("enable_subunits"@, views(u.enable_subunits@));
    assert(("enable_subunits"@ + " = "@)[0] != ("research_cost"@ + " = "@)[0]);
    lemma_keyed_none(w4, Seq::empty(), "enable_subunits"@, "research_cost"@, 0);
    let pa = crate::technologies::entry_lines("path"@, crate::technologies::path_bodies(u.paths@))->0;
    lemma_entries_shape("path"@, crate::technologies::path_bodies(u.paths@));
    assert(("path"@ + " = "@)[0] != ("research_cost"@ + " = "@)[0]);
    lemma_keyed_none(pa, Seq::empty(), "path"@, "research_cost"@, 0);
    let s0 = scalar_line("research_cost"@, u.research_cost@);
    lemma_scalar_line("research_cost"@, u.research_cost@);
    lemma_keyed_all(s0, Seq::empty(), "research_cost"@);
    let s1 = scalar_line("start_year"@, u.start_year@);
    lemma_scalar_line("start_year"@, u.start_year@);
    assert(("start_year"@ + " = "@)[0] != ("research_cost"@ + " = "@)[0]);
    lemma_keyed_none(s1, Seq::empty(), "start_year"@, "research_cost"@, 0);
    let s2 = scalar_line("doctrine"@, u.doctrine@);
    lemma_scalar_line("doctrine"@, u.doctrine@);
    assert(("doctrine"@ + " = "@)[0] != ("research_cost"@ + " = "@)[0]);
    lemma_keyed_none(s2, Seq::empty(), "doctrine"@, "research_cost"@, 0);
    let s3 = scalar_line("xp_research_type"@, u.xp_research_type@);
    lemma_scalar_line("xp_research_type"@, u.xp_research_type@);
    assert(("xp_research_type"@ + " = "@)[0] != ("research_cost"@ + " = "@)[0]);
    lemma_keyed_none(s3, Seq::empty(), "xp_research_type"@, "research_cost"@, 0);
    let s4 = scalar_line("xp_research_cost"@, u.xp_research_cost@);
    lemma_scalar_line("xp_research_cost"@, u.xp_research_cost@);
    assert(("xp_research_cost"@ + " = "@)[0] != ("research_cost"@ + " = "@)[0]);
    lemma_keyed_none(s4, Seq::empty(), "xp_research_cost"@, "research_cost"@, 0);
    let s5 = scalar_line("xp_research_bonus"@, u.xp_research_bonus@);
    lemma_scalar_line("xp_research_bonus"@, u.xp_research_bonus@);
    assert(("xp_research_bonus"@ + " = "@)[0] != ("research_cost"@ + " = "@)[0]);
    lemma_keyed_none(s5, Seq::empty(), "xp_research_bonus"@, "research_cost"@, 0);
    let dn = crate::technologies::doctrine_name_lines(u.doctrine_name@);
    lemma_doctrine_name_shape(u.doctrine_name@);
    assert(("doctrine_name"@ + " = "@)[0] != ("research_cost"@ + " = "@)[0]);
    lemma_keyed_none(dn, Seq::empty(), "doctrine_name"@, "research_cost"@, 0);
    let fo = crate::technologies::entry_lines("folder"@, crate::technologies::folder_bodies(u.folders@))->0;
    lemma_entries_shape("folder"@, crate::technologies::folder_bodies(u.folders@));
    assert(("folder"@ + " = "@)[0] != ("research_cost"@ + " = "@)[0]);
    lemma_keyed_none(fo, Seq::empty(), "folder"@, "research_cost"@, 0);
    let ca = crate::technologies::categories_lines(views(u.categories@))->0;
    lemma_categories_shape(views(u.categories@));
    assert(("categories"@ + " = "@)[0] != ("research_cost"@ + " = "@)[0]);
    lemma_keyed_none(ca, Seq::empty(), "categories"@, "research_cost"@, 0);
    let b0 = crate::script::block_lines("allow"@, u.allow@)->0;
    lemma_block_shape("allow"@, u.allow@);
    assert(("allow"@ + " = "@)[0] != ("research_cost"@ + " = "@)[0]);
    lemma_keyed_none(b0, Seq::empty(), "allow"@, "research_cost"@, 0);
    let b1 = crate::script::block_lines("allow_branch"@, u.allow_branch@)->0;
    lemma_block_shape("allow_branch"@, u.allow_branch@);
    assert(("allow_branch"@ + " = "@)[0] != ("research_cost"@ + " = "@)[0]);
    lemma_keyed_none(b1, Seq::empty(), "allow_branch"@, "research_cost"@, 0);
    let b2 = crate::script::block_lines("on_research_complete"@, u.on_research_complete@)->0;
    lemma_block_shape("on_research_complete"@, u.on_research_complete@);
    assert(("on_research_complete"@ + " = "@)[0] != ("research_cost"@ + " = "@)[0]);
    lemma_keyed_none(b2, Seq::empty(), "on_research_complete"@, "research_cost"@, 0);
    let b3 = crate::script::block_lines("ai_will_do"@, u.ai_will_do@)->0;
    lemma_block_shape("ai_will_do"@, u.ai_will_do@);
    assert(("ai_will_do"@ + " = "@)[0] != ("research_cost"@ + " = "@)[0]);
    lemma_keyed_none(b3, Seq::empty(), "ai_will_do"@, "research_cost"@, 0);
    let b4 = crate::script::block_lines("ai_research_weights"@, u.ai_research_weights@)->0;
    lemma_block_shape("ai_research_weights"@, u.ai_research_weights@);
    assert(("ai_research_weights"@ + " = "@)[0] != ("research_cost"@ + " = "@)[0]);
    lemma_keyed_none(b4, Seq::empty(), "ai_research_weights"@, "research_cost"@, 0);
    lemma_keyed_concat(w0, w1, Seq::empty(), "research_cost"@);
    lemma_keyed_concat((w0 + w1), w2, Seq::empty(), "research_cost"@);
    lemma_keyed_concat(((w0 + w1) + w2), w3, Seq::empty(), "research_cost"@);
    lemma_keyed_concat((((w0 + w1) + w2) + w3), w4, Seq::empty(), "research_cost"@);
    lemma_keyed_concat(s0, s1, Seq::empty(), "research_cost"@);
    lemma_keyed_concat((s0 + s1), s2, Seq::empty(), "research_cost"@);
    lemma_keyed_concat(((s0 + s1) + s2), s3, Seq::empty(), "research_cost"@);
    lemma_keyed_concat((((s0 + s1) + s2) + s3), s4, Seq::empty(), "research_cost"@);
    lemma_keyed_concat(((((s0 + s1) + s2) + s3) + s4), s5, Seq::empty(), "research_cost"@);
    lemma_keyed_concat((((((s0 + s1) + s2) + s3) + s4) + s5), dn, Seq::empty(), "research_cost"@);
    lemma_keyed_concat(b0, b1, Seq::empty(), "research_cost"@);
    lemma_keyed_concat((b0 + b1), b2, Seq::empty(), "research_cost"@);
    lemma_keyed_concat(((b0 + b1) + b2), b3, Seq::empty(), "research_cost"@);
    lemma_keyed_concat((((b0 + b1) + b2) + b3), b4, Seq::empty(), "research_cost"@);
    lemma_keyed_concat(((((w0 + w1) + w2) + w3) + w4), pa, Seq::empty(), "research_cost"@);
    lemma_keyed_concat((((((w0 + w1) + w2) + w3) + w4) + pa), ((((((s0 + s1) + s2) + s3) + s4) + s5) + dn), Seq::empty(), "research_cost"@);
    lemma_keyed_concat(fo, ca, Seq::empty(), "research_cost"@);
    lemma_keyed_concat(((((((w0 + w1) + w2) + w3) + w4) + pa) + ((((((s0 + s1) + s2) + s3) + s4) + s5) + dn)), (fo + ca), Seq::empty(), "research_cost"@);
    lemma_keyed_concat((((((((w0 + w1) + w2) + w3) + w4) + pa) + ((((((s0 + s1) + s2) + s3) + s4) + s5) + dn)) + (fo + ca)), ((((b0 + b1) + b2) + b3) + b4), Seq::empty(), "research_cost"@);
    assert(keyed_lines(crate::technologies::technology_lines(u)->0, Seq::empty(), "research_cost"@) =~= each_written("research_cost"@, seq![u.research_cost@]));
}

proof fn lemma_technology_field_start_year(u: TechnologyUpdate)
    requires
        crate::technologies::technology_lines(u) is Some,
    ensures
        keyed_lines(crate::technologies::technology_lines(u)->0, Seq::empty(), "start_year"@) == each_written("start_year"@, seq![u.start_year@]),
{
    reveal_strlit("ai_research_weights");
    reveal_strlit("ai_will_do");
    reveal_strlit("allow");
    reveal_strlit("allow_branch");
    reveal_strlit("categories");
    reveal_strlit("doctrine");
    reveal_strlit("doctrine_name");
    reveal_strlit("enable_equipment_modules");
    reveal_strlit("enable_equipments");
    reveal_strlit("enable_subunits");
    reveal_strlit("folder");
    reveal_strlit("on_research_complete");
    reveal_strlit("path");
    reveal_strlit("research_cost");
    reveal_strlit("start_year");
    reveal_strlit("sub_technologies");
    reveal_strlit("xor");
    reveal_strlit("xp_research_bonus");
    reveal_strlit("xp_research_cost");
    reveal_strlit("xp_research_type");
    reveal_strlit(" = ");
    lemma_technology_parts(u);
    let w0 = crate::script::words_lines("xor"@, views(u.xor@))->0;
    lemma_words_shape("xor"@, views(u.xor@));
    assert(("xor"@ + " = "@)[0] != ("start_year"@ + " = "@)[0]);
    lemma_keyed_none(w0, Seq::empty(), "xor"@, "start_year"@, 0);
    let w1 = crate::script::words_lines("sub_technologies"@, views(u.sub_technologies@))->0;
    lemma_words_shape("sub_technologies"@, views(u.sub_technologies@));
    assert(("sub_technologies"@ + " = "@)[1] != ("start_year"@ + " = "@)[1]);
    lemma_keyed_none(w1, Seq::empty(), "sub_technologies"@, "start_year"@, 1);
    let w2 = crate::script::words_lines("enable_equipments"@, views(u.enable_equipments@))->0;
    lemma_words_shape("enable_equipments"@, views(u.enable_equipments@));
    assert(("enable_equipments"@ + " = "@)[0] != ("start_year"@ + " = "@)[0]);
    lemma_keyed_none(w2, Seq::empty(), "enable_equipments"@, "start_year"@, 0);
    let w3 = crate::script::words_lines("enable_equipment_modules"@, views(u.enable_equipment_modules@))->0;
    lemma_words_shape("enable_equipment_modules"@, views(u.enable_equipment_modules@));
    assert(("enable_equipment_modules"@ + " = "@)[0] != ("start_year"@ + " = "@)[0]);
    lemma_keyed_none(w3, Seq::empty(), "enable_equipment_modules"@, "start_year"@, 0);
    let w4 = crate::script::words_lines("enable_subunits"@, views(u.enable_subunits@))->0;
    lemma_words_shape("enable_subunits"@, views(u.enable_subunits@));
    assert(("enable_subunits"@ + " = "@)[0] != ("start_year"@ + " = "@)[0]);
    lemma_keyed_none(w4, Seq::empty(), "enable_subunits"@, "start_year"@, 0);
    let pa = crate::technologies::entry_lines("path"@, crate::technologies::path_bodies(u.paths@))->0;
    lemma_entries_shape("path"@, crate::technologies::path_bodies(u.paths@));
    assert(("path"@ + " = "@)[0] != ("start_year"@ + " = "@)[0]);
    lemma_keyed_none(pa, Seq::empty(), "path"@, "start_year"@, 0);
    let s0 = scalar_line("research_cost"@, u.research_cost@);
    lemma_scalar_line("research_cost"@, u.research_cost@);
    assert(("research_cost"@ + " = "@)[0] != ("start_year"@ + " = "@)[0]);
    lemma_keyed_none(s0, Seq::empty(), "research_cost"@, "start_year"@, 0);
    let s1 = scalar_line("start_year"@, u.start_year@);
    lemma_scalar_line("start_year"@, u.start_year@);
    lemma_keyed_all(s1, Seq::empty(), "start_year"@);
    let s2 = scalar_line("doctrine"@, u.doctrine@);
    lemma_scalar_line("doctrine"@, u.doctrine@);
    assert(("doctrine"@ + " = "@)[0] != ("start_year"@ + " = "@)[0]);
    lemma_keyed_none(s2, Seq::empty(), "doctrine"@, "start_year"@, 0);
    let s3 = scalar_line("xp_research_type"@, u.xp_research_type@);
    lemma_scalar_line("xp_research_type"@, u.xp_research_type@);
    assert(("xp_research_type"@ + " = "@)[0] != ("start_year"@ + " = "@)[0]);
    lemma_keyed_none(s3, Seq::empty(), "xp_research_type"@, "start_year"@, 0);
    let s4 = scalar_line("xp_research_cost"@, u.xp_research_cost@);
    lemma_scalar_line("xp_research_cost"@, u.xp_research_cost@);
    assert(("xp_research_cost"@ + " = "@)[0] != ("start_year"@ + " = "@)[0]);
    lemma_keyed_none(s4, Seq::empty(), "xp_research_cost"@, "start_year"@, 0);
    let s5 = scalar_line("xp_research_bonus"@, u.xp_research_bonus@);
    lemma_scalar_line("xp_research_bonus"@, u.xp_research_bonus@);
    assert(("xp_research_bonus"@ + " = "@)[0] != ("start_year"@ + " = "@)[0]);
    lemma_keyed_none(s5, Seq::empty(), "xp_research_bonus"@, "start_year"@, 0);
    let dn = crate::technologies::doctrine_name_lines(u.doctrine_name@);
    lemma_doctrine_name_shape(u.doctrine_name@);
    assert(("doctrine_name"@ + " = "@)[0] != ("start_year"@ + " = "@)[0]);
    lemma_keyed_none(dn, Seq::empty(), "doctrine_name"@, "start_year"@, 0);
    let fo = crate::technologies::entry_lines("folder"@, crate::technologies::folder_bodies(u.folders@))->0;
    lemma_entries_shape("folder"@, crate::technologies::folder_bodies(u.folders@));
    assert(("folder"@ + " = "@)[0] != ("start_year"@ + " = "@)[0]);
    lemma_keyed_none(fo, Seq::empty(), "folder"@, "start_year"@, 0);
    let ca = crate::technologies::categories_lines(views(u.categories@))->0;
    lemma_categories_shape(views(u.categories@));
    assert(("categories"@ + " = "@)[0] != ("start_year"@ + " = "@)[0]);
    lemma_keyed_none(ca, Seq::empty(), "categories"@, "start_year"@, 0);
    let b0 = crate::script::block_lines("allow"@, u.allow@)->0;
    lemma_block_shape("allow"@, u.allow@);
    assert(("allow"@ + " = "@)[0] != ("start_year"@ + " = "@)[0]);
    lemma_keyed_none(b0, Seq::empty(), "allow"@, "start_year"@, 0);
    let b1 = crate::script::block_lines("allow_branch"@, u.allow_branch@)->0;
    lemma_block_shape("allow_branch"@, u.allow_branch@);
    assert(("allow_branch"@ + " = "@)[0] != ("start_year"@ + " = "@)[0]);
    lemma_keyed_none(b1, Seq::empty(), "allow_branch"@, "start_year"@, 0);
    let b2 = crate::script::block_lines("on_research_complete"@, u.on_research_complete@)->0;
    lemma_block_shape("on_research_complete"@, u.on_research_complete@);
    assert(("on_research_complete"@ + " = "@)[0] != ("start_year"@ + " = "@)[0]);
    lemma_keyed_none(b2, Seq::empty(), "on_research_complete"@, "start_year"@, 0);
    let b3 = crate::script::block_lines("ai_will_do"@, u.ai_will_do@)->0;
    lemma_block_shape("ai_will_do"@, u.ai_will_do@);
    assert(("ai_will_do"@ + " = "@)[0] != ("start_year"@ + " = "@)[0]);
    lemma_keyed_none(b3, Seq::empty(), "ai_will_do"@, "start_year"@, 0);
    let b4 = crate::script::block_lines("ai_research_weights"@, u.ai_research_weights@)->0;
    lemma_block_shape("ai_research_weights"@, u.ai_research_weights@);
    assert(("ai_research_weights"@ + " = "@)[0] != ("start_year"@ + " = "@)[0]);
    lemma_keyed_none(b4, Seq::empty(), "ai_research_weights"@, "start_year"@, 0);
    lemma_keyed_concat(w0, w1, Seq::empty(), "start_year"@);
    lemma_keyed_concat((w0 + w1), w2, Seq::empty(), "start_year"@);
    lemma_keyed_concat(((w0 + w1) + w2), w3, Seq::empty(), "start_year"@);
    lemma_keyed_concat((((w0 + w1) + w2) + w3), w4, Seq::empty(), "start_year"@);
    lemma_keyed_concat(s0, s1, Seq::empty(), "start_year"@);
    lemma_keyed_concat((s0 + s1), s2, Seq::empty(), "start_year"@);
    lemma_keyed_concat(((s0 + s1) + s2), s3, Seq::empty(), "start_year"@);
    lemma_keyed_concat((((s0 + s1) + s2) + s3), s4, Seq::empty(), "start_year"@);
    lemma_keyed_concat(((((s0 + s1) + s2) + s3) + s4), s5, Seq::empty(), "start_year"@);
    lemma_keyed_concat((((((s0 + s1) + s2) + s3) + s4) + s5), dn, Seq::empty(), "start_year"@);
    lemma_keyed_concat(b0, b1, Seq::empty(), "start_year"@);
    lemma_keyed_concat((b0 + b1), b2, Seq::empty(), "start_year"@);
    lemma_keyed_concat(((b0 + b1) + b2), b3, Seq::empty(), "start_year"@);
    lemma_keyed_concat((((b0 + b1) + b2) + b3), b4, Seq::empty(), "start_year"@);
    lemma_keyed_concat(((((w0 + w1) + w2) + w3) + w4), pa, Seq::empty(), "start_year"@);
    lemma_keyed_concat((((((w0 + w1) + w2) + w3) + w4) + pa), ((((((s0 + s1) + s2) + s3) + s4) + s5) + dn), Seq::empty(), "start_year"@);
    lemma_keyed_concat(fo, ca, Seq::empty(), "start_year"@);
    lemma_keyed_concat(((((((w0 + w1) + w2) + w3) + w4) + pa) + ((((((s0 + s1) + s2) + s3) + s4) + s5) + dn)), (fo + ca), Seq::empty(), "start_year"@);
    lemma_keyed_concat((((((((w0 + w1) + w2) + w3) + w4) + pa) + ((((((s0 + s1) + s2) + s3) + s4) + s5) + dn)) + (fo + ca)), ((((b0 + b1) + b2) + b3) + b4), Seq::empty(), "start_year"@);
    assert(keyed_lines(crate::technologies::technology_lines(u)->0, Seq::empty(), "start_year"@) =~= each_written("start_year"@, seq![u.start_year@]));
}

proof fn lemma_technology_field_doctrine(u: TechnologyUpdate)
    requires
        crate::technologies::technology_lines(u) is Some,
    ensures
        keyed_lines(crate::technologies::technology_lines(u)->0, Seq::empty(), "doctrine"@) == each_written("doctrine"@, seq![u.doctrine@]),
{
    reveal_strlit("ai_research_weights");
    reveal_strlit("ai_will_do");
    reveal_strlit("allow");
    reveal_strlit("allow_branch");
    reveal_strlit("categories");
    reveal_strlit("doctrine");
    reveal_strlit("doctrine_name");
    reveal_strlit("enable_equipment_modules");
    reveal_strlit("enable_equipments");
    reveal_strlit("enable_subunits");
    reveal_strlit("folder");
    reveal_strlit("on_research_complete");
    reveal_strlit("path");
    reveal_strlit("research_cost");
    reveal_strlit("start_year");
    reveal_strlit("sub_technologies");
    reveal_strlit("xor");
    reveal_strlit("xp_research_bonus");
    reveal_strlit("xp_research_cost");
    reveal_strlit("xp_research_type");
    reveal_strlit(" = ");
    lemma_technology_parts(u);
    let w0 = crate::script::words_lines("xor"@, views(u.xor@))->0;
    lemma_words_shape("xor"@, views(u.xor@));
    assert(("xor"@ + " = "@)[0] != ("doctrine"@ + " = "@)[0]);
    lemma_keyed_none(w0, Seq::empty(), "xor"@, "doctrine"@, 0);
    let w1 = crate::script::words_lines("sub_technologies"@, views(u.sub_technologies@))->0;
    lemma_words_shape("sub_technologies"@, views(u.sub_technologies@));
    assert(("sub_technologies"@ + " = "@)[0] != ("doctrine"@ + " = "@)[0]);
    lemma_keyed_none(w1, Seq::empty(), "sub_technologies"@, "doctrine"@, 0);
    let w2 = crate::script::words_lines("enable_equipments"@, views(u.enable_equipments@))->0;
    lemma_words_shape("enable_equipments"@, views(u.enable_equipments@));
    assert(("enable_equipments"@ + " = "@)[0] != ("doctrine"@ + " = "@)[0]);
    lemma_keyed_none(w2, Seq::empty(), "enable_equipments"@, "doctrine"@, 0);
    let w3 = crate::script::words_lines("enable_equipment_modules"@, views(u.enable_equipment_modules@))->0;
    lemma_words_shape("enable_equipment_modules"@, views(u.enable_equipment_modules@));
    assert(("enable_equipment_modules"@ + " = "@)[0] != ("doctrine"@ + " = "@)[0]);
    lemma_keyed_none(w3, Seq::empty(), "enable_equipment_modules"@, "doctrine"@, 0);
    let w4 = crate::script::words_lines("enable_subunits"@, views(u.enable_subunits@))->0;
    lemma_words_shape("enable_subunits"@, views(u.enable_subunits@));
    assert(("enable_subunits"@ + " = "@)[0] != ("doctrine"@ + " = "@)[0]);
    lemma_keyed_none(w4, Seq::empty(), "enable_subunits"@, "doctrine"@, 0);
    let pa = crate::technologies::entry_lines("path"@, crate::technologies::path_bodies(u.paths@))->0;
    lemma_entries_shape("path"@, crate::technologies::path_bodies(u.paths@));
    assert(("path"@ + " = "@)[0] != ("doctrine"@ + " = "@)[0]);
    lemma_keyed_none(pa, Seq::empty(), "path"@, "doctrine"@, 0);
    let s0 = scalar_line("research_cost"@, u.research_cost@);
    lemma_scalar_line("research_cost"@, u.research_cost@);
    assert(("research_cost"@ + " = "@)[0] != ("doctrine"@ + " = "@)[0]);
    lemma_keyed_none(s0, Seq::empty(), "research_cost"@, "doctrine"@, 0);
    let s1 = scalar_line("start_year"@, u.start_year@);
    lemma_scalar_line("start_year"@, u.start_year@);
    assert(("start_year"@ + " = "@)[0] != ("doctrine"@ + " = "@)[0]);
    lemma_keyed_none(s1, Seq::empty(), "start_year"@, "doctrine"@, 0);
    let s2 = scalar_line("doctrine"@, u.doctrine@);
    lemma_scalar_line("doctrine"@, u.doctrine@);
    lemma_keyed_all(s2, Seq::empty(), "doctrine"@);
    let s3 = scalar_line("xp_research_type"@, u.xp_research_type@);
    lemma_scalar_line("xp_research_type"@, u.xp_research_type@);
    assert(("xp_research_type"@ + " = "@)[0] != ("doctrine"@ + " = "@)[0]);
    lemma_keyed_none(s3, Seq::empty(), "xp_research_type"@, "doctrine"@, 0);
    let s4 = scalar_line("xp_research_cost"@, u.xp_research_cost@);
    lemma_scalar_line("xp_research_cost"@, u.xp_research_cost@);
    assert(("xp_research_cost"@ + " = "@)[0] != ("doctrine"@ + " = "@)[0]);
    lemma_keyed_none(s4, Seq::empty(), "xp_research_cost"@, "doctrine"@, 0);
    let s5 = scalar_line("xp_research_bonus"@, u.xp_research_bonus@);
    lemma_scalar_line("xp_research_bonus"@, u.xp_research_bonus@);
    assert(("xp_research_bonus"@ + " = "@)[0] != ("doctrine"@ + " = "@)[0]);
    lemma_keyed_none(s5, Seq::empty(), "xp_research_bonus"@, "doctrine"@, 0);
    let dn = crate::technologies::doctrine_name_lines(u.doctrine_name@);
    lemma_doctrine_name_shape(u.doctrine_name@);
    assert(("doctrine_name"@ + " = "@)[8] != ("doctrine"@ + " = "@)[8]);
    lemma_keyed_none(dn, Seq::empty(), "doctrine_name"@, "doctrine"@, 8);
    let fo = crate::technologies::entry_lines("folder"@, crate::technologies::folder_bodies(u.folders@))->0;
    lemma_entries_shape("folder"@, crate::technologies::folder_bodies(u.folders@));
    assert(("folder"@ + " = "@)[0] != ("doctrine"@ + " = "@)[0]);
    lemma_keyed_none(fo, Seq::empty(), "folder"@, "doctrine"@, 0);
    let ca = crate::technologies::categories_lines(views(u.categories@))->0;
    lemma_categories_shape(views(u.categories@));
    assert(("categories"@ + " = "@)[0] != ("doctrine"@ + " = "@)[0]);
    lemma_keyed_none(ca, Seq::empty(), "categories"@, "doctrine"@, 0);
    let b0 = crate::script::block_lines("allow"@, u.allow@)->0;
    lemma_block_shape("allow"@, u.allow@);
    assert(("allow"@ + " = "@)[0] != ("doctrine"@ + " = "@)[0]);
    lemma_keyed_none(b0, Seq::empty(), "allow"@, "doctrine"@, 0);
    let b1 = crate::script::block_lines("allow_branch"@, u.allow_branch@)->0;
    lemma_block_shape("allow_branch"@, u.allow_branch@);
    assert(("allow_branch"@ + " = "@)[0] != ("doctrine"@ + " = "@)[0]);
    lemma_keyed_none(b1, Seq::empty(), "allow_branch"@, "doctrine"@, 0);
    let b2 = crate::script::block_lines("on_research_complete"@, u.on_research_complete@)->0;
    lemma_block_shape("on_research_complete"@, u.on_research_complete@);
    assert(("on_research_complete"@ + " = "@)[0] != ("doctrine"@ + " = "@)[0]);
    lemma_keyed_none(b2, Seq::empty(), "on_research_complete"@, "doctrine"@, 0);
    let b3 = crate::script::block_lines("ai_will_do"@, u.ai_will_do@)->0;
    lemma_block_shape("ai_will_do"@, u.ai_will_do@);
    assert(("ai_will_do"@ + " = "@)[0] != ("doctrine"@ + " = "@)[0]);
    lemma_keyed_none(b3, Seq::empty(), "ai_will_do"@, "doctrine"@, 0);
    let b4 = crate::script::block_lines("ai_research_weights"@, u.ai_research_weights@)->0;
    lemma_block_shape("ai_research_weights"@, u.ai_research_weights@);
    assert(("ai_research_weights"@ + " = "@)[0] != ("doctrine"@ + " = "@)[0]);
    lemma_keyed_none(b4, Seq::empty(), "ai_research_weights"@, "doctrine"@, 0);
    lemma_keyed_concat(w0, w1, Seq::empty(), "doctrine"@);
    lemma_keyed_concat((w0 + w1), w2, Seq::empty(), "doctrine"@);
    lemma_keyed_concat(((w0 + w1) + w2), w3, Seq::empty(), "doctrine"@);
    lemma_keyed_concat((((w0 + w1) + w2) + w3), w4, Seq::empty(), "doctrine"@);
    lemma_keyed_concat(s0, s1, Seq::empty(), "doctrine"@);
    lemma_keyed_concat((s0 + s1), s2, Seq::empty(), "doctrine"@);
    lemma_keyed_concat(((s0 + s1) + s2), s3, Seq::empty(), "doctrine"@);
    lemma_keyed_concat((((s0 + s1) + s2) + s3), s4, Seq::empty(), "doctrine"@);
    lemma_keyed_concat(((((s0 + s1) + s2) + s3) + s4), s5, Seq::empty(), "doctrine"@);
    lemma_keyed_concat((((((s0 + s1) + s2) + s3) + s4) + s5), dn, Seq::empty(), "doctrine"@);
    lemma_keyed_concat(b0, b1, Seq::empty(), "doctrine"@);
    lemma_keyed_concat((b0 + b1), b2, Seq::empty(), "doctrine"@);
    lemma_keyed_concat(((b0 + b1) + b2), b3, Seq::empty(), "doctrine"@);
    lemma_keyed_concat((((b0 + b1) + b2) + b3), b4, Seq::empty(), "doctrine"@);
    lemma_keyed_concat(((((w0 + w1) + w2) + w3) + w4), pa, Seq::empty(), "doctrine"@);
    lemma_keyed_concat((((((w0 + w1) + w2) + w3) + w4) + pa), ((((((s0 + s1) + s2) + s3) + s4) + s5) + dn), Seq::empty(), "doctrine"@);
    lemma_keyed_concat(fo, ca, Seq::empty(), "doctrine"@);
    lemma_keyed_concat(((((((w0 + w1) + w2) + w3) + w4) + pa) + ((((((s0 + s1) + s2) + s3) + s4) + s5) + dn)), (fo + ca), Seq::empty(), "doctrine"@);
    lemma_keyed_concat((((((((w0 + w1) + w2) + w3) + w4) + pa) + ((((((s0 + s1) + s2) + s3) + s4) + s5) + dn)) + (fo + ca)), ((((b0 + b1) + b2) + b3) + b4), Seq::empty(), "doctrine"@);
    assert(keyed_lines(crate::technologies::technology_lines(u)->0, Seq::empty(), "doctrine"@) =~= each_written("doctrine"@, seq![u.doctrine@]));
}

proof fn lemma_technology_field_xp_research_type(u: TechnologyUpdate)
    requires
        crate::technologies::technology_lines(u) is Some,
    ensures
        keyed_lines(crate::technologies::technology_lines(u)->0, Seq::empty(), "xp_research_type"@) == each_written("xp_research_type"@, seq![u.xp_research_type@]),
{
    reveal_strlit("ai_research_weights");
    reveal_strlit("ai_will_do");
    reveal_strlit("allow");
    reveal_strlit("allow_branch");
    reveal_strlit("categories");
    reveal_strlit("doctrine");
    reveal_strlit("doctrine_name");
    reveal_strlit("enable_equipment_modules");
    reveal_strlit("enable_equipments");
    reveal_strlit("enable_subunits");
    reveal_strlit("folder");
    reveal_strlit("on_research_complete");
    reveal_strlit("path");
    reveal_strlit("research_cost");
    reveal_strlit("start_year");
    reveal_strlit("sub_technologies");
    reveal_strlit("xor");
    reveal_strlit("xp_research_bonus");
    reveal_strlit("xp_research_cost");
    reveal_strlit("xp_research_type");
    reveal_strlit(" = ");
    lemma_technology_parts(u);
    let w0 = crate::script::words_lines("xor"@, views(u.xor@))->0;
    lemma_words_shape("xor"@, views(u.xor@));
    assert(("xor"@ + " = "@)[1] != ("xp_research_type"@ + " = "@)[1]);
    lemma_keyed_none(w0, Seq::empty(), "xor"@, "xp_research_type"@, 1);
    let w1 = crate::script::words_lines("sub_technologies"@, views(u.sub_technologies@))->0;
    lemma_words_shape("sub_technologies"@, views(u.sub_technologies@));
    assert(("sub_technologies"@ + " = "@)[0] != ("xp_research_type"@ + " = "@)[0]);
    lemma_keyed_none(w1, Seq::empty(), "sub_technologies"@, "xp_research_type"@, 0);
    let w2 = crate::script::words_lines("enable_equipments"@, views(u.enable_equipments@))->0;
    lemma_words_shape("enable_equipments"@, views(u.enable_equipments@));
    assert(("enable_equipments"@ + " = "@)[0] != ("xp_research_type"@ + " = "@)[0]);
    lemma_keyed_none(w2, Seq::empty(), "enable_equipments"@, "xp_research_type"@, 0);
    let w3 = crate::script::words_lines("enable_equipment_modules"@, views(u.enable_equipment_modules@))->0;
    lemma_words_shape("enable_equipment_modules"@, views(u.enable_equipment_modules@));
    assert(("enable_equipment_modules"@ + " = "@)[0] != ("xp_research_type"@ + " = "@)[0]);
    lemma_keyed_none(w3, Seq::empty(), "enable_equipment_modules"@, "xp_research_type"@, 0);
    let w4 = crate::script::words_lines("enable_subunits"@, views(u.enable_subunits@))->0;
    lemma_words_shape("enable_subunits"@, views(u.enable_subunits@));
    assert(("enable_subunits"@ + " = "@)[0] != ("xp_research_type"@ + " = "@)[0]);
    lemma_keyed_none(w4, Seq::empty(), "enable_subunits"@, "xp_research_type"@, 0);
    let pa = crate::technologies::entry_lines("path"@, crate::technologies::path_bodies(u.paths@))->0;
    lemma_entries_shape("path"@, crate::technologies::path_bodies(u.paths@));
    assert(("path"@ + " = "@)[0] != ("xp_research_type"@ + " = "@)[0]);
    lemma_keyed_none(pa, Seq::empty(), "path"@, "xp_research_type"@, 0);
    let s0 = scalar_line("research_cost"@, u.research_cost@);
    lemma_scalar_line("research_cost"@, u.research_cost@);
    assert(("research_cost"@ + " = "@)[0] != ("xp_research_type"@ + " = "@)[0]);
    lemma_keyed_none(s0, Seq::empty(), "research_cost"@, "xp_research_type"@, 0);
    let s1 = scalar_line("start_year"@, u.start_year@);
    lemma_scalar_line("start_year"@, u.start_year@);
    assert(("start_year"@ + " = "@)[0] != ("xp_research_type"@ + " = "@)[0]);
    lemma_keyed_none(s1, Seq::empty(), "start_year"@, "xp_research_type"@, 0);
    let s2 = scalar_line("doctrine"@, u.doctrine@);
    lemma_scalar_line("doctrine"@, u.doctrine@);
    assert(("doctrine"@ + " = "@)[0] != ("xp_research_type"@ + " = "@)[0]);
    lemma_keyed_none(s2, Seq::empty(), "doctrine"@, "xp_research_type"@, 0);
    let s3 = scalar_line("xp_research_type"@, u.xp_research_type@);
    lemma_scalar_line("xp_research_type"@, u.xp_research_type@);
    lemma_keyed_all(s3, Seq::empty(), "xp_research_type"@);
    let s4 = scalar_line("xp_research_cost"@, u.xp_research_cost@);
    lemma_scalar_line("xp_research_cost"@, u.xp_research_cost@);
    assert(("xp_research_cost"@ + " = "@)[12] != ("xp_research_type"@ + " = "@)[12]);
    lemma_keyed_none(s4, Seq::empty(), "xp_research_cost"@, "xp_research_type"@, 12);
    let s5 = scalar_line("xp_research_bonus"@, u.xp_research_bonus@);
    lemma_scalar_line("xp_research_bonus"@, u.xp_research_bonus@);
    assert(("xp_research_bonus"@ + " = "@)[12] != ("xp_research_type"@ + " = "@)[12]);
    lemma_keyed_none(s5, Seq::empty(), "xp_research_bonus"@, "xp_research_type"@, 12);
    let dn = crate::technologies::doctrine_name_lines(u.doctrine_name@);
    lemma_doctrine_name_shape(u.doctrine_name@);
    assert(("doctrine_name"@ + " = "@)[0] != ("xp_research_type"@ + " = "@)[0]);
    lemma_keyed_none(dn, Seq::empty(), "doctrine_name"@, "xp_research_type"@, 0);
    let fo = crate::technologies::entry_lines("folder"@, crate::technologies::folder_bodies(u.folders@))->0;
    lemma_entries_shape("folder"@, crate::technologies::folder_bodies(u.folders@));
    assert(("folder"@ + " = "@)[0] != ("xp_research_type"@ + " = "@)[0]);
    lemma_keyed_none(fo, Seq::empty(), "folder"@, "xp_research_type"@, 0);
    let ca = crate::technologies::categories_lines(views(u.categories@))->0;
    lemma_categories_shape(views(u.categories@));
    assert(("categories"@ + " = "@)[0] != ("xp_research_type"@ + " = "@)[0]);
    lemma_keyed_none(ca, Seq::empty(), "categories"@, "xp_research_type"@, 0);
    let b0 = crate::script::block_lines("allow"@, u.allow@)->0;
    lemma_block_shape("allow"@, u.allow@);
    assert(("allow"@ + " = "@)[0] != ("xp_research_type"@ + " = "@)[0]);
    lemma_keyed_none(b0, Seq::empty(), "allow"@, "xp_research_type"@, 0);
    let b1 = crate::script::block_lines("allow_branch"@, u.allow_branch@)->0;
    lemma_block_shape("allow_branch"@, u.allow_branch@);
    assert(("allow_branch"@ + " = "@)[0] != ("xp_research_type"@ + " = "@)[0]);
    lemma_keyed_none(b1, Seq::empty(), "allow_branch"@, "xp_research_type"@, 0);
    let b2 = crate::script::block_lines("on_research_complete"@, u.on_research_complete@)->0;
    lemma_block_shape("on_research_complete"@, u.on_research_complete@);
    assert(("on_research_complete"@ + " = "@)[0] != ("xp_research_type"@ + " = "@)[0]);
    lemma_keyed_none(b2, Seq::empty(), "on_research_complete"@, "xp_research_type"@, 0);
    let b3 = crate::script::block_lines("ai_will_do"@, u.ai_will_do@)->0;
    lemma_block_shape("ai_will_do"@, u.ai_will_do@);
    assert(("ai_will_do"@ + " = "@)[0] != ("xp_research_type"@ + " = "@)[0]);
    lemma_keyed_none(b3, Seq::empty(), "ai_will_do"@, "xp_research_type"@, 0);
    let b4 = crate::script::block_lines("ai_research_weights"@, u.ai_research_weights@)->0;
    lemma_block_shape("ai_research_weights"@, u.ai_research_weights@);
    assert(("ai_research_weights"@ + " = "@)[0] != ("xp_research_type"@ + " = "@)[0]);
    lemma_keyed_none(b4, Seq::empty(), "ai_research_weights"@, "xp_research_type"@, 0);
    lemma_keyed_concat(w0, w1, Seq::empty(), "xp_research_type"@);
    lemma_keyed_concat((w0 + w1), w2, Seq::empty(), "xp_research_type"@);
    lemma_keyed_concat(((w0 + w1) + w2), w3, Seq::empty(), "xp_research_type"@);
    lemma_keyed_concat((((w0 + w1) + w2) + w3), w4, Seq::empty(), "xp_research_type"@);
    lemma_keyed_concat(s0, s1, Seq::empty(), "xp_research_type"@);
    lemma_keyed_concat((s0 + s1), s2, Seq::empty(), "xp_research_type"@);
    lemma_keyed_concat(((s0 + s1) + s2), s3, Seq::empty(), "xp_research_type"@);
    lemma_keyed_concat((((s0 + s1) + s2) + s3), s4, Seq::empty(), "xp_research_type"@);
    lemma_keyed_concat(((((s0 + s1) + s2) + s3) + s4), s5, Seq::empty(), "xp_research_type"@);
    lemma_keyed_concat((((((s0 + s1) + s2) + s3) + s4) + s5), dn, Seq::empty(), "xp_research_type"@);
    lemma_keyed_concat(b0, b1, Seq::empty(), "xp_research_type"@);
    lemma_keyed_concat((b0 + b1), b2, Seq::empty(), "xp_research_type"@);
    lemma_keyed_concat(((b0 + b1) + b2), b3, Seq::empty(), "xp_research_type"@);
    lemma_keyed_concat((((b0 + b1) + b2) + b3), b4, Seq::empty(), "xp_research_type"@);
    lemma_keyed_concat(((((w0 + w1) + w2) + w3) + w4), pa, Seq::empty(), "xp_research_type"@);
    lemma_keyed_concat((((((w0 + w1) + w2) + w3) + w4) + pa), ((((((s0 + s1) + s2) + s3) + s4) + s5) + dn), Seq::empty(), "xp_research_type"@);
    lemma_keyed_concat(fo, ca, Seq::empty(), "xp_research_type"@);
    lemma_keyed_concat(((((((w0 + w1) + w2) + w3) + w4) + pa) + ((((((s0 + s1) + s2) + s3) + s4) + s5) + dn)), (fo + ca), Seq::empty(), "xp_research_type"@);
    lemma_keyed_concat((((((((w0 + w1) + w2) + w3) + w4) + pa) + ((((((s0 + s1) + s2) + s3) + s4) + s5) + dn)) + (fo + ca)), ((((b0 + b1) + b2) + b3) + b4), Seq::empty(), "xp_research_type"@);
    assert(keyed_lines(crate::technologies::technology_lines(u)->0, Seq::empty(), "xp_research_type"@) =~= each_written("xp_research_type"@, seq![u.xp_research_type@]));
}

proof fn lemma_technology_field_xp_research_cost(u: TechnologyUpdate)
    requires
        crate::technologies::technology_lines(u) is Some,
    ensures
        keyed_lines(crate::technologies::technology_lines(u)->0, Seq::empty(), "xp_research_cost"@) == each_written("xp_research_cost"@, seq![u.xp_research_cost@]),
{
    reveal_strlit("ai_research_weights");
    reveal_strlit("ai_will_do");
    reveal_strlit("allow");
    reveal_strlit("allow_branch");
    reveal_strlit("categories");
    reveal_strlit("doctrine");
    reveal_strlit("doctrine_name");
    reveal_strlit("enable_equipment_modules");
    reveal_strlit("enable_equipments");
    reveal_strlit("enable_subunits");
    reveal_strlit("folder");
    reveal_strlit("on_research_complete");
    reveal_strlit("path");
    reveal_strlit("research_cost");
    reveal_strlit("start_year");
    reveal_strlit("sub_technologies");
    reveal_strlit("xor");
    reveal_strlit("xp_research_bonus");
    reveal_strlit("xp_research_cost");
    reveal_strlit("xp_research_type");
    reveal_strlit(" = ");
    lemma_technology_parts(u);
    let w0 = crate::script::words_lines("xor"@, views(u.xor@))->0;
    lemma_words_shape("xor"@, views(u.xor@));
    assert(("xor"@ + " = "@)[1] != ("xp_research_cost"@ + " = "@)[1]);
    lemma_keyed_none(w0, Seq::empty(), "xor"@, "xp_research_cost"@, 1);
    let w1 = crate::script::words_lines("sub_technologies"@, views(u.sub_technologies@))->0;
    lemma_words_shape("sub_technologies"@, views(u.sub_technologies@));
    assert(("sub_technologies"@ + " = "@)[0] != ("xp_research_cost"@ + " = "@)[0]);
    lemma_keyed_none(w1, Seq::empty(), "sub_technologies"@, "xp_research_cost"@, 0);
    let w2 = crate::script::words_lines("enable_equipments"@, views(u.enable_equipments@))->0;
    lemma_words_shape("enable_equipments"@, views(u.enable_equipments@));
    assert(("enable_equipments"@ + " = "@)[0] != ("xp_research_cost"@ + " = "@)[0]);
    lemma_keyed_none(w2, Seq::empty(), "enable_equipments"@, "xp_research_cost"@, 0);
    let w3 = crate::script::words_lines("enable_equipment_modules"@, views(u.enable_equipment_modules@))->0;
    lemma_words_shape("enable_equipment_modules"@, views(u.enable_equipment_modules@));
    assert(("enable_equipment_modules"@ + " = "@)[0] != ("xp_research_cost"@ + " = "@)[0]);
    lemma_keyed_none(w3, Seq::empty(), "enable_equipment_modules"@, "xp_research_cost"@, 0);
    let w4 = crate::script::words_lines("enable_subunits"@, views(u.enable_subunits@))->0;
    lemma_words_shape("enable_subunits"@, views(u.enable_subunits@));
    assert(("enable_subunits"@ + " = "@)[0] != ("xp_research_cost"@ + " = "@)[0]);
    lemma_keyed_none(w4, Seq::empty(), "enable_subunits"@, "xp_research_cost"@, 0);
    let pa = crate::technologies::entry_lines("path"@, crate::technologies::path_bodies(u.paths@))->0;
    lemma_entries_shape("path"@, crate::technologies::path_bodies(u.paths@));
    assert(("path"@ + " = "@)[0] != ("xp_research_cost"@ + " = "@)[0]);
    lemma_keyed_none(pa, Seq::empty(), "path"@, "xp_research_cost"@, 0);
    let s0 = scalar_line("research_cost"@, u.research_cost@);
    lemma_scalar_line("research_cost"@, u.research_cost@);
    assert(("research_cost"@ + " = "@)[0] != ("xp_research_cost"@ + " = "@)[0]);
    lemma_keyed_none(s0, Seq::empty(), "research_cost"@, "xp_research_cost"@, 0);
    let s1 = scalar_line("start_year"@, u.start_year@);
    lemma_scalar_line("start_year"@, u.start_year@);
    assert(("start_year"@ + " = "@)[0] != ("xp_research_cost"@ + " = "@)[0]);
    lemma_keyed_none(s1, Seq::empty(), "start_year"@, "xp_research_cost"@, 0);
    let s2 = scalar_line("doctrine"@, u.doctrine@);
    lemma_scalar_line("doctrine"@, u.doctrine@);
    assert(("doctrine"@ + " = "@)[0] != ("xp_research_cost"@ + " = "@)[0]);
    lemma_keyed_none(s2, Seq::empty(), "doctrine"@, "xp_research_cost"@, 0);
    let s3 = scalar_line("xp_research_type"@, u.xp_research_type@);
    lemma_scalar_line("xp_research_type"@, u.xp_research_type@);
    assert(("xp_research_type"@ + " = "@)[12] != ("xp_research_cost"@ + " = "@)[12]);
    lemma_keyed_none(s3, Seq::empty(), "xp_research_type"@, "xp_research_cost"@, 12);
    let s4 = scalar_line("xp_research_cost"@, u.xp_research_cost@);
    lemma_scalar_line("xp_research_cost"@, u.xp_research_cost@);
    lemma_keyed_all(s4, Seq::empty(), "xp_research_cost"@);
    let s5 = scalar_line("xp_research_bonus"@, u.xp_research_bonus@);
    lemma_scalar_line("xp_research_bonus"@, u.xp_research_bonus@);
    assert(("xp_research_bonus"@ + " = "@)[12] != ("xp_research_cost"@ + " = "@)[12]);
    lemma_keyed_none(s5, Seq::empty(), "xp_research_bonus"@, "xp_research_cost"@, 12);
    let dn = crate::technologies::doctrine_name_lines(u.doctrine_name@);
    lemma_doctrine_name_shape(u.doctrine_name@);
    assert(("doctrine_name"@ + " = "@)[0] != ("xp_research_cost"@ + " = "@)[0]);
    lemma_keyed_none(dn, Seq::empty(), "doctrine_name"@, "xp_research_cost"@, 0);
    let fo = crate::technologies::entry_lines("folder"@, crate::technologies::folder_bodies(u.folders@))->0;
    lemma_entries_shape("folder"@, crate::technologies::folder_bodies(u.folders@));
    assert(("folder"@ + " = "@)[0] != ("xp_research_cost"@ + " = "@)[0]);
    lemma_keyed_none(fo, Seq::empty(), "folder"@, "xp_research_cost"@, 0);
    let ca = crate::technologies::categories_lines(views(u.categories@))->0;
    lemma_categories_shape(views(u.categories@));
    assert(("categories"@ + " = "@)[0] != ("xp_research_cost"@ + " = "@)[0]);
    lemma_keyed_none(ca, Seq::empty(), "categories"@, "xp_research_cost"@, 0);
    let b0 = crate::script::block_lines("allow"@, u.allow@)->0;
    lemma_block_shape("allow"@, u.allow@);
    assert(("allow"@ + " = "@)[0] != ("xp_research_cost"@ + " = "@)[0]);
    lemma_keyed_none(b0, Seq::empty(), "allow"@, "xp_research_cost"@, 0);
    let b1 = crate::script::block_lines("allow_branch"@, u.allow_branch@)->0;
    lemma_block_shape("allow_branch"@, u.allow_branch@);
    assert(("allow_branch"@ + " = "@)[0] != ("xp_research_cost"@ + " = "@)[0]);
    lemma_keyed_none(b1, Seq::empty(), "allow_branch"@, "xp_research_cost"@, 0);
    let b2 = crate::script::block_lines("on_research_complete"@, u.on_research_complete@)->0;
    lemma_block_shape("on_research_complete"@, u.on_research_complete@);
    assert(("on_research_complete"@ + " = "@)[0] != ("xp_research_cost"@ + " = "@)[0]);
    lemma_keyed_none(b2, Seq::empty(), "on_research_complete"@, "xp_research_cost"@, 0);
    let b3 = crate::script::block_lines("ai_will_do"@, u.ai_will_do@)->0;
    lemma_block_shape("ai_will_do"@, u.ai_will_do@);
    assert(("ai_will_do"@ + " = "@)[0] != ("xp_research_cost"@ + " = "@)[0]);
    lemma_keyed_none(b3, Seq::empty(), "ai_will_do"@, "xp_research_cost"@, 0);
    let b4 = crate::script::block_lines("ai_research_weights"@, u.ai_research_weights@)->0;
    lemma_block_shape("ai_research_weights"@, u.ai_research_weights@);
    assert(("ai_research_weights"@ + " = "@)[0] != ("xp_research_cost"@ + " = "@)[0]);
    lemma_keyed_none(b4, Seq::empty(), "ai_research_weights"@, "xp_research_cost"@, 0);
    lemma_keyed_concat(w0, w1, Seq::empty(), "xp_research_cost"@);
    lemma_keyed_concat((w0 + w1), w2, Seq::empty(), "xp_research_cost"@);
    lemma_keyed_concat(((w0 + w1) + w2), w3, Seq::empty(), "xp_research_cost"@);
    lemma_keyed_concat((((w0 + w1) + w2) + w3), w4, Seq::empty(), "xp_research_cost"@);
    lemma_keyed_concat(s0, s1, Seq::empty(), "xp_research_cost"@);
    lemma_keyed_concat((s0 + s1), s2, Seq::empty(), "xp_research_cost"@);
    lemma_keyed_concat(((s0 + s1) + s2), s3, Seq::empty(), "xp_research_cost"@);
    lemma_keyed_concat((((s0 + s1) + s2) + s3), s4, Seq::empty(), "xp_research_cost"@);
    lemma_keyed_concat(((((s0 + s1) + s2) + s3) + s4), s5, Seq::empty(), "xp_research_cost"@);
    lemma_keyed_concat((((((s0 + s1) + s2) + s3) + s4) + s5), dn, Seq::empty(), "xp_research_cost"@);
    lemma_keyed_concat(b0, b1, Seq::empty(), "xp_research_cost"@);
    lemma_keyed_concat((b0 + b1), b2, Seq::empty(), "xp_research_cost"@);
    lemma_keyed_concat(((b0 + b1) + b2), b3, Seq::empty(), "xp_research_cost"@);
    lemma_keyed_concat((((b0 + b1) + b2) + b3), b4, Seq::empty(), "xp_research_cost"@);
    lemma_keyed_concat(((((w0 + w1) + w2) + w3) + w4), pa, Seq::empty(), "xp_research_cost"@);
    lemma_keyed_concat((((((w0 + w1) + w2) + w3) + w4) + pa), ((((((s0 + s1) + s2) + s3) + s4) + s5) + dn), Seq::empty(), "xp_research_cost"@);
    lemma_keyed_concat(fo, ca, Seq::empty(), "xp_research_cost"@);
    lemma_keyed_concat(((((((w0 + w1) + w2) + w3) + w4) + pa) + ((((((s0 + s1) + s2) + s3) + s4) + s5) + dn)), (fo + ca), Seq::empty(), "xp_research_cost"@);
    lemma_keyed_concat((((((((w0 + w1) + w2) + w3) + w4) + pa) + ((((((s0 + s1) + s2) + s3) + s4) + s5) + dn)) + (fo + ca)), ((((b0 + b1) + b2) + b3) + b4), Seq::empty(), "xp_research_cost"@);
    assert(keyed_lines(crate::technologies::technology_lines(u)->0, Seq::empty(), "xp_research_cost"@) =~= each_written("xp_research_cost"@, seq![u.xp_research_cost@]));
}

proof fn lemma_technology_field_xp_research_bonus(u: TechnologyUpdate)
    requires
        crate::technologies::technology_lines(u) is Some,
    ensures
        keyed_lines(crate::technologies::technology_lines(u)->0, Seq::empty(), "xp_research_bonus"@) == each_written("xp_research_bonus"@, seq![u.xp_research_bonus@]),
{
    reveal_strlit("ai_research_weights");
    reveal_strlit("ai_will_do");
    reveal_strlit("allow");
    reveal_strlit("allow_branch");
    reveal_strlit("categories");
    reveal_strlit("doctrine");
    reveal_strlit("doctrine_name");
    reveal_strlit("enable_equipment_modules");
    reveal_strlit("enable_equipments");
    reveal_strlit("enable_subunits");
    reveal_strlit("folder");
    reveal_strlit("on_research_complete");
    reveal_strlit("path");
    reveal_strlit("research_cost");
    reveal_strlit("start_year");
    reveal_strlit("sub_technologies");
    reveal_strlit("xor");
    reveal_strlit("xp_research_bonus");
    reveal_strlit("xp_research_cost");
    reveal_strlit("xp_research_type");
    reveal_strlit(" = ");
    lemma_technology_parts(u);
    let w0 = crate::script::words_lines("xor"@, views(u.xor@))->0;
    lemma_words_shape("xor"@, views(u.xor@));
    assert(("xor"@ + " = "@)[1] != ("xp_research_bonus"@ + " = "@)[1]);
    lemma_keyed_none(w0, Seq::empty(), "xor"@, "xp_research_bonus"@, 1);
    let w1 = crate::script::words_lines("sub_technologies"@, views(u.sub_technologies@))->0;
    lemma_words_shape("sub_technologies"@, views(u.sub_technologies@));
    assert(("sub_technologies"@ + " = "@)[0] != ("xp_research_bonus"@ + " = "@)[0]);
    lemma_keyed_none(w1, Seq::empty(), "sub_technologies"@, "xp_research_bonus"@, 0);
    let w2 = crate::script::words_lines("enable_equipments"@, views(u.enable_equipments@))->0;
    lemma_words_shape("enable_equipments"@, views(u.enable_equipments@));
    assert(("enable_equipments"@ + " = "@)[0] != ("xp_research_bonus"@ + " = "@)[0]);
    lemma_keyed_none(w2, Seq::empty(), "enable_equipments"@, "xp_research_bonus"@, 0);
    let w3 = crate::script::words_lines("enable_equipment_modules"@, views(u.enable_equipment_modules@))->0;
    lemma_words_shape("enable_equipment_modules"@, views(u.enable_equipment_modules@));
    assert(("enable_equipment_modules"@ + " = "@)[0] != ("xp_research_bonus"@ + " = "@)[0]);
    lemma_keyed_none(w3, Seq::empty(), "enable_equipment_modules"@, "xp_research_bonus"@, 0);
    let w4 = crate::script::words_lines("enable_subunits"@, views(u.enable_subunits@))->0;
    lemma_words_shape("enable_subunits"@, views(u.enable_subunits@));
    assert(("enable_subunits"@ + " = "@)[0] != ("xp_research_bonus"@ + " = "@)[0]);
    lemma_keyed_none(w4, Seq::empty(), "enable_subunits"@, "xp_research_bonus"@, 0);
    let pa = crate::technologies::entry_lines("path"@, crate::technologies::path_bodies(u.paths@))->0;
    lemma_entries_shape("path"@, crate::technologies::path_bodies(u.paths@));
    assert(("path"@ + " = "@)[0] != ("xp_research_bonus"@ + " = "@)[0]);
    lemma_keyed_none(pa, Seq::empty(), "path"@, "xp_research_bonus"@, 0);
    let s0 = scalar_line("research_cost"@, u.research_cost@);
    lemma_scalar_line("research_cost"@, u.research_cost@);
    assert(("research_cost"@ + " = "@)[0] != ("xp_research_bonus"@ + " = "@)[0]);
    lemma_keyed_none(s0, Seq::empty(), "research_cost"@, "xp_research_bonus"@, 0);
    let s1 = scalar_line("start_year"@, u.start_year@);
    lemma_scalar_line("start_year"@, u.start_year@);
    assert(("start_year"@ + " = "@)[0] != ("xp_research_bonus"@ + " = "@)[0]);
    lemma_keyed_none(s1, Seq::empty(), "start_year"@, "xp_research_bonus"@, 0);
    let s2 = scalar_line("doctrine"@, u.doctrine@);
    lemma_scalar_line("doctrine"@, u.doctrine@);
    assert(("doctrine"@ + " = "@)[0] != ("xp_research_bonus"@ + " = "@)[0]);
    lemma_keyed_none(s2, Seq::empty(), "doctrine"@, "xp_research_bonus"@, 0);
    let s3 = scalar_line("xp_research_type"@, u.xp_research_type@);
    lemma_scalar_line("xp_research_type"@, u.xp_research_type@);
    assert(("xp_research_type"@ + " = "@)[12] != ("xp_research_bonus"@ + " = "@)[12]);
    lemma_keyed_none(s3, Seq::empty(), "xp_research_type"@, "xp_research_bonus"@, 12);
    let s4 = scalar_line("xp_research_cost"@, u.xp_research_cost@);
    lemma_scalar_line("xp_research_cost"@, u.xp_research_cost@);
    assert(("xp_research_cost"@ + " = "@)[12] != ("xp_research_bonus"@ + " = "@)[12]);
    lemma_keyed_none(s4, Seq::empty(), "xp_research_cost"@, "xp_research_bonus"@, 12);
    let s5 = scalar_line("xp_research_bonus"@, u.xp_research_bonus@);
    lemma_scalar_line("xp_research_bonus"@, u.xp_research_bonus@);
    lemma_keyed_all(s5, Seq::empty(), "xp_research_bonus"@);
    let dn = crate::technologies::doctrine_name_lines(u.doctrine_name@);
    lemma_doctrine_name_shape(u.doctrine_name@);
    assert(("doctrine_name"@ + " = "@)[0] != ("xp_research_bonus"@ + " = "@)[0]);
    lemma_keyed_none(dn, Seq::empty(), "doctrine_name"@, "xp_research_bonus"@, 0);
    let fo = crate::technologies::entry_lines("folder"@, crate::technologies::folder_bodies(u.folders@))->0;
    lemma_entries_shape("folder"@, crate::technologies::folder_bodies(u.folders@));
    assert(("folder"@ + " = "@)[0] != ("xp_research_bonus"@ + " = "@)[0]);
    lemma_keyed_none(fo, Seq::empty(), "folder"@, "xp_research_bonus"@, 0);
    let ca = crate::technologies::categories_lines(views(u.categories@))->0;
    lemma_categories_shape(views(u.categories@));
    assert(("categories"@ + " = "@)[0] != ("xp_research_bonus"@ + " = "@)[0]);
    lemma_keyed_none(ca, Seq::empty(), "categories"@, "xp_research_bonus"@, 0);
    let b0 = crate::script::block_lines("allow"@, u.allow@)->0;
    lemma_block_shape("allow"@, u.allow@);
    assert(("allow"@ + " = "@)[0] != ("xp_research_bonus"@ + " = "@)[0]);
    lemma_keyed_none(b0, Seq::empty(), "allow"@, "xp_research_bonus"@, 0);
    let b1 = crate::script::block_lines("allow_branch"@, u.allow_branch@)->0;
    lemma_block_shape("allow_branch"@, u.allow_branch@);
    assert(("allow_branch"@ + " = "@)[0] != ("xp_research_bonus"@ + " = "@)[0]);
    lemma_keyed_none(b1, Seq::empty(), "allow_branch"@, "xp_research_bonus"@, 0);
    let b2 = crate::script::block_lines("on_research_complete"@, u.on_research_complete@)->0;
    lemma_block_shape("on_research_complete"@, u.on_research_complete@);
    assert(("on_research_complete"@ + " = "@)[0] != ("xp_research_bonus"@ + " = "@)[0]);
    lemma_keyed_none(b2, Seq::empty(), "on_research_complete"@, "xp_research_bonus"@, 0);
    let b3 = crate::script::block_lines("ai_will_do"@, u.ai_will_do@)->0;
    lemma_block_shape("ai_will_do"@, u.ai_will_do@);
    assert(("ai_will_do"@ + " = "@)[0] != ("xp_research_bonus"@ + " = "@)[0]);
    lemma_keyed_none(b3, Seq::empty(), "ai_will_do"@, "xp_research_bonus"@, 0);
    let b4 = crate::script::block_lines("ai_research_weights"@, u.ai_research_weights@)->0;
    lemma_block_shape("ai_research_weights"@, u.ai_research_weights@);
    assert(("ai_research_weights"@ + " = "@)[0] != ("xp_research_bonus"@ + " = "@)[0]);
    lemma_keyed_none(b4, Seq::empty(), "ai_research_weights"@, "xp_research_bonus"@, 0);
    lemma_keyed_concat(w0, w1, Seq::empty(), "xp_research_bonus"@);
    lemma_keyed_concat((w0 + w1), w2, Seq::empty(), "xp_research_bonus"@);
    lemma_keyed_concat(((w0 + w1) + w2), w3, Seq::empty(), "xp_research_bonus"@);
    lemma_keyed_concat((((w0 + w1) + w2) + w3), w4, Seq::empty(), "xp_research_bonus"@);
    lemma_keyed_concat(s0, s1, Seq::empty(), "xp_research_bonus"@);
    lemma_keyed_concat((s0 + s1), s2, Seq::empty(), "xp_research_bonus"@);
    lemma_keyed_concat(((s0 + s1) + s2), s3, Seq::empty(), "xp_research_bonus"@);
    lemma_keyed_concat((((s0 + s1) + s2) + s3), s4, Seq::empty(), "xp_research_bonus"@);
    lemma_keyed_concat(((((s0 + s1) + s2) + s3) + s4), s5, Seq::empty(), "xp_research_bonus"@);
    lemma_keyed_concat((((((s0 + s1) + s2) + s3) + s4) + s5), dn, Seq::empty(), "xp_research_bonus"@);
    lemma_keyed_concat(b0, b1, Seq::empty(), "xp_research_bonus"@);
    lemma_keyed_concat((b0 + b1), b2, Seq::empty(), "xp_research_bonus"@);
    lemma_keyed_concat(((b0 + b1) + b2), b3, Seq::empty(), "xp_research_bonus"@);
    lemma_keyed_concat((((b0 + b1) + b2) + b3), b4, Seq::empty(), "xp_research_bonus"@);
    lemma_keyed_concat(((((w0 + w1) + w2) + w3) + w4), pa, Seq::empty(), "xp_research_bonus"@);
    lemma_keyed_concat((((((w0 + w1) + w2) + w3) + w4) + pa), ((((((s0 + s1) + s2) + s3) + s4) + s5) + dn), Seq::empty(), "xp_research_bonus"@);
    lemma_keyed_concat(fo, ca, Seq::empty(), "xp_research_bonus"@);
    lemma_keyed_concat(((((((w0 + w1) + w2) + w3) + w4) + pa) + ((((((s0 + s1) + s2) + s3) + s4) + s5) + dn)), (fo + ca), Seq::empty(), "xp_research_bonus"@);
    lemma_keyed_concat((((((((w0 + w1) + w2) + w3) + w4) + pa) + ((((((s0 + s1) + s2) + s3) + s4) + s5) + dn)) + (fo + ca)), ((((b0 + b1) + b2) + b3) + b4), Seq::empty(), "xp_research_bonus"@);
    assert(keyed_lines(crate::technologies::technology_lines(u)->0, Seq::empty(), "xp_research_bonus"@) =~= each_written("xp_research_bonus"@, seq![u.xp_research_bonus@]));
}
proof fn lemma_event_field_id(u: EventUpdate)
    requires
        crate::events::event_lines(u) is Some,
    ensures
        keyed_lines(crate::events::event_lines(u)->0, Seq::empty(), "id"@) == raw_written("id"@, u.id@),
{
    reveal_strlit("desc");
    reveal_strlit("fire_only_once");
    reveal_strlit("hidden");
    reveal_strlit("id");
    reveal_strlit("immediate");
    reveal_strlit("is_triggered_only");
    reveal_strlit("major");
    reveal_strlit("mean_time_to_happen");
    reveal_strlit("option");
    reveal_strlit("picture");
    reveal_strlit("timeout_days");
    reveal_strlit("title");
    reveal_strlit("trigger");
    reveal_strlit(" = ");
    lemma_event_parts(u);
    let i0 = crate::events::scalar_lines("id"@, u.id@);
    lemma_raw_line("id"@, u.id@);
    lemma_keyed_all(i0, Seq::empty(), "id"@);
    let t0 = crate::events::text_lines("title"@, views(u.titles@))->0;
    lemma_texts_shape("title"@, views(u.titles@));
    assert(("title"@ + " = "@)[0] != ("id"@ + " = "@)[0]);
    lemma_keyed_none(t0, Seq::empty(), "title"@, "id"@, 0);
    let t1 = crate::events::text_lines("desc"@, views(u.descs@))->0;
    lemma_texts_shape("desc"@, views(u.descs@));
    assert(("desc"@ + " = "@)[0] != ("id"@ + " = "@)[0]);
    lemma_keyed_none(t1, Seq::empty(), "desc"@, "id"@, 0);
    let f0 = crate::events::scalar_lines("picture"@, u.picture@);
    lemma_raw_line("picture"@, u.picture@);
    assert(("picture"@ + " = "@)[0] != ("id"@ + " = "@)[0]);
    lemma_keyed_none(f0, Seq::empty(), "picture"@, "id"@, 0);
    let f1 = crate::events::scalar_lines("fire_only_once"@, u.fire_only_once@);
    lemma_raw_line("fire_only_once"@, u.fire_only_once@);
    assert(("fire_only_once"@ + " = "@)[0] != ("id"@ + " = "@)[0]);
    lemma_keyed_none(f1, Seq::empty(), "fire_only_once"@, "id"@, 0);
    let f2 = crate::events::scalar_lines("is_triggered_only"@, u.is_triggered_only@);
    lemma_raw_line("is_triggered_only"@, u.is_triggered_only@);
    assert(("is_triggered_only"@ + " = "@)[1] != ("id"@ + " = "@)[1]);
    lemma_keyed_none(f2, Seq::empty(), "is_triggered_only"@, "id"@, 1);
    let f3 = crate::events::scalar_lines("hidden"@, u.hidden@);
    lemma_raw_line("hidden"@, u.hidden@);
    assert(("hidden"@ + " = "@)[0] != ("id"@ + " = "@)[0]);
    lemma_keyed_none(f3, Seq::empty(), "hidden"@, "id"@, 0);
    let f4 = crate::events::scalar_lines("major"@, u.major@);
    lemma_raw_line("major"@, u.major@);
    assert(("major"@ + " = "@)[0] != ("id"@ + " = "@)[0]);
    lemma_keyed_none(f4, Seq::empty(), "major"@, "id"@, 0);
    let f5 = crate::events::scalar_lines("timeout_days"@, u.timeout_days@);
    lemma_raw_line("timeout_days"@, u.timeout_days@);
    assert(("timeout_days"@ + " = "@)[0] != ("id"@ + " = "@)[0]);
    lemma_keyed_none(f5, Seq::empty(), "timeout_days"@, "id"@, 0);
    let c0 = crate::events::section_lines("trigger"@, u.trigger@)->0;
    lemma_section_lines_shape("trigger"@, u.trigger@);
    assert(("trigger"@ + " = "@)[0] != ("id"@ + " = "@)[0]);
    lemma_keyed_none(c0, Seq::empty(), "trigger"@, "id"@, 0);
    let c1 = crate::events::section_lines("mean_time_to_happen"@, u.mean_time_to_happen@)->0;
    lemma_section_lines_shape("mean_time_to_happen"@, u.mean_time_to_happen@);
    assert(("mean_time_to_happen"@ + " = "@)[0] != ("id"@ + " = "@)[0]);
    lemma_keyed_none(c1, Seq::empty(), "mean_time_to_happen"@, "id"@, 0);
    let c2 = crate::events::section_lines("immediate"@, u.immediate@)->0;
    lemma_section_lines_shape("immediate"@, u.immediate@);
    assert(("immediate"@ + " = "@)[1] != ("id"@ + " = "@)[1]);
    lemma_keyed_none(c2, Seq::empty(), "immediate"@, "id"@, 1);
    let op = crate::events::options_lines(u.options@)->0;
    lemma_options_shape(u.options@);
    assert(("option"@ + " = "@)[0] != ("id"@ + " = "@)[0]);
    lemma_keyed_none(op, Seq::empty(), "option"@, "id"@, 0);
    lemma_keyed_concat(f0, f1, Seq::empty(), "id"@);
    lemma_keyed_concat((f0 + f1), f2, Seq::empty(), "id"@);
    lemma_keyed_concat(((f0 + f1) + f2), f3, Seq::empty(), "id"@);
    lemma_keyed_concat((((f0 + f1) + f2) + f3), f4, Seq::empty(), "id"@);
    lemma_keyed_concat(((((f0 + f1) + f2) + f3) + f4), f5, Seq::empty(), "id"@);
    lemma_keyed_concat(i0, t0, Seq::empty(), "id"@);
    lemma_keyed_concat((i0 + t0), t1, Seq::empty(), "id"@);
    lemma_keyed_concat(((i0 + t0) + t1), (((((f0 + f1) + f2) + f3) + f4) + f5), Seq::empty(), "id"@);
    lemma_keyed_concat(c0, c1, Seq::empty(), "id"@);
    lemma_keyed_concat((c0 + c1), c2, Seq::empty(), "id"@);
    lemma_keyed_concat((((i0 + t0) + t1) + (((((f0 + f1) + f2) + f3) + f4) + f5)), ((c0 + c1) + c2), Seq::empty(), "id"@);
    lemma_keyed_concat(((((i0 + t0) + t1) + (((((f0 + f1) + f2) + f3) + f4) + f5)) + ((c0 + c1) + c2)), op, Seq::empty(), "id"@);
    assert(keyed_lines(crate::events::event_lines(u)->0, Seq::empty(), "id"@) =~= raw_written("id"@, u.id@));
}

proof fn lemma_event_field_picture(u: EventUpdate)
    requires
        crate::events::event_lines(u) is Some,
    ensures
        keyed_lines(crate::events::event_lines(u)->0, Seq::empty(), "picture"@) == raw_written("picture"@, u.picture@),
{
    reveal_strlit("desc");
    reveal_strlit("fire_only_once");
    reveal_strlit("hidden");
    reveal_strlit("id");
    reveal_strlit("immediate");
    reveal_strlit("is_triggered_only");
    reveal_strlit("major");
    reveal_strlit("mean_time_to_happen");
    reveal_strlit("option");
    reveal_strlit("picture");
    reveal_strlit("timeout_days");
    reveal_strlit("title");
    reveal_strlit("trigger");
    reveal_strlit(" = ");
    lemma_event_parts(u);
    let i0 = crate::events::scalar_lines("id"@, u.id@);
    lemma_raw_line("id"@, u.id@);
    assert(("id"@ + " = "@)[0] != ("picture"@ + " = "@)[0]);
    lemma_keyed_none(i0, Seq::empty(), "id"@, "picture"@, 0);
    let t0 = crate::events::text_lines("title"@, views(u.titles@))->0;
    lemma_texts_shape("title"@, views(u.titles@));
    assert(("title"@ + " = "@)[0] != ("picture"@ + " = "@)[0]);
    lemma_keyed_none(t0, Seq::empty(), "title"@, "picture"@, 0);
    let t1 = crate::events::text_lines("desc"@, views(u.descs@))->0;
    lemma_texts_shape("desc"@, views(u.descs@));
    assert(("desc"@ + " = "@)[0] != ("picture"@ + " = "@)[0]);
    lemma_keyed_none(t1, Seq::empty(), "desc"@, "picture"@, 0);
    let f0 = crate::events::scalar_lines("picture"@, u.picture@);
    lemma_raw_line("picture"@, u.picture@);
    lemma_keyed_all(f0, Seq::empty(), "picture"@);
    let f1 = crate::events::scalar_lines("fire_only_once"@, u.fire_only_once@);
    lemma_raw_line("fire_only_once"@, u.fire_only_once@);
    assert(("fire_only_once"@ + " = "@)[0] != ("picture"@ + " = "@)[0]);
    lemma_keyed_none(f1, Seq::empty(), "fire_only_once"@, "picture"@, 0);
    let f2 = crate::events::scalar_lines("is_triggered_only"@, u.is_triggered_only@);
    lemma_raw_line("is_triggered_only"@, u.is_triggered_only@);
    assert(("is_triggered_only"@ + " = "@)[0] != ("picture"@ + " = "@)[0]);
    lemma_keyed_none(f2, Seq::empty(), "is_triggered_only"@, "picture"@, 0);
    let f3 = crate::events::scalar_lines("hidden"@, u.hidden@);
    lemma_raw_line("hidden"@, u.hidden@);
    assert(("hidden"@ + " = "@)[0] != ("picture"@ + " = "@)[0]);
    lemma_keyed_none(f3, Seq::empty(), "hidden"@, "picture"@, 0);
    let f4 = crate::events::scalar_lines("major"@, u.major@);
    lemma_raw_line("major"@, u.major@);
    assert(("major"@ + " = "@)[0] != ("picture"@ + " = "@)[0]);
    lemma_keyed_none(f4, Seq::empty(), "major"@, "picture"@, 0);
    let f5 = crate::events::scalar_lines("timeout_days"@, u.timeout_days@);
    lemma_raw_line("timeout_days"@, u.timeout_days@);
    assert(("timeout_days"@ + " = "@)[0] != ("picture"@ + " = "@)[0]);
    lemma_keyed_none(f5, Seq::empty(), "timeout_days"@, "picture"@, 0);
    let c0 = crate::events::section_lines("trigger"@, u.trigger@)->0;
    lemma_section_lines_shape("trigger"@, u.trigger@);
    assert(("trigger"@ + " = "@)[0] != ("picture"@ + " = "@)[0]);
    lemma_keyed_none(c0, Seq::empty(), "trigger"@, "picture"@, 0);
    let c1 = crate::events::section_lines("mean_time_to_happen"@, u.mean_time_to_happen@)->0;
    lemma_section_lines_shape("mean_time_to_happen"@, u.mean_time_to_happen@);
    assert(("mean_time_to_happen"@ + " = "@)[0] != ("picture"@ + " = "@)[0]);
    lemma_keyed_none(c1, Seq::empty(), "mean_time_to_happen"@, "picture"@, 0);
    let c2 = crate::events::section_lines("immediate"@, u.immediate@)->0;
    lemma_section_lines_shape("immediate"@, u.immediate@);
    assert(("immediate"@ + " = "@)[0] != ("picture"@ + " = "@)[0]);
    lemma_keyed_none(c2, Seq::empty(), "immediate"@, "picture"@, 0);
    let op = crate::events::options_lines(u.options@)->0;
    lemma_options_shape(u.options@);
    assert(("option"@ + " = "@)[0] != ("picture"@ + " = "@)[0]);
    lemma_keyed_none(op, Seq::empty(), "option"@, "picture"@, 0);
    lemma_keyed_concat(f0, f1, Seq::empty(), "picture"@);
    lemma_keyed_concat((f0 + f1), f2, Seq::empty(), "picture"@);
    lemma_keyed_concat(((f0 + f1) + f2), f3, Seq::empty(), "picture"@);
    lemma_keyed_concat((((f0 + f1) + f2) + f3), f4, Seq::empty(), "picture"@);
    lemma_keyed_concat(((((f0 + f1) + f2) + f3) + f4), f5, Seq::empty(), "picture"@);
    lemma_keyed_concat(i0, t0, Seq::empty(), "picture"@);
    lemma_keyed_concat((i0 + t0), t1, Seq::empty(), "picture"@);
    lemma_keyed_concat(((i0 + t0) + t1), (((((f0 + f1) + f2) + f3) + f4) + f5), Seq::empty(), "picture"@);
    lemma_keyed_concat(c0, c1, Seq::empty(), "picture"@);
    lemma_keyed_concat((c0 + c1), c2, Seq::empty(), "picture"@);
    lemma_keyed_concat((((i0 + t0) + t1) + (((((f0 + f1) + f2) + f3) + f4) + f5)), ((c0 + c1) + c2), Seq::empty(), "picture"@);
    lemma_keyed_concat(((((i0 + t0) + t1) + (((((f0 + f1) + f2) + f3) + f4) + f5)) + ((c0 + c1) + c2)), op, Seq::empty(), "picture"@);
    assert(keyed_lines(crate::events::event_lines(u)->0, Seq::empty(), "picture"@) =~= raw_written("picture"@, u.picture@));
}

proof fn lemma_event_field_fire_only_once(u: EventUpdate)
    requires
        crate::events::event_lines(u) is Some,
    ensures
        keyed_lines(crate::events::event_lines(u)->0, Seq::empty(), "fire_only_once"@) == raw_written("fire_only_once"@, u.fire_only_once@),
{
    reveal_strlit("desc");
    reveal_strlit("fire_only_once");
    reveal_strlit("hidden");
    reveal_strlit("id");
    reveal_strlit("immediate");
    reveal_strlit("is_triggered_only");
    reveal_strlit("major");
    reveal_strlit("mean_time_to_happen");
    reveal_strlit("option");
    reveal_strlit("picture");
    reveal_strlit("timeout_days");
    reveal_strlit("title");
    reveal_strlit("trigger");
    reveal_strlit(" = ");
    lemma_event_parts(u);
    let i0 = crate::events::scalar_lines("id"@, u.id@);
    lemma_raw_line("id"@, u.id@);
    assert(("id"@ + " = "@)[0] != ("fire_only_once"@ + " = "@)[0]);
    lemma_keyed_none(i0, Seq::empty(), "id"@, "fire_only_once"@, 0);
    let t0 = crate::events::text_lines("title"@, views(u.titles@))->0;
    lemma_texts_shape("title"@, views(u.titles@));
    assert(("title"@ + " = "@)[0] != ("fire_only_once"@ + " = "@)[0]);
    lemma_keyed_none(t0, Seq::empty(), "title"@, "fire_only_once"@, 0);
    let t1 = crate::events::text_lines("desc"@, views(u.descs@))->0;
    lemma_texts_shape("desc"@, views(u.descs@));
    assert(("desc"@ + " = "@)[0] != ("fire_only_once"@ + " = "@)[0]);
    lemma_keyed_none(t1, Seq::empty(), "desc"@, "fire_only_once"@, 0);
    let f0 = crate::events::scalar_lines("picture"@, u.picture@);
    lemma_raw_line("picture"@, u.picture@);
    assert(("picture"@ + " = "@)[0] != ("fire_only_once"@ + " = "@)[0]);
    lemma_keyed_none(f0, Seq::empty(), "picture"@, "fire_only_once"@, 0);
    let f1 = crate::events::scalar_lines("fire_only_once"@, u.fire_only_once@);
    lemma_raw_line("fire_only_once"@, u.fire_only_once@);
    lemma_keyed_all(f1, Seq::empty(), "fire_only_once"@);
    let f2 = crate::events::scalar_lines("is_triggered_only"@, u.is_triggered_only@);
    lemma_raw_line("is_triggered_only"@, u.is_triggered_only@);
    assert(("is_triggered_only"@ + " = "@)[0] != ("fire_only_once"@ + " = "@)[0]);
    lemma_keyed_none(f2, Seq::empty(), "is_triggered_only"@, "fire_only_once"@, 0);
    let f3 = crate::events::scalar_lines("hidden"@, u.hidden@);
    lemma_raw_line("hidden"@, u.hidden@);
    assert(("hidden"@ + " = "@)[0] != ("fire_only_once"@ + " = "@)[0]);
    lemma_keyed_none(f3, Seq::empty(), "hidden"@, "fire_only_once"@, 0);
    let f4 = crate::events::scalar_lines("major"@, u.major@);
    lemma_raw_line("major"@, u.major@);
    assert(("major"@ + " = "@)[0] != ("fire_only_once"@ + " = "@)[0]);
    lemma_keyed_none(f4, Seq::empty(), "major"@, "fire_only_once"@, 0);
    let f5 = crate::events::scalar_lines("timeout_days"@, u.timeout_days@);
    lemma_raw_line("timeout_days"@, u.timeout_days@);
    assert(("timeout_days"@ + " = "@)[0] != ("fire_only_once"@ + " = "@)[0]);
    lemma_keyed_none(f5, Seq::empty(), "timeout_days"@, "fire_only_once"@, 0);
    let c0 = crate::events::section_lines("trigger"@, u.trigger@)->0;
    lemma_section_lines_shape("trigger"@, u.trigger@);
    assert(("trigger"@ + " = "@)[0] != ("fire_only_once"@ + " = "@)[0]);
    lemma_keyed_none(c0, Seq::empty(), "trigger"@, "fire_only_once"@, 0);
    let c1 = crate::events::section_lines("mean_time_to_happen"@, u.mean_time_to_happen@)->0;
    lemma_section_lines_shape("mean_time_to_happen"@, u.mean_time_to_happen@);
    assert(("mean_time_to_happen"@ + " = "@)[0] != ("fire_only_once"@ + " = "@)[0]);
    lemma_keyed_none(c1, Seq::empty(), "mean_time_to_happen"@, "fire_only_once"@, 0);
    let c2 = crate::events::section_lines("immediate"@, u.immediate@)->0;
    lemma_section_lines_shape("immediate"@, u.immediate@);
    assert(("immediate"@ + " = "@)[0] != ("fire_only_once"@ + " = "@)[0]);
    lemma_keyed_none(c2, Seq::empty(), "immediate"@, "fire_only_once"@, 0);
    let op = crate::events::options_lines(u.options@)->0;
    lemma_options_shape(u.options@);
    assert(("option"@ + " = "@)[0] != ("fire_only_once"@ + " = "@)[0]);
    lemma_keyed_none(op, Seq::empty(), "option"@, "fire_only_once"@, 0);
    lemma_keyed_concat(f0, f1, Seq::empty(), "fire_only_once"@);
    lemma_keyed_concat((f0 + f1), f2, Seq::empty(), "fire_only_once"@);
    lemma_keyed_concat(((f0 + f1) + f2), f3, Seq::empty(), "fire_only_once"@);
    lemma_keyed_concat((((f0 + f1) + f2) + f3), f4, Seq::empty(), "fire_only_once"@);
    lemma_keyed_concat(((((f0 + f1) + f2) + f3) + f4), f5, Seq::empty(), "fire_only_once"@);
    lemma_keyed_concat(i0, t0, Seq::empty(), "fire_only_once"@);
    lemma_keyed_concat((i0 + t0), t1, Seq::empty(), "fire_only_once"@);
    lemma_keyed_concat(((i0 + t0) + t1), (((((f0 + f1) + f2) + f3) + f4) + f5), Seq::empty(), "fire_only_once"@);
    lemma_keyed_concat(c0, c1, Seq::empty(), "fire_only_once"@);
    lemma_keyed_concat((c0 + c1), c2, Seq::empty(), "fire_only_once"@);
    lemma_keyed_concat((((i0 + t0) + t1) + (((((f0 + f1) + f2) + f3) + f4) + f5)), ((c0 + c1) + c2), Seq::empty(), "fire_only_once"@);
    lemma_keyed_concat(((((i0 + t0) + t1) + (((((f0 + f1) + f2) + f3) + f4) + f5)) + ((c0 + c1) + c2)), op, Seq::empty(), "fire_only_once"@);
    assert(keyed_lines(crate::events::event_lines(u)->0, Seq::empty(), "fire_only_once"@) =~= raw_written("fire_only_once"@, u.fire_only_once@));
}

proof fn lemma_event_field_is_triggered_only(u: EventUpdate)
    requires
        crate::events::event_lines(u) is Some,
    ensures
        keyed_lines(crate::events::event_lines(u)->0, Seq::empty(), "is_triggered_only"@) == raw_written("is_triggered_only"@, u.is_triggered_only@),
{
    reveal_strlit("desc");
    reveal_strlit("fire_only_once");
    reveal_strlit("hidden");
    reveal_strlit("id");
    reveal_strlit("immediate");
    reveal_strlit("is_triggered_only");
    reveal_strlit("major");
    reveal_strlit("mean_time_to_happen");
    reveal_strlit("option");
    reveal_strlit("picture");
    reveal_strlit("timeout_days");
    reveal_strlit("title");
    reveal_strlit("trigger");
    reveal_strlit(" = ");
    lemma_event_parts(u);
    let i0 = crate::events::scalar_lines("id"@, u.id@);
    lemma_raw_line("id"@, u.id@);
    assert(("id"@ + " = "@)[1] != ("is_triggered_only"@ + " = "@)[1]);
    lemma_keyed_none(i0, Seq::empty(), "id"@, "is_triggered_only"@, 1);
    let t0 = crate::events::text_lines("title"@, views(u.titles@))->0;
    lemma_texts_shape("title"@, views(u.titles@));
    assert(("title"@ + " = "@)[0] != ("is_triggered_only"@ + " = "@)[0]);
    lemma_keyed_none(t0, Seq::empty(), "title"@, "is_triggered_only"@, 0);
    let t1 = crate::events::text_lines("desc"@, views(u.descs@))->0;
    lemma_texts_shape("desc"@, views(u.descs@));
    assert(("desc"@ + " = "@)[0] != ("is_triggered_only"@ + " = "@)[0]);
    lemma_keyed_none(t1, Seq::empty(), "desc"@, "is_triggered_only"@, 0);
    let f0 = crate::events::scalar_lines("picture"@, u.picture@);
    lemma_raw_line("picture"@, u.picture@);
    assert(("picture"@ + " = "@)[0] != ("is_triggered_only"@ + " = "@)[0]);
    lemma_keyed_none(f0, Seq::empty(), "picture"@, "is_triggered_only"@, 0);
    let f1 = crate::events::scalar_lines("fire_only_once"@, u.fire_only_once@);
    lemma_raw_line("fire_only_once"@, u.fire_only_once@);
    assert(("fire_only_once"@ + " = "@)[0] != ("is_triggered_only"@ + " = "@)[0]);
    lemma_keyed_none(f1, Seq::empty(), "fire_only_once"@, "is_triggered_only"@, 0);
    let f2 = crate::events::scalar_lines("is_triggered_only"@, u.is_triggered_only@);
    lemma_raw_line("is_triggered_only"@, u.is_triggered_only@);
    lemma_keyed_all(f2, Seq::empty(), "is_triggered_only"@);
    let f3 = crate::events::scalar_lines("hidden"@, u.hidden@);
    lemma_raw_line("hidden"@, u.hidden@);
    assert(("hidden"@ + " = "@)[0] != ("is_triggered_only"@ + " = "@)[0]);
    lemma_keyed_none(f3, Seq::empty(), "hidden"@, "is_triggered_only"@, 0);
    let f4 = crate::events::scalar_lines("major"@, u.major@);
    lemma_raw_line("major"@, u.major@);
    assert(("major"@ + " = "@)[0] != ("is_triggered_only"@ + " = "@)[0]);
    lemma_keyed_none(f4, Seq::empty(), "major"@, "is_triggered_only"@, 0);
    let f5 = crate::events::scalar_lines("timeout_days"@, u.timeout_days@);
    lemma_raw_line("timeout_days"@, u.timeout_days@);
    assert(("timeout_days"@ + " = "@)[0] != ("is_triggered_only"@ + " = "@)[0]);
    lemma_keyed_none(f5, Seq::empty(), "timeout_days"@, "is_triggered_only"@, 0);
    let c0 = crate::events::section_lines("trigger"@, u.trigger@)->0;
    lemma_section_lines_shape("trigger"@, u.trigger@);
    assert(("trigger"@ + " = "@)[0] != ("is_triggered_only"@ + " = "@)[0]);
    lemma_keyed_none(c0, Seq::empty(), "trigger"@, "is_triggered_only"@, 0);
    let c1 = crate::events::section_lines("mean_time_to_happen"@, u.mean_time_to_happen@)->0;
    lemma_section_lines_shape("mean_time_to_happen"@, u.mean_time_to_happen@);
    assert(("mean_time_to_happen"@ + " = "@)[0] != ("is_triggered_only"@ + " = "@)[0]);
    lemma_keyed_none(c1, Seq::empty(), "mean_time_to_happen"@, "is_triggered_only"@, 0);
    let c2 = crate::events::section_lines("immediate"@, u.immediate@)->0;
    lemma_section_lines_shape("immediate"@, u.immediate@);
    assert(("immediate"@ + " = "@)[1] != ("is_triggered_only"@ + " = "@)[1]);
    lemma_keyed_none(c2, Seq::empty(), "immediate"@, "is_triggered_only"@, 1);
    let op = crate::events::options_lines(u.options@)->0;
    lemma_options_shape(u.options@);
    assert(("option"@ + " = "@)[0] != ("is_triggered_only"@ + " = "@)[0]);
    lemma_keyed_none(op, Seq::empty(), "option"@, "is_triggered_only"@, 0);
    lemma_keyed_concat(f0, f1, Seq::empty(), "is_triggered_only"@);
    lemma_keyed_concat((f0 + f1), f2, Seq::empty(), "is_triggered_only"@);
    lemma_keyed_concat(((f0 + f1) + f2), f3, Seq::empty(), "is_triggered_only"@);
    lemma_keyed_concat((((f0 + f1) + f2) + f3), f4, Seq::empty(), "is_triggered_only"@);
    lemma_keyed_concat(((((f0 + f1) + f2) + f3) + f4), f5, Seq::empty(), "is_triggered_only"@);
    lemma_keyed_concat(i0, t0, Seq::empty(), "is_triggered_only"@);
    lemma_keyed_concat((i0 + t0), t1, Seq::empty(), "is_triggered_only"@);
    lemma_keyed_concat(((i0 + t0) + t1), (((((f0 + f1) + f2) + f3) + f4) + f5), Seq::empty(), "is_triggered_only"@);
    lemma_keyed_concat(c0, c1, Seq::empty(), "is_triggered_only"@);
    lemma_keyed_concat((c0 + c1), c2, Seq::empty(), "is_triggered_only"@);
    lemma_keyed_concat((((i0 + t0) + t1) + (((((f0 + f1) + f2) + f3) + f4) + f5)), ((c0 + c1) + c2), Seq::empty(), "is_triggered_only"@);
    lemma_keyed_concat(((((i0 + t0) + t1) + (((((f0 + f1) + f2) + f3) + f4) + f5)) + ((c0 + c1) + c2)), op, Seq::empty(), "is_triggered_only"@);
    assert(keyed_lines(crate::events::event_lines(u)->0, Seq::empty(), "is_triggered_only"@) =~= raw_written("is_triggered_only"@, u.is_triggered_only@));
}

proof fn lemma_event_field_hidden(u: EventUpdate)
    requires
        crate::events::event_lines(u) is Some,
    ensures
        keyed_lines(crate::events::event_lines(u)->0, Seq::empty(), "hidden"@) == raw_written("hidden"@, u.hidden@),
{
    reveal_strlit("desc");
    reveal_strlit("fire_only_once");
    reveal_strlit("hidden");
    reveal_strlit("id");
    reveal_strlit("immediate");
    reveal_strlit("is_triggered_only");
    reveal_strlit("major");
    reveal_strlit("mean_time_to_happen");
    reveal_strlit("option");
    reveal_strlit("picture");
    reveal_strlit("timeout_days");
    reveal_strlit("title");
    reveal_strlit("trigger");
    reveal_strlit(" = ");
    lemma_event_parts(u);
    let i0 = crate::events::scalar_lines("id"@, u.id@);
    lemma_raw_line("id"@, u.id@);
    assert(("id"@ + " = "@)[0] != ("hidden"@ + " = "@)[0]);
    lemma_keyed_none(i0, Seq::empty(), "id"@, "hidden"@, 0);
    let t0 = crate::events::text_lines("title"@, views(u.titles@))->0;
    lemma_texts_shape("title"@, views(u.titles@));
    assert(("title"@ + " = "@)[0] != ("hidden"@ + " = "@)[0]);
    lemma_keyed_none(t0, Seq::empty(), "title"@, "hidden"@, 0);
    let t1 = crate::events::text_lines("desc"@, views(u.descs@))->0;
    lemma_texts_shape("desc"@, views(u.descs@));
    assert(("desc"@ + " = "@)[0] != ("hidden"@ + " = "@)[0]);
    lemma_keyed_none(t1, Seq::empty(), "desc"@, "hidden"@, 0);
    let f0 = crate::events::scalar_lines("picture"@, u.picture@);
    lemma_raw_line("picture"@, u.picture@);
    assert(("picture"@ + " = "@)[0] != ("hidden"@ + " = "@)[0]);
    lemma_keyed_none(f0, Seq::empty(), "picture"@, "hidden"@, 0);
    let f1 = crate::events::scalar_lines("fire_only_once"@, u.fire_only_once@);
    lemma_raw_line("fire_only_once"@, u.fire_only_once@);
    assert(("fire_only_once"@ + " = "@)[0] != ("hidden"@ + " = "@)[0]);
    lemma_keyed_none(f1, Seq::empty(), "fire_only_once"@, "hidden"@, 0);
    let f2 = crate::events::scalar_lines("is_triggered_only"@, u.is_triggered_only@);
    lemma_raw_line("is_triggered_only"@, u.is_triggered_only@);
    assert(("is_triggered_only"@ + " = "@)[0] != ("hidden"@ + " = "@)[0]);
    lemma_keyed_none(f2, Seq::empty(), "is_triggered_only"@, "hidden"@, 0);
    let f3 = crate::events::scalar_lines("hidden"@, u.hidden@);
    lemma_raw_line("hidden"@, u.hidden@);
    lemma_keyed_all(f3, Seq::empty(), "hidden"@);
    let f4 = crate::events::scalar_lines("major"@, u.major@);
    lemma_raw_line("major"@, u.major@);
    assert(("major"@ + " = "@)[0] != ("hidden"@ + " = "@)[0]);
    lemma_keyed_none(f4, Seq::empty(), "major"@, "hidden"@, 0);
    let f5 = crate::events::scalar_lines("timeout_days"@, u.timeout_days@);
    lemma_raw_line("timeout_days"@, u.timeout_days@);
    assert(("timeout_days"@ + " = "@)[0] != ("hidden"@ + " = "@)[0]);
    lemma_keyed_none(f5, Seq::empty(), "timeout_days"@, "hidden"@, 0);
    let c0 = crate::events::section_lines("trigger"@, u.trigger@)->0;
    lemma_section_lines_shape("trigger"@, u.trigger@);
    assert(("trigger"@ + " = "@)[0] != ("hidden"@ + " = "@)[0]);
    lemma_keyed_none(c0, Seq::empty(), "trigger"@, "hidden"@, 0);
    let c1 = crate::events::section_lines("mean_time_to_happen"@, u.mean_time_to_happen@)->0;
    lemma_section_lines_shape("mean_time_to_happen"@, u.mean_time_to_happen@);
    assert(("mean_time_to_happen"@ + " = "@)[0] != ("hidden"@ + " = "@)[0]);
    lemma_keyed_none(c1, Seq::empty(), "mean_time_to_happen"@, "hidden"@, 0);
    let c2 = crate::events::section_lines("immediate"@, u.immediate@)->0;
    lemma_section_lines_shape("immediate"@, u.immediate@);
    assert(("immediate"@ + " = "@)[0] != ("hidden"@ + " = "@)[0]);
    lemma_keyed_none(c2, Seq::empty(), "immediate"@, "hidden"@, 0);
    let op = crate::events::options_lines(u.options@)->0;
    lemma_options_shape(u.options@);
    assert(("option"@ + " = "@)[0] != ("hidden"@ + " = "@)[0]);
    lemma_keyed_none(op, Seq::empty(), "option"@, "hidden"@, 0);
    lemma_keyed_concat(f0, f1, Seq::empty(), "hidden"@);
    lemma_keyed_concat((f0 + f1), f2, Seq::empty(), "hidden"@);
    lemma_keyed_concat(((f0 + f1) + f2), f3, Seq::empty(), "hidden"@);
    lemma_keyed_concat((((f0 + f1) + f2) + f3), f4, Seq::empty(), "hidden"@);
    lemma_keyed_concat(((((f0 + f1) + f2) + f3) + f4), f5, Seq::empty(), "hidden"@);
    lemma_keyed_concat(i0, t0, Seq::empty(), "hidden"@);
    lemma_keyed_concat((i0 + t0), t1, Seq::empty(), "hidden"@);
    lemma_keyed_concat(((i0 + t0) + t1), (((((f0 + f1) + f2) + f3) + f4) + f5), Seq::empty(), "hidden"@);
    lemma_keyed_concat(c0, c1, Seq::empty(), "hidden"@);
    lemma_keyed_concat((c0 + c1), c2, Seq::empty(), "hidden"@);
    lemma_keyed_concat((((i0 + t0) + t1) + (((((f0 + f1) + f2) + f3) + f4) + f5)), ((c0 + c1) + c2), Seq::empty(), "hidden"@);
    lemma_keyed_concat(((((i0 + t0) + t1) + (((((f0 + f1) + f2) + f3) + f4) + f5)) + ((c0 + c1) + c2)), op, Seq::empty(), "hidden"@);
    assert(keyed_lines(crate::events::event_lines(u)->0, Seq::empty(), "hidden"@) =~= raw_written("hidden"@, u.hidden@));
}

proof fn lemma_event_field_major(u: EventUpdate)
    requires
        crate::events::event_lines(u) is Some,
    ensures
        keyed_lines(crate::events::event_lines(u)->0, Seq::empty(), "major"@) == raw_written("major"@, u.major@),
{
    reveal_strlit("desc");
    reveal_strlit("fire_only_once");
    reveal_strlit("hidden");
    reveal_strlit("id");
    reveal_strlit("immediate");
    reveal_strlit("is_triggered_only");
    reveal_strlit("major");
    reveal_strlit("mean_time_to_happen");
    reveal_strlit("option");
    reveal_strlit("picture");
    reveal_strlit("timeout_days");
    reveal_strlit("title");
    reveal_strlit("trigger");
    reveal_strlit(" = ");
    lemma_event_parts(u);
    let i0 = crate::events::scalar_lines("id"@, u.id@);
    lemma_raw_line("id"@, u.id@);
    assert(("id"@ + " = "@)[0] != ("major"@ + " = "@)[0]);
    lemma_keyed_none(i0, Seq::empty(), "id"@, "major"@, 0);
    let t0 = crate::events::text_lines("title"@, views(u.titles@))->0;
    lemma_texts_shape("title"@, views(u.titles@));
    assert(("title"@ + " = "@)[0] != ("major"@ + " = "@)[0]);
    lemma_keyed_none(t0, Seq::empty(), "title"@, "major"@, 0);
    let t1 = crate::events::text_lines("desc"@, views(u.descs@))->0;
    lemma_texts_shape("desc"@, views(u.descs@));
    assert(("desc"@ + " = "@)[0] != ("major"@ + " = "@)[0]);
    lemma_keyed_none(t1, Seq::empty(), "desc"@, "major"@, 0);
    let f0 = crate::events::scalar_lines("picture"@, u.picture@);
    lemma_raw_line("picture"@, u.picture@);
    assert(("picture"@ + " = "@)[0] != ("major"@ + " = "@)[0]);
    lemma_keyed_none(f0, Seq::empty(), "picture"@, "major"@, 0);
    let f1 = crate::events::scalar_lines("fire_only_once"@, u.fire_only_once@);
    lemma_raw_line("fire_only_once"@, u.fire_only_once@);
    assert(("fire_only_once"@ + " = "@)[0] != ("major"@ + " = "@)[0]);
    lemma_keyed_none(f1, Seq::empty(), "fire_only_once"@, "major"@, 0);
    let f2 = crate::events::scalar_lines("is_triggered_only"@, u.is_triggered_only@);
    lemma_raw_line("is_triggered_only"@, u.is_triggered_only@);
    assert(("is_triggered_only"@ + " = "@)[0] != ("major"@ + " = "@)[0]);
    lemma_keyed_none(f2, Seq::empty(), "is_triggered_only"@, "major"@, 0);
    let f3 = crate::events::scalar_lines("hidden"@, u.hidden@);
    lemma_raw_line("hidden"@, u.hidden@);
    assert(("hidden"@ + " = "@)[0] != ("major"@ + " = "@)[0]);
    lemma_keyed_none(f3, Seq::empty(), "hidden"@, "major"@, 0);
    let f4 = crate::events::scalar_lines("major"@, u.major@);
    lemma_raw_line("major"@, u.major@);
    lemma_keyed_all(f4, Seq::empty(), "major"@);
    let f5 = crate::events::scalar_lines("timeout_days"@, u.timeout_days@);
    lemma_raw_line("timeout_days"@, u.timeout_days@);
    assert(("timeout_days"@ + " = "@)[0] != ("major"@ + " = "@)[0]);
    lemma_keyed_none(f5, Seq::empty(), "timeout_days"@, "major"@, 0);
    let c0 = crate::events::section_lines("trigger"@, u.trigger@)->0;
    lemma_section_lines_shape("trigger"@, u.trigger@);
    assert(("trigger"@ + " = "@)[0] != ("major"@ + " = "@)[0]);
    lemma_keyed_none(c0, Seq::empty(), "trigger"@, "major"@, 0);
    let c1 = crate::events::section_lines("mean_time_to_happen"@, u.mean_time_to_happen@)->0;
    lemma_section_lines_shape("mean_time_to_happen"@, u.mean_time_to_happen@);
    assert(("mean_time_to_happen"@ + " = "@)[1] != ("major"@ + " = "@)[1]);
    lemma_keyed_none(c1, Seq::empty(), "mean_time_to_happen"@, "major"@, 1);
    let c2 = crate::events::section_lines("immediate"@, u.immediate@)->0;
    lemma_section_lines_shape("immediate"@, u.immediate@);
    assert(("immediate"@ + " = "@)[0] != ("major"@ + " = "@)[0]);
    lemma_keyed_none(c2, Seq::empty(), "immediate"@, "major"@, 0);
    let op = crate::events::options_lines(u.options@)->0;
    lemma_options_shape(u.options@);
    assert(("option"@ + " = "@)[0] != ("major"@ + " = "@)[0]);
    lemma_keyed_none(op, Seq::empty(), "option"@, "major"@, 0);
    lemma_keyed_concat(f0, f1, Seq::empty(), "major"@);
    lemma_keyed_concat((f0 + f1), f2, Seq::empty(), "major"@);
    lemma_keyed_concat(((f0 + f1) + f2), f3, Seq::empty(), "major"@);
    lemma_keyed_concat((((f0 + f1) + f2) + f3), f4, Seq::empty(), "major"@);
    lemma_keyed_concat(((((f0 + f1) + f2) + f3) + f4), f5, Seq::empty(), "major"@);
    lemma_keyed_concat(i0, t0, Seq::empty(), "major"@);
    lemma_keyed_concat((i0 + t0), t1, Seq::empty(), "major"@);
    lemma_keyed_concat(((i0 + t0) + t1), (((((f0 + f1) + f2) + f3) + f4) + f5), Seq::empty(), "major"@);
    lemma_keyed_concat(c0, c1, Seq::empty(), "major"@);
    lemma_keyed_concat((c0 + c1), c2, Seq::empty(), "major"@);
    lemma_keyed_concat((((i0 + t0) + t1) + (((((f0 + f1) + f2) + f3) + f4) + f5)), ((c0 + c1) + c2), Seq::empty(), "major"@);
    lemma_keyed_concat(((((i0 + t0) + t1) + (((((f0 + f1) + f2) + f3) + f4) + f5)) + ((c0 + c1) + c2)), op, Seq::empty(), "major"@);
    assert(keyed_lines(crate::events::event_lines(u)->0, Seq::empty(), "major"@) =~= raw_written("major"@, u.major@));
}

proof fn lemma_event_field_timeout_days(u: EventUpdate)
    requires
        crate::events::event_lines(u) is Some,
    ensures
        keyed_lines(crate::events::event_lines(u)->0, Seq::empty(), "timeout_days"@) == raw_written("timeout_days"@, u.timeout_days@),
{
    reveal_strlit("desc");
    reveal_strlit("fire_only_once");
    reveal_strlit("hidden");
    reveal_strlit("id");
    reveal_strlit("immediate");
    reveal_strlit("is_triggered_only");
    reveal_strlit("major");
    reveal_strlit("mean_time_to_happen");
    reveal_strlit("option");
    reveal_strlit("picture");
    reveal_strlit("timeout_days");
    reveal_strlit("title");
    reveal_strlit("trigger");
    reveal_strlit(" = ");
    lemma_event_parts(u);
    let i0 = crate::events::scalar_lines("id"@, u.id@);
    lemma_raw_line("id"@, u.id@);
    assert(("id"@ + " = "@)[0] != ("timeout_days"@ + " = "@)[0]);
    lemma_keyed_none(i0, Seq::empty(), "id"@, "timeout_days"@, 0);
    let t0 = crate::events::text_lines("title"@, views(u.titles@))->0;
    lemma_texts_shape("title"@, views(u.titles@));
    assert(("title"@ + " = "@)[2] != ("timeout_days"@ + " = "@)[2]);
    lemma_keyed_none(t0, Seq::empty(), "title"@, "timeout_days"@, 2);
    let t1 = crate::events::text_lines("desc"@, views(u.descs@))->0;
    lemma_texts_shape("desc"@, views(u.descs@));
    assert(("desc"@ + " = "@)[0] != ("timeout_days"@ + " = "@)[0]);
    lemma_keyed_none(t1, Seq::empty(), "desc"@, "timeout_days"@, 0);
    let f0 = crate::events::scalar_lines("picture"@, u.picture@);
    lemma_raw_line("picture"@, u.picture@);
    assert(("picture"@ + " = "@)[0] != ("timeout_days"@ + " = "@)[0]);
    lemma_keyed_none(f0, Seq::empty(), "picture"@, "timeout_days"@, 0);
    let f1 = crate::events::scalar_lines("fire_only_once"@, u.fire_only_once@);
    lemma_raw_line("fire_only_once"@, u.fire_only_once@);
    assert(("fire_only_once"@ + " = "@)[0] != ("timeout_days"@ + " = "@)[0]);
    lemma_keyed_none(f1, Seq::empty(), "fire_only_once"@, "timeout_days"@, 0);
    let f2 = crate::events::scalar_lines("is_triggered_only"@, u.is_triggered_only@);
    lemma_raw_line("is_triggered_only"@, u.is_triggered_only@);
    assert(("is_triggered_only"@ + " = "@)[0] != ("timeout_days"@ + " = "@)[0]);
    lemma_keyed_none(f2, Seq::empty(), "is_triggered_only"@, "timeout_days"@, 0);
    let f3 = crate::events::scalar_lines("hidden"@, u.hidden@);
    lemma_raw_line("hidden"@, u.hidden@);
    assert(("hidden"@ + " = "@)[0] != ("timeout_days"@ + " = "@)[0]);
    lemma_keyed_none(f3, Seq::empty(), "hidden"@, "timeout_days"@, 0);
    let f4 = crate::events::scalar_lines("major"@, u.major@);
    lemma_raw_line("major"@, u.major@);
    assert(("major"@ + " = "@)[0] != ("timeout_days"@ + " = "@)[0]);
    lemma_keyed_none(f4, Seq::empty(), "major"@, "timeout_days"@, 0);
    let f5 = crate::events::scalar_lines("timeout_days"@, u.timeout_days@);
    lemma_raw_line("timeout_days"@, u.timeout_days@);
    lemma_keyed_all(f5, Seq::empty(), "timeout_days"@);
    let c0 = crate::events::section_lines("trigger"@, u.trigger@)->0;
    lemma_section_lines_shape("trigger"@, u.trigger@);
    assert(("trigger"@ + " = "@)[1] != ("timeout_days"@ + " = "@)[1]);
    lemma_keyed_none(c0, Seq::empty(), "trigger"@, "timeout_days"@, 1);
    let c1 = crate::events::section_lines("mean_time_to_happen"@, u.mean_time_to_happen@)->0;
    lemma_section_lines_shape("mean_time_to_happen"@, u.mean_time_to_happen@);
    assert(("mean_time_to_happen"@ + " = "@)[0] != ("timeout_days"@ + " = "@)[0]);
    lemma_keyed_none(c1, Seq::empty(), "mean_time_to_happen"@, "timeout_days"@, 0);
    let c2 = crate::events::section_lines("immediate"@, u.immediate@)->0;
    lemma_section_lines_shape("immediate"@, u.immediate@);
    assert(("immediate"@ + " = "@)[0] != ("timeout_days"@ + " = "@)[0]);
    lemma_keyed_none(c2, Seq::empty(), "immediate"@, "timeout_days"@, 0);
    let op = crate::events::options_lines(u.options@)->0;
    lemma_options_shape(u.options@);
    assert(("option"@ + " = "@)[0] != ("timeout_days"@ + " = "@)[0]);
    lemma_keyed_none(op, Seq::empty(), "option"@, "timeout_days"@, 0);
    lemma_keyed_concat(f0, f1, Seq::empty(), "timeout_days"@);
    lemma_keyed_concat((f0 + f1), f2, Seq::empty(), "timeout_days"@);
    lemma_keyed_concat(((f0 + f1) + f2), f3, Seq::empty(), "timeout_days"@);
    lemma_keyed_concat((((f0 + f1) + f2) + f3), f4, Seq::empty(), "timeout_days"@);
    lemma_keyed_concat(((((f0 + f1) + f2) + f3) + f4), f5, Seq::empty(), "timeout_days"@);
    lemma_keyed_concat(i0, t0, Seq::empty(), "timeout_days"@);
    lemma_keyed_concat((i0 + t0), t1, Seq::empty(), "timeout_days"@);
    lemma_keyed_concat(((i0 + t0) + t1), (((((f0 + f1) + f2) + f3) + f4) + f5), Seq::empty(), "timeout_days"@);
    lemma_keyed_concat(c0, c1, Seq::empty(), "timeout_days"@);
    lemma_keyed_concat((c0 + c1), c2, Seq::empty(), "timeout_days"@);
    lemma_keyed_concat((((i0 + t0) + t1) + (((((f0 + f1) + f2) + f3) + f4) + f5)), ((c0 + c1) + c2), Seq::empty(), "timeout_days"@);
    lemma_keyed_concat(((((i0 + t0) + t1) + (((((f0 + f1) + f2) + f3) + f4) + f5)) + ((c0 + c1) + c2)), op, Seq::empty(), "timeout_days"@);
    assert(keyed_lines(crate::events::event_lines(u)->0, Seq::empty(), "timeout_days"@) =~= raw_written("timeout_days"@, u.timeout_days@));
}
proof fn lemma_ideology_field_war_impact_on_world_tension(u: crate::ideologies::IdeologyUpdate)
    requires
        crate::ideologies::nested_part(u) is Some && (trim_spec(u.ai_behaviour@).len() == 0 || crate::ideologies::known_behaviour(trim_spec(u.ai_behaviour@))),
    ensures
        keyed_lines(ideology_lines(u), Seq::empty(), "war_impact_on_world_tension"@) == each_written("war_impact_on_world_tension"@, seq![u.war_impact_on_world_tension@]),
{
    reveal_strlit("ai_ideology_wanted_units_factor");
    reveal_strlit("can_be_boosted");
    reveal_strlit("can_collaborate");
    reveal_strlit("can_host_government_in_exile");
    reveal_strlit("color");
    reveal_strlit("dynamic_faction_names");
    reveal_strlit("faction_impact_on_world_tension");
    reveal_strlit("faction_modifiers");
    reveal_strlit("modifiers");
    reveal_strlit("rules");
    reveal_strlit("types");
    reveal_strlit("war_impact_on_world_tension");
    reveal_strlit("ai_");
    reveal_strlit("democratic");
    reveal_strlit("communist");
    reveal_strlit("fascist");
    reveal_strlit("neutral");
    reveal_strlit(" = ");
    lemma_ideology_parts(u);
    let co = crate::ideologies::colour_lines(u.color@);
    lemma_colour_shape(u.color@);
    assert(("color"@ + " = "@)[0] != ("war_impact_on_world_tension"@ + " = "@)[0]);
    lemma_keyed_none(co, Seq::empty(), "color"@, "war_impact_on_world_tension"@, 0);
    let ty = crate::ideologies::types_part(u)->0;
    lemma_types_part_shape(u);
    assert(("types"@ + " = "@)[0] != ("war_impact_on_world_tension"@ + " = "@)[0]);
    lemma_keyed_none(ty, Seq::empty(), "types"@, "war_impact_on_world_tension"@, 0);
    let na = crate::ideologies::names_part(u)->0;
    lemma_names_part_shape(u);
    assert(("dynamic_faction_names"@ + " = "@)[0] != ("war_impact_on_world_tension"@ + " = "@)[0]);
    lemma_keyed_none(na, Seq::empty(), "dynamic_faction_names"@, "war_impact_on_world_tension"@, 0);
    let ru = crate::ideologies::rules_part(u)->0;
    lemma_rules_part_shape(u);
    assert(("rules"@ + " = "@)[0] != ("war_impact_on_world_tension"@ + " = "@)[0]);
    lemma_keyed_none(ru, Seq::empty(), "rules"@, "war_impact_on_world_tension"@, 0);
    let mo = crate::script::block_lines("modifiers"@, u.modifiers@)->0;
    lemma_block_shape("modifiers"@, u.modifiers@);
    assert(("modifiers"@ + " = "@)[0] != ("war_impact_on_world_tension"@ + " = "@)[0]);
    lemma_keyed_none(mo, Seq::empty(), "modifiers"@, "war_impact_on_world_tension"@, 0);
    let fm = crate::script::block_lines("faction_modifiers"@, u.faction_modifiers@)->0;
    lemma_block_shape("faction_modifiers"@, u.faction_modifiers@);
    assert(("faction_modifiers"@ + " = "@)[0] != ("war_impact_on_world_tension"@ + " = "@)[0]);
    lemma_keyed_none(fm, Seq::empty(), "faction_modifiers"@, "war_impact_on_world_tension"@, 0);
    let s0 = scalar_line("war_impact_on_world_tension"@, u.war_impact_on_world_tension@);
    lemma_scalar_line("war_impact_on_world_tension"@, u.war_impact_on_world_tension@);
    lemma_keyed_all(s0, Seq::empty(), "war_impact_on_world_tension"@);
    let s1 = scalar_line("faction_impact_on_world_tension"@, u.faction_impact_on_world_tension@);
    lemma_scalar_line("faction_impact_on_world_tension"@, u.faction_impact_on_world_tension@);
    assert(("faction_impact_on_world_tension"@ + " = "@)[0] != ("war_impact_on_world_tension"@ + " = "@)[0]);
    lemma_keyed_none(s1, Seq::empty(), "faction_impact_on_world_tension"@, "war_impact_on_world_tension"@, 0);
    let s2 = scalar_line("can_host_government_in_exile"@, u.can_host_government_in_exile@);
    lemma_scalar_line("can_host_government_in_exile"@, u.can_host_government_in_exile@);
    assert(("can_host_government_in_exile"@ + " = "@)[0] != ("war_impact_on_world_tension"@ + " = "@)[0]);
    lemma_keyed_none(s2, Seq::empty(), "can_host_government_in_exile"@, "war_impact_on_world_tension"@, 0);
    let s3 = scalar_line("can_be_boosted"@, u.can_be_boosted@);
    lemma_scalar_line("can_be_boosted"@, u.can_be_boosted@);
    assert(("can_be_boosted"@ + " = "@)[0] != ("war_impact_on_world_tension"@ + " = "@)[0]);
    lemma_keyed_none(s3, Seq::empty(), "can_be_boosted"@, "war_impact_on_world_tension"@, 0);
    let s4 = scalar_line("can_collaborate"@, u.can_collaborate@);
    lemma_scalar_line("can_collaborate"@, u.can_collaborate@);
    assert(("can_collaborate"@ + " = "@)[0] != ("war_impact_on_world_tension"@ + " = "@)[0]);
    lemma_keyed_none(s4, Seq::empty(), "can_collaborate"@, "war_impact_on_world_tension"@, 0);
    let s5 = scalar_line("ai_ideology_wanted_units_factor"@, u.ai_ideology_wanted_units_factor@);
    lemma_scalar_line("ai_ideology_wanted_units_factor"@, u.ai_ideology_wanted_units_factor@);
    assert(("ai_ideology_wanted_units_factor"@ + " = "@)[0] != ("war_impact_on_world_tension"@ + " = "@)[0]);
    lemma_keyed_none(s5, Seq::empty(), "ai_ideology_wanted_units_factor"@, "war_impact_on_world_tension"@, 0);
    let be = crate::ideologies::behaviour_lines(u.ai_behaviour@);
    lemma_behaviour_none(u.ai_behaviour@, "war_impact_on_world_tension"@, 0);
    lemma_keyed_concat(co, ty, Seq::empty(), "war_impact_on_world_tension"@);
    lemma_keyed_concat((co + ty), na, Seq::empty(), "war_impact_on_world_tension"@);
    lemma_keyed_concat(((co + ty) + na), ru, Seq::empty(), "war_impact_on_world_tension"@);
    lemma_keyed_concat((((co + ty) + na) + ru), mo, Seq::empty(), "war_impact_on_world_tension"@);
    lemma_keyed_concat(((((co + ty) + na) + ru) + mo), fm, Seq::empty(), "war_impact_on_world_tension"@);
    lemma_keyed_concat(s0, s1, Seq::empty(), "war_impact_on_world_tension"@);
    lemma_keyed_concat((s0 + s1), s2, Seq::empty(), "war_impact_on_world_tension"@);
    lemma_keyed_concat(((s0 + s1) + s2), s3, Seq::empty(), "war_impact_on_world_tension"@);
    lemma_keyed_concat((((s0 + s1) + s2) + s3), s4, Seq::empty(), "war_impact_on_world_tension"@);
    lemma_keyed_concat(((((s0 + s1) + s2) + s3) + s4), s5, Seq::empty(), "war_impact_on_world_tension"@);
    lemma_keyed_concat((((((co + ty) + na) + ru) + mo) + fm), (((((s0 + s1) + s2) + s3) + s4) + s5), Seq::empty(), "war_impact_on_world_tension"@);
    lemma_keyed_concat(((((((co + ty) + na) + ru) + mo) + fm) + (((((s0 + s1) + s2) + s3) + s4) + s5)), be, Seq::empty(), "war_impact_on_world_tension"@);
    assert(keyed_lines(ideology_lines(u), Seq::empty(), "war_impact_on_world_tension"@) =~= each_written("war_impact_on_world_tension"@, seq![u.war_impact_on_world_tension@]));
}

proof fn lemma_ideology_field_faction_impact_on_world_tension(u: crate::ideologies::IdeologyUpdate)
    requires
        crate::ideologies::nested_part(u) is Some && (trim_spec(u.ai_behaviour@).len() == 0 || crate::ideologies::known_behaviour(trim_spec(u.ai_behaviour@))),
    ensures
        keyed_lines(ideology_lines(u), Seq::empty(), "faction_impact_on_world_tension"@) == each_written("faction_impact_on_world_tension"@, seq![u.faction_impact_on_world_tension@]),
{
    reveal_strlit("ai_ideology_wanted_units_factor");
    reveal_strlit("can_be_boosted");
    reveal_strlit("can_collaborate");
    reveal_strlit("can_host_government_in_exile");
    reveal_strlit("color");
    reveal_strlit("dynamic_faction_names");
    reveal_strlit("faction_impact_on_world_tension");
    reveal_strlit("faction_modifiers");
    reveal_strlit("modifiers");
    reveal_strlit("rules");
    reveal_strlit("types");
    reveal_strlit("war_impact_on_world_tension");
    reveal_strlit("ai_");
    reveal_strlit("democratic");
    reveal_strlit("communist");
    reveal_strlit("fascist");
    reveal_strlit("neutral");
    reveal_strlit(" = ");
    lemma_ideology_parts(u);
    let co = crate::ideologies::colour_lines(u.color@);
    lemma_colour_shape(u.color@);
    assert(("color"@ + " = "@)[0] != ("faction_impact_on_world_tension"@ + " = "@)[0]);
    lemma_keyed_none(co, Seq::empty(), "color"@, "faction_impact_on_world_tension"@, 0);
    let ty = crate::ideologies::types_part(u)->0;
    lemma_types_part_shape(u);
    assert(("types"@ + " = "@)[0] != ("faction_impact_on_world_tension"@ + " = "@)[0]);
    lemma_keyed_none(ty, Seq::empty(), "types"@, "faction_impact_on_world_tension"@, 0);
    let na = crate::ideologies::names_part(u)->0;
    lemma_names_part_shape(u);
    assert(("dynamic_faction_names"@ + " = "@)[0] != ("faction_impact_on_world_tension"@ + " = "@)[0]);
    lemma_keyed_none(na, Seq::empty(), "dynamic_faction_names"@, "faction_impact_on_world_tension"@, 0);
    let ru = crate::ideologies::rules_part(u)->0;
    lemma_rules_part_shape(u);
    assert(("rules"@ + " = "@)[0] != ("faction_impact_on_world_tension"@ + " = "@)[0]);
    lemma_keyed_none(ru, Seq::empty(), "rules"@, "faction_impact_on_world_tension"@, 0);
    let mo = crate::script::block_lines("modifiers"@, u.modifiers@)->0;
    lemma_block_shape("modifiers"@, u.modifiers@);
    assert(("modifiers"@ + " = "@)[0] != ("faction_impact_on_world_tension"@ + " = "@)[0]);
    lemma_keyed_none(mo, Seq::empty(), "modifiers"@, "faction_impact_on_world_tension"@, 0);
    let fm = crate::script::block_lines("faction_modifiers"@, u.faction_modifiers@)->0;
    lemma_block_shape("faction_modifiers"@, u.faction_modifiers@);
    assert(("faction_modifiers"@ + " = "@)[8] != ("faction_impact_on_world_tension"@ + " = "@)[8]);
    lemma_keyed_none(fm, Seq::empty(), "faction_modifiers"@, "faction_impact_on_world_tension"@, 8);
    let s0 = scalar_line("war_impact_on_world_tension"@, u.war_impact_on_world_tension@);
    lemma_scalar_line("war_impact_on_world_tension"@, u.war_impact_on_world_tension@);
    assert(("war_impact_on_world_tension"@ + " = "@)[0] != ("faction_impact_on_world_tension"@ + " = "@)[0]);
    lemma_keyed_none(s0, Seq::empty(), "war_impact_on_world_tension"@, "faction_impact_on_world_tension"@, 0);
    let s1 = scalar_line("faction_impact_on_world_tension"@, u.faction_impact_on_world_tension@);
    lemma_scalar_line("faction_impact_on_world_tension"@, u.faction_impact_on_world_tension@);
    lemma_keyed_all(s1, Seq::empty(), "faction_impact_on_world_tension"@);
    let s2 = scalar_line("can_host_government_in_exile"@, u.can_host_government_in_exile@);
    lemma_scalar_line("can_host_government_in_exile"@, u.can_host_government_in_exile@);
    assert(("can_host_government_in_exile"@ + " = "@)[0] != ("faction_impact_on_world_tension"@ + " = "@)[0]);
    lemma_keyed_none(s2, Seq::empty(), "can_host_government_in_exile"@, "faction_impact_on_world_tension"@, 0);
    let s3 = scalar_line("can_be_boosted"@, u.can_be_boosted@);
    lemma_scalar_line("can_be_boosted"@, u.can_be_boosted@);
    assert(("can_be_boosted"@ + " = "@)[0] != ("faction_impact_on_world_tension"@ + " = "@)[0]);
    lemma_keyed_none(s3, Seq::empty(), "can_be_boosted"@, "faction_impact_on_world_tension"@, 0);
    let s4 = scalar_line("can_collaborate"@, u.can_collaborate@);
    lemma_scalar_line("can_collaborate"@, u.can_collaborate@);
    assert(("can_collaborate"@ + " = "@)[0] != ("faction_impact_on_world_tension"@ + " = "@)[0]);
    lemma_keyed_none(s4, Seq::empty(), "can_collaborate"@, "faction_impact_on_world_tension"@, 0);
    let s5 = scalar_line("ai_ideology_wanted_units_factor"@, u.ai_ideology_wanted_units_factor@);
    lemma_scalar_line("ai_ideology_wanted_units_factor"@, u.ai_ideology_wanted_units_factor@);
    assert(("ai_ideology_wanted_units_factor"@ + " = "@)[0] != ("faction_impact_on_world_tension"@ + " = "@)[0]);
    lemma_keyed_none(s5, Seq::empty(), "ai_ideology_wanted_units_factor"@, "faction_impact_on_world_tension"@, 0);
    let be = crate::ideologies::behaviour_lines(u.ai_behaviour@);
    lemma_behaviour_none(u.ai_behaviour@, "faction_impact_on_world_tension"@, 0);
    lemma_keyed_concat(co, ty, Seq::empty(), "faction_impact_on_world_tension"@);
    lemma_keyed_concat((co + ty), na, Seq::empty(), "faction_impact_on_world_tension"@);
    lemma_keyed_concat(((co + ty) + na), ru, Seq::empty(), "faction_impact_on_world_tension"@);
    lemma_keyed_concat((((co + ty) + na) + ru), mo, Seq::empty(), "faction_impact_on_world_tension"@);
    lemma_keyed_concat(((((co + ty) + na) + ru) + mo), fm, Seq::empty(), "faction_impact_on_world_tension"@);
    lemma_keyed_concat(s0, s1, Seq::empty(), "faction_impact_on_world_tension"@);
    lemma_keyed_concat((s0 + s1), s2, Seq::empty(), "faction_impact_on_world_tension"@);
    lemma_keyed_concat(((s0 + s1) + s2), s3, Seq::empty(), "faction_impact_on_world_tension"@);
    lemma_keyed_concat((((s0 + s1) + s2) + s3), s4, Seq::empty(), "faction_impact_on_world_tension"@);
    lemma_keyed_concat(((((s0 + s1) + s2) + s3) + s4), s5, Seq::empty(), "faction_impact_on_world_tension"@);
    lemma_keyed_concat((((((co + ty) + na) + ru) + mo) + fm), (((((s0 + s1) + s2) + s3) + s4) + s5), Seq::empty(), "faction_impact_on_world_tension"@);
    lemma_keyed_concat(((((((co + ty) + na) + ru) + mo) + fm) + (((((s0 + s1) + s2) + s3) + s4) + s5)), be, Seq::empty(), "faction_impact_on_world_tension"@);
    assert(keyed_lines(ideology_lines(u), Seq::empty(), "faction_impact_on_world_tension"@) =~= each_written("faction_impact_on_world_tension"@, seq![u.faction_impact_on_world_tension@]));
}

proof fn lemma_ideology_field_can_host_government_in_exile(u: crate::ideologies::IdeologyUpdate)
    requires
        crate::ideologies::nested_part(u) is Some && (trim_spec(u.ai_behaviour@).len() == 0 || crate::ideologies::known_behaviour(trim_spec(u.ai_behaviour@))),
    ensures
        keyed_lines(ideology_lines(u), Seq::empty(), "can_host_government_in_exile"@) == each_written("can_host_government_in_exile"@, seq![u.can_host_government_in_exile@]),
{
    reveal_strlit("ai_ideology_wanted_units_factor");
    reveal_strlit("can_be_boosted");
    reveal_strlit("can_collaborate");
    reveal_strlit("can_host_government_in_exile");
    reveal_strlit("color");
    reveal_strlit("dynamic_faction_names");
    reveal_strlit("faction_impact_on_world_tension");
    reveal_strlit("faction_modifiers");
    reveal_strlit("modifiers");
    reveal_strlit("rules");
    reveal_strlit("types");
    reveal_strlit("war_impact_on_world_tension");
    reveal_strlit("ai_");
    reveal_strlit("democratic");
    reveal_strlit("communist");
    reveal_strlit("fascist");
    reveal_strlit("neutral");
    reveal_strlit(" = ");
    lemma_ideology_parts(u);
    let co = crate::ideologies::colour_lines(u.color@);
    lemma_colour_shape(u.color@);
    assert(("color"@ + " = "@)[1] != ("can_host_government_in_exile"@ + " = "@)[1]);
    lemma_keyed_none(co, Seq::empty(), "color"@, "can_host_government_in_exile"@, 1);
    let ty = crate::ideologies::types_part(u)->0;
    lemma_types_part_shape(u);
    assert(("types"@ + " = "@)[0] != ("can_host_government_in_exile"@ + " = "@)[0]);
    lemma_keyed_none(ty, Seq::empty(), "types"@, "can_host_government_in_exile"@, 0);
    let na = crate::ideologies::names_part(u)->0;
    lemma_names_part_shape(u);
    assert(("dynamic_faction_names"@ + " = "@)[0] != ("can_host_government_in_exile"@ + " = "@)[0]);
    lemma_keyed_none(na, Seq::empty(), "dynamic_faction_names"@, "can_host_government_in_exile"@, 0);
    let ru = crate::ideologies::rules_part(u)->0;
    lemma_rules_part_shape(u);
    assert(("rules"@ + " = "@)[0] != ("can_host_government_in_exile"@ + " = "@)[0]);
    lemma_keyed_none(ru, Seq::empty(), "rules"@, "can_host_government_in_exile"@, 0);
    let mo = crate::script::block_lines("modifiers"@, u.modifiers@)->0;
    lemma_block_shape("modifiers"@, u.modifiers@);
    assert(("modifiers"@ + " = "@)[0] != ("can_host_government_in_exile"@ + " = "@)[0]);
    lemma_keyed_none(mo, Seq::empty(), "modifiers"@, "can_host_government_in_exile"@, 0);
    let fm = crate::script::block_lines("faction_modifiers"@, u.faction_modifiers@)->0;
    lemma_block_shape("faction_modifiers"@, u.faction_modifiers@);
    assert(("faction_modifiers"@ + " = "@)[0] != ("can_host_government_in_exile"@ + " = "@)[0]);
    lemma_keyed_none(fm, Seq::empty(), "faction_modifiers"@, "can_host_government_in_exile"@, 0);
    let s0 = scalar_line("war_impact_on_world_tension"@, u.war_impact_on_world_tension@);
    lemma_scalar_line("war_impact_on_world_tension"@, u.war_impact_on_world_tension@);
    assert(("war_impact_on_world_tension"@ + " = "@)[0] != ("can_host_government_in_exile"@ + " = "@)[0]);
    lemma_keyed_none(s0, Seq::empty(), "war_impact_on_world_tension"@, "can_host_government_in_exile"@, 0);
    let s1 = scalar_line("faction_impact_on_world_tension"@, u.faction_impact_on_world_tension@);
    lemma_scalar_line("faction_impact_on_world_tension"@, u.faction_impact_on_world_tension@);
    assert(("faction_impact_on_world_tension"@ + " = "@)[0] != ("can_host_government_in_exile"@ + " = "@)[0]);
    lemma_keyed_none(s1, Seq::empty(), "faction_impact_on_world_tension"@, "can_host_government_in_exile"@, 0);
    let s2 = scalar_line("can_host_government_in_exile"@, u.can_host_government_in_exile@);
    lemma_scalar_line("can_host_government_in_exile"@, u.can_host_government_in_exile@);
    lemma_keyed_all(s2, Seq::empty(), "can_host_government_in_exile"@);
    let s3 = scalar_line("can_be_boosted"@, u.can_be_boosted@);
    lemma_scalar_line("can_be_boosted"@, u.can_be_boosted@);
    assert(("can_be_boosted"@ + " = "@)[4] != ("can_host_government_in_exile"@ + " = "@)[4]);
    lemma_keyed_none(s3, Seq::empty(), "can_be_boosted"@, "can_host_government_in_exile"@, 4);
    let s4 = scalar_line("can_collaborate"@, u.can_collaborate@);
    lemma_scalar_line("can_collaborate"@, u.can_collaborate@);
    assert(("can_collaborate"@ + " = "@)[4] != ("can_host_government_in_exile"@ + " = "@)[4]);
    lemma_keyed_none(s4, Seq::empty(), "can_collaborate"@, "can_host_government_in_exile"@, 4);
    let s5 = scalar_line("ai_ideology_wanted_units_factor"@, u.ai_ideology_wanted_units_factor@);
    lemma_scalar_line("ai_ideology_wanted_units_factor"@, u.ai_ideology_wanted_units_factor@);
    assert(("ai_ideology_wanted_units_factor"@ + " = "@)[0] != ("can_host_government_in_exile"@ + " = "@)[0]);
    lemma_keyed_none(s5, Seq::empty(), "ai_ideology_wanted_units_factor"@, "can_host_government_in_exile"@, 0);
    let be = crate::ideologies::behaviour_lines(u.ai_behaviour@);
    lemma_behaviour_none(u.ai_behaviour@, "can_host_government_in_exile"@, 0);
    lemma_keyed_concat(co, ty, Seq::empty(), "can_host_government_in_exile"@);
    lemma_keyed_concat((co + ty), na, Seq::empty(), "can_host_government_in_exile"@);
    lemma_keyed_concat(((co + ty) + na), ru, Seq::empty(), "can_host_government_in_exile"@);
    lemma_keyed_concat((((co + ty) + na) + ru), mo, Seq::empty(), "can_host_government_in_exile"@);
    lemma_keyed_concat(((((co + ty) + na) + ru) + mo), fm, Seq::empty(), "can_host_government_in_exile"@);
    lemma_keyed_concat(s0, s1, Seq::empty(), "can_host_government_in_exile"@);
    lemma_keyed_concat((s0 + s1), s2, Seq::empty(), "can_host_government_in_exile"@);
    lemma_keyed_concat(((s0 + s1) + s2), s3, Seq::empty(), "can_host_government_in_exile"@);
    lemma_keyed_concat((((s0 + s1) + s2) + s3), s4, Seq::empty(), "can_host_government_in_exile"@);
    lemma_keyed_concat(((((s0 + s1) + s2) + s3) + s4), s5, Seq::empty(), "can_host_government_in_exile"@);
    lemma_keyed_concat((((((co + ty) + na) + ru) + mo) + fm), (((((s0 + s1) + s2) + s3) + s4) + s5), Seq::empty(), "can_host_government_in_exile"@);
    lemma_keyed_concat(((((((co + ty) + na) + ru) + mo) + fm) + (((((s0 + s1) + s2) + s3) + s4) + s5)), be, Seq::empty(), "can_host_government_in_exile"@);
    assert(keyed_lines(ideology_lines(u), Seq::empty(), "can_host_government_in_exile"@) =~= each_written("can_host_government_in_exile"@, seq![u.can_host_government_in_exile@]));
}

proof fn lemma_ideology_field_can_be_boosted(u: crate::ideologies::IdeologyUpdate)
    requires
        crate::ideologies::nested_part(u) is Some && (trim_spec(u.ai_behaviour@).len() == 0 || crate::ideologies::known_behaviour(trim_spec(u.ai_behaviour@))),
    ensures
        keyed_lines(ideology_lines(u), Seq::empty(), "can_be_boosted"@) == each_written("can_be_boosted"@, seq![u.can_be_boosted@]),
{
    reveal_strlit("ai_ideology_wanted_units_factor");
    reveal_strlit("can_be_boosted");
    reveal_strlit("can_collaborate");
    reveal_strlit("can_host_government_in_exile");
    reveal_strlit("color");
    reveal_strlit("dynamic_faction_names");
    reveal_strlit("faction_impact_on_world_tension");
    reveal_strlit("faction_modifiers");
    reveal_strlit("modifiers");
    reveal_strlit("rules");
    reveal_strlit("types");
    reveal_strlit("war_impact_on_world_tension");
    reveal_strlit("ai_");
    reveal_strlit("democratic");
    reveal_strlit("communist");
    reveal_strlit("fascist");
    reveal_strlit("neutral");
    reveal_strlit(" = ");
    lemma_ideology_parts(u);
    let co = crate::ideologies::colour_lines(u.color@);
    lemma_colour_shape(u.color@);
    assert(("color"@ + " = "@)[1] != ("can_be_boosted"@ + " = "@)[1]);
    lemma_keyed_none(co, Seq::empty(), "color"@, "can_be_boosted"@, 1);
    let ty = crate::ideologies::types_part(u)->0;
    lemma_types_part_shape(u);
    assert(("types"@ + " = "@)[0] != ("can_be_boosted"@ + " = "@)[0]);
    lemma_keyed_none(ty, Seq::empty(), "types"@, "can_be_boosted"@, 0);
    let na = crate::ideologies::names_part(u)->0;
    lemma_names_part_shape(u);
    assert(("dynamic_faction_names"@ + " = "@)[0] != ("can_be_boosted"@ + " = "@)[0]);
    lemma_keyed_none(na, Seq::empty(), "dynamic_faction_names"@, "can_be_boosted"@, 0);
    let ru = crate::ideologies::rules_part(u)->0;
    lemma_rules_part_shape(u);
    assert(("rules"@ + " = "@)[0] != ("can_be_boosted"@ + " = "@)[0]);
    lemma_keyed_none(ru, Seq::empty(), "rules"@, "can_be_boosted"@, 0);
    let mo = crate::script::block_lines("modifiers"@, u.modifiers@)->0;
    lemma_block_shape("modifiers"@, u.modifiers@);
    assert(("modifiers"@ + " = "@)[0] != ("can_be_boosted"@ + " = "@)[0]);
    lemma_keyed_none(mo, Seq::empty(), "modifiers"@, "can_be_boosted"@, 0);
    let fm = crate::script::block_lines("faction_modifiers"@, u.faction_modifiers@)->0;
    lemma_block_shape("faction_modifiers"@, u.faction_modifiers@);
    assert(("faction_modifiers"@ + " = "@)[0] != ("can_be_boosted"@ + " = "@)[0]);
    lemma_keyed_none(fm, Seq::empty(), "faction_modifiers"@, "can_be_boosted"@, 0);
    let s0 = scalar_line("war_impact_on_world_tension"@, u.war_impact_on_world_tension@);
    lemma_scalar_line("war_impact_on_world_tension"@, u.war_impact_on_world_tension@);
    assert(("war_impact_on_world_tension"@ + " = "@)[0] != ("can_be_boosted"@ + " = "@)[0]);
    lemma_keyed_none(s0, Seq::empty(), "war_impact_on_world_tension"@, "can_be_boosted"@, 0);
    let s1 = scalar_line("faction_impact_on_world_tension"@, u.faction_impact_on_world_tension@);
    lemma_scalar_line("faction_impact_on_world_tension"@, u.faction_impact_on_world_tension@);
    assert(("faction_impact_on_world_tension"@ + " = "@)[0] != ("can_be_boosted"@ + " = "@)[0]);
    lemma_keyed_none(s1, Seq::empty(), "faction_impact_on_world_tension"@, "can_be_boosted"@, 0);
    let s2 = scalar_line("can_host_government_in_exile"@, u.can_host_government_in_exile@);
    lemma_scalar_line("can_host_government_in_exile"@, u.can_host_government_in_exile@);
    assert(("can_host_government_in_exile"@ + " = "@)[4] != ("can_be_boosted"@ + " = "@)[4]);
    lemma_keyed_none(s2, Seq::empty(), "can_host_government_in_exile"@, "can_be_boosted"@, 4);
    let s3 = scalar_line("can_be_boosted"@, u.can_be_boosted@);
    lemma_scalar_line("can_be_boosted"@, u.can_be_boosted@);
    lemma_keyed_all(s3, Seq::empty(), "can_be_boosted"@);
    let s4 = scalar_line("can_collaborate"@, u.can_collaborate@);
    lemma_scalar_line("can_collaborate"@, u.can_collaborate@);
    assert(("can_collaborate"@ + " = "@)[4] != ("can_be_boosted"@ + " = "@)[4]);
    lemma_keyed_none(s4, Seq::empty(), "can_collaborate"@, "can_be_boosted"@, 4);
    let s5 = scalar_line("ai_ideology_wanted_units_factor"@, u.ai_ideology_wanted_units_factor@);
    lemma_scalar_line("ai_ideology_wanted_units_factor"@, u.ai_ideology_wanted_units_factor@);
    assert(("ai_ideology_wanted_units_factor"@ + " = "@)[0] != ("can_be_boosted"@ + " = "@)[0]);
    lemma_keyed_none(s5, Seq::empty(), "ai_ideology_wanted_units_factor"@, "can_be_boosted"@, 0);
    let be = crate::ideologies::behaviour_lines(u.ai_behaviour@);
    lemma_behaviour_none(u.ai_behaviour@, "can_be_boosted"@, 0);
    lemma_keyed_concat(co, ty, Seq::empty(), "can_be_boosted"@);
    lemma_keyed_concat((co + ty), na, Seq::empty(), "can_be_boosted"@);
    lemma_keyed_concat(((co + ty) + na), ru, Seq::empty(), "can_be_boosted"@);
    lemma_keyed_concat((((co + ty) + na) + ru), mo, Seq::empty(), "can_be_boosted"@);
    lemma_keyed_concat(((((co + ty) + na) + ru) + mo), fm, Seq::empty(), "can_be_boosted"@);
    lemma_keyed_concat(s0, s1, Seq::empty(), "can_be_boosted"@);
    lemma_keyed_concat((s0 + s1), s2, Seq::empty(), "can_be_boosted"@);
    lemma_keyed_concat(((s0 + s1) + s2), s3, Seq::empty(), "can_be_boosted"@);
    lemma_keyed_concat((((s0 + s1) + s2) + s3), s4, Seq::empty(), "can_be_boosted"@);
    lemma_keyed_concat(((((s0 + s1) + s2) + s3) + s4), s5, Seq::empty(), "can_be_boosted"@);
    lemma_keyed_concat((((((co + ty) + na) + ru) + mo) + fm), (((((s0 + s1) + s2) + s3) + s4) + s5), Seq::empty(), "can_be_boosted"@);
    lemma_keyed_concat(((((((co + ty) + na) + ru) + mo) + fm) + (((((s0 + s1) + s2) + s3) + s4) + s5)), be, Seq::empty(), "can_be_boosted"@);
    assert(keyed_lines(ideology_lines(u), Seq::empty(), "can_be_boosted"@) =~= each_written("can_be_boosted"@, seq![u.can_be_boosted@]));
}

proof fn lemma_ideology_field_can_collaborate(u: crate::ideologies::IdeologyUpdate)
    requires
        crate::ideologies::nested_part(u) is Some && (trim_spec(u.ai_behaviour@).len() == 0 || crate::ideologies::known_behaviour(trim_spec(u.ai_behaviour@))),
    ensures
        keyed_lines(ideology_lines(u), Seq::empty(), "can_collaborate"@) == each_written("can_collaborate"@, seq![u.can_collaborate@]),
{
    reveal_strlit("ai_ideology_wanted_units_factor");
    reveal_strlit("can_be_boosted");
    reveal_strlit("can_collaborate");
    reveal_strlit("can_host_government_in_exile");
    reveal_strlit("color");
    reveal_strlit("dynamic_faction_names");
    reveal_strlit("faction_impact_on_world_tension");
    reveal_strlit("faction_modifiers");
    reveal_strlit("modifiers");
    reveal_strlit("rules");
    reveal_strlit("types");
    reveal_strlit("war_impact_on_world_tension");
    reveal_strlit("ai_");
    reveal_strlit("democratic");
    reveal_strlit("communist");
    reveal_strlit("fascist");
    reveal_strlit("neutral");
    reveal_strlit(" = ");
    lemma_ideology_parts(u);
    let co = crate::ideologies::colour_lines(u.color@);
    lemma_colour_shape(u.color@);
    assert(("color"@ + " = "@)[1] != ("can_collaborate"@ + " = "@)[1]);
    lemma_keyed_none(co, Seq::empty(), "color"@, "can_collaborate"@, 1);
    let ty = crate::ideologies::types_part(u)->0;
    lemma_types_part_shape(u);
    assert(("types"@ + " = "@)[0] != ("can_collaborate"@ + " = "@)[0]);
    lemma_keyed_none(ty, Seq::empty(), "types"@, "can_collaborate"@, 0);
    let na = crate::ideologies::names_part(u)->0;
    lemma_names_part_shape(u);
    assert(("dynamic_faction_names"@ + " = "@)[0] != ("can_collaborate"@ + " = "@)[0]);
    lemma_keyed_none(na, Seq::empty(), "dynamic_faction_names"@, "can_collaborate"@, 0);
    let ru = crate::ideologies::rules_part(u)->0;
    lemma_rules_part_shape(u);
    assert(("rules"@ + " = "@)[0] != ("can_collaborate"@ + " = "@)[0]);
    lemma_keyed_none(ru, Seq::empty(), "rules"@, "can_collaborate"@, 0);
    let mo = crate::script::block_lines("modifiers"@, u.modifiers@)->0;
    lemma_block_shape("modifiers"@, u.modifiers@);
    assert(("modifiers"@ + " = "@)[0] != ("can_collaborate"@ + " = "@)[0]);
    lemma_keyed_none(mo, Seq::empty(), "modifiers"@, "can_collaborate"@, 0);
    let fm = crate::script::block_lines("faction_modifiers"@, u.faction_modifiers@)->0;
    lemma_block_shape("faction_modifiers"@, u.faction_modifiers@);
    assert(("faction_modifiers"@ + " = "@)[0] != ("can_collaborate"@ + " = "@)[0]);
    lemma_keyed_none(fm, Seq::empty(), "faction_modifiers"@, "can_collaborate"@, 0);
    let s0 = scalar_line("war_impact_on_world_tension"@, u.war_impact_on_world_tension@);
    lemma_scalar_line("war_impact_on_world_tension"@, u.war_impact_on_world_tension@);
    assert(("war_impact_on_world_tension"@ + " = "@)[0] != ("can_collaborate"@ + " = "@)[0]);
    lemma_keyed_none(s0, Seq::empty(), "war_impact_on_world_tension"@, "can_collaborate"@, 0);
    let s1 = scalar_line("faction_impact_on_world_tension"@, u.faction_impact_on_world_tension@);
    lemma_scalar_line("faction_impact_on_world_tension"@, u.faction_impact_on_world_tension@);
    assert(("faction_impact_on_world_tension"@ + " = "@)[0] != ("can_collaborate"@ + " = "@)[0]);
    lemma_keyed_none(s1, Seq::empty(), "faction_impact_on_world_tension"@, "can_collaborate"@, 0);
    let s2 = scalar_line("can_host_government_in_exile"@, u.can_host_government_in_exile@);
    lemma_scalar_line("can_host_government_in_exile"@, u.can_host_government_in_exile@);
    assert(("can_host_government_in_exile"@ + " = "@)[4] != ("can_collaborate"@ + " = "@)[4]);
    lemma_keyed_none(s2, Seq::empty(), "can_host_government_in_exile"@, "can_collaborate"@, 4);
    let s3 = scalar_line("can_be_boosted"@, u.can_be_boosted@);
    lemma_scalar_line("can_be_boosted"@, u.can_be_boosted@);
    assert(("can_be_boosted"@ + " = "@)[4] != ("can_collaborate"@ + " = "@)[4]);
    lemma_keyed_none(s3, Seq::empty(), "can_be_boosted"@, "can_collaborate"@, 4);
    let s4 = scalar_line("can_collaborate"@, u.can_collaborate@);
    lemma_scalar_line("can_collaborate"@, u.can_collaborate@);
    lemma_keyed_all(s4, Seq::empty(), "can_collaborate"@);
    let s5 = scalar_line("ai_ideology_wanted_units_factor"@, u.ai_ideology_wanted_units_factor@);
    lemma_scalar_line("ai_ideology_wanted_units_factor"@, u.ai_ideology_wanted_units_factor@);
    assert(("ai_ideology_wanted_units_factor"@ + " = "@)[0] != ("can_collaborate"@ + " = "@)[0]);
    lemma_keyed_none(s5, Seq::empty(), "ai_ideology_wanted_units_factor"@, "can_collaborate"@, 0);
    let be = crate::ideologies::behaviour_lines(u.ai_behaviour@);
    lemma_behaviour_none(u.ai_behaviour@, "can_collaborate"@, 0);
    lemma_keyed_concat(co, ty, Seq::empty(), "can_collaborate"@);
    lemma_keyed_concat((co + ty), na, Seq::empty(), "can_collaborate"@);
    lemma_keyed_concat(((co + ty) + na), ru, Seq::empty(), "can_collaborate"@);
    lemma_keyed_concat((((co + ty) + na) + ru), mo, Seq::empty(), "can_collaborate"@);
    lemma_keyed_concat(((((co + ty) + na) + ru) + mo), fm, Seq::empty(), "can_collaborate"@);
    lemma_keyed_concat(s0, s1, Seq::empty(), "can_collaborate"@);
    lemma_keyed_concat((s0 + s1), s2, Seq::empty(), "can_collaborate"@);
    lemma_keyed_concat(((s0 + s1) + s2), s3, Seq::empty(), "can_collaborate"@);
    lemma_keyed_concat((((s0 + s1) + s2) + s3), s4, Seq::empty(), "can_collaborate"@);
    lemma_keyed_concat(((((s0 + s1) + s2) + s3) + s4), s5, Seq::empty(), "can_collaborate"@);
    lemma_keyed_concat((((((co + ty) + na) + ru) + mo) + fm), (((((s0 + s1) + s2) + s3) + s4) + s5), Seq::empty(), "can_collaborate"@);
    lemma_keyed_concat(((((((co + ty) + na) + ru) + mo) + fm) + (((((s0 + s1) + s2) + s3) + s4) + s5)), be, Seq::empty(), "can_collaborate"@);
    assert(keyed_lines(ideology_lines(u), Seq::empty(), "can_collaborate"@) =~= each_written("can_collaborate"@, seq![u.can_collaborate@]));
}

proof fn lemma_ideology_field_ai_ideology_wanted_units_factor(u: crate::ideologies::IdeologyUpdate)
    requires
        crate::ideologies::nested_part(u) is Some && (trim_spec(u.ai_behaviour@).len() == 0 || crate::ideologies::known_behaviour(trim_spec(u.ai_behaviour@))),
    ensures
        keyed_lines(ideology_lines(u), Seq::empty(), "ai_ideology_wanted_units_factor"@) == each_written("ai_ideology_wanted_units_factor"@, seq![u.ai_ideology_wanted_units_factor@]),
{
    reveal_strlit("ai_ideology_wanted_units_factor");
    reveal_strlit("can_be_boosted");
    reveal_strlit("can_collaborate");
    reveal_strlit("can_host_government_in_exile");
    reveal_strlit("color");
    reveal_strlit("dynamic_faction_names");
    reveal_strlit("faction_impact_on_world_tension");
    reveal_strlit("faction_modifiers");
    reveal_strlit("modifiers");
    reveal_strlit("rules");
    reveal_strlit("types");
    reveal_strlit("war_impact_on_world_tension");
    reveal_strlit("ai_");
    reveal_strlit("democratic");
    reveal_strlit("communist");
    reveal_strlit("fascist");
    reveal_strlit("neutral");
    reveal_strlit(" = ");
    lemma_ideology_parts(u);
    let co = crate::ideologies::colour_lines(u.color@);
    lemma_colour_shape(u.color@);
    assert(("color"@ + " = "@)[0] != ("ai_ideology_wanted_units_factor"@ + " = "@)[0]);
    lemma_keyed_none(co, Seq::empty(), "color"@, "ai_ideology_wanted_units_factor"@, 0);
    let ty = crate::ideologies::types_part(u)->0;
    lemma_types_part_shape(u);
    assert(("types"@ + " = "@)[0] != ("ai_ideology_wanted_units_factor"@ + " = "@)[0]);
    lemma_keyed_none(ty, Seq::empty(), "types"@, "ai_ideology_wanted_units_factor"@, 0);
    let na = crate::ideologies::names_part(u)->0;
    lemma_names_part_shape(u);
    assert(("dynamic_faction_names"@ + " = "@)[0] != ("ai_ideology_wanted_units_factor"@ + " = "@)[0]);
    lemma_keyed_none(na, Seq::empty(), "dynamic_faction_names"@, "ai_ideology_wanted_units_factor"@, 0);
    let ru = crate::ideologies::rules_part(u)->0;
    lemma_rules_part_shape(u);
    assert(("rules"@ + " = "@)[0] != ("ai_ideology_wanted_units_factor"@ + " = "@)[0]);
    lemma_keyed_none(ru, Seq::empty(), "rules"@, "ai_ideology_wanted_units_factor"@, 0);
    let mo = crate::script::block_lines("modifiers"@, u.modifiers@)->0;
    lemma_block_shape("modifiers"@, u.modifiers@);
    assert(("modifiers"@ + " = "@)[0] != ("ai_ideology_wanted_units_factor"@ + " = "@)[0]);
    lemma_keyed_none(mo, Seq::empty(), "modifiers"@, "ai_ideology_wanted_units_factor"@, 0);
    let fm = crate::script::block_lines("faction_modifiers"@, u.faction_modifiers@)->0;
    lemma_block_shape("faction_modifiers"@, u.faction_modifiers@);
    assert(("faction_modifiers"@ + " = "@)[0] != ("ai_ideology_wanted_units_factor"@ + " = "@)[0]);
    lemma_keyed_none(fm, Seq::empty(), "faction_modifiers"@, "ai_ideology_wanted_units_factor"@, 0);
    let s0 = scalar_line("war_impact_on_world_tension"@, u.war_impact_on_world_tension@);
    lemma_scalar_line("war_impact_on_world_tension"@, u.war_impact_on_world_tension@);
    assert(("war_impact_on_world_tension"@ + " = "@)[0] != ("ai_ideology_wanted_units_factor"@ + " = "@)[0]);
    lemma_keyed_none(s0, Seq::empty(), "war_impact_on_world_tension"@, "ai_ideology_wanted_units_factor"@, 0);
    let s1 = scalar_line("faction_impact_on_world_tension"@, u.faction_impact_on_world_tension@);
    lemma_scalar_line("faction_impact_on_world_tension"@, u.faction_impact_on_world_tension@);
    assert(("faction_impact_on_world_tension"@ + " = "@)[0] != ("ai_ideology_wanted_units_factor"@ + " = "@)[0]);
    lemma_keyed_none(s1, Seq::empty(), "faction_impact_on_world_tension"@, "ai_ideology_wanted_units_factor"@, 0);
    let s2 = scalar_line("can_host_government_in_exile"@, u.can_host_government_in_exile@);
    lemma_scalar_line("can_host_government_in_exile"@, u.can_host_government_in_exile@);
    assert(("can_host_government_in_exile"@ + " = "@)[0] != ("ai_ideology_wanted_units_factor"@ + " = "@)[0]);
    lemma_keyed_none(s2, Seq::empty(), "can_host_government_in_exile"@, "ai_ideology_wanted_units_factor"@, 0);
    let s3 = scalar_line("can_be_boosted"@, u.can_be_boosted@);
    lemma_scalar_line("can_be_boosted"@, u.can_be_boosted@);
    assert(("can_be_boosted"@ + " = "@)[0] != ("ai_ideology_wanted_units_factor"@ + " = "@)[0]);
    lemma_keyed_none(s3, Seq::empty(), "can_be_boosted"@, "ai_ideology_wanted_units_factor"@, 0);
    let s4 = scalar_line("can_collaborate"@, u.can_collaborate@);
    lemma_scalar_line("can_collaborate"@, u.can_collaborate@);
    assert(("can_collaborate"@ + " = "@)[0] != ("ai_ideology_wanted_units_factor"@ + " = "@)[0]);
    lemma_keyed_none(s4, Seq::empty(), "can_collaborate"@, "ai_ideology_wanted_units_factor"@, 0);
    let s5 = scalar_line("ai_ideology_wanted_units_factor"@, u.ai_ideology_wanted_units_factor@);
    lemma_scalar_line("ai_ideology_wanted_units_factor"@, u.ai_ideology_wanted_units_factor@);
    lemma_keyed_all(s5, Seq::empty(), "ai_ideology_wanted_units_factor"@);
    let be = crate::ideologies::behaviour_lines(u.ai_behaviour@);
    lemma_behaviour_none(u.ai_behaviour@, "ai_ideology_wanted_units_factor"@, 3);
    lemma_keyed_concat(co, ty, Seq::empty(), "ai_ideology_wanted_units_factor"@);
    lemma_keyed_concat((co + ty), na, Seq::empty(), "ai_ideology_wanted_units_factor"@);
    lemma_keyed_concat(((co + ty) + na), ru, Seq::empty(), "ai_ideology_wanted_units_factor"@);
    lemma_keyed_concat((((co + ty) + na) + ru), mo, Seq::empty(), "ai_ideology_wanted_units_factor"@);
    lemma_keyed_concat(((((co + ty) + na) + ru) + mo), fm, Seq::empty(), "ai_ideology_wanted_units_factor"@);
    lemma_keyed_concat(s0, s1, Seq::empty(), "ai_ideology_wanted_units_factor"@);
    lemma_keyed_concat((s0 + s1), s2, Seq::empty(), "ai_ideology_wanted_units_factor"@);
    lemma_keyed_concat(((s0 + s1) + s2), s3, Seq::empty(), "ai_ideology_wanted_units_factor"@);
    lemma_keyed_concat((((s0 + s1) + s2) + s3), s4, Seq::empty(), "ai_ideology_wanted_units_factor"@);
    lemma_keyed_concat(((((s0 + s1) + s2) + s3) + s4), s5, Seq::empty(), "ai_ideology_wanted_units_factor"@);
    lemma_keyed_concat((((((co + ty) + na) + ru) + mo) + fm), (((((s0 + s1) + s2) + s3) + s4) + s5), Seq::empty(), "ai_ideology_wanted_units_factor"@);
    lemma_keyed_concat(((((((co + ty) + na) + ru) + mo) + fm) + (((((s0 + s1) + s2) + s3) + s4) + s5)), be, Seq::empty(), "ai_ideology_wanted_units_factor"@);
    assert(keyed_lines(ideology_lines(u), Seq::empty(), "ai_ideology_wanted_units_factor"@) =~= each_written("ai_ideology_wanted_units_factor"@, seq![u.ai_ideology_wanted_units_factor@]));
}
proof fn lemma_politics_field_ruling_party(p: crate::country_history::Politics)
    requires
        true,
    ensures
        keyed_lines(politics_lines(p), Seq::empty(), "ruling_party"@) == each_written("ruling_party"@, seq![p.ruling_party@]),
{
    reveal_strlit("election_frequency");
    reveal_strlit("elections_allowed");
    reveal_strlit("last_election");
    reveal_strlit("ruling_party");
    reveal_strlit(" = ");
    lemma_politics_parts(p);
    let s0 = scalar_line("ruling_party"@, p.ruling_party@);
    lemma_scalar_line("ruling_party"@, p.ruling_party@);
    lemma_keyed_all(s0, Seq::empty(), "ruling_party"@);
    let s1 = scalar_line("last_election"@, p.last_election@);
    lemma_scalar_line("last_election"@, p.last_election@);
    assert(("last_election"@ + " = "@)[0] != ("ruling_party"@ + " = "@)[0]);
    lemma_keyed_none(s1, Seq::empty(), "last_election"@, "ruling_party"@, 0);
    let s2 = scalar_line("election_frequency"@, p.election_frequency@);
    lemma_scalar_line("election_frequency"@, p.election_frequency@);
    assert(("election_frequency"@ + " = "@)[0] != ("ruling_party"@ + " = "@)[0]);
    lemma_keyed_none(s2, Seq::empty(), "election_frequency"@, "ruling_party"@, 0);
    let s3 = scalar_line("elections_allowed"@, p.elections_allowed@);
    lemma_scalar_line("elections_allowed"@, p.elections_allowed@);
    assert(("elections_allowed"@ + " = "@)[0] != ("ruling_party"@ + " = "@)[0]);
    lemma_keyed_none(s3, Seq::empty(), "elections_allowed"@, "ruling_party"@, 0);
    lemma_keyed_concat(s0, s1, Seq::empty(), "ruling_party"@);
    lemma_keyed_concat((s0 + s1), s2, Seq::empty(), "ruling_party"@);
    lemma_keyed_concat(((s0 + s1) + s2), s3, Seq::empty(), "ruling_party"@);
    assert(keyed_lines(politics_lines(p), Seq::empty(), "ruling_party"@) =~= each_written("ruling_party"@, seq![p.ruling_party@]));
}

proof fn lemma_politics_field_last_election(p: crate::country_history::Politics)
    requires
        true,
    ensures
        keyed_lines(politics_lines(p), Seq::empty(), "last_election"@) == each_written("last_election"@, seq![p.last_election@]),
{
    reveal_strlit("election_frequency");
    reveal_strlit("elections_allowed");
    reveal_strlit("last_election");
    reveal_strlit("ruling_party");
    reveal_strlit(" = ");
    lemma_politics_parts(p);
    let s0 = scalar_line("ruling_party"@, p.ruling_party@);
    lemma_scalar_line("ruling_party"@, p.ruling_party@);
    assert(("ruling_party"@ + " = "@)[0] != ("last_election"@ + " = "@)[0]);
    lemma_keyed_none(s0, Seq::empty(), "ruling_party"@, "last_election"@, 0);
    let s1 = scalar_line("last_election"@, p.last_election@);
    lemma_scalar_line("last_election"@, p.last_election@);
    lemma_keyed_all(s1, Seq::empty(), "last_election"@);
    let s2 = scalar_line("election_frequency"@, p.election_frequency@);
    lemma_scalar_line("election_frequency"@, p.election_frequency@);
    assert(("election_frequency"@ + " = "@)[0] != ("last_election"@ + " = "@)[0]);
    lemma_keyed_none(s2, Seq::empty(), "election_frequency"@, "last_election"@, 0);
    let s3 = scalar_line("elections_allowed"@, p.elections_allowed@);
    lemma_scalar_line("elections_allowed"@, p.elections_allowed@);
    assert(("elections_allowed"@ + " = "@)[0] != ("last_election"@ + " = "@)[0]);
    lemma_keyed_none(s3, Seq::empty(), "elections_allowed"@, "last_election"@, 0);
    lemma_keyed_concat(s0, s1, Seq::empty(), "last_election"@);
    lemma_keyed_concat((s0 + s1), s2, Seq::empty(), "last_election"@);
    lemma_keyed_concat(((s0 + s1) + s2), s3, Seq::empty(), "last_election"@);
    assert(keyed_lines(politics_lines(p), Seq::empty(), "last_election"@) =~= each_written("last_election"@, seq![p.last_election@]));
}

proof fn lemma_politics_field_election_frequency(p: crate::country_history::Politics)
    requires
        true,
    ensures
        keyed_lines(politics_lines(p), Seq::empty(), "election_frequency"@) == each_written("election_frequency"@, seq![p.election_frequency@]),
{
    reveal_strlit("election_frequency");
    reveal_strlit("elections_allowed");
    reveal_strlit("last_election");
    reveal_strlit("ruling_party");
    reveal_strlit(" = ");
    lemma_politics_parts(p);
    let s0 = scalar_line("ruling_party"@, p.ruling_party@);
    lemma_scalar_line("ruling_party"@, p.ruling_party@);
    assert(("ruling_party"@ + " = "@)[0] != ("election_frequency"@ + " = "@)[0]);
    lemma_keyed_none(s0, Seq::empty(), "ruling_party"@, "election_frequency"@, 0);
    let s1 = scalar_line("last_election"@, p.last_election@);
    lemma_scalar_line("last_election"@, p.last_election@);
    assert(("last_election"@ + " = "@)[0] != ("election_frequency"@ + " = "@)[0]);
    lemma_keyed_none(s1, Seq::empty(), "last_election"@, "election_frequency"@, 0);
    let s2 = scalar_line("election_frequency"@, p.election_frequency@);
    lemma_scalar_line("election_frequency"@, p.election_frequency@);
    lemma_keyed_all(s2, Seq::empty(), "election_frequency"@);
    let s3 = scalar_line("elections_allowed"@, p.elections_allowed@);
    lemma_scalar_line("elections_allowed"@, p.elections_allowed@);
    assert(("elections_allowed"@ + " = "@)[8] != ("election_frequency"@ + " = "@)[8]);
    lemma_keyed_none(s3, Seq::empty(), "elections_allowed"@, "election_frequency"@, 8);
    lemma_keyed_concat(s0, s1, Seq::empty(), "election_frequency"@);
    lemma_keyed_concat((s0 + s1), s2, Seq::empty(), "election_frequency"@);
    lemma_keyed_concat(((s0 + s1) + s2), s3, Seq::empty(), "election_frequency"@);
    assert(keyed_lines(politics_lines(p), Seq::empty(), "election_frequency"@) =~= each_written("election_frequency"@, seq![p.election_frequency@]));
}

proof fn lemma_politics_field_elections_allowed(p: crate::country_history::Politics)
    requires
        true,
    ensures
        keyed_lines(politics_lines(p), Seq::empty(), "elections_allowed"@) == each_written("elections_allowed"@, seq![p.elections_allowed@]),
{
    reveal_strlit("election_frequency");
    reveal_strlit("elections_allowed");
    reveal_strlit("last_election");
    reveal_strlit("ruling_party");
    reveal_strlit(" = ");
    lemma_politics_parts(p);
    let s0 = scalar_line("ruling_party"@, p.ruling_party@);
    lemma_scalar_line("ruling_party"@, p.ruling_party@);
    assert(("ruling_party"@ + " = "@)[0] != ("elections_allowed"@ + " = "@)[0]);
    lemma_keyed_none(s0, Seq::empty(), "ruling_party"@, "elections_allowed"@, 0);
    let s1 = scalar_line("last_election"@, p.last_election@);
    lemma_scalar_line("last_election"@, p.last_election@);
    assert(("last_election"@ + " = "@)[0] != ("elections_allowed"@ + " = "@)[0]);
    lemma_keyed_none(s1, Seq::empty(), "last_election"@, "elections_allowed"@, 0);
    let s2 = scalar_line("election_frequency"@, p.election_frequency@);
    lemma_scalar_line("election_frequency"@, p.election_frequency@);
    assert(("election_frequency"@ + " = "@)[8] != ("elections_allowed"@ + " = "@)[8]);
    lemma_keyed_none(s2, Seq::empty(), "election_frequency"@, "elections_allowed"@, 8);
    let s3 = scalar_line("elections_allowed"@, p.elections_allowed@);
    lemma_scalar_line("elections_allowed"@, p.elections_allowed@);
    lemma_keyed_all(s3, Seq::empty(), "elections_allowed"@);
    lemma_keyed_concat(s0, s1, Seq::empty(), "elections_allowed"@);
    lemma_keyed_concat((s0 + s1), s2, Seq::empty(), "elections_allowed"@);
    lemma_keyed_concat(((s0 + s1) + s2), s3, Seq::empty(), "elections_allowed"@);
    assert(keyed_lines(politics_lines(p), Seq::empty(), "elections_allowed"@) =~= each_written("elections_allowed"@, seq![p.elections_allowed@]));
}

/// Law: a new technology block writes each of its plain fields — research
/// cost, start year, doctrine flag and the experience research fields — on
/// a line of its own keyed by that field and holding that field's value,
/// trimmed; a blank field gets no line.
pub proof fn law_a_new_technology_writes_each_field_on_its_own_line(u: crate::technologies::TechnologyUpdate)
    ensures
        crate::technologies::render_technology_spec(u) matches Some(body) ==> exists|ls: Seq<Seq<char>>|
            #[trigger] join(ls, "\n"@) == body
                && keyed_lines(ls, Seq::empty(), "research_cost"@) == each_written("research_cost"@, seq![u.research_cost@])
                && keyed_lines(ls, Seq::empty(), "start_year"@) == each_written("start_year"@, seq![u.start_year@])
                && keyed_lines(ls, Seq::empty(), "doctrine"@) == each_written("doctrine"@, seq![u.doctrine@])
                && keyed_lines(ls, Seq::empty(), "xp_research_type"@) == each_written("xp_research_type"@, seq![u.xp_research_type@])
                && keyed_lines(ls, Seq::empty(), "xp_research_cost"@) == each_written("xp_research_cost"@, seq![u.xp_research_cost@])
                && keyed_lines(ls, Seq::empty(), "xp_research_bonus"@) == each_written("xp_research_bonus"@, seq![u.xp_research_bonus@]),
{
    if crate::technologies::technology_lines(u) is Some {
        lemma_technology_field_research_cost(u);
        lemma_technology_field_start_year(u);
        lemma_technology_field_doctrine(u);
        lemma_technology_field_xp_research_type(u);
        lemma_technology_field_xp_research_cost(u);
        lemma_technology_field_xp_research_bonus(u);
        assert(join(crate::technologies::technology_lines(u)->0, "\n"@) == crate::technologies::render_technology_spec(u)->0);
    }
}

/// Law: a new event block writes its id and each of its flags — picture,
/// fire only once, triggered only, hidden, major, timeout — on a line of its
/// own keyed by that field and holding that field's value, trimmed and
/// quoted where it has to be; a blank field gets no line.
pub proof fn law_a_new_event_writes_each_field_on_its_own_line(u: crate::events::EventUpdate)
    ensures
        crate::events::render_event_spec(u) matches Some(body) ==> exists|ls: Seq<Seq<char>>|
            #[trigger] join(ls, "\n"@) == body
                && keyed_lines(ls, Seq::empty(), "id"@) == raw_written("id"@, u.id@)
                && keyed_lines(ls, Seq::empty(), "picture"@) == raw_written("picture"@, u.picture@)
                && keyed_lines(ls, Seq::empty(), "fire_only_once"@) == raw_written("fire_only_once"@, u.fire_only_once@)
                && keyed_lines(ls, Seq::empty(), "is_triggered_only"@) == raw_written("is_triggered_only"@, u.is_triggered_only@)
                && keyed_lines(ls, Seq::empty(), "hidden"@) == raw_written("hidden"@, u.hidden@)
                && keyed_lines(ls, Seq::empty(), "major"@) == raw_written("major"@, u.major@)
                && keyed_lines(ls, Seq::empty(), "timeout_days"@) == raw_written("timeout_days"@, u.timeout_days@),
{
    if crate::events::event_lines(u) is Some {
        lemma_event_field_id(u);
        lemma_event_field_picture(u);
        lemma_event_field_fire_only_once(u);
        lemma_event_field_is_triggered_only(u);
        lemma_event_field_hidden(u);
        lemma_event_field_major(u);
        lemma_event_field_timeout_days(u);
        assert(join(crate::events::event_lines(u)->0, "\n"@) == crate::events::render_event_spec(u)->0);
    }
}

/// Law: a new ideology block with a known AI behaviour, or none, writes each
/// of its plain fields — the world tension impacts, government in exile,
/// boosting, collaboration and wanted units factor — on a line of its own
/// keyed by that field and holding that field's value, trimmed; a blank
/// field gets no line.
pub proof fn law_a_new_ideology_writes_each_field_on_its_own_line(u: crate::ideologies::IdeologyUpdate)
    requires
        trim_spec(u.ai_behaviour@).len() == 0 || crate::ideologies::known_behaviour(trim_spec(u.ai_behaviour@)),
    ensures
        crate::ideologies::render_ideology_spec(u) matches Some(body) ==> exists|ls: Seq<Seq<char>>|
            #[trigger] join(ls, "\n"@) == body
                && keyed_lines(ls, Seq::empty(), "war_impact_on_world_tension"@) == each_written("war_impact_on_world_tension"@, seq![u.war_impact_on_world_tension@])
                && keyed_lines(ls, Seq::empty(), "faction_impact_on_world_tension"@) == each_written("faction_impact_on_world_tension"@, seq![u.faction_impact_on_world_tension@])
                && keyed_lines(ls, Seq::empty(), "can_host_government_in_exile"@) == each_written("can_host_government_in_exile"@, seq![u.can_host_government_in_exile@])
                && keyed_lines(ls, Seq::empty(), "can_be_boosted"@) == each_written("can_be_boosted"@, seq![u.can_be_boosted@])
                && keyed_lines(ls, Seq::empty(), "can_collaborate"@) == each_written("can_collaborate"@, seq![u.can_collaborate@])
                && keyed_lines(ls, Seq::empty(), "ai_ideology_wanted_units_factor"@) == each_written("ai_ideology_wanted_units_factor"@, seq![u.ai_ideology_wanted_units_factor@]),
{
    if crate::ideologies::nested_part(u) is Some {
        lemma_ideology_field_war_impact_on_world_tension(u);
        lemma_ideology_field_faction_impact_on_world_tension(u);
        lemma_ideology_field_can_host_government_in_exile(u);
        lemma_ideology_field_can_be_boosted(u);
        lemma_ideology_field_can_collaborate(u);
        lemma_ideology_field_ai_ideology_wanted_units_factor(u);
        assert(join(ideology_lines(u), "\n"@) == crate::ideologies::render_ideology_spec(u)->0);
    }
}

/// Law: a new politics block of a country history writes its ruling party,
/// last election, election frequency and whether elections are allowed
/// each on a line of its own keyed by that field and holding that field's
/// value, trimmed; a blank field gets no line.
pub proof fn law_a_new_politics_block_writes_each_field_on_its_own_line(p: crate::country_history::Politics)
    ensures
        exists|ls: Seq<Seq<char>>|
            #[trigger] join(ls, "\n"@) == crate::country_history::render_politics_spec(p)
                && keyed_lines(ls, Seq::empty(), "ruling_party"@) == each_written("ruling_party"@, seq![p.ruling_party@])
                && keyed_lines(ls, Seq::empty(), "last_election"@) == each_written("last_election"@, seq![p.last_election@])
                && keyed_lines(ls, Seq::empty(), "election_frequency"@) == each_written("election_frequency"@, seq![p.election_frequency@])
                && keyed_lines(ls, Seq::empty(), "elections_allowed"@) == each_written("elections_allowed"@, seq![p.elections_allowed@]),
{
    lemma_politics_field_ruling_party(p);
    lemma_politics_field_last_election(p);
    lemma_politics_field_election_frequency(p);
    lemma_politics_field_elections_allowed(p);
    lemma_politics_parts(p);
}


// ---------------------------------------------------------------------------
// New role blocks of a character
// ---------------------------------------------------------------------------

proof fn lemma_expire_shape(e: Seq<char>)
    ensures
        blank_or_keyed(crate::characters::expire_lines(e), "expire"@),
{
    reveal_strlit("expire = ");
    reveal_strlit("expire");
    reveal_strlit(" = ");
    assert("expire = "@.take(("expire"@ + " = "@).len() as int) =~= "expire"@ + " = "@);
    lemma_literal_shape("expire = "@, "expire"@, crate::paradox::lexer::quote_spec(trim_spec(e)));
    lemma_one_keyed("expire"@ + " = "@, "expire"@, Seq::empty());
}

/// The lines of a new country leader role.
spec fn leader_lines(l: CountryLeader) -> Seq<Seq<char>> {
    scalar_line("ideology"@, l.ideology@) + words_lines("traits"@, views(l.traits@))->0 + (
    crate::characters::expire_lines(l.expire@) + scalar_line("desc"@, l.desc@))
}

proof fn lemma_leader_parts(l: CountryLeader)
    requires
        words_lines("traits"@, views(l.traits@)) is Some,
    ensures
        crate::characters::render_leader_spec(l) == Some(join(leader_lines(l), "\n"@)),
{
    reveal(crate::characters::render_leader_spec);
}

/// Every part of a new advisor role can be laid out.
spec fn advisor_parts_some(a: Advisor) -> bool {
    &&& block_lines("allowed"@, a.allowed@) is Some
    &&& block_lines("available"@, a.available@) is Some
    &&& block_lines("visible"@, a.visible@) is Some
    &&& block_lines("ai_will_do"@, a.ai_will_do@) is Some
    &&& words_lines("traits"@, views(a.traits@)) is Some
}

/// The lines of a new advisor role.
spec fn advisor_lines(a: Advisor) -> Seq<Seq<char>> {
    scalar_line("slot"@, a.slot@) + scalar_line("idea_token"@, a.idea_token@) + scalar_line("ledger"@, a.ledger@)
        + scalar_line("cost"@, a.cost@) + scalar_line("removal_cost"@, a.removal_cost@) + scalar_line(
        "can_be_fired"@,
        a.can_be_fired@,
    ) + block_lines("allowed"@, a.allowed@)->0 + block_lines("available"@, a.available@)->0 + block_lines(
        "visible"@,
        a.visible@,
    )->0 + block_lines("ai_will_do"@, a.ai_will_do@)->0 + words_lines("traits"@, views(a.traits@))->0
}

proof fn lemma_advisor_parts(a: Advisor)
    requires
        advisor_parts_some(a),
    ensures
        crate::characters::render_advisor_spec(a) == Some(join(advisor_lines(a), "\n"@)),
{
    reveal(crate::characters::render_advisor_spec);
}

/// The lines of a new commander role.
spec fn commander_lines(c: Commander) -> Seq<Seq<char>> {
    crate::characters::skill_lines(c) + scalar_line("legacy_id"@, c.legacy_id@) + words_lines(
        "traits"@,
        views(c.traits@),
    )->0
}

proof fn lemma_commander_parts(c: Commander)
    requires
        words_lines("traits"@, views(c.traits@)) is Some,
    ensures
        crate::characters::render_commander_spec(c) == Some(join(commander_lines(c), "\n"@)),
{
    reveal(crate::characters::render_commander_spec);
}

proof fn lemma_portrait_parts(large: Seq<char>, small: Seq<char>)
    ensures
        crate::characters::portrait_group_spec(large, small) == join(
            scalar_line("large"@, large) + scalar_line("small"@, small),
            "\n"@,
        ),
{
}

proof fn lemma_leader_field_ideology(l: CountryLeader)
    requires
        words_lines("traits"@, views(l.traits@)) is Some,
    ensures
        keyed_lines(leader_lines(l), Seq::empty(), "ideology"@) == each_written("ideology"@, seq![l.ideology@]),
{
    reveal_strlit("desc");
    reveal_strlit("expire");
    reveal_strlit("ideology");
    reveal_strlit("traits");
    reveal_strlit(" = ");
    lemma_leader_parts(l);
    let s0 = scalar_line("ideology"@, l.ideology@);
    lemma_scalar_line("ideology"@, l.ideology@);
    lemma_keyed_all(s0, Seq::empty(), "ideology"@);
    let tr = words_lines("traits"@, views(l.traits@))->0;
    lemma_words_shape("traits"@, views(l.traits@));
    assert(("traits"@ + " = "@)[0] != ("ideology"@ + " = "@)[0]);
    lemma_keyed_none(tr, Seq::empty(), "traits"@, "ideology"@, 0);
    let ex = crate::characters::expire_lines(l.expire@);
    lemma_expire_shape(l.expire@);
    assert(("expire"@ + " = "@)[0] != ("ideology"@ + " = "@)[0]);
    lemma_keyed_none(ex, Seq::empty(), "expire"@, "ideology"@, 0);
    let s1 = scalar_line("desc"@, l.desc@);
    lemma_scalar_line("desc"@, l.desc@);
    assert(("desc"@ + " = "@)[0] != ("ideology"@ + " = "@)[0]);
    lemma_keyed_none(s1, Seq::empty(), "desc"@, "ideology"@, 0);
    lemma_keyed_concat(s0, tr, Seq::empty(), "ideology"@);
    lemma_keyed_concat(ex, s1, Seq::empty(), "ideology"@);
    lemma_keyed_concat((s0 + tr), (ex + s1), Seq::empty(), "ideology"@);
    assert(keyed_lines(leader_lines(l), Seq::empty(), "ideology"@) =~= each_written("ideology"@, seq![l.ideology@]));
}

proof fn lemma_leader_field_desc(l: CountryLeader)
    requires
        words_lines("traits"@, views(l.traits@)) is Some,
    ensures
        keyed_lines(leader_lines(l), Seq::empty(), "desc"@) == each_written("desc"@, seq![l.desc@]),
{
    reveal_strlit("desc");
    reveal_strlit("expire");
    reveal_strlit("ideology");
    reveal_strlit("traits");
    reveal_strlit(" = ");
    lemma_leader_parts(l);
    let s0 = scalar_line("ideology"@, l.ideology@);
    lemma_scalar_line("ideology"@, l.ideology@);
    assert(("ideology"@ + " = "@)[0] != ("desc"@ + " = "@)[0]);
    lemma_keyed_none(s0, Seq::empty(), "ideology"@, "desc"@, 0);
    let tr = words_lines("traits"@, views(l.traits@))->0;
    lemma_words_shape("traits"@, views(l.traits@));
    assert(("traits"@ + " = "@)[0] != ("desc"@ + " = "@)[0]);
    lemma_keyed_none(tr, Seq::empty(), "traits"@, "desc"@, 0);
    let ex = crate::characters::expire_lines(l.expire@);
    lemma_expire_shape(l.expire@);
    assert(("expire"@ + " = "@)[0] != ("desc"@ + " = "@)[0]);
    lemma_keyed_none(ex, Seq::empty(), "expire"@, "desc"@, 0);
    let s1 = scalar_line("desc"@, l.desc@);
    lemma_scalar_line("desc"@, l.desc@);
    lemma_keyed_all(s1, Seq::empty(), "desc"@);
    lemma_keyed_concat(s0, tr, Seq::empty(), "desc"@);
    lemma_keyed_concat(ex, s1, Seq::empty(), "desc"@);
    lemma_keyed_concat((s0 + tr), (ex + s1), Seq::empty(), "desc"@);
    assert(keyed_lines(leader_lines(l), Seq::empty(), "desc"@) =~= each_written("desc"@, seq![l.desc@]));
}
proof fn lemma_advisor_field_slot(a: Advisor)
    requires
        advisor_parts_some(a),
    ensures
        keyed_lines(advisor_lines(a), Seq::empty(), "slot"@) == each_written("slot"@, seq![a.slot@]),
{
    reveal_strlit("ai_will_do");
    reveal_strlit("allowed");
    reveal_strlit("available");
    reveal_strlit("can_be_fired");
    reveal_strlit("cost");
    reveal_strlit("idea_token");
    reveal_strlit("ledger");
    reveal_strlit("removal_cost");
    reveal_strlit("slot");
    reveal_strlit("traits");
    reveal_strlit("visible");
    reveal_strlit(" = ");
    lemma_advisor_parts(a);
    let s0 = scalar_line("slot"@, a.slot@);
    lemma_scalar_line("slot"@, a.slot@);
    lemma_keyed_all(s0, Seq::empty(), "slot"@);
    let s1 = scalar_line("idea_token"@, a.idea_token@);
    lemma_scalar_line("idea_token"@, a.idea_token@);
    assert(("idea_token"@ + " = "@)[0] != ("slot"@ + " = "@)[0]);
    lemma_keyed_none(s1, Seq::empty(), "idea_token"@, "slot"@, 0);
    let s2 = scalar_line("ledger"@, a.ledger@);
    lemma_scalar_line("ledger"@, a.ledger@);
    assert(("ledger"@ + " = "@)[0] != ("slot"@ + " = "@)[0]);
    lemma_keyed_none(s2, Seq::empty(), "ledger"@, "slot"@, 0);
    let s3 = scalar_line("cost"@, a.cost@);
    lemma_scalar_line("cost"@, a.cost@);
    assert(("cost"@ + " = "@)[0] != ("slot"@ + " = "@)[0]);
    lemma_keyed_none(s3, Seq::empty(), "cost"@, "slot"@, 0);
    let s4 = scalar_line("removal_cost"@, a.removal_cost@);
    lemma_scalar_line("removal_cost"@, a.removal_cost@);
    assert(("removal_cost"@ + " = "@)[0] != ("slot"@ + " = "@)[0]);
    lemma_keyed_none(s4, Seq::empty(), "removal_cost"@, "slot"@, 0);
    let s5 = scalar_line("can_be_fired"@, a.can_be_fired@);
    lemma_scalar_line("can_be_fired"@, a.can_be_fired@);
    assert(("can_be_fired"@ + " = "@)[0] != ("slot"@ + " = "@)[0]);
    lemma_keyed_none(s5, Seq::empty(), "can_be_fired"@, "slot"@, 0);
    let b0 = block_lines("allowed"@, a.allowed@)->0;
    lemma_block_shape("allowed"@, a.allowed@);
    assert(("allowed"@ + " = "@)[0] != ("slot"@ + " = "@)[0]);
    lemma_keyed_none(b0, Seq::empty(), "allowed"@, "slot"@, 0);
    let b1 = block_lines("available"@, a.available@)->0;
    lemma_block_shape("available"@, a.available@);
    assert(("available"@ + " = "@)[0] != ("slot"@ + " = "@)[0]);
    lemma_keyed_none(b1, Seq::empty(), "available"@, "slot"@, 0);
    let b2 = block_lines("visible"@, a.visible@)->0;
    lemma_block_shape("visible"@, a.visible@);
    assert(("visible"@ + " = "@)[0] != ("slot"@ + " = "@)[0]);
    lemma_keyed_none(b2, Seq::empty(), "visible"@, "slot"@, 0);
    let b3 = block_lines("ai_will_do"@, a.ai_will_do@)->0;
    lemma_block_shape("ai_will_do"@, a.ai_will_do@);
    assert(("ai_will_do"@ + " = "@)[0] != ("slot"@ + " = "@)[0]);
    lemma_keyed_none(b3, Seq::empty(), "ai_will_do"@, "slot"@, 0);
    let tr = words_lines("traits"@, views(a.traits@))->0;
    lemma_words_shape("traits"@, views(a.traits@));
    assert(("traits"@ + " = "@)[0] != ("slot"@ + " = "@)[0]);
    lemma_keyed_none(tr, Seq::empty(), "traits"@, "slot"@, 0);
    lemma_keyed_concat(s0, s1, Seq::empty(), "slot"@);
    lemma_keyed_concat((s0 + s1), s2, Seq::empty(), "slot"@);
    lemma_keyed_concat(((s0 + s1) + s2), s3, Seq::empty(), "slot"@);
    lemma_keyed_concat((((s0 + s1) + s2) + s3), s4, Seq::empty(), "slot"@);
    lemma_keyed_concat(((((s0 + s1) + s2) + s3) + s4), s5, Seq::empty(), "slot"@);
    lemma_keyed_concat((((((s0 + s1) + s2) + s3) + s4) + s5), b0, Seq::empty(), "slot"@);
    lemma_keyed_concat(((((((s0 + s1) + s2) + s3) + s4) + s5) + b0), b1, Seq::empty(), "slot"@);
    lemma_keyed_concat((((((((s0 + s1) + s2) + s3) + s4) + s5) + b0) + b1), b2, Seq::empty(), "slot"@);
    lemma_keyed_concat(((((((((s0 + s1) + s2) + s3) + s4) + s5) + b0) + b1) + b2), b3, Seq::empty(), "slot"@);
    lemma_keyed_concat((((((((((s0 + s1) + s2) + s3) + s4) + s5) + b0) + b1) + b2) + b3), tr, Seq::empty(), "slot"@);
    assert(keyed_lines(advisor_lines(a), Seq::empty(), "slot"@) =~= each_written("slot"@, seq![a.slot@]));
}

proof fn lemma_advisor_field_idea_token(a: Advisor)
    requires
        advisor_parts_some(a),
    ensures
        keyed_lines(advisor_lines(a), Seq::empty(), "idea_token"@) == each_written("idea_token"@, seq![a.idea_token@]),
{
    reveal_strlit("ai_will_do");
    reveal_strlit("allowed");
    reveal_strlit("available");
    reveal_strlit("can_be_fired");
    reveal_strlit("cost");
    reveal_strlit("idea_token");
    reveal_strlit("ledger");
    reveal_strlit("removal_cost");
    reveal_strlit("slot");
    reveal_strlit("traits");
    reveal_strlit("visible");
    reveal_strlit(" = ");
    lemma_advisor_parts(a);
    let s0 = scalar_line("slot"@, a.slot@);
    lemma_scalar_line("slot"@, a.slot@);
    assert(("slot"@ + " = "@)[0] != ("idea_token"@ + " = "@)[0]);
    lemma_keyed_none(s0, Seq::empty(), "slot"@, "idea_token"@, 0);
    let s1 = scalar_line("idea_token"@, a.idea_token@);
    lemma_scalar_line("idea_token"@, a.idea_token@);
    lemma_keyed_all(s1, Seq::empty(), "idea_token"@);
    let s2 = scalar_line("ledger"@, a.ledger@);
    lemma_scalar_line("ledger"@, a.ledger@);
    assert(("ledger"@ + " = "@)[0] != ("idea_token"@ + " = "@)[0]);
    lemma_keyed_none(s2, Seq::empty(), "ledger"@, "idea_token"@, 0);
    let s3 = scalar_line("cost"@, a.cost@);
    lemma_scalar_line("cost"@, a.cost@);
    assert(("cost"@ + " = "@)[0] != ("idea_token"@ + " = "@)[0]);
    lemma_keyed_none(s3, Seq::empty(), "cost"@, "idea_token"@, 0);
    let s4 = scalar_line("removal_cost"@, a.removal_cost@);
    lemma_scalar_line("removal_cost"@, a.removal_cost@);
    assert(("removal_cost"@ + " = "@)[0] != ("idea_token"@ + " = "@)[0]);
    lemma_keyed_none(s4, Seq::empty(), "removal_cost"@, "idea_token"@, 0);
    let s5 = scalar_line("can_be_fired"@, a.can_be_fired@);
    lemma_scalar_line("can_be_fired"@, a.can_be_fired@);
    assert(("can_be_fired"@ + " = "@)[0] != ("idea_token"@ + " = "@)[0]);
    lemma_keyed_none(s5, Seq::empty(), "can_be_fired"@, "idea_token"@, 0);
    let b0 = block_lines("allowed"@, a.allowed@)->0;
    lemma_block_shape("allowed"@, a.allowed@);
    assert(("allowed"@ + " = "@)[0] != ("idea_token"@ + " = "@)[0]);
    lemma_keyed_none(b0, Seq::empty(), "allowed"@, "idea_token"@, 0);
    let b1 = block_lines("available"@, a.available@)->0;
    lemma_block_shape("available"@, a.available@);
    assert(("available"@ + " = "@)[0] != ("idea_token"@ + " = "@)[0]);
    lemma_keyed_none(b1, Seq::empty(), "available"@, "idea_token"@, 0);
    let b2 = block_lines("visible"@, a.visible@)->0;
    lemma_block_shape("visible"@, a.visible@);
    assert(("visible"@ + " = "@)[0] != ("idea_token"@ + " = "@)[0]);
    lemma_keyed_none(b2, Seq::empty(), "visible"@, "idea_token"@, 0);
    let b3 = block_lines("ai_will_do"@, a.ai_will_do@)->0;
    lemma_block_shape("ai_will_do"@, a.ai_will_do@);
    assert(("ai_will_do"@ + " = "@)[0] != ("idea_token"@ + " = "@)[0]);
    lemma_keyed_none(b3, Seq::empty(), "ai_will_do"@, "idea_token"@, 0);
    let tr = words_lines("traits"@, views(a.traits@))->0;
    lemma_words_shape("traits"@, views(a.traits@));
    assert(("traits"@ + " = "@)[0] != ("idea_token"@ + " = "@)[0]);
    lemma_keyed_none(tr, Seq::empty(), "traits"@, "idea_token"@, 0);
    lemma_keyed_concat(s0, s1, Seq::empty(), "idea_token"@);
    lemma_keyed_concat((s0 + s1), s2, Seq::empty(), "idea_token"@);
    lemma_keyed_concat(((s0 + s1) + s2), s3, Seq::empty(), "idea_token"@);
    lemma_keyed_concat((((s0 + s1) + s2) + s3), s4, Seq::empty(), "idea_token"@);
    lemma_keyed_concat(((((s0 + s1) + s2) + s3) + s4), s5, Seq::empty(), "idea_token"@);
    lemma_keyed_concat((((((s0 + s1) + s2) + s3) + s4) + s5), b0, Seq::empty(), "idea_token"@);
    lemma_keyed_concat(((((((s0 + s1) + s2) + s3) + s4) + s5) + b0), b1, Seq::empty(), "idea_token"@);
    lemma_keyed_concat((((((((s0 + s1) + s2) + s3) + s4) + s5) + b0) + b1), b2, Seq::empty(), "idea_token"@);
    lemma_keyed_concat(((((((((s0 + s1) + s2) + s3) + s4) + s5) + b0) + b1) + b2), b3, Seq::empty(), "idea_token"@);
    lemma_keyed_concat((((((((((s0 + s1) + s2) + s3) + s4) + s5) + b0) + b1) + b2) + b3), tr, Seq::empty(), "idea_token"@);
    assert(keyed_lines(advisor_lines(a), Seq::empty(), "idea_token"@) =~= each_written("idea_token"@, seq![a.idea_token@]));
}

proof fn lemma_advisor_field_ledger(a: Advisor)
    requires
        advisor_parts_some(a),
    ensures
        keyed_lines(advisor_lines(a), Seq::empty(), "ledger"@) == each_written("ledger"@, seq![a.ledger@]),
{
    reveal_strlit("ai_will_do");
    reveal_strlit("allowed");
    reveal_strlit("available");
    reveal_strlit("can_be_fired");
    reveal_strlit("cost");
    reveal_strlit("idea_token");
    reveal_strlit("ledger");
    reveal_strlit("removal_cost");
    reveal_strlit("slot");
    reveal_strlit("traits");
    reveal_strlit("visible");
    reveal_strlit(" = ");
    lemma_advisor_parts(a);
    let s0 = scalar_line("slot"@, a.slot@);
    lemma_scalar_line("slot"@, a.slot@);
    assert(("slot"@ + " = "@)[0] != ("ledger"@ + " = "@)[0]);
    lemma_keyed_none(s0, Seq::empty(), "slot"@, "ledger"@, 0);
    let s1 = scalar_line("idea_token"@, a.idea_token@);
    lemma_scalar_line("idea_token"@, a.idea_token@);
    assert(("idea_token"@ + " = "@)[0] != ("ledger"@ + " = "@)[0]);
    lemma_keyed_none(s1, Seq::empty(), "idea_token"@, "ledger"@, 0);
    let s2 = scalar_line("ledger"@, a.ledger@);
    lemma_scalar_line("ledger"@, a.ledger@);
    lemma_keyed_all(s2, Seq::empty(), "ledger"@);
    let s3 = scalar_line("cost"@, a.cost@);
    lemma_scalar_line("cost"@, a.cost@);
    assert(("cost"@ + " = "@)[0] != ("ledger"@ + " = "@)[0]);
    lemma_keyed_none(s3, Seq::empty(), "cost"@, "ledger"@, 0);
    let s4 = scalar_line("removal_cost"@, a.removal_cost@);
    lemma_scalar_line("removal_cost"@, a.removal_cost@);
    assert(("removal_cost"@ + " = "@)[0] != ("ledger"@ + " = "@)[0]);
    lemma_keyed_none(s4, Seq::empty(), "removal_cost"@, "ledger"@, 0);
    let s5 = scalar_line("can_be_fired"@, a.can_be_fired@);
    lemma_scalar_line("can_be_fired"@, a.can_be_fired@);
    assert(("can_be_fired"@ + " = "@)[0] != ("ledger"@ + " = "@)[0]);
    lemma_keyed_none(s5, Seq::empty(), "can_be_fired"@, "ledger"@, 0);
    let b0 = block_lines("allowed"@, a.allowed@)->0;
    lemma_block_shape("allowed"@, a.allowed@);
    assert(("allowed"@ + " = "@)[0] != ("ledger"@ + " = "@)[0]);
    lemma_keyed_none(b0, Seq::empty(), "allowed"@, "ledger"@, 0);
    let b1 = block_lines("available"@, a.available@)->0;
    lemma_block_shape("available"@, a.available@);
    assert(("available"@ + " = "@)[0] != ("ledger"@ + " = "@)[0]);
    lemma_keyed_none(b1, Seq::empty(), "available"@, "ledger"@, 0);
    let b2 = block_lines("visible"@, a.visible@)->0;
    lemma_block_shape("visible"@, a.visible@);
    assert(("visible"@ + " = "@)[0] != ("ledger"@ + " = "@)[0]);
    lemma_keyed_none(b2, Seq::empty(), "visible"@, "ledger"@, 0);
    let b3 = block_lines("ai_will_do"@, a.ai_will_do@)->0;
    lemma_block_shape("ai_will_do"@, a.ai_will_do@);
    assert(("ai_will_do"@ + " = "@)[0] != ("ledger"@ + " = "@)[0]);
    lemma_keyed_none(b3, Seq::empty(), "ai_will_do"@, "ledger"@, 0);
    let tr = words_lines("traits"@, views(a.traits@))->0;
    lemma_words_shape("traits"@, views(a.traits@));
    assert(("traits"@ + " = "@)[0] != ("ledger"@ + " = "@)[0]);
    lemma_keyed_none(tr, Seq::empty(), "traits"@, "ledger"@, 0);
    lemma_keyed_concat(s0, s1, Seq::empty(), "ledger"@);
    lemma_keyed_concat((s0 + s1), s2, Seq::empty(), "ledger"@);
    lemma_keyed_concat(((s0 + s1) + s2), s3, Seq::empty(), "ledger"@);
    lemma_keyed_concat((((s0 + s1) + s2) + s3), s4, Seq::empty(), "ledger"@);
    lemma_keyed_concat(((((s0 + s1) + s2) + s3) + s4), s5, Seq::empty(), "ledger"@);
    lemma_keyed_concat((((((s0 + s1) + s2) + s3) + s4) + s5), b0, Seq::empty(), "ledger"@);
    lemma_keyed_concat(((((((s0 + s1) + s2) + s3) + s4) + s5) + b0), b1, Seq::empty(), "ledger"@);
    lemma_keyed_concat((((((((s0 + s1) + s2) + s3) + s4) + s5) + b0) + b1), b2, Seq::empty(), "ledger"@);
    lemma_keyed_concat(((((((((s0 + s1) + s2) + s3) + s4) + s5) + b0) + b1) + b2), b3, Seq::empty(), "ledger"@);
    lemma_keyed_concat((((((((((s0 + s1) + s2) + s3) + s4) + s5) + b0) + b1) + b2) + b3), tr, Seq::empty(), "ledger"@);
    assert(keyed_lines(advisor_lines(a), Seq::empty(), "ledger"@) =~= each_written("ledger"@, seq![a.ledger@]));
}

proof fn lemma_advisor_field_cost(a: Advisor)
    requires
        advisor_parts_some(a),
    ensures
        keyed_lines(advisor_lines(a), Seq::empty(), "cost"@) == each_written("cost"@, seq![a.cost@]),
{
    reveal_strlit("ai_will_do");
    reveal_strlit("allowed");
    reveal_strlit("available");
    reveal_strlit("can_be_fired");
    reveal_strlit("cost");
    reveal_strlit("idea_token");
    reveal_strlit("ledger");
    reveal_strlit("removal_cost");
    reveal_strlit("slot");
    reveal_strlit("traits");
    reveal_strlit("visible");
    reveal_strlit(" = ");
    lemma_advisor_parts(a);
    let s0 = scalar_line("slot"@, a.slot@);
    lemma_scalar_line("slot"@, a.slot@);
    assert(("slot"@ + " = "@)[0] != ("cost"@ + " = "@)[0]);
    lemma_keyed_none(s0, Seq::empty(), "slot"@, "cost"@, 0);
    let s1 = scalar_line("idea_token"@, a.idea_token@);
    lemma_scalar_line("idea_token"@, a.idea_token@);
    assert(("idea_token"@ + " = "@)[0] != ("cost"@ + " = "@)[0]);
    lemma_keyed_none(s1, Seq::empty(), "idea_token"@, "cost"@, 0);
    let s2 = scalar_line("ledger"@, a.ledger@);
    lemma_scalar_line("ledger"@, a.ledger@);
    assert(("ledger"@ + " = "@)[0] != ("cost"@ + " = "@)[0]);
    lemma_keyed_none(s2, Seq::empty(), "ledger"@, "cost"@, 0);
    let s3 = scalar_line("cost"@, a.cost@);
    lemma_scalar_line("cost"@, a.cost@);
    lemma_keyed_all(s3, Seq::empty(), "cost"@);
    let s4 = scalar_line("removal_cost"@, a.removal_cost@);
    lemma_scalar_line("removal_cost"@, a.removal_cost@);
    assert(("removal_cost"@ + " = "@)[0] != ("cost"@ + " = "@)[0]);
    lemma_keyed_none(s4, Seq::empty(), "removal_cost"@, "cost"@, 0);
    let s5 = scalar_line("can_be_fired"@, a.can_be_fired@);
    lemma_scalar_line("can_be_fired"@, a.can_be_fired@);
    assert(("can_be_fired"@ + " = "@)[1] != ("cost"@ + " = "@)[1]);
    lemma_keyed_none(s5, Seq::empty(), "can_be_fired"@, "cost"@, 1);
    let b0 = block_lines("allowed"@, a.allowed@)->0;
    lemma_block_shape("allowed"@, a.allowed@);
    assert(("allowed"@ + " = "@)[0] != ("cost"@ + " = "@)[0]);
    lemma_keyed_none(b0, Seq::empty(), "allowed"@, "cost"@, 0);
    let b1 = block_lines("available"@, a.available@)->0;
    lemma_block_shape("available"@, a.available@);
    assert(("available"@ + " = "@)[0] != ("cost"@ + " = "@)[0]);
    lemma_keyed_none(b1, Seq::empty(), "available"@, "cost"@, 0);
    let b2 = block_lines("visible"@, a.visible@)->0;
    lemma_block_shape("visible"@, a.visible@);
    assert(("visible"@ + " = "@)[0] != ("cost"@ + " = "@)[0]);
    lemma_keyed_none(b2, Seq::empty(), "visible"@, "cost"@, 0);
    let b3 = block_lines("ai_will_do"@, a.ai_will_do@)->0;
    lemma_block_shape("ai_will_do"@, a.ai_will_do@);
    assert(("ai_will_do"@ + " = "@)[0] != ("cost"@ + " = "@)[0]);
    lemma_keyed_none(b3, Seq::empty(), "ai_will_do"@, "cost"@, 0);
    let tr = words_lines("traits"@, views(a.traits@))->0;
    lemma_words_shape("traits"@, views(a.traits@));
    assert(("traits"@ + " = "@)[0] != ("cost"@ + " = "@)[0]);
    lemma_keyed_none(tr, Seq::empty(), "traits"@, "cost"@, 0);
    lemma_keyed_concat(s0, s1, Seq::empty(), "cost"@);
    lemma_keyed_concat((s0 + s1), s2, Seq::empty(), "cost"@);
    lemma_keyed_concat(((s0 + s1) + s2), s3, Seq::empty(), "cost"@);
    lemma_keyed_concat((((s0 + s1) + s2) + s3), s4, Seq::empty(), "cost"@);
    lemma_keyed_concat(((((s0 + s1) + s2) + s3) + s4), s5, Seq::empty(), "cost"@);
    lemma_keyed_concat((((((s0 + s1) + s2) + s3) + s4) + s5), b0, Seq::empty(), "cost"@);
    lemma_keyed_concat(((((((s0 + s1) + s2) + s3) + s4) + s5) + b0), b1, Seq::empty(), "cost"@);
    lemma_keyed_concat((((((((s0 + s1) + s2) + s3) + s4) + s5) + b0) + b1), b2, Seq::empty(), "cost"@);
    lemma_keyed_concat(((((((((s0 + s1) + s2) + s3) + s4) + s5) + b0) + b1) + b2), b3, Seq::empty(), "cost"@);
    lemma_keyed_concat((((((((((s0 + s1) + s2) + s3) + s4) + s5) + b0) + b1) + b2) + b3), tr, Seq::empty(), "cost"@);
    assert(keyed_lines(advisor_lines(a), Seq::empty(), "cost"@) =~= each_written("cost"@, seq![a.cost@]));
}

proof fn lemma_advisor_field_removal_cost(a: Advisor)
    requires
        advisor_parts_some(a),
    ensures
        keyed_lines(advisor_lines(a), Seq::empty(), "removal_cost"@) == each_written("removal_cost"@, seq![a.removal_cost@]),
{
    reveal_strlit("ai_will_do");
    reveal_strlit("allowed");
    reveal_strlit("available");
    reveal_strlit("can_be_fired");
    reveal_strlit("cost");
    reveal_strlit("idea_token");
    reveal_strlit("ledger");
    reveal_strlit("removal_cost");
    reveal_strlit("slot");
    reveal_strlit("traits");
    reveal_strlit("visible");
    reveal_strlit(" = ");
    lemma_advisor_parts(a);
    let s0 = scalar_line("slot"@, a.slot@);
    lemma_scalar_line("slot"@, a.slot@);
    assert(("slot"@ + " = "@)[0] != ("removal_cost"@ + " = "@)[0]);
    lemma_keyed_none(s0, Seq::empty(), "slot"@, "removal_cost"@, 0);
    let s1 = scalar_line("idea_token"@, a.idea_token@);
    lemma_scalar_line("idea_token"@, a.idea_token@);
    assert(("idea_token"@ + " = "@)[0] != ("removal_cost"@ + " = "@)[0]);
    lemma_keyed_none(s1, Seq::empty(), "idea_token"@, "removal_cost"@, 0);
    let s2 = scalar_line("ledger"@, a.ledger@);
    lemma_scalar_line("ledger"@, a.ledger@);
    assert(("ledger"@ + " = "@)[0] != ("removal_cost"@ + " = "@)[0]);
    lemma_keyed_none(s2, Seq::empty(), "ledger"@, "removal_cost"@, 0);
    let s3 = scalar_line("cost"@, a.cost@);
    lemma_scalar_line("cost"@, a.cost@);
    assert(("cost"@ + " = "@)[0] != ("removal_cost"@ + " = "@)[0]);
    lemma_keyed_none(s3, Seq::empty(), "cost"@, "removal_cost"@, 0);
    let s4 = scalar_line("removal_cost"@, a.removal_cost@);
    lemma_scalar_line("removal_cost"@, a.removal_cost@);
    lemma_keyed_all(s4, Seq::empty(), "removal_cost"@);
    let s5 = scalar_line("can_be_fired"@, a.can_be_fired@);
    lemma_scalar_line("can_be_fired"@, a.can_be_fired@);
    assert(("can_be_fired"@ + " = "@)[0] != ("removal_cost"@ + " = "@)[0]);
    lemma_keyed_none(s5, Seq::empty(), "can_be_fired"@, "removal_cost"@, 0);
    let b0 = block_lines("allowed"@, a.allowed@)->0;
    lemma_block_shape("allowed"@, a.allowed@);
    assert(("allowed"@ + " = "@)[0] != ("removal_cost"@ + " = "@)[0]);
    lemma_keyed_none(b0, Seq::empty(), "allowed"@, "removal_cost"@, 0);
    let b1 = block_lines("available"@, a.available@)->0;
    lemma_block_shape("available"@, a.available@);
    assert(("available"@ + " = "@)[0] != ("removal_cost"@ + " = "@)[0]);
    lemma_keyed_none(b1, Seq::empty(), "available"@, "removal_cost"@, 0);
    let b2 = block_lines("visible"@, a.visible@)->0;
    lemma_block_shape("visible"@, a.visible@);
    assert(("visible"@ + " = "@)[0] != ("removal_cost"@ + " = "@)[0]);
    lemma_keyed_none(b2, Seq::empty(), "visible"@, "removal_cost"@, 0);
    let b3 = block_lines("ai_will_do"@, a.ai_will_do@)->0;
    lemma_block_shape("ai_will_do"@, a.ai_will_do@);
    assert(("ai_will_do"@ + " = "@)[0] != ("removal_cost"@ + " = "@)[0]);
    lemma_keyed_none(b3, Seq::empty(), "ai_will_do"@, "removal_cost"@, 0);
    let tr = words_lines("traits"@, views(a.traits@))->0;
    lemma_words_shape("traits"@, views(a.traits@));
    assert(("traits"@ + " = "@)[0] != ("removal_cost"@ + " = "@)[0]);
    lemma_keyed_none(tr, Seq::empty(), "traits"@, "removal_cost"@, 0);
    lemma_keyed_concat(s0, s1, Seq::empty(), "removal_cost"@);
    lemma_keyed_concat((s0 + s1), s2, Seq::empty(), "removal_cost"@);
    lemma_keyed_concat(((s0 + s1) + s2), s3, Seq::empty(), "removal_cost"@);
    lemma_keyed_concat((((s0 + s1) + s2) + s3), s4, Seq::empty(), "removal_cost"@);
    lemma_keyed_concat(((((s0 + s1) + s2) + s3) + s4), s5, Seq::empty(), "removal_cost"@);
    lemma_keyed_concat((((((s0 + s1) + s2) + s3) + s4) + s5), b0, Seq::empty(), "removal_cost"@);
    lemma_keyed_concat(((((((s0 + s1) + s2) + s3) + s4) + s5) + b0), b1, Seq::empty(), "removal_cost"@);
    lemma_keyed_concat((((((((s0 + s1) + s2) + s3) + s4) + s5) + b0) + b1), b2, Seq::empty(), "removal_cost"@);
    lemma_keyed_concat(((((((((s0 + s1) + s2) + s3) + s4) + s5) + b0) + b1) + b2), b3, Seq::empty(), "removal_cost"@);
    lemma_keyed_concat((((((((((s0 + s1) + s2) + s3) + s4) + s5) + b0) + b1) + b2) + b3), tr, Seq::empty(), "removal_cost"@);
    assert(keyed_lines(advisor_lines(a), Seq::empty(), "removal_cost"@) =~= each_written("removal_cost"@, seq![a.removal_cost@]));
}

proof fn lemma_advisor_field_can_be_fired(a: Advisor)
    requires
        advisor_parts_some(a),
    ensures
        keyed_lines(advisor_lines(a), Seq::empty(), "can_be_fired"@) == each_written("can_be_fired"@, seq![a.can_be_fired@]),
{
    reveal_strlit("ai_will_do");
    reveal_strlit("allowed");
    reveal_strlit("available");
    reveal_strlit("can_be_fired");
    reveal_strlit("cost");
    reveal_strlit("idea_token");
    reveal_strlit("ledger");
    reveal_strlit("removal_cost");
    reveal_strlit("slot");
    reveal_strlit("traits");
    reveal_strlit("visible");
    reveal_strlit(" = ");
    lemma_advisor_parts(a);
    let s0 = scalar_line("slot"@, a.slot@);
    lemma_scalar_line("slot"@, a.slot@);
    assert(("slot"@ + " = "@)[0] != ("can_be_fired"@ + " = "@)[0]);
    lemma_keyed_none(s0, Seq::empty(), "slot"@, "can_be_fired"@, 0);
    let s1 = scalar_line("idea_token"@, a.idea_token@);
    lemma_scalar_line("idea_token"@, a.idea_token@);
    assert(("idea_token"@ + " = "@)[0] != ("can_be_fired"@ + " = "@)[0]);
    lemma_keyed_none(s1, Seq::empty(), "idea_token"@, "can_be_fired"@, 0);
    let s2 = scalar_line("ledger"@, a.ledger@);
    lemma_scalar_line("ledger"@, a.ledger@);
    assert(("ledger"@ + " = "@)[0] != ("can_be_fired"@ + " = "@)[0]);
    lemma_keyed_none(s2, Seq::empty(), "ledger"@, "can_be_fired"@, 0);
    let s3 = scalar_line("cost"@, a.cost@);
    lemma_scalar_line("cost"@, a.cost@);
    assert(("cost"@ + " = "@)[1] != ("can_be_fired"@ + " = "@)[1]);
    lemma_keyed_none(s3, Seq::empty(), "cost"@, "can_be_fired"@, 1);
    let s4 = scalar_line("removal_cost"@, a.removal_cost@);
    lemma_scalar_line("removal_cost"@, a.removal_cost@);
    assert(("removal_cost"@ + " = "@)[0] != ("can_be_fired"@ + " = "@)[0]);
    lemma_keyed_none(s4, Seq::empty(), "removal_cost"@, "can_be_fired"@, 0);
    let s5 = scalar_line("can_be_fired"@, a.can_be_fired@);
    lemma_scalar_line("can_be_fired"@, a.can_be_fired@);
    lemma_keyed_all(s5, Seq::empty(), "can_be_fired"@);
    let b0 = block_lines("allowed"@, a.allowed@)->0;
    lemma_block_shape("allowed"@, a.allowed@);
    assert(("allowed"@ + " = "@)[0] != ("can_be_fired"@ + " = "@)[0]);
    lemma_keyed_none(b0, Seq::empty(), "allowed"@, "can_be_fired"@, 0);
    let b1 = block_lines("available"@, a.available@)->0;
    lemma_block_shape("available"@, a.available@);
    assert(("available"@ + " = "@)[0] != ("can_be_fired"@ + " = "@)[0]);
    lemma_keyed_none(b1, Seq::empty(), "available"@, "can_be_fired"@, 0);
    let b2 = block_lines("visible"@, a.visible@)->0;
    lemma_block_shape("visible"@, a.visible@);
    assert(("visible"@ + " = "@)[0] != ("can_be_fired"@ + " = "@)[0]);
    lemma_keyed_none(b2, Seq::empty(), "visible"@, "can_be_fired"@, 0);
    let b3 = block_lines("ai_will_do"@, a.ai_will_do@)->0;
    lemma_block_shape("ai_will_do"@, a.ai_will_do@);
    assert(("ai_will_do"@ + " = "@)[0] != ("can_be_fired"@ + " = "@)[0]);
    lemma_keyed_none(b3, Seq::empty(), "ai_will_do"@, "can_be_fired"@, 0);
    let tr = words_lines("traits"@, views(a.traits@))->0;
    lemma_words_shape("traits"@, views(a.traits@));
    assert(("traits"@ + " = "@)[0] != ("can_be_fired"@ + " = "@)[0]);
    lemma_keyed_none(tr, Seq::empty(), "traits"@, "can_be_fired"@, 0);
    lemma_keyed_concat(s0, s1, Seq::empty(), "can_be_fired"@);
    lemma_keyed_concat((s0 + s1), s2, Seq::empty(), "can_be_fired"@);
    lemma_keyed_concat(((s0 + s1) + s2), s3, Seq::empty(), "can_be_fired"@);
    lemma_keyed_concat((((s0 + s1) + s2) + s3), s4, Seq::empty(), "can_be_fired"@);
    lemma_keyed_concat(((((s0 + s1) + s2) + s3) + s4), s5, Seq::empty(), "can_be_fired"@);
    lemma_keyed_concat((((((s0 + s1) + s2) + s3) + s4) + s5), b0, Seq::empty(), "can_be_fired"@);
    lemma_keyed_concat(((((((s0 + s1) + s2) + s3) + s4) + s5) + b0), b1, Seq::empty(), "can_be_fired"@);
    lemma_keyed_concat((((((((s0 + s1) + s2) + s3) + s4) + s5) + b0) + b1), b2, Seq::empty(), "can_be_fired"@);
    lemma_keyed_concat(((((((((s0 + s1) + s2) + s3) + s4) + s5) + b0) + b1) + b2), b3, Seq::empty(), "can_be_fired"@);
    lemma_keyed_concat((((((((((s0 + s1) + s2) + s3) + s4) + s5) + b0) + b1) + b2) + b3), tr, Seq::empty(), "can_be_fired"@);
    assert(keyed_lines(advisor_lines(a), Seq::empty(), "can_be_fired"@) =~= each_written("can_be_fired"@, seq![a.can_be_fired@]));
}
proof fn lemma_commander_field_skill(c: Commander)
    requires
        words_lines("traits"@, views(c.traits@)) is Some,
    ensures
        keyed_lines(commander_lines(c), Seq::empty(), "skill"@) == each_written("skill"@, seq![c.skill@]),
{
    reveal_strlit("attack_skill");
    reveal_strlit("coordination_skill");
    reveal_strlit("defense_skill");
    reveal_strlit("legacy_id");
    reveal_strlit("logistics_skill");
    reveal_strlit("maneuvering_skill");
    reveal_strlit("planning_skill");
    reveal_strlit("skill");
    reveal_strlit("traits");
    reveal_strlit(" = ");
    lemma_commander_parts(c);
    let s0 = scalar_line("skill"@, c.skill@);
    lemma_scalar_line("skill"@, c.skill@);
    lemma_keyed_all(s0, Seq::empty(), "skill"@);
    let s1 = scalar_line("attack_skill"@, c.attack_skill@);
    lemma_scalar_line("attack_skill"@, c.attack_skill@);
    assert(("attack_skill"@ + " = "@)[0] != ("skill"@ + " = "@)[0]);
    lemma_keyed_none(s1, Seq::empty(), "attack_skill"@, "skill"@, 0);
    let s2 = scalar_line("defense_skill"@, c.defense_skill@);
    lemma_scalar_line("defense_skill"@, c.defense_skill@);
    assert(("defense_skill"@ + " = "@)[0] != ("skill"@ + " = "@)[0]);
    lemma_keyed_none(s2, Seq::empty(), "defense_skill"@, "skill"@, 0);
    let s3 = scalar_line("planning_skill"@, if c.kind@ == "navy_leader"@ { Seq::empty() } else { c.planning_skill@ });
    lemma_scalar_line("planning_skill"@, if c.kind@ == "navy_leader"@ { Seq::empty() } else { c.planning_skill@ });
    assert(("planning_skill"@ + " = "@)[0] != ("skill"@ + " = "@)[0]);
    lemma_keyed_none(s3, Seq::empty(), "planning_skill"@, "skill"@, 0);
    let s4 = scalar_line("logistics_skill"@, if c.kind@ == "navy_leader"@ { Seq::empty() } else { c.logistics_skill@ });
    lemma_scalar_line("logistics_skill"@, if c.kind@ == "navy_leader"@ { Seq::empty() } else { c.logistics_skill@ });
    assert(("logistics_skill"@ + " = "@)[0] != ("skill"@ + " = "@)[0]);
    lemma_keyed_none(s4, Seq::empty(), "logistics_skill"@, "skill"@, 0);
    let s5 = scalar_line("maneuvering_skill"@, if c.kind@ == "navy_leader"@ { c.maneuvering_skill@ } else { Seq::empty() });
    lemma_scalar_line("maneuvering_skill"@, if c.kind@ == "navy_leader"@ { c.maneuvering_skill@ } else { Seq::empty() });
    assert(("maneuvering_skill"@ + " = "@)[0] != ("skill"@ + " = "@)[0]);
    lemma_keyed_none(s5, Seq::empty(), "maneuvering_skill"@, "skill"@, 0);
    let s6 = scalar_line("coordination_skill"@, if c.kind@ == "navy_leader"@ { c.coordination_skill@ } else { Seq::empty() });
    lemma_scalar_line("coordination_skill"@, if c.kind@ == "navy_leader"@ { c.coordination_skill@ } else { Seq::empty() });
    assert(("coordination_skill"@ + " = "@)[0] != ("skill"@ + " = "@)[0]);
    lemma_keyed_none(s6, Seq::empty(), "coordination_skill"@, "skill"@, 0);
    let s7 = scalar_line("legacy_id"@, c.legacy_id@);
    lemma_scalar_line("legacy_id"@, c.legacy_id@);
    assert(("legacy_id"@ + " = "@)[0] != ("skill"@ + " = "@)[0]);
    lemma_keyed_none(s7, Seq::empty(), "legacy_id"@, "skill"@, 0);
    let tr = words_lines("traits"@, views(c.traits@))->0;
    lemma_words_shape("traits"@, views(c.traits@));
    assert(("traits"@ + " = "@)[0] != ("skill"@ + " = "@)[0]);
    lemma_keyed_none(tr, Seq::empty(), "traits"@, "skill"@, 0);
    lemma_keyed_concat(s0, s1, Seq::empty(), "skill"@);
    lemma_keyed_concat((s0 + s1), s2, Seq::empty(), "skill"@);
    lemma_keyed_concat(((s0 + s1) + s2), s3, Seq::empty(), "skill"@);
    lemma_keyed_concat((((s0 + s1) + s2) + s3), s4, Seq::empty(), "skill"@);
    lemma_keyed_concat(((((s0 + s1) + s2) + s3) + s4), s5, Seq::empty(), "skill"@);
    lemma_keyed_concat((((((s0 + s1) + s2) + s3) + s4) + s5), s6, Seq::empty(), "skill"@);
    lemma_keyed_concat(((((((s0 + s1) + s2) + s3) + s4) + s5) + s6), s7, Seq::empty(), "skill"@);
    lemma_keyed_concat((((((((s0 + s1) + s2) + s3) + s4) + s5) + s6) + s7), tr, Seq::empty(), "skill"@);
    assert(keyed_lines(commander_lines(c), Seq::empty(), "skill"@) =~= each_written("skill"@, seq![c.skill@]));
}

proof fn lemma_commander_field_attack_skill(c: Commander)
    requires
        words_lines("traits"@, views(c.traits@)) is Some,
    ensures
        keyed_lines(commander_lines(c), Seq::empty(), "attack_skill"@) == each_written("attack_skill"@, seq![c.attack_skill@]),
{
    reveal_strlit("attack_skill");
    reveal_strlit("coordination_skill");
    reveal_strlit("defense_skill");
    reveal_strlit("legacy_id");
    reveal_strlit("logistics_skill");
    reveal_strlit("maneuvering_skill");
    reveal_strlit("planning_skill");
    reveal_strlit("skill");
    reveal_strlit("traits");
    reveal_strlit(" = ");
    lemma_commander_parts(c);
    let s0 = scalar_line("skill"@, c.skill@);
    lemma_scalar_line("skill"@, c.skill@);
    assert(("skill"@ + " = "@)[0] != ("attack_skill"@ + " = "@)[0]);
    lemma_keyed_none(s0, Seq::empty(), "skill"@, "attack_skill"@, 0);
    let s1 = scalar_line("attack_skill"@, c.attack_skill@);
    lemma_scalar_line("attack_skill"@, c.attack_skill@);
    lemma_keyed_all(s1, Seq::empty(), "attack_skill"@);
    let s2 = scalar_line("defense_skill"@, c.defense_skill@);
    lemma_scalar_line("defense_skill"@, c.defense_skill@);
    assert(("defense_skill"@ + " = "@)[0] != ("attack_skill"@ + " = "@)[0]);
    lemma_keyed_none(s2, Seq::empty(), "defense_skill"@, "attack_skill"@, 0);
    let s3 = scalar_line("planning_skill"@, if c.kind@ == "navy_leader"@ { Seq::empty() } else { c.planning_skill@ });
    lemma_scalar_line("planning_skill"@, if c.kind@ == "navy_leader"@ { Seq::empty() } else { c.planning_skill@ });
    assert(("planning_skill"@ + " = "@)[0] != ("attack_skill"@ + " = "@)[0]);
    lemma_keyed_none(s3, Seq::empty(), "planning_skill"@, "attack_skill"@, 0);
    let s4 = scalar_line("logistics_skill"@, if c.kind@ == "navy_leader"@ { Seq::empty() } else { c.logistics_skill@ });
    lemma_scalar_line("logistics_skill"@, if c.kind@ == "navy_leader"@ { Seq::empty() } else { c.logistics_skill@ });
    assert(("logistics_skill"@ + " = "@)[0] != ("attack_skill"@ + " = "@)[0]);
    lemma_keyed_none(s4, Seq::empty(), "logistics_skill"@, "attack_skill"@, 0);
    let s5 = scalar_line("maneuvering_skill"@, if c.kind@ == "navy_leader"@ { c.maneuvering_skill@ } else { Seq::empty() });
    lemma_scalar_line("maneuvering_skill"@, if c.kind@ == "navy_leader"@ { c.maneuvering_skill@ } else { Seq::empty() });
    assert(("maneuvering_skill"@ + " = "@)[0] != ("attack_skill"@ + " = "@)[0]);
    lemma_keyed_none(s5, Seq::empty(), "maneuvering_skill"@, "attack_skill"@, 0);
    let s6 = scalar_line("coordination_skill"@, if c.kind@ == "navy_leader"@ { c.coordination_skill@ } else { Seq::empty() });
    lemma_scalar_line("coordination_skill"@, if c.kind@ == "navy_leader"@ { c.coordination_skill@ } else { Seq::empty() });
    assert(("coordination_skill"@ + " = "@)[0] != ("attack_skill"@ + " = "@)[0]);
    lemma_keyed_none(s6, Seq::empty(), "coordination_skill"@, "attack_skill"@, 0);
    let s7 = scalar_line("legacy_id"@, c.legacy_id@);
    lemma_scalar_line("legacy_id"@, c.legacy_id@);
    assert(("legacy_id"@ + " = "@)[0] != ("attack_skill"@ + " = "@)[0]);
    lemma_keyed_none(s7, Seq::empty(), "legacy_id"@, "attack_skill"@, 0);
    let tr = words_lines("traits"@, views(c.traits@))->0;
    lemma_words_shape("traits"@, views(c.traits@));
    assert(("traits"@ + " = "@)[0] != ("attack_skill"@ + " = "@)[0]);
    lemma_keyed_none(tr, Seq::empty(), "traits"@, "attack_skill"@, 0);
    lemma_keyed_concat(s0, s1, Seq::empty(), "attack_skill"@);
    lemma_keyed_concat((s0 + s1), s2, Seq::empty(), "attack_skill"@);
    lemma_keyed_concat(((s0 + s1) + s2), s3, Seq::empty(), "attack_skill"@);
    lemma_keyed_concat((((s0 + s1) + s2) + s3), s4, Seq::empty(), "attack_skill"@);
    lemma_keyed_concat(((((s0 + s1) + s2) + s3) + s4), s5, Seq::empty(), "attack_skill"@);
    lemma_keyed_concat((((((s0 + s1) + s2) + s3) + s4) + s5), s6, Seq::empty(), "attack_skill"@);
    lemma_keyed_concat(((((((s0 + s1) + s2) + s3) + s4) + s5) + s6), s7, Seq::empty(), "attack_skill"@);
    lemma_keyed_concat((((((((s0 + s1) + s2) + s3) + s4) + s5) + s6) + s7), tr, Seq::empty(), "attack_skill"@);
    assert(keyed_lines(commander_lines(c), Seq::empty(), "attack_skill"@) =~= each_written("attack_skill"@, seq![c.attack_skill@]));
}

proof fn lemma_commander_field_defense_skill(c: Commander)
    requires
        words_lines("traits"@, views(c.traits@)) is Some,
    ensures
        keyed_lines(commander_lines(c), Seq::empty(), "defense_skill"@) == each_written("defense_skill"@, seq![c.defense_skill@]),
{
    reveal_strlit("attack_skill");
    reveal_strlit("coordination_skill");
    reveal_strlit("defense_skill");
    reveal_strlit("legacy_id");
    reveal_strlit("logistics_skill");
    reveal_strlit("maneuvering_skill");
    reveal_strlit("planning_skill");
    reveal_strlit("skill");
    reveal_strlit("traits");
    reveal_strlit(" = ");
    lemma_commander_parts(c);
    let s0 = scalar_line("skill"@, c.skill@);
    lemma_scalar_line("skill"@, c.skill@);
    assert(("skill"@ + " = "@)[0] != ("defense_skill"@ + " = "@)[0]);
    lemma_keyed_none(s0, Seq::empty(), "skill"@, "defense_skill"@, 0);
    let s1 = scalar_line("attack_skill"@, c.attack_skill@);
    lemma_scalar_line("attack_skill"@, c.attack_skill@);
    assert(("attack_skill"@ + " = "@)[0] != ("defense_skill"@ + " = "@)[0]);
    lemma_keyed_none(s1, Seq::empty(), "attack_skill"@, "defense_skill"@, 0);
    let s2 = scalar_line("defense_skill"@, c.defense_skill@);
    lemma_scalar_line("defense_skill"@, c.defense_skill@);
    lemma_keyed_all(s2, Seq::empty(), "defense_skill"@);
    let s3 = scalar_line("planning_skill"@, if c.kind@ == "navy_leader"@ { Seq::empty() } else { c.planning_skill@ });
    lemma_scalar_line("planning_skill"@, if c.kind@ == "navy_leader"@ { Seq::empty() } else { c.planning_skill@ });
    assert(("planning_skill"@ + " = "@)[0] != ("defense_skill"@ + " = "@)[0]);
    lemma_keyed_none(s3, Seq::empty(), "planning_skill"@, "defense_skill"@, 0);
    let s4 = scalar_line("logistics_skill"@, if c.kind@ == "navy_leader"@ { Seq::empty() } else { c.logistics_skill@ });
    lemma_scalar_line("logistics_skill"@, if c.kind@ == "navy_leader"@ { Seq::empty() } else { c.logistics_skill@ });
    assert(("logistics_skill"@ + " = "@)[0] != ("defense_skill"@ + " = "@)[0]);
    lemma_keyed_none(s4, Seq::empty(), "logistics_skill"@, "defense_skill"@, 0);
    let s5 = scalar_line("maneuvering_skill"@, if c.kind@ == "navy_leader"@ { c.maneuvering_skill@ } else { Seq::empty() });
    lemma_scalar_line("maneuvering_skill"@, if c.kind@ == "navy_leader"@ { c.maneuvering_skill@ } else { Seq::empty() });
    assert(("maneuvering_skill"@ + " = "@)[0] != ("defense_skill"@ + " = "@)[0]);
    lemma_keyed_none(s5, Seq::empty(), "maneuvering_skill"@, "defense_skill"@, 0);
    let s6 = scalar_line("coordination_skill"@, if c.kind@ == "navy_leader"@ { c.coordination_skill@ } else { Seq::empty() });
    lemma_scalar_line("coordination_skill"@, if c.kind@ == "navy_leader"@ { c.coordination_skill@ } else { Seq::empty() });
    assert(("coordination_skill"@ + " = "@)[0] != ("defense_skill"@ + " = "@)[0]);
    lemma_keyed_none(s6, Seq::empty(), "coordination_skill"@, "defense_skill"@, 0);
    let s7 = scalar_line("legacy_id"@, c.legacy_id@);
    lemma_scalar_line("legacy_id"@, c.legacy_id@);
    assert(("legacy_id"@ + " = "@)[0] != ("defense_skill"@ + " = "@)[0]);
    lemma_keyed_none(s7, Seq::empty(), "legacy_id"@, "defense_skill"@, 0);
    let tr = words_lines("traits"@, views(c.traits@))->0;
    lemma_words_shape("traits"@, views(c.traits@));
    assert(("traits"@ + " = "@)[0] != ("defense_skill"@ + " = "@)[0]);
    lemma_keyed_none(tr, Seq::empty(), "traits"@, "defense_skill"@, 0);
    lemma_keyed_concat(s0, s1, Seq::empty(), "defense_skill"@);
    lemma_keyed_concat((s0 + s1), s2, Seq::empty(), "defense_skill"@);
    lemma_keyed_concat(((s0 + s1) + s2), s3, Seq::empty(), "defense_skill"@);
    lemma_keyed_concat((((s0 + s1) + s2) + s3), s4, Seq::empty(), "defense_skill"@);
    lemma_keyed_concat(((((s0 + s1) + s2) + s3) + s4), s5, Seq::empty(), "defense_skill"@);
    lemma_keyed_concat((((((s0 + s1) + s2) + s3) + s4) + s5), s6, Seq::empty(), "defense_skill"@);
    lemma_keyed_concat(((((((s0 + s1) + s2) + s3) + s4) + s5) + s6), s7, Seq::empty(), "defense_skill"@);
    lemma_keyed_concat((((((((s0 + s1) + s2) + s3) + s4) + s5) + s6) + s7), tr, Seq::empty(), "defense_skill"@);
    assert(keyed_lines(commander_lines(c), Seq::empty(), "defense_skill"@) =~= each_written("defense_skill"@, seq![c.defense_skill@]));
}

proof fn lemma_commander_field_planning_skill(c: Commander)
    requires
        words_lines("traits"@, views(c.traits@)) is Some,
    ensures
        keyed_lines(commander_lines(c), Seq::empty(), "planning_skill"@) == each_written("planning_skill"@, seq![if c.kind@ == "navy_leader"@ { Seq::empty() } else { c.planning_skill@ }]),
{
    reveal_strlit("attack_skill");
    reveal_strlit("coordination_skill");
    reveal_strlit("defense_skill");
    reveal_strlit("legacy_id");
    reveal_strlit("logistics_skill");
    reveal_strlit("maneuvering_skill");
    reveal_strlit("planning_skill");
    reveal_strlit("skill");
    reveal_strlit("traits");
    reveal_strlit(" = ");
    lemma_commander_parts(c);
    let s0 = scalar_line("skill"@, c.skill@);
    lemma_scalar_line("skill"@, c.skill@);
    assert(("skill"@ + " = "@)[0] != ("planning_skill"@ + " = "@)[0]);
    lemma_keyed_none(s0, Seq::empty(), "skill"@, "planning_skill"@, 0);
    let s1 = scalar_line("attack_skill"@, c.attack_skill@);
    lemma_scalar_line("attack_skill"@, c.attack_skill@);
    assert(("attack_skill"@ + " = "@)[0] != ("planning_skill"@ + " = "@)[0]);
    lemma_keyed_none(s1, Seq::empty(), "attack_skill"@, "planning_skill"@, 0);
    let s2 = scalar_line("defense_skill"@, c.defense_skill@);
    lemma_scalar_line("defense_skill"@, c.defense_skill@);
    assert(("defense_skill"@ + " = "@)[0] != ("planning_skill"@ + " = "@)[0]);
    lemma_keyed_none(s2, Seq::empty(), "defense_skill"@, "planning_skill"@, 0);
    let s3 = scalar_line("planning_skill"@, if c.kind@ == "navy_leader"@ { Seq::empty() } else { c.planning_skill@ });
    lemma_scalar_line("planning_skill"@, if c.kind@ == "navy_leader"@ { Seq::empty() } else { c.planning_skill@ });
    lemma_keyed_all(s3, Seq::empty(), "planning_skill"@);
    let s4 = scalar_line("logistics_skill"@, if c.kind@ == "navy_leader"@ { Seq::empty() } else { c.logistics_skill@ });
    lemma_scalar_line("logistics_skill"@, if c.kind@ == "navy_leader"@ { Seq::empty() } else { c.logistics_skill@ });
    assert(("logistics_skill"@ + " = "@)[0] != ("planning_skill"@ + " = "@)[0]);
    lemma_keyed_none(s4, Seq::empty(), "logistics_skill"@, "planning_skill"@, 0);
    let s5 = scalar_line("maneuvering_skill"@, if c.kind@ == "navy_leader"@ { c.maneuvering_skill@ } else { Seq::empty() });
    lemma_scalar_line("maneuvering_skill"@, if c.kind@ == "navy_leader"@ { c.maneuvering_skill@ } else { Seq::empty() });
    assert(("maneuvering_skill"@ + " = "@)[0] != ("planning_skill"@ + " = "@)[0]);
    lemma_keyed_none(s5, Seq::empty(), "maneuvering_skill"@, "planning_skill"@, 0);
    let s6 = scalar_line("coordination_skill"@, if c.kind@ == "navy_leader"@ { c.coordination_skill@ } else { Seq::empty() });
    lemma_scalar_line("coordination_skill"@, if c.kind@ == "navy_leader"@ { c.coordination_skill@ } else { Seq::empty() });
    assert(("coordination_skill"@ + " = "@)[0] != ("planning_skill"@ + " = "@)[0]);
    lemma_keyed_none(s6, Seq::empty(), "coordination_skill"@, "planning_skill"@, 0);
    let s7 = scalar_line("legacy_id"@, c.legacy_id@);
    lemma_scalar_line("legacy_id"@, c.legacy_id@);
    assert(("legacy_id"@ + " = "@)[0] != ("planning_skill"@ + " = "@)[0]);
    lemma_keyed_none(s7, Seq::empty(), "legacy_id"@, "planning_skill"@, 0);
    let tr = words_lines("traits"@, views(c.traits@))->0;
    lemma_words_shape("traits"@, views(c.traits@));
    assert(("traits"@ + " = "@)[0] != ("planning_skill"@ + " = "@)[0]);
    lemma_keyed_none(tr, Seq::empty(), "traits"@, "planning_skill"@, 0);
    lemma_keyed_concat(s0, s1, Seq::empty(), "planning_skill"@);
    lemma_keyed_concat((s0 + s1), s2, Seq::empty(), "planning_skill"@);
    lemma_keyed_concat(((s0 + s1) + s2), s3, Seq::empty(), "planning_skill"@);
    lemma_keyed_concat((((s0 + s1) + s2) + s3), s4, Seq::empty(), "planning_skill"@);
    lemma_keyed_concat(((((s0 + s1) + s2) + s3) + s4), s5, Seq::empty(), "planning_skill"@);
    lemma_keyed_concat((((((s0 + s1) + s2) + s3) + s4) + s5), s6, Seq::empty(), "planning_skill"@);
    lemma_keyed_concat(((((((s0 + s1) + s2) + s3) + s4) + s5) + s6), s7, Seq::empty(), "planning_skill"@);
    lemma_keyed_concat((((((((s0 + s1) + s2) + s3) + s4) + s5) + s6) + s7), tr, Seq::empty(), "planning_skill"@);
    assert(keyed_lines(commander_lines(c), Seq::empty(), "planning_skill"@) =~= each_written("planning_skill"@, seq![if c.kind@ == "navy_leader"@ { Seq::empty() } else { c.planning_skill@ }]));
}

proof fn lemma_commander_field_logistics_skill(c: Commander)
    requires
        words_lines("traits"@, views(c.traits@)) is Some,
    ensures
        keyed_lines(commander_lines(c), Seq::empty(), "logistics_skill"@) == each_written("logistics_skill"@, seq![if c.kind@ == "navy_leader"@ { Seq::empty() } else { c.logistics_skill@ }]),
{
    reveal_strlit("attack_skill");
    reveal_strlit("coordination_skill");
    reveal_strlit("defense_skill");
    reveal_strlit("legacy_id");
    reveal_strlit("logistics_skill");
    reveal_strlit("maneuvering_skill");
    reveal_strlit("planning_skill");
    reveal_strlit("skill");
    reveal_strlit("traits");
    reveal_strlit(" = ");
    lemma_commander_parts(c);
    let s0 = scalar_line("skill"@, c.skill@);
    lemma_scalar_line("skill"@, c.skill@);
    assert(("skill"@ + " = "@)[0] != ("logistics_skill"@ + " = "@)[0]);
    lemma_keyed_none(s0, Seq::empty(), "skill"@, "logistics_skill"@, 0);
    let s1 = scalar_line("attack_skill"@, c.attack_skill@);
    lemma_scalar_line("attack_skill"@, c.attack_skill@);
    assert(("attack_skill"@ + " = "@)[0] != ("logistics_skill"@ + " = "@)[0]);
    lemma_keyed_none(s1, Seq::empty(), "attack_skill"@, "logistics_skill"@, 0);
    let s2 = scalar_line("defense_skill"@, c.defense_skill@);
    lemma_scalar_line("defense_skill"@, c.defense_skill@);
    assert(("defense_skill"@ + " = "@)[0] != ("logistics_skill"@ + " = "@)[0]);
    lemma_keyed_none(s2, Seq::empty(), "defense_skill"@, "logistics_skill"@, 0);
    let s3 = scalar_line("planning_skill"@, if c.kind@ == "navy_leader"@ { Seq::empty() } else { c.planning_skill@ });
    lemma_scalar_line("planning_skill"@, if c.kind@ == "navy_leader"@ { Seq::empty() } else { c.planning_skill@ });
    assert(("planning_skill"@ + " = "@)[0] != ("logistics_skill"@ + " = "@)[0]);
    lemma_keyed_none(s3, Seq::empty(), "planning_skill"@, "logistics_skill"@, 0);
    let s4 = scalar_line("logistics_skill"@, if c.kind@ == "navy_leader"@ { Seq::empty() } else { c.logistics_skill@ });
    lemma_scalar_line("logistics_skill"@, if c.kind@ == "navy_leader"@ { Seq::empty() } else { c.logistics_skill@ });
    lemma_keyed_all(s4, Seq::empty(), "logistics_skill"@);
    let s5 = scalar_line("maneuvering_skill"@, if c.kind@ == "navy_leader"@ { c.maneuvering_skill@ } else { Seq::empty() });
    lemma_scalar_line("maneuvering_skill"@, if c.kind@ == "navy_leader"@ { c.maneuvering_skill@ } else { Seq::empty() });
    assert(("maneuvering_skill"@ + " = "@)[0] != ("logistics_skill"@ + " = "@)[0]);
    lemma_keyed_none(s5, Seq::empty(), "maneuvering_skill"@, "logistics_skill"@, 0);
    let s6 = scalar_line("coordination_skill"@, if c.kind@ == "navy_leader"@ { c.coordination_skill@ } else { Seq::empty() });
    lemma_scalar_line("coordination_skill"@, if c.kind@ == "navy_leader"@ { c.coordination_skill@ } else { Seq::empty() });
    assert(("coordination_skill"@ + " = "@)[0] != ("logistics_skill"@ + " = "@)[0]);
    lemma_keyed_none(s6, Seq::empty(), "coordination_skill"@, "logistics_skill"@, 0);
    let s7 = scalar_line("legacy_id"@, c.legacy_id@);
    lemma_scalar_line("legacy_id"@, c.legacy_id@);
    assert(("legacy_id"@ + " = "@)[1] != ("logistics_skill"@ + " = "@)[1]);
    lemma_keyed_none(s7, Seq::empty(), "legacy_id"@, "logistics_skill"@, 1);
    let tr = words_lines("traits"@, views(c.traits@))->0;
    lemma_words_shape("traits"@, views(c.traits@));
    assert(("traits"@ + " = "@)[0] != ("logistics_skill"@ + " = "@)[0]);
    lemma_keyed_none(tr, Seq::empty(), "traits"@, "logistics_skill"@, 0);
    lemma_keyed_concat(s0, s1, Seq::empty(), "logistics_skill"@);
    lemma_keyed_concat((s0 + s1), s2, Seq::empty(), "logistics_skill"@);
    lemma_keyed_concat(((s0 + s1) + s2), s3, Seq::empty(), "logistics_skill"@);
    lemma_keyed_concat((((s0 + s1) + s2) + s3), s4, Seq::empty(), "logistics_skill"@);
    lemma_keyed_concat(((((s0 + s1) + s2) + s3) + s4), s5, Seq::empty(), "logistics_skill"@);
    lemma_keyed_concat((((((s0 + s1) + s2) + s3) + s4) + s5), s6, Seq::empty(), "logistics_skill"@);
    lemma_keyed_concat(((((((s0 + s1) + s2) + s3) + s4) + s5) + s6), s7, Seq::empty(), "logistics_skill"@);
    lemma_keyed_concat((((((((s0 + s1) + s2) + s3) + s4) + s5) + s6) + s7), tr, Seq::empty(), "logistics_skill"@);
    assert(keyed_lines(commander_lines(c), Seq::empty(), "logistics_skill"@) =~= each_written("logistics_skill"@, seq![if c.kind@ == "navy_leader"@ { Seq::empty() } else { c.logistics_skill@ }]));
}

proof fn lemma_commander_field_maneuvering_skill(c: Commander)
    requires
        words_lines("traits"@, views(c.traits@)) is Some,
    ensures
        keyed_lines(commander_lines(c), Seq::empty(), "maneuvering_skill"@) == each_written("maneuvering_skill"@, seq![if c.kind@ == "navy_leader"@ { c.maneuvering_skill@ } else { Seq::empty() }]),
{
    reveal_strlit("attack_skill");
    reveal_strlit("coordination_skill");
    reveal_strlit("defense_skill");
    reveal_strlit("legacy_id");
    reveal_strlit("logistics_skill");
    reveal_strlit("maneuvering_skill");
    reveal_strlit("planning_skill");
    reveal_strlit("skill");
    reveal_strlit("traits");
    reveal_strlit(" = ");
    lemma_commander_parts(c);
    let s0 = scalar_line("skill"@, c.skill@);
    lemma_scalar_line("skill"@, c.skill@);
    assert(("skill"@ + " = "@)[0] != ("maneuvering_skill"@ + " = "@)[0]);
    lemma_keyed_none(s0, Seq::empty(), "skill"@, "maneuvering_skill"@, 0);
    let s1 = scalar_line("attack_skill"@, c.attack_skill@);
    lemma_scalar_line("attack_skill"@, c.attack_skill@);
    assert(("attack_skill"@ + " = "@)[0] != ("maneuvering_skill"@ + " = "@)[0]);
    lemma_keyed_none(s1, Seq::empty(), "attack_skill"@, "maneuvering_skill"@, 0);
    let s2 = scalar_line("defense_skill"@, c.defense_skill@);
    lemma_scalar_line("defense_skill"@, c.defense_skill@);
    assert(("defense_skill"@ + " = "@)[0] != ("maneuvering_skill"@ + " = "@)[0]);
    lemma_keyed_none(s2, Seq::empty(), "defense_skill"@, "maneuvering_skill"@, 0);
    let s3 = scalar_line("planning_skill"@, if c.kind@ == "navy_leader"@ { Seq::empty() } else { c.planning_skill@ });
    lemma_scalar_line("planning_skill"@, if c.kind@ == "navy_leader"@ { Seq::empty() } else { c.planning_skill@ });
    assert(("planning_skill"@ + " = "@)[0] != ("maneuvering_skill"@ + " = "@)[0]);
    lemma_keyed_none(s3, Seq::empty(), "planning_skill"@, "maneuvering_skill"@, 0);
    let s4 = scalar_line("logistics_skill"@, if c.kind@ == "navy_leader"@ { Seq::empty() } else { c.logistics_skill@ });
    lemma_scalar_line("logistics_skill"@, if c.kind@ == "navy_leader"@ { Seq::empty() } else { c.logistics_skill@ });
    assert(("logistics_skill"@ + " = "@)[0] != ("maneuvering_skill"@ + " = "@)[0]);
    lemma_keyed_none(s4, Seq::empty(), "logistics_skill"@, "maneuvering_skill"@, 0);
    let s5 = scalar_line("maneuvering_skill"@, if c.kind@ == "navy_leader"@ { c.maneuvering_skill@ } else { Seq::empty() });
    lemma_scalar_line("maneuvering_skill"@, if c.kind@ == "navy_leader"@ { c.maneuvering_skill@ } else { Seq::empty() });
    lemma_keyed_all(s5, Seq::empty(), "maneuvering_skill"@);
    let s6 = scalar_line("coordination_skill"@, if c.kind@ == "navy_leader"@ { c.coordination_skill@ } else { Seq::empty() });
    lemma_scalar_line("coordination_skill"@, if c.kind@ == "navy_leader"@ { c.coordination_skill@ } else { Seq::empty() });
    assert(("coordination_skill"@ + " = "@)[0] != ("maneuvering_skill"@ + " = "@)[0]);
    lemma_keyed_none(s6, Seq::empty(), "coordination_skill"@, "maneuvering_skill"@, 0);
    let s7 = scalar_line("legacy_id"@, c.legacy_id@);
    lemma_scalar_line("legacy_id"@, c.legacy_id@);
    assert(("legacy_id"@ + " = "@)[0] != ("maneuvering_skill"@ + " = "@)[0]);
    lemma_keyed_none(s7, Seq::empty(), "legacy_id"@, "maneuvering_skill"@, 0);
    let tr = words_lines("traits"@, views(c.traits@))->0;
    lemma_words_shape("traits"@, views(c.traits@));
    assert(("traits"@ + " = "@)[0] != ("maneuvering_skill"@ + " = "@)[0]);
    lemma_keyed_none(tr, Seq::empty(), "traits"@, "maneuvering_skill"@, 0);
    lemma_keyed_concat(s0, s1, Seq::empty(), "maneuvering_skill"@);
    lemma_keyed_concat((s0 + s1), s2, Seq::empty(), "maneuvering_skill"@);
    lemma_keyed_concat(((s0 + s1) + s2), s3, Seq::empty(), "maneuvering_skill"@);
    lemma_keyed_concat((((s0 + s1) + s2) + s3), s4, Seq::empty(), "maneuvering_skill"@);
    lemma_keyed_concat(((((s0 + s1) + s2) + s3) + s4), s5, Seq::empty(), "maneuvering_skill"@);
    lemma_keyed_concat((((((s0 + s1) + s2) + s3) + s4) + s5), s6, Seq::empty(), "maneuvering_skill"@);
    lemma_keyed_concat(((((((s0 + s1) + s2) + s3) + s4) + s5) + s6), s7, Seq::empty(), "maneuvering_skill"@);
    lemma_keyed_concat((((((((s0 + s1) + s2) + s3) + s4) + s5) + s6) + s7), tr, Seq::empty(), "maneuvering_skill"@);
    assert(keyed_lines(commander_lines(c), Seq::empty(), "maneuvering_skill"@) =~= each_written("maneuvering_skill"@, seq![if c.kind@ == "navy_leader"@ { c.maneuvering_skill@ } else { Seq::empty() }]));
}

proof fn lemma_commander_field_coordination_skill(c: Commander)
    requires
        words_lines("traits"@, views(c.traits@)) is Some,
    ensures
        keyed_lines(commander_lines(c), Seq::empty(), "coordination_skill"@) == each_written("coordination_skill"@, seq![if c.kind@ == "navy_leader"@ { c.coordination_skill@ } else { Seq::empty() }]),
{
    reveal_strlit("attack_skill");
    reveal_strlit("coordination_skill");
    reveal_strlit("defense_skill");
    reveal_strlit("legacy_id");
    reveal_strlit("logistics_skill");
    reveal_strlit("maneuvering_skill");
    reveal_strlit("planning_skill");
    reveal_strlit("skill");
    reveal_strlit("traits");
    reveal_strlit(" = ");
    lemma_commander_parts(c);
    let s0 = scalar_line("skill"@, c.skill@);
    lemma_scalar_line("skill"@, c.skill@);
    assert(("skill"@ + " = "@)[0] != ("coordination_skill"@ + " = "@)[0]);
    lemma_keyed_none(s0, Seq::empty(), "skill"@, "coordination_skill"@, 0);
    let s1 = scalar_line("attack_skill"@, c.attack_skill@);
    lemma_scalar_line("attack_skill"@, c.attack_skill@);
    assert(("attack_skill"@ + " = "@)[0] != ("coordination_skill"@ + " = "@)[0]);
    lemma_keyed_none(s1, Seq::empty(), "attack_skill"@, "coordination_skill"@, 0);
    let s2 = scalar_line("defense_skill"@, c.defense_skill@);
    lemma_scalar_line("defense_skill"@, c.defense_skill@);
    assert(("defense_skill"@ + " = "@)[0] != ("coordination_skill"@ + " = "@)[0]);
    lemma_keyed_none(s2, Seq::empty(), "defense_skill"@, "coordination_skill"@, 0);
    let s3 = scalar_line("planning_skill"@, if c.kind@ == "navy_leader"@ { Seq::empty() } else { c.planning_skill@ });
    lemma_scalar_line("planning_skill"@, if c.kind@ == "navy_leader"@ { Seq::empty() } else { c.planning_skill@ });
    assert(("planning_skill"@ + " = "@)[0] != ("coordination_skill"@ + " = "@)[0]);
    lemma_keyed_none(s3, Seq::empty(), "planning_skill"@, "coordination_skill"@, 0);
    let s4 = scalar_line("logistics_skill"@, if c.kind@ == "navy_leader"@ { Seq::empty() } else { c.logistics_skill@ });
    lemma_scalar_line("logistics_skill"@, if c.kind@ == "navy_leader"@ { Seq::empty() } else { c.logistics_skill@ });
    assert(("logistics_skill"@ + " = "@)[0] != ("coordination_skill"@ + " = "@)[0]);
    lemma_keyed_none(s4, Seq::empty(), "logistics_skill"@, "coordination_skill"@, 0);
    let s5 = scalar_line("maneuvering_skill"@, if c.kind@ == "navy_leader"@ { c.maneuvering_skill@ } else { Seq::empty() });
    lemma_scalar_line("maneuvering_skill"@, if c.kind@ == "navy_leader"@ { c.maneuvering_skill@ } else { Seq::empty() });
    assert(("maneuvering_skill"@ + " = "@)[0] != ("coordination_skill"@ + " = "@)[0]);
    lemma_keyed_none(s5, Seq::empty(), "maneuvering_skill"@, "coordination_skill"@, 0);
    let s6 = scalar_line("coordination_skill"@, if c.kind@ == "navy_leader"@ { c.coordination_skill@ } else { Seq::empty() });
    lemma_scalar_line("coordination_skill"@, if c.kind@ == "navy_leader"@ { c.coordination_skill@ } else { Seq::empty() });
    lemma_keyed_all(s6, Seq::empty(), "coordination_skill"@);
    let s7 = scalar_line("legacy_id"@, c.legacy_id@);
    lemma_scalar_line("legacy_id"@, c.legacy_id@);
    assert(("legacy_id"@ + " = "@)[0] != ("coordination_skill"@ + " = "@)[0]);
    lemma_keyed_none(s7, Seq::empty(), "legacy_id"@, "coordination_skill"@, 0);
    let tr = words_lines("traits"@, views(c.traits@))->0;
    lemma_words_shape("traits"@, views(c.traits@));
    assert(("traits"@ + " = "@)[0] != ("coordination_skill"@ + " = "@)[0]);
    lemma_keyed_none(tr, Seq::empty(), "traits"@, "coordination_skill"@, 0);
    lemma_keyed_concat(s0, s1, Seq::empty(), "coordination_skill"@);
    lemma_keyed_concat((s0 + s1), s2, Seq::empty(), "coordination_skill"@);
    lemma_keyed_concat(((s0 + s1) + s2), s3, Seq::empty(), "coordination_skill"@);
    lemma_keyed_concat((((s0 + s1) + s2) + s3), s4, Seq::empty(), "coordination_skill"@);
    lemma_keyed_concat(((((s0 + s1) + s2) + s3) + s4), s5, Seq::empty(), "coordination_skill"@);
    lemma_keyed_concat((((((s0 + s1) + s2) + s3) + s4) + s5), s6, Seq::empty(), "coordination_skill"@);
    lemma_keyed_concat(((((((s0 + s1) + s2) + s3) + s4) + s5) + s6), s7, Seq::empty(), "coordination_skill"@);
    lemma_keyed_concat((((((((s0 + s1) + s2) + s3) + s4) + s5) + s6) + s7), tr, Seq::empty(), "coordination_skill"@);
    assert(keyed_lines(commander_lines(c), Seq::empty(), "coordination_skill"@) =~= each_written("coordination_skill"@, seq![if c.kind@ == "navy_leader"@ { c.coordination_skill@ } else { Seq::empty() }]));
}

proof fn lemma_commander_field_legacy_id(c: Commander)
    requires
        words_lines("traits"@, views(c.traits@)) is Some,
    ensures
        keyed_lines(commander_lines(c), Seq::empty(), "legacy_id"@) == each_written("legacy_id"@, seq![c.legacy_id@]),
{
    reveal_strlit("attack_skill");
    reveal_strlit("coordination_skill");
    reveal_strlit("defense_skill");
    reveal_strlit("legacy_id");
    reveal_strlit("logistics_skill");
    reveal_strlit("maneuvering_skill");
    reveal_strlit("planning_skill");
    reveal_strlit("skill");
    reveal_strlit("traits");
    reveal_strlit(" = ");
    lemma_commander_parts(c);
    let s0 = scalar_line("skill"@, c.skill@);
    lemma_scalar_line("skill"@, c.skill@);
    assert(("skill"@ + " = "@)[0] != ("legacy_id"@ + " = "@)[0]);
    lemma_keyed_none(s0, Seq::empty(), "skill"@, "legacy_id"@, 0);
    let s1 = scalar_line("attack_skill"@, c.attack_skill@);
    lemma_scalar_line("attack_skill"@, c.attack_skill@);
    assert(("attack_skill"@ + " = "@)[0] != ("legacy_id"@ + " = "@)[0]);
    lemma_keyed_none(s1, Seq::empty(), "attack_skill"@, "legacy_id"@, 0);
    let s2 = scalar_line("defense_skill"@, c.defense_skill@);
    lemma_scalar_line("defense_skill"@, c.defense_skill@);
    assert(("defense_skill"@ + " = "@)[0] != ("legacy_id"@ + " = "@)[0]);
    lemma_keyed_none(s2, Seq::empty(), "defense_skill"@, "legacy_id"@, 0);
    let s3 = scalar_line("planning_skill"@, if c.kind@ == "navy_leader"@ { Seq::empty() } else { c.planning_skill@ });
    lemma_scalar_line("planning_skill"@, if c.kind@ == "navy_leader"@ { Seq::empty() } else { c.planning_skill@ });
    assert(("planning_skill"@ + " = "@)[0] != ("legacy_id"@ + " = "@)[0]);
    lemma_keyed_none(s3, Seq::empty(), "planning_skill"@, "legacy_id"@, 0);
    let s4 = scalar_line("logistics_skill"@, if c.kind@ == "navy_leader"@ { Seq::empty() } else { c.logistics_skill@ });
    lemma_scalar_line("logistics_skill"@, if c.kind@ == "navy_leader"@ { Seq::empty() } else { c.logistics_skill@ });
    assert(("logistics_skill"@ + " = "@)[1] != ("legacy_id"@ + " = "@)[1]);
    lemma_keyed_none(s4, Seq::empty(), "logistics_skill"@, "legacy_id"@, 1);
    let s5 = scalar_line("maneuvering_skill"@, if c.kind@ == "navy_leader"@ { c.maneuvering_skill@ } else { Seq::empty() });
    lemma_scalar_line("maneuvering_skill"@, if c.kind@ == "navy_leader"@ { c.maneuvering_skill@ } else { Seq::empty() });
    assert(("maneuvering_skill"@ + " = "@)[0] != ("legacy_id"@ + " = "@)[0]);
    lemma_keyed_none(s5, Seq::empty(), "maneuvering_skill"@, "legacy_id"@, 0);
    let s6 = scalar_line("coordination_skill"@, if c.kind@ == "navy_leader"@ { c.coordination_skill@ } else { Seq::empty() });
    lemma_scalar_line("coordination_skill"@, if c.kind@ == "navy_leader"@ { c.coordination_skill@ } else { Seq::empty() });
    assert(("coordination_skill"@ + " = "@)[0] != ("legacy_id"@ + " = "@)[0]);
    lemma_keyed_none(s6, Seq::empty(), "coordination_skill"@, "legacy_id"@, 0);
    let s7 = scalar_line("legacy_id"@, c.legacy_id@);
    lemma_scalar_line("legacy_id"@, c.legacy_id@);
    lemma_keyed_all(s7, Seq::empty(), "legacy_id"@);
    let tr = words_lines("traits"@, views(c.traits@))->0;
    lemma_words_shape("traits"@, views(c.traits@));
    assert(("traits"@ + " = "@)[0] != ("legacy_id"@ + " = "@)[0]);
    lemma_keyed_none(tr, Seq::empty(), "traits"@, "legacy_id"@, 0);
    lemma_keyed_concat(s0, s1, Seq::empty(), "legacy_id"@);
    lemma_keyed_concat((s0 + s1), s2, Seq::empty(), "legacy_id"@);
    lemma_keyed_concat(((s0 + s1) + s2), s3, Seq::empty(), "legacy_id"@);
    lemma_keyed_concat((((s0 + s1) + s2) + s3), s4, Seq::empty(), "legacy_id"@);
    lemma_keyed_concat(((((s0 + s1) + s2) + s3) + s4), s5, Seq::empty(), "legacy_id"@);
    lemma_keyed_concat((((((s0 + s1) + s2) + s3) + s4) + s5), s6, Seq::empty(), "legacy_id"@);
    lemma_keyed_concat(((((((s0 + s1) + s2) + s3) + s4) + s5) + s6), s7, Seq::empty(), "legacy_id"@);
    lemma_keyed_concat((((((((s0 + s1) + s2) + s3) + s4) + s5) + s6) + s7), tr, Seq::empty(), "legacy_id"@);
    assert(keyed_lines(commander_lines(c), Seq::empty(), "legacy_id"@) =~= each_written("legacy_id"@, seq![c.legacy_id@]));
}
proof fn lemma_portrait_field_large(large: Seq<char>, small: Seq<char>)
    requires
        true,
    ensures
        keyed_lines((scalar_line("large"@, large) + scalar_line("small"@, small)), Seq::empty(), "large"@) == each_written("large"@, seq![large]),
{
    reveal_strlit("large");
    reveal_strlit("small");
    reveal_strlit(" = ");
    lemma_portrait_parts(large, small);
    let s0 = scalar_line("large"@, large);
    lemma_scalar_line("large"@, large);
    lemma_keyed_all(s0, Seq::empty(), "large"@);
    let s1 = scalar_line("small"@, small);
    lemma_scalar_line("small"@, small);
    assert(("small"@ + " = "@)[0] != ("large"@ + " = "@)[0]);
    lemma_keyed_none(s1, Seq::empty(), "small"@, "large"@, 0);
    lemma_keyed_concat(s0, s1, Seq::empty(), "large"@);
    assert(keyed_lines((scalar_line("large"@, large) + scalar_line("small"@, small)), Seq::empty(), "large"@) =~= each_written("large"@, seq![large]));
}

proof fn lemma_portrait_field_small(large: Seq<char>, small: Seq<char>)
    requires
        true,
    ensures
        keyed_lines((scalar_line("large"@, large) + scalar_line("small"@, small)), Seq::empty(), "small"@) == each_written("small"@, seq![small]),
{
    reveal_strlit("large");
    reveal_strlit("small");
    reveal_strlit(" = ");
    lemma_portrait_parts(large, small);
    let s0 = scalar_line("large"@, large);
    lemma_scalar_line("large"@, large);
    assert(("large"@ + " = "@)[0] != ("small"@ + " = "@)[0]);
    lemma_keyed_none(s0, Seq::empty(), "large"@, "small"@, 0);
    let s1 = scalar_line("small"@, small);
    lemma_scalar_line("small"@, small);
    lemma_keyed_all(s1, Seq::empty(), "small"@);
    lemma_keyed_concat(s0, s1, Seq::empty(), "small"@);
    assert(keyed_lines((scalar_line("large"@, large) + scalar_line("small"@, small)), Seq::empty(), "small"@) =~= each_written("small"@, seq![small]));
}

/// Law: a new country leader role writes its ideology and its description
/// each on a line of its own keyed by that field and holding that field's
/// value, trimmed; a blank field gets no line.
pub proof fn law_a_new_leader_writes_each_field_on_its_own_line(l: CountryLeader)
    ensures
        crate::characters::render_leader_spec(l) matches Some(body) ==> exists|ls: Seq<Seq<char>>|
            #[trigger] join(ls, "\n"@) == body
                && keyed_lines(ls, Seq::empty(), "ideology"@) == each_written("ideology"@, seq![l.ideology@])
                && keyed_lines(ls, Seq::empty(), "desc"@) == each_written("desc"@, seq![l.desc@]),
{
    reveal(crate::characters::render_leader_spec);
    if words_lines("traits"@, views(l.traits@)) is Some {
        lemma_leader_field_ideology(l);
        lemma_leader_field_desc(l);
        lemma_leader_parts(l);
    }
}

/// Law: a new advisor role writes its slot, idea token, ledger, cost,
/// removal cost and whether it can be fired each on a line of its own
/// keyed by that field and holding that field's value, trimmed; a blank
/// field gets no line.
pub proof fn law_a_new_advisor_writes_each_field_on_its_own_line(a: Advisor)
    ensures
        crate::characters::render_advisor_spec(a) matches Some(body) ==> exists|ls: Seq<Seq<char>>|
            #[trigger] join(ls, "\n"@) == body
                && keyed_lines(ls, Seq::empty(), "slot"@) == each_written("slot"@, seq![a.slot@])
                && keyed_lines(ls, Seq::empty(), "idea_token"@) == each_written("idea_token"@, seq![a.idea_token@])
                && keyed_lines(ls, Seq::empty(), "ledger"@) == each_written("ledger"@, seq![a.ledger@])
                && keyed_lines(ls, Seq::empty(), "cost"@) == each_written("cost"@, seq![a.cost@])
                && keyed_lines(ls, Seq::empty(), "removal_cost"@) == each_written("removal_cost"@, seq![a.removal_cost@])
                && keyed_lines(ls, Seq::empty(), "can_be_fired"@) == each_written("can_be_fired"@, seq![a.can_be_fired@]),
{
    reveal(crate::characters::render_advisor_spec);
    if advisor_parts_some(a) {
        lemma_advisor_field_slot(a);
        lemma_advisor_field_idea_token(a);
        lemma_advisor_field_ledger(a);
        lemma_advisor_field_cost(a);
        lemma_advisor_field_removal_cost(a);
        lemma_advisor_field_can_be_fired(a);
        lemma_advisor_parts(a);
    }
}

/// Law: a new commander role writes each skill it carries, and its legacy
/// id, on a line of its own keyed by that field and holding that field's
/// value, trimmed: a navy leader's naval skills and no planning or
/// logistics, another commander's army skills and no maneuvering or
/// coordination; a blank field gets no line.
pub proof fn law_a_new_commander_writes_each_field_on_its_own_line(c: Commander)
    ensures
        crate::characters::render_commander_spec(c) matches Some(body) ==> exists|ls: Seq<Seq<char>>|
            #[trigger] join(ls, "\n"@) == body
                && keyed_lines(ls, Seq::empty(), "skill"@) == each_written("skill"@, seq![c.skill@])
                && keyed_lines(ls, Seq::empty(), "attack_skill"@) == each_written("attack_skill"@, seq![c.attack_skill@])
                && keyed_lines(ls, Seq::empty(), "defense_skill"@) == each_written("defense_skill"@, seq![c.defense_skill@])
                && keyed_lines(ls, Seq::empty(), "planning_skill"@) == each_written("planning_skill"@, seq![if c.kind@ == "navy_leader"@ { Seq::empty() } else { c.planning_skill@ }])
                && keyed_lines(ls, Seq::empty(), "logistics_skill"@) == each_written("logistics_skill"@, seq![if c.kind@ == "navy_leader"@ { Seq::empty() } else { c.logistics_skill@ }])
                && keyed_lines(ls, Seq::empty(), "maneuvering_skill"@) == each_written("maneuvering_skill"@, seq![if c.kind@ == "navy_leader"@ { c.maneuvering_skill@ } else { Seq::empty() }])
                && keyed_lines(ls, Seq::empty(), "coordination_skill"@) == each_written("coordination_skill"@, seq![if c.kind@ == "navy_leader"@ { c.coordination_skill@ } else { Seq::empty() }])
                && keyed_lines(ls, Seq::empty(), "legacy_id"@) == each_written("legacy_id"@, seq![c.legacy_id@]),
{
    reveal(crate::characters::render_commander_spec);
    if words_lines("traits"@, views(c.traits@)) is Some {
        lemma_commander_field_skill(c);
        lemma_commander_field_attack_skill(c);
        lemma_commander_field_defense_skill(c);
        lemma_commander_field_planning_skill(c);
        lemma_commander_field_logistics_skill(c);
        lemma_commander_field_maneuvering_skill(c);
        lemma_commander_field_coordination_skill(c);
        lemma_commander_field_legacy_id(c);
        lemma_commander_parts(c);
    }
}

/// Law: a new portrait group writes its large and its small picture each on
/// a line of its own keyed by its size, trimmed; a blank picture gets no
/// line.
pub proof fn law_a_new_portrait_group_writes_each_picture_on_its_own_line(large: Seq<char>, small: Seq<char>)
    ensures
        exists|ls: Seq<Seq<char>>|
            #[trigger] join(ls, "\n"@) == crate::characters::portrait_group_spec(large, small)
                && keyed_lines(ls, Seq::empty(), "large"@) == each_written("large"@, seq![large])
                && keyed_lines(ls, Seq::empty(), "small"@) == each_written("small"@, seq![small]),
{
    lemma_portrait_field_large(large, small);
    lemma_portrait_field_small(large, small);
    lemma_portrait_parts(large, small);
}

} // verus!
