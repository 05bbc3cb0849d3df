//! Saving a focus exactly as it was read: read out of a block written the
//! way `update_source` writes one, a focus saved unchanged leaves the file
//! byte for byte as it was.
use crate::error::EditError;
use crate::event_saving::lemma_all_some_nothing;
use crate::focus::{
    exclusive_of, flat_references, focus_edits, focus_in_items, focus_read, focus_runs,
    group_attempts, group_rewrite, groups_spec, kept_groups, lemma_group_attempt, nested_views,
    normalise_ids_spec, references_spec, update_refusal, Focus, FocusUpdate,
};
use crate::ideology_saving::{
    all_trimmed, body_as_saved, lemma_body_read, lemma_plain_field, plain_field,
};
use crate::paradox::edit::{scalar_change_spec, ChangeView};
use crate::paradox::parser::pairs_with;
use crate::paradox::{Block, Item, Pair, Value};
use crate::script::{
    all_some, beyond, block_values, checked_block, law_nothing_changed_keeps_the_file,
    lemma_nothing_hands_on_nothing, saved_as, text_or_empty, then_runs,
};
use crate::technology_saving::{lemma_block_values_all, lemma_then_nothing, nothing_run};
use crate::text::{bytes_of, trim_spec, views};
use vstd::prelude::*;

verus! {

/// A reference block as it is saved: at least one id, each with no outer
/// whitespace.
pub open spec fn references_as_saved(c: Block) -> bool {
    references_spec(c.items@).len() > 0 && all_trimmed(references_spec(c.items@))
}

/// The reference blocks under `key` as they are saved.
pub open spec fn groups_as_saved(items: Seq<Item>, key: Seq<char>) -> bool {
    forall|k: int|
        0 <= k < pairs_with(items, key).len() ==> ((#[trigger] pairs_with(items, key)[k]).value matches Value::Block(
            c,
        ) && references_as_saved(c))
}

/// A focus block written the way `update_source` saves one: every field it
/// edits either absent or in the form it writes, with at most one
/// `mutually_exclusive` block, since the focuses it lists are written back
/// as one.
pub open spec fn focus_as_saved(b: Seq<u8>, block: Block) -> bool {
    let items = block.items@;
    &&& plain_field(items, "id"@)
    &&& plain_field(items, "icon"@)
    &&& plain_field(items, "x"@)
    &&& plain_field(items, "y"@)
    &&& plain_field(items, "cost"@)
    &&& plain_field(items, "relative_position_id"@)
    &&& body_as_saved(b, items, "available"@)
    &&& body_as_saved(b, items, "bypass"@)
    &&& body_as_saved(b, items, "allow_branch"@)
    &&& body_as_saved(b, items, "completion_reward"@)
    &&& body_as_saved(b, items, "ai_will_do"@)
    &&& groups_as_saved(items, "prerequisite"@)
    &&& groups_as_saved(items, "mutually_exclusive"@)
    &&& pairs_with(items, "mutually_exclusive"@).len() <= 1
}

/// Every field of an update copied from a focus as read.
pub open spec fn copied_from(u: FocusUpdate, f: Focus) -> bool {
    &&& u.id@ == f.id@
    &&& u.icon@ == f.icon@
    &&& u.x@ == f.x@
    &&& u.y@ == f.y@
    &&& u.cost@ == f.cost@
    &&& u.relative_position_id@ == f.relative_position_id@
    &&& u.prerequisites@ == f.prerequisites@
    &&& u.mutually_exclusive@ == f.mutually_exclusive@
    &&& u.available@ == f.available@
    &&& u.bypass@ == f.bypass@
    &&& u.allow_branch@ == f.allow_branch@
    &&& u.completion_reward@ == f.completion_reward@
    &&& u.ai_will_do@ == f.ai_will_do@
}

/// Ids with no outer whitespace, none empty, are all kept as they are.
proof fn lemma_ids_keep(ns: Seq<Seq<char>>)
    requires
        all_trimmed(ns),
    ensures
        normalise_ids_spec(ns) == ns,
    decreases ns.len(),
{
    if ns.len() > 0 {
        assert forall|k: int| 0 <= k < ns.drop_last().len() implies #[trigger] trim_spec(ns.drop_last()[k])
            == ns.drop_last()[k] && ns.drop_last()[k].len() > 0 by {
            assert(ns.drop_last()[k] == ns[k]);
        }
        lemma_ids_keep(ns.drop_last());
        assert(trim_spec(ns[ns.len() - 1]) == ns[ns.len() - 1]);
        assert(ns.drop_last().push(ns.last()) =~= ns);
    }
}

/// Groups of plain ids, none empty, are all kept as they are.
proof fn lemma_groups_keep(gs: Seq<Seq<Seq<char>>>)
    requires
        forall|k: int| 0 <= k < gs.len() ==> (#[trigger] gs[k]).len() > 0 && all_trimmed(gs[k]),
    ensures
        kept_groups(gs) == gs,
    decreases gs.len(),
{
    if gs.len() > 0 {
        assert forall|k: int| 0 <= k < gs.drop_last().len() implies (#[trigger] gs.drop_last()[k]).len() > 0
            && all_trimmed(gs.drop_last()[k]) by {
            assert(gs.drop_last()[k] == gs[k]);
        }
        lemma_groups_keep(gs.drop_last());
        let g = gs[gs.len() - 1];
        assert(g.len() > 0 && all_trimmed(g));
        lemma_ids_keep(g);
        assert(gs.drop_last() + seq![g] =~= gs);
    }
}

/// Reference blocks that each list some id are each one group.
proof fn lemma_groups_all(bs: Seq<Block>)
    requires
        forall|k: int| 0 <= k < bs.len() ==> references_as_saved(#[trigger] bs[k]),
    ensures
        groups_spec(bs) == Seq::new(bs.len(), |k: int| references_spec(bs[k].items@)),
    decreases bs.len(),
{
    if bs.len() > 0 {
        assert forall|k: int| 0 <= k < bs.drop_last().len() implies references_as_saved(#[trigger] bs.drop_last()[k]) by {
            assert(bs.drop_last()[k] == bs[k]);
        }
        lemma_groups_all(bs.drop_last());
        assert(references_as_saved(bs[bs.len() - 1]));
        assert(groups_spec(bs) =~= Seq::new(bs.len(), |k: int| references_spec(bs[k].items@)));
    }
}

/// Reference blocks set to the groups they list change nothing.
proof fn lemma_groups_read(b: Seq<u8>, block: Block, key: Seq<char>, w: Seq<Seq<Seq<char>>>)
    requires
        w.len() == pairs_with(block.items@, key).len(),
        forall|k: int| 0 <= k < w.len() ==> ((#[trigger] pairs_with(block.items@, key)[k]).value matches Value::Block(
            c,
        ) && references_spec(c.items@) == w[k]),
    ensures
        nothing_run(all_some(group_attempts(b, block, pairs_with(block.items@, key), key, w))),
{
    let ps = pairs_with(block.items@, key);
    let cs = group_attempts(b, block, ps, key, w);
    lemma_group_attempt(b, block, ps, key, w, 0);
    assert(beyond(ps.len(), w.len()) == 0);
    assert(beyond(w.len(), ps.len()) == 0);
    assert forall|at: int| 0 <= at < cs.len() implies #[trigger] cs[at] == Some(ChangeView::Nothing) by {
        lemma_group_attempt(b, block, ps, key, w, at);
        assert(ps[at].value matches Value::Block(c) && references_spec(c.items@) == w[at]);
        assert(group_rewrite(b, ps[at], w[at]) == Some(ChangeView::Nothing));
    }
    lemma_all_some_nothing(cs);
}

/// An update copied from a focus read out of a block written as it is
/// saved changes nothing inside that block.
#[verifier::rlimit(60)]
proof fn lemma_read_changes_nothing(
    b: Seq<u8>,
    block: Block,
    tree_id: Seq<char>,
    shared: bool,
    start: int,
    f: Focus,
    u: FocusUpdate,
)
    requires
        focus_read(b, f, block, tree_id, shared, start),
        copied_from(u, f),
        focus_as_saved(b, block),
    ensures
        nothing_run(focus_runs(b, block, u)),
{
    let items = block.items@;
    lemma_plain_field(b, block, "id"@);
    lemma_plain_field(b, block, "icon"@);
    lemma_plain_field(b, block, "x"@);
    lemma_plain_field(b, block, "y"@);
    lemma_plain_field(b, block, "cost"@);
    lemma_plain_field(b, block, "relative_position_id"@);
    lemma_body_read(b, block, "available"@);
    lemma_body_read(b, block, "bypass"@);
    lemma_body_read(b, block, "allow_branch"@);
    lemma_body_read(b, block, "completion_reward"@);
    lemma_body_read(b, block, "ai_will_do"@);
    let pre = pairs_with(items, "prerequisite"@);
    assert forall|k: int| 0 <= k < pre.len() implies (#[trigger] pre[k]).value is Block by {
        assert(pre[k].value matches Value::Block(c) && references_as_saved(c));
    }
    lemma_block_values_all(pre);
    let pbs = block_values(pre);
    assert forall|k: int| 0 <= k < pbs.len() implies references_as_saved(#[trigger] pbs[k]) by {
        assert(pre[k].value matches Value::Block(c) && references_as_saved(c));
        assert(pbs[k] == pre[k].value->Block_0);
    }
    lemma_groups_all(pbs);
    let gs = groups_spec(pbs);
    assert(nested_views(u.prerequisites@) == gs);
    assert forall|k: int| 0 <= k < gs.len() implies (#[trigger] gs[k]).len() > 0 && all_trimmed(gs[k]) by {
        assert(references_as_saved(pbs[k]));
    }
    lemma_groups_keep(gs);
    assert forall|k: int| 0 <= k < gs.len() implies ((#[trigger] pre[k]).value matches Value::Block(c)
        && references_spec(c.items@) == gs[k]) by {
        assert(pbs[k] == pre[k].value->Block_0);
    }
    lemma_groups_read(b, block, "prerequisite"@, gs);
    let mex = pairs_with(items, "mutually_exclusive"@);
    let ws = kept_groups(exclusive_of(u.mutually_exclusive@));
    if mex.len() == 0 {
        assert(block_values(mex) =~= Seq::<Block>::empty());
        assert(views(u.mutually_exclusive@).len() == 0);
        assert(u.mutually_exclusive@.len() == 0);
        assert(ws =~= Seq::<Seq<Seq<char>>>::empty());
    } else {
        assert(mex[0].value matches Value::Block(c) && references_as_saved(c));
        lemma_block_values_all(mex);
        let c = mex[0].value->Block_0;
        let refs = references_spec(c.items@);
        assert(block_values(mex) =~= seq![c]);
        assert(seq![c].drop_last() =~= Seq::<Block>::empty());
        assert(seq![c].last() == c);
        assert(flat_references(Seq::<Block>::empty()) =~= Seq::<Seq<char>>::empty());
        assert(Seq::<Seq<char>>::empty() + refs =~= refs);
        assert(flat_references(seq![c]) =~= refs);
        assert(views(u.mutually_exclusive@) == refs);
        assert(exclusive_of(u.mutually_exclusive@) == seq![refs]);
        lemma_groups_keep(seq![refs]);
        assert forall|k: int| 0 <= k < ws.len() implies ((#[trigger] mex[k]).value matches Value::Block(cc)
            && references_spec(cc.items@) == ws[k]) by {
            assert(k == 0);
        }
    }
    lemma_groups_read(b, block, "mutually_exclusive"@, ws);
    let r0 = Some(seq![scalar_change_spec(b, block, "id"@, u.id@)]);
    assert(nothing_run(r0));
    let x1 = Some(seq![scalar_change_spec(b, block, "icon"@, u.icon@)]);
    assert(nothing_run(x1));
    lemma_then_nothing(r0, x1);
    let r1 = then_runs(r0, x1);
    let x2 = Some(seq![scalar_change_spec(b, block, "x"@, u.x@)]);
    assert(nothing_run(x2));
    lemma_then_nothing(r1, x2);
    let r2 = then_runs(r1, x2);
    let x3 = Some(seq![scalar_change_spec(b, block, "y"@, u.y@)]);
    assert(nothing_run(x3));
    lemma_then_nothing(r2, x3);
    let r3 = then_runs(r2, x3);
    let x4 = Some(seq![scalar_change_spec(b, block, "cost"@, u.cost@)]);
    assert(nothing_run(x4));
    lemma_then_nothing(r3, x4);
    let r4 = then_runs(r3, x4);
    let x5 = Some(seq![scalar_change_spec(b, block, "relative_position_id"@, u.relative_position_id@)]);
    assert(nothing_run(x5));
    lemma_then_nothing(r4, x5);
    let r5 = then_runs(r4, x5);
    let x6 = checked_block(b, block, "available"@, u.available@);
    assert(nothing_run(x6));
    lemma_then_nothing(r5, x6);
    let r6 = then_runs(r5, x6);
    let x7 = checked_block(b, block, "bypass"@, u.bypass@);
    assert(nothing_run(x7));
    lemma_then_nothing(r6, x7);
    let r7 = then_runs(r6, x7);
    let x8 = checked_block(b, block, "allow_branch"@, u.allow_branch@);
    assert(nothing_run(x8));
    lemma_then_nothing(r7, x8);
    let r8 = then_runs(r7, x8);
    let x9 = checked_block(b, block, "completion_reward"@, u.completion_reward@);
    assert(nothing_run(x9));
    lemma_then_nothing(r8, x9);
    let r9 = then_runs(r8, x9);
    let x10 = checked_block(b, block, "ai_will_do"@, u.ai_will_do@);
    assert(nothing_run(x10));
    lemma_then_nothing(r9, x10);
    let r10 = then_runs(r9, x10);
    let x11 = all_some(group_attempts(b, block, pairs_with(block.items@, "prerequisite"@), "prerequisite"@, kept_groups(nested_views(u.prerequisites@))));
    assert(nothing_run(x11));
    lemma_then_nothing(r10, x11);
    let r11 = then_runs(r10, x11);
    let x12 = all_some(group_attempts(b, block, pairs_with(block.items@, "mutually_exclusive"@), "mutually_exclusive"@, kept_groups(exclusive_of(u.mutually_exclusive@))));
    assert(nothing_run(x12));
    lemma_then_nothing(r11, x12);
    let r12 = then_runs(r11, x12);
    assert(focus_runs(b, block, u) == r12);
}

/// Law: saving a focus exactly as it was read changes no byte of the file,
/// wherever its block is written the way `update_source` writes one and
/// its id field says the id it is found by. The update is not refused, and
/// the text it saves is the source.
pub proof fn law_saving_a_focus_as_read_keeps_the_file(
    source: &str,
    path: Seq<char>,
    items: Seq<Item>,
    id: Seq<char>,
    p: Pair,
    block: Block,
    tree_id: Seq<char>,
    shared: bool,
    start: int,
    f: Focus,
    u: FocusUpdate,
    r: Result<String, EditError>,
)
    requires
        focus_in_items(items, id) == Some(p),
        p.value == Value::Block(block),
        text_or_empty(block.items@, "id"@) == id,
        id.len() > 0,
        focus_as_saved(bytes_of(source), block),
        focus_read(bytes_of(source), f, block, tree_id, shared, start),
        copied_from(u, f),
    ensures
        update_refusal(items, path, id, u) is None,
        saved_as(bytes_of(source), focus_edits(bytes_of(source), items, id, u), r) ==> (r matches Ok(text)
            && text@ == source@),
{
    let b = bytes_of(source);
    crate::technology_saving::lemma_plain_trimmed(block.items@, "id"@);
    lemma_read_changes_nothing(b, block, tree_id, shared, start, f, u);
    if saved_as(b, focus_edits(b, items, id, u), r) {
        let cs = focus_runs(b, block, u)->0;
        lemma_nothing_hands_on_nothing(b, block, cs);
        law_nothing_changed_keeps_the_file(source, block, cs, r);
    }
}

} // verus!
