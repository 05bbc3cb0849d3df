//! Saving a state exactly as it was read: read out of a block written the
//! way `update_source` writes one, a state saved unchanged leaves the file
//! byte for byte as it was.
use crate::error::EditError;
use crate::event_saving::lemma_kept_values_keep;
use crate::events::{scalar_values, shown, texts_spec};
use crate::ideology_saving::{
    body_as_saved, lemma_body_read, lemma_plain_field, lemma_trim_empty, plain_field,
};
use crate::paradox::edit::{block_body_spec, body_fits, ChangeView};
use crate::paradox::parser::{block_spec, find_spec, pairs_with, scalar_text};
use crate::paradox::{Block, Item, Pair, Span, Value};
use crate::script::{
    bare_scalars, beyond, checked_block, kept_values, law_nothing_changed_keeps_the_file,
    lemma_nothing_hands_on_nothing, saved_as, single_spaced, text_or_empty, then_runs,
};
use crate::state::{
    find_state_spec, history_runs, kept_points, render_history_spec, repeated_scalar_changes,
    state_edits, state_read, state_runs, state_scalars, update_refusal, victory_point_changes,
    State, StateUpdate,
};
use crate::technology_saving::{lemma_then_nothing, nothing_run};
use crate::text::{bytes_of, join, trim_spec, views};
use vstd::prelude::*;

verus! {

/// The provinces as they are saved: absent, or a block whose body is its
/// province ids on one line, single spaced.
pub open spec fn provinces_as_saved(b: Seq<u8>, items: Seq<Item>) -> bool {
    &&& body_as_saved(b, items, "provinces"@)
    &&& match find_spec(items, "provinces"@) {
        Some(p) => p.value matches Value::Block(c) && block_body_spec(b, p.value) == join(
            bare_scalars(c.items@),
            " "@,
        ),
        None => true,
    }
}

/// The entries under `key` as they are saved: each a scalar whose text is
/// not empty and has no outer whitespace.
pub open spec fn repeated_as_saved(items: Seq<Item>, key: Seq<char>) -> bool {
    forall|k: int|
        0 <= k < pairs_with(items, key).len() ==> ((#[trigger] pairs_with(items, key)[k]).value matches Value::Scalar(
            s,
        ) && trim_spec(scalar_text(s)) == scalar_text(s) && scalar_text(s).len() > 0)
}

/// The victory points as they are saved: each a block whose body is single
/// spaced and not empty.
pub open spec fn points_as_saved(b: Seq<u8>, items: Seq<Item>) -> bool {
    forall|k: int|
        0 <= k < pairs_with(items, "victory_points"@).len() ==> body_fits(
            b,
            (#[trigger] pairs_with(items, "victory_points"@)[k]).value,
        ) && single_spaced(block_body_spec(b, pairs_with(items, "victory_points"@)[k].value)) == block_body_spec(
            b,
            pairs_with(items, "victory_points"@)[k].value,
        ) && block_body_spec(b, pairs_with(items, "victory_points"@)[k].value).len() > 0
}

/// The history block as it is saved: absent, or a block with its owner and
/// controller plain fields, its cores and claims plain entries, its
/// buildings a block body and its victory points as above.
pub open spec fn history_as_saved(b: Seq<u8>, items: Seq<Item>) -> bool {
    match block_spec(items, "history"@) {
        None => true,
        Some(h) => {
            &&& plain_field(h.items@, "owner"@)
            &&& plain_field(h.items@, "controller"@)
            &&& repeated_as_saved(h.items@, "add_core_of"@)
            &&& repeated_as_saved(h.items@, "add_claim_by"@)
            &&& body_as_saved(b, h.items@, "buildings"@)
            &&& points_as_saved(b, h.items@)
        },
    }
}

/// A state block written the way `update_source` saves one: every field it
/// edits either absent or in the form it writes.
pub open spec fn state_as_saved(b: Seq<u8>, sb: Block) -> bool {
    let items = sb.items@;
    &&& plain_field(items, "id"@)
    &&& plain_field(items, "name"@)
    &&& plain_field(items, "manpower"@)
    &&& plain_field(items, "state_category"@)
    &&& plain_field(items, "local_supplies"@)
    &&& plain_field(items, "buildings_max_level_factor"@)
    &&& body_as_saved(b, items, "resources"@)
    &&& provinces_as_saved(b, items)
    &&& history_as_saved(b, items)
}

/// Every field of an update copied from a state as read.
pub open spec fn copied_from(u: StateUpdate, s: State) -> bool {
    &&& u.id@ == s.id@
    &&& u.name@ == s.name@
    &&& u.manpower@ == s.manpower@
    &&& u.state_category@ == s.state_category@
    &&& u.local_supplies@ == s.local_supplies@
    &&& u.buildings_max_level_factor@ == s.buildings_max_level_factor@
    &&& u.provinces@ == s.provinces@
    &&& u.resources@ == s.resources@
    &&& u.owner@ == s.owner@
    &&& u.controller@ == s.controller@
    &&& u.cores@ == s.cores@
    &&& u.claims@ == s.claims@
    &&& u.buildings@ == s.buildings@
    &&& u.victory_points@ == s.victory_points@
}

/// Scalar entries give one text each, in order.
proof fn lemma_scalar_values_all(ps: Seq<Pair>)
    requires
        forall|k: int| 0 <= k < ps.len() ==> (#[trigger] ps[k]).value is Scalar,
    ensures
        scalar_values(ps) == Seq::new(ps.len(), |k: int| scalar_text(ps[k].value->Scalar_0)),
    decreases ps.len(),
{
    if ps.len() > 0 {
        assert forall|k: int| 0 <= k < ps.drop_last().len() implies (#[trigger] ps.drop_last()[k]).value is Scalar by {
            assert(ps.drop_last()[k] == ps[k]);
        }
        lemma_scalar_values_all(ps.drop_last());
        assert(ps[ps.len() - 1].value is Scalar);
        assert(scalar_values(ps) =~= Seq::new(ps.len(), |k: int| scalar_text(ps[k].value->Scalar_0)));
    }
}

/// Repeated plain entries set to those read change nothing.
proof fn lemma_repeated_read(b: Seq<u8>, h: Block, key: Seq<char>)
    requires
        repeated_as_saved(h.items@, key),
    ensures
        forall|i: int|
            0 <= i < repeated_scalar_changes(
                b,
                pairs_with(h.items@, key),
                key,
                kept_values(scalar_values(pairs_with(h.items@, key))),
            ).len() ==> #[trigger] repeated_scalar_changes(
                b,
                pairs_with(h.items@, key),
                key,
                kept_values(scalar_values(pairs_with(h.items@, key))),
            )[i] == ChangeView::Nothing,
{
    let ps = pairs_with(h.items@, key);
    assert forall|k: int| 0 <= k < ps.len() implies (#[trigger] ps[k]).value is Scalar by {
        assert(repeated_as_saved(h.items@, key));
    }
    lemma_scalar_values_all(ps);
    let vs = scalar_values(ps);
    assert forall|k: int| 0 <= k < vs.len() implies #[trigger] trim_spec(vs[k]) == vs[k] && vs[k].len() > 0 by {
        assert(ps[k].value matches Value::Scalar(s) && trim_spec(scalar_text(s)) == scalar_text(s)
            && scalar_text(s).len() > 0);
    }
    lemma_kept_values_keep(vs);
    assert(beyond(ps.len(), vs.len()) == 0);
    assert(beyond(vs.len(), ps.len()) == 0);
}

/// Single-spaced points, none empty, are all kept as they are.
proof fn lemma_points_keep(ns: Seq<Seq<char>>)
    requires
        forall|k: int| 0 <= k < ns.len() ==> single_spaced(#[trigger] ns[k]) == ns[k] && ns[k].len() > 0,
    ensures
        kept_points(ns) == ns,
    decreases ns.len(),
{
    if ns.len() > 0 {
        assert forall|k: int| 0 <= k < ns.drop_last().len() implies single_spaced(#[trigger] ns.drop_last()[k])
            == ns.drop_last()[k] && ns.drop_last()[k].len() > 0 by {
            assert(ns.drop_last()[k] == ns[k]);
        }
        lemma_points_keep(ns.drop_last());
        assert(single_spaced(ns[ns.len() - 1]) == ns[ns.len() - 1]);
        assert(ns.drop_last() + seq![ns.last()] =~= ns);
    }
}

/// Victory points set to those read change nothing.
proof fn lemma_points_read(b: Seq<u8>, h: Block)
    requires
        points_as_saved(b, h.items@),
    ensures
        forall|i: int|
            0 <= i < victory_point_changes(
                b,
                pairs_with(h.items@, "victory_points"@),
                kept_points(texts_spec(b, h.items@, "victory_points"@)),
            ).len() ==> #[trigger] victory_point_changes(
                b,
                pairs_with(h.items@, "victory_points"@),
                kept_points(texts_spec(b, h.items@, "victory_points"@)),
            )[i] == ChangeView::Nothing,
{
    let ps = pairs_with(h.items@, "victory_points"@);
    let ts = texts_spec(b, h.items@, "victory_points"@);
    assert forall|k: int| 0 <= k < ts.len() implies single_spaced(#[trigger] ts[k]) == ts[k] && ts[k].len() > 0 by {
        assert(body_fits(b, ps[k].value));
        assert(ts[k] == shown(b, ps[k].value));
    }
    lemma_points_keep(ts);
    assert(beyond(ps.len(), ts.len()) == 0);
    assert(beyond(ts.len(), ps.len()) == 0);
    assert forall|k: int| 0 <= k < ps.len() implies body_fits(b, (#[trigger] ps[k]).value)
        && block_body_spec(b, ps[k].value) == ts[k] by {
        assert(body_fits(b, ps[k].value));
    }
}

/// An update copied from a state read out of a block written as it is
/// saved changes nothing inside that block.
#[verifier::rlimit(60)]
proof fn lemma_read_changes_nothing(b: Seq<u8>, sb: Block, start: int, s: State, u: StateUpdate)
    requires
        state_read(b, s, sb, start),
        copied_from(u, s),
        state_as_saved(b, sb),
    ensures
        nothing_run(state_runs(b, sb, u)),
{
    let items = sb.items@;
    lemma_trim_empty();
    lemma_plain_field(b, sb, "id"@);
    lemma_plain_field(b, sb, "name"@);
    lemma_plain_field(b, sb, "manpower"@);
    lemma_plain_field(b, sb, "state_category"@);
    lemma_plain_field(b, sb, "local_supplies"@);
    lemma_plain_field(b, sb, "buildings_max_level_factor"@);
    lemma_body_read(b, sb, "resources"@);
    lemma_body_read(b, sb, "provinces"@);
    match find_spec(items, "provinces"@) {
        Some(p) => {
            assert(views(u.provinces@) == crate::script::words_spec(items, "provinces"@));
        },
        None => {
            assert(join(Seq::<Seq<char>>::empty(), " "@) == Seq::<char>::empty());
        },
    }
    assert(join(views(u.provinces@), " "@) == crate::script::body_or_empty(b, items, "provinces"@));
    let r1 = Some(state_scalars(b, sb, u));
    assert(nothing_run(r1));
    let x2 = checked_block(b, sb, "resources"@, u.resources@);
    assert(nothing_run(x2));
    lemma_then_nothing(r1, x2);
    let x3 = checked_block(b, sb, "provinces"@, join(views(u.provinces@), " "@));
    assert(nothing_run(x3));
    lemma_then_nothing(then_runs(r1, x2), x3);
    let x4 = if block_spec(items, "history"@) is None && render_history_spec(u).len() != 0 {
        checked_block(b, sb, "history"@, render_history_spec(u))
    } else {
        Some(Seq::empty())
    };
    if block_spec(items, "history"@) is None {
        assert(views(u.cores@) =~= Seq::<Seq<char>>::empty());
        assert(views(u.claims@) =~= Seq::<Seq<char>>::empty());
        assert(views(u.victory_points@) =~= Seq::<Seq<char>>::empty());
        assert(crate::script::scalar_line("owner"@, u.owner@) =~= Seq::<Seq<char>>::empty());
        assert(crate::script::scalar_line("controller"@, u.controller@) =~= Seq::<Seq<char>>::empty());
        assert(crate::state::buildings_lines(u.buildings@) =~= Seq::<Seq<char>>::empty());
        assert(render_history_spec(u) =~= Seq::<char>::empty());
    }
    assert(nothing_run(x4));
    lemma_then_nothing(then_runs(then_runs(r1, x2), x3), x4);
    assert(state_runs(b, sb, u) == then_runs(then_runs(then_runs(r1, x2), x3), x4));
}

/// An update copied from a state read out of a block written as it is
/// saved changes nothing inside its history block.
#[verifier::rlimit(60)]
proof fn lemma_history_changes_nothing(b: Seq<u8>, sb: Block, h: Block, start: int, s: State, u: StateUpdate)
    requires
        state_read(b, s, sb, start),
        copied_from(u, s),
        state_as_saved(b, sb),
        block_spec(sb.items@, "history"@) == Some(h),
    ensures
        nothing_run(history_runs(b, h, u)),
{
    lemma_plain_field(b, h, "owner"@);
    lemma_plain_field(b, h, "controller"@);
    lemma_repeated_read(b, h, "add_core_of"@);
    lemma_repeated_read(b, h, "add_claim_by"@);
    lemma_body_read(b, h, "buildings"@);
    lemma_points_read(b, h);
    let n = ChangeView::Nothing;
    let cores = repeated_scalar_changes(b, pairs_with(h.items@, "add_core_of"@), "add_core_of"@, kept_values(views(u.cores@)));
    let claims = repeated_scalar_changes(b, pairs_with(h.items@, "add_claim_by"@), "add_claim_by"@, kept_values(views(u.claims@)));
    let first = seq![
        crate::paradox::edit::scalar_change_spec(b, h, "owner"@, u.owner@),
        crate::paradox::edit::scalar_change_spec(b, h, "controller"@, u.controller@),
    ] + cores + claims;
    assert forall|i: int| 0 <= i < first.len() implies first[i] == ChangeView::Nothing by {
        if i >= 2 && i < 2 + cores.len() {
            assert(first[i] == cores[i - 2]);
        } else if i >= 2 + cores.len() {
            assert(first[i] == claims[i - 2 - cores.len()]);
        }
    }
    assert(nothing_run(Some(first)));
    let x2 = checked_block(b, h, "buildings"@, u.buildings@);
    assert(nothing_run(x2));
    lemma_then_nothing(Some(first), x2);
    let x3 = Some(victory_point_changes(b, pairs_with(h.items@, "victory_points"@), kept_points(views(u.victory_points@))));
    assert(nothing_run(x3));
    lemma_then_nothing(then_runs(Some(first), x2), x3);
}

/// Law: saving a state exactly as it was read changes no byte of the file,
/// wherever its block is written the way `update_source` writes one and
/// its id field says the id it is found by. The update is not refused,
/// whatever other file is named as holding a state id, and the text it
/// saves is the source.
pub proof fn law_saving_a_state_as_read_keeps_the_file(
    source: &str,
    path: Seq<char>,
    items: Seq<Item>,
    id: Seq<char>,
    p: Pair,
    sb: Block,
    start: int,
    s: State,
    u: StateUpdate,
    sibling: Option<Seq<char>>,
    r: Result<String, EditError>,
)
    requires
        find_state_spec(items, id) == Some(p),
        p.value == Value::Block(sb),
        text_or_empty(sb.items@, "id"@) == id,
        id.len() > 0,
        state_as_saved(bytes_of(source), sb),
        state_read(bytes_of(source), s, sb, start),
        copied_from(u, s),
    ensures
        update_refusal(items, path, id, u, sibling) is None,
        saved_as(bytes_of(source), state_edits(bytes_of(source), items, id, u), r) ==> (r matches Ok(text)
            && text@ == source@),
{
    let b = bytes_of(source);
    crate::technology_saving::lemma_plain_trimmed(sb.items@, "id"@);
    lemma_read_changes_nothing(b, sb, start, s, u);
    let cs = state_runs(b, sb, u)->0;
    lemma_nothing_hands_on_nothing(b, sb, cs);
    match block_spec(sb.items@, "history"@) {
        Some(h) => {
            lemma_history_changes_nothing(b, sb, h, start, s, u);
            lemma_nothing_hands_on_nothing(b, h, history_runs(b, h, u)->0);
        },
        None => {},
    }
    let e = Seq::<(Span, Seq<char>)>::empty();
    assert(e + e =~= e);
    if saved_as(b, state_edits(b, items, id, u), r) {
        law_nothing_changed_keeps_the_file(source, sb, cs, r);
    }
}

} // verus!
