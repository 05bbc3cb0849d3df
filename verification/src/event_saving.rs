//! Saving an event exactly as it was read: read out of a block written the
//! way `update_source` writes one, an event saved unchanged leaves the file
//! byte for byte as it was.
use crate::error::EditError;
use crate::events::{
    event_edits, event_kind, event_read, event_runs, event_scalars, events_with_id_spec, kind_views,
    lemma_option_attempt, lemma_text_attempt, option_attempts, option_read, option_rewrite, renamed,
    shown, text_attempts, text_rewrite, texts_spec, update_refusal, validate_spec, Event,
    EventOption, EventUpdate,
};
use crate::ideology_saving::{
    all_trimmed, body_as_saved, lemma_body_read, lemma_empty_runs, lemma_plain_field,
    lemma_trim_empty, plain_field,
};
use crate::paradox::edit::{block_body_spec, body_fits, scalar_change_spec, ChangeView};
use crate::paradox::lexer::needs_quotes_spec;
use crate::paradox::parser::pairs_with;
use crate::paradox::{Block, Item, Pair, Span, Value};
use crate::script::{
    all_some, beyond, block_values, extra_removals, handed_on, kept_values,
    law_nothing_changed_keeps_the_file, lemma_nothing_hands_on_nothing, saved_as, text_or_empty,
    then_runs,
};
use crate::technology_saving::{lemma_then_nothing, nothing_run};
use crate::text::{bytes_of, eq_ignore_ascii_case_spec, trim_spec, views};
use vstd::prelude::*;

verus! {

/// A repeated text as it is saved: each entry shown as a non-empty text
/// with no outer whitespace.
pub open spec fn texts_as_saved(b: Seq<u8>, items: Seq<Item>, key: Seq<char>) -> bool {
    let ps = pairs_with(items, key);
    forall|k: int| 0 <= k < ps.len() ==> body_fits(b, (#[trigger] ps[k]).value) && trim_spec(
        block_body_spec(b, ps[k].value),
    ) == block_body_spec(b, ps[k].value) && block_body_spec(b, ps[k].value).len() > 0
}

/// The options as they are saved: each a block whose name is a plain field.
pub open spec fn options_as_saved(items: Seq<Item>) -> bool {
    let ps = pairs_with(items, "option"@);
    forall|k: int| 0 <= k < ps.len() ==> ((#[trigger] ps[k]).value matches Value::Block(inner) && plain_field(
        inner.items@,
        "name"@,
    ))
}

/// An event block written the way `update_source` saves one: every field
/// it edits either absent or in the form it writes.
pub open spec fn event_as_saved(b: Seq<u8>, block: Block) -> bool {
    let items = block.items@;
    &&& plain_field(items, "id"@)
    &&& texts_as_saved(b, items, "title"@)
    &&& texts_as_saved(b, items, "desc"@)
    &&& plain_field(items, "picture"@)
    &&& plain_field(items, "fire_only_once"@)
    &&& plain_field(items, "is_triggered_only"@)
    &&& plain_field(items, "hidden"@)
    &&& plain_field(items, "major"@)
    &&& plain_field(items, "timeout_days"@)
    &&& body_as_saved(b, items, "trigger"@)
    &&& body_as_saved(b, items, "mean_time_to_happen"@)
    &&& body_as_saved(b, items, "immediate"@)
    &&& options_as_saved(items)
}

/// Every field of an update copied from an event as read.
pub open spec fn copied_from(u: EventUpdate, e: Event) -> bool {
    &&& u.kind@ == e.kind@
    &&& u.id@ == e.id@
    &&& u.titles@ == e.titles@
    &&& u.descs@ == e.descs@
    &&& u.picture@ == e.picture@
    &&& u.fire_only_once@ == e.fire_only_once@
    &&& u.is_triggered_only@ == e.is_triggered_only@
    &&& u.hidden@ == e.hidden@
    &&& u.major@ == e.major@
    &&& u.timeout_days@ == e.timeout_days@
    &&& u.trigger@ == e.trigger@
    &&& u.mean_time_to_happen@ == e.mean_time_to_happen@
    &&& u.immediate@ == e.immediate@
    &&& u.options@ == e.options@
}

/// Texts with no outer whitespace, none empty, are all kept as they are.
pub(crate) proof fn lemma_kept_values_keep(ns: Seq<Seq<char>>)
    requires
        all_trimmed(ns),
    ensures
        kept_values(ns) == ns,
    decreases ns.len(),
{
    if ns.len() > 0 {
        assert forall|k: int| 0 <= k < ns.drop_last().len() implies #[trigger] trim_spec(ns.drop_last()[k])
            == ns.drop_last()[k] && ns.drop_last()[k].len() > 0 by {
            assert(ns.drop_last()[k] == ns[k]);
        }
        lemma_kept_values_keep(ns.drop_last());
        assert(trim_spec(ns[ns.len() - 1]) == ns[ns.len() - 1]);
        assert(ns.drop_last() + seq![ns.last()] =~= ns);
    }
}

/// Changes that can all be made and are all `Nothing`.
pub(crate) proof fn lemma_all_some_nothing(cs: Seq<Option<ChangeView>>)
    requires
        forall|k: int| 0 <= k < cs.len() ==> #[trigger] cs[k] == Some(ChangeView::Nothing),
    ensures
        nothing_run(all_some(cs)),
    decreases cs.len(),
{
    if cs.len() > 0 {
        assert forall|k: int| 0 <= k < cs.drop_last().len() implies #[trigger] cs.drop_last()[k] == Some(
            ChangeView::Nothing,
        ) by {
            assert(cs.drop_last()[k] == cs[k]);
        }
        lemma_all_some_nothing(cs.drop_last());
        assert(cs[cs.len() - 1] == Some(ChangeView::Nothing));
        let done = all_some(cs.drop_last())->0;
        assert forall|i: int| 0 <= i < done.push(ChangeView::Nothing).len() implies done.push(
            ChangeView::Nothing,
        )[i] == ChangeView::Nothing by {
            if i < done.len() {
                assert(done.push(ChangeView::Nothing)[i] == done[i]);
            }
        }
    }
}

/// A repeated text set to the texts read changes nothing.
#[verifier::rlimit(40)]
proof fn lemma_texts_read(b: Seq<u8>, block: Block, key: Seq<char>, values: Seq<String>)
    requires
        texts_as_saved(b, block.items@, key),
        views(values) == texts_spec(b, block.items@, key),
    ensures
        nothing_run(
            all_some(
                text_attempts(b, block, pairs_with(block.items@, key), key, kept_values(views(values))),
            ),
        ),
{
    let ps = pairs_with(block.items@, key);
    let ts = texts_spec(b, block.items@, key);
    assert forall|k: int| 0 <= k < ts.len() implies #[trigger] trim_spec(ts[k]) == ts[k] && ts[k].len() > 0 by {
        assert(body_fits(b, ps[k].value));
    }
    lemma_kept_values_keep(ts);
    let w = kept_values(views(values));
    assert(w == ts);
    let cs = text_attempts(b, block, ps, key, w);
    lemma_text_attempt(b, block, ps, key, w, 0);
    assert(beyond(ps.len(), ps.len()) == 0);
    assert(extra_removals(b, ps, w.len()).len() == 0);
    assert forall|at: int| 0 <= at < cs.len() implies #[trigger] cs[at] == Some(ChangeView::Nothing) by {
        lemma_text_attempt(b, block, ps, key, w, at);
        assert(body_fits(b, ps[at].value));
        assert(text_rewrite(b, ps[at], w[at]) == Some(ChangeView::Nothing));
    }
    lemma_all_some_nothing(cs);
}

/// The options set to those read change nothing.
#[verifier::rlimit(40)]
proof fn lemma_options_read(b: Seq<u8>, block: Block, options: Seq<EventOption>)
    requires
        options_as_saved(block.items@),
        options.len() == block_values(pairs_with(block.items@, "option"@)).len(),
        forall|k: int| 0 <= k < options.len() ==> option_read(b, #[trigger] options[k], block_values(pairs_with(block.items@, "option"@))[k]),
    ensures
        all_runs_of_options(b, block, options) == Some(Seq::<ChangeView>::empty()),
{
    let ps = pairs_with(block.items@, "option"@);
    crate::technology_saving::lemma_block_values_all(ps);
    let rs = option_attempts(b, block, ps, options);
    lemma_option_attempt(b, block, ps, options, 0);
    assert(beyond(ps.len(), options.len()) == 0);
    assert(beyond(options.len(), ps.len()) == 0);
    assert forall|at: int| 0 <= at < rs.len() implies #[trigger] rs[at] == Some(Seq::<ChangeView>::empty()) by {
        lemma_option_attempt(b, block, ps, options, at);
        let o = options[at];
        let inner = ps[at].value->Block_0;
        assert(option_read(b, o, block_values(ps)[at]));
        assert(block_values(ps)[at] == inner);
        let t = crate::script::kept_text(b, inner, pairs_with(inner.items@, "name"@));
        if crate::paradox::edit::tidy_fits(t) {
            crate::text::lemma_trim_idempotent(
                crate::text::join(
                    crate::paradox::edit::dedent_spec(
                        vstd::utf8::encode_utf8(crate::paradox::edit::strip_breaks(t)),
                    ),
                    seq!['\n'],
                ),
            );
        } else {
            lemma_trim_empty();
        }
        assert(trim_spec(o.body@) == o.body@);
        lemma_plain_field(b, inner, "name"@);
        assert(renamed(b, inner, o) =~= Seq::<(Span, Seq<char>)>::empty());
        assert(handed_on(Seq::<(Span, Seq<char>)>::empty()) =~= Seq::<ChangeView>::empty());
        assert(option_rewrite(b, ps[at], o) == Some(Seq::<ChangeView>::empty()));
    }
    lemma_empty_runs(rs);
}

/// What `event_runs` makes of the options.
pub open spec fn all_runs_of_options(b: Seq<u8>, block: Block, options: Seq<EventOption>) -> Option<Seq<ChangeView>> {
    crate::script::all_runs(option_attempts(b, block, pairs_with(block.items@, "option"@), options))
}

/// An update copied from an event read out of a block written as it is
/// saved changes nothing inside that block.
#[verifier::rlimit(60)]
proof fn lemma_read_changes_nothing(b: Seq<u8>, block: Block, kind: Seq<char>, start: int, e: Event, u: EventUpdate)
    requires
        event_read(b, e, kind, block, start),
        copied_from(u, e),
        event_as_saved(b, block),
    ensures
        nothing_run(event_runs(b, block, u)),
{
    let items = block.items@;
    lemma_plain_field(b, block, "id"@);
    crate::technology_saving::lemma_plain_trimmed(items, "id"@);
    lemma_texts_read(b, block, "title"@, u.titles@);
    lemma_texts_read(b, block, "desc"@, u.descs@);
    lemma_plain_field(b, block, "picture"@);
    lemma_plain_field(b, block, "fire_only_once"@);
    lemma_plain_field(b, block, "is_triggered_only"@);
    lemma_plain_field(b, block, "hidden"@);
    lemma_plain_field(b, block, "major"@);
    lemma_plain_field(b, block, "timeout_days"@);
    lemma_body_read(b, block, "trigger"@);
    lemma_body_read(b, block, "mean_time_to_happen"@);
    lemma_body_read(b, block, "immediate"@);
    lemma_options_read(b, block, u.options@);
    let r0 = Some(seq![scalar_change_spec(b, block, "id"@, trim_spec(u.id@))]);
    assert(nothing_run(r0));
    let x1 = all_some(
        text_attempts(b, block, pairs_with(items, "title"@), "title"@, kept_values(views(u.titles@))),
    );
    lemma_then_nothing(r0, x1);
    let r1 = then_runs(r0, x1);
    let x2 = all_some(
        text_attempts(b, block, pairs_with(items, "desc"@), "desc"@, kept_values(views(u.descs@))),
    );
    lemma_then_nothing(r1, x2);
    let r2 = then_runs(r1, x2);
    let x3 = Some(event_scalars(b, block, u));
    assert(nothing_run(x3));
    lemma_then_nothing(r2, x3);
    let r3 = then_runs(r2, x3);
    let c1 = crate::script::checked_block(b, block, "trigger"@, u.trigger@);
    let c2 = crate::script::checked_block(b, block, "mean_time_to_happen"@, u.mean_time_to_happen@);
    let c3 = crate::script::checked_block(b, block, "immediate"@, u.immediate@);
    assert(nothing_run(c1));
    assert(nothing_run(c2));
    assert(nothing_run(c3));
    lemma_then_nothing(c1, c2);
    lemma_then_nothing(then_runs(c1, c2), c3);
    let c = then_runs(then_runs(c1, c2), c3);
    lemma_then_nothing(r3, c);
    let r4 = then_runs(r3, c);
    let x5 = all_runs_of_options(b, block, u.options@);
    assert(nothing_run(x5));
    lemma_then_nothing(r4, x5);
    assert(event_runs(b, block, u) == then_runs(r4, x5));
}

/// Law: saving an event exactly as it was read changes no byte of the
/// file, wherever its block is written the way `update_source` writes one,
/// it is the one event with its id, and its kind and id are ones the editor
/// accepts. The update is not refused, and the text it saves is the source.
pub proof fn law_saving_an_event_as_read_keeps_the_file(
    source: &str,
    path: Seq<char>,
    items: Seq<Item>,
    id: Seq<char>,
    p: Pair,
    block: Block,
    start: int,
    e: Event,
    u: EventUpdate,
    r: Result<String, EditError>,
)
    requires
        events_with_id_spec(items, id) == seq![p],
        p.value == Value::Block(block),
        text_or_empty(block.items@, "id"@) == id,
        trim_spec(id) == id,
        id.len() > 0,
        !needs_quotes_spec(id),
        trim_spec(p.key@) == p.key@,
        event_kind(p.key@),
        event_as_saved(bytes_of(source), block),
        event_read(bytes_of(source), e, p.key@, block, start),
        copied_from(u, e),
    ensures
        update_refusal(items, path, id, u) is None,
        saved_as(bytes_of(source), event_edits(bytes_of(source), items, id, u), r) ==> (r matches Ok(text)
            && text@ == source@),
{
    let b = bytes_of(source);
    lemma_read_changes_nothing(b, block, p.key@, start, e, u);
    assert(validate_spec(u) is None);
    assert(eq_ignore_ascii_case_spec(p.key@, p.key@));
    assert(kind_views(b, p, trim_spec(u.kind@)) == Some(Seq::<(Span, Seq<char>)>::empty()));
    if saved_as(b, event_edits(b, items, id, u), r) {
        let cs = event_runs(b, block, u)->0;
        lemma_nothing_hands_on_nothing(b, block, cs);
        assert(Seq::<(Span, Seq<char>)>::empty() + Seq::<(Span, Seq<char>)>::empty()
            =~= Seq::<(Span, Seq<char>)>::empty());
        law_nothing_changed_keeps_the_file(source, block, cs, r);
    }
}

} // verus!
