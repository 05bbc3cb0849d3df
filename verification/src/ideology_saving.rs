//! Saving an ideology exactly as it was read: read out of a block written
//! the way `update_source` writes one, an ideology saved unchanged leaves
//! the file byte for byte as it was.
use crate::error::EditError;
use crate::ideologies::{
    ai_behaviour_spec, colour_change, first_bad_sub, find_ideology_spec, flag_for, flagged,
    ideology_edits, ideology_read, ideology_runs, ideology_scalars,
    known_behaviour, law_unchanged_ideology_keeps_the_file, lemma_type_attempt, names_change,
    rule_pairs, rule_read, rule_removals, rule_sets, rule_wanted, rules_change, rules_edits,
    sub_read, type_attempts, type_pairs, types_change, update_refusal, validate_spec, wanted_names,
    wanted_rules, wants_type_spec, Ideology, IdeologyUpdate, Rule, SubIdeology,
};
use crate::paradox::edit::{block_body_spec, body_fits, layout_fits, scalar_change_spec, ChangeView};
use crate::paradox::lexer::needs_quotes_spec;
use crate::paradox::parser::{find_spec, pairs_of, scalar_text};
use crate::paradox::{Block, Item, Pair, Span, Value};
use crate::script::{
    all_runs, block_pairs, body_or_empty, checked_block, finished, handed_on, record_all, saved_as,
    says_yes, scalar_pairs, single_spaced, text_or_empty, words_spec,
};
use crate::text::{bytes_of, eq_ignore_ascii_case_spec, join, text_at, trim_spec, views};
use vstd::prelude::*;
use vstd::utf8::encode_utf8;

verus! {


/// A field written as `set_scalar` writes it: absent, or assigned a scalar
/// whose text has no outer whitespace.
pub open spec fn plain_field(items: Seq<Item>, key: Seq<char>) -> bool {
    match find_spec(items, key) {
        None => true,
        Some(p) => crate::paradox::parser::is_assignment(p) && (p.value matches Value::Scalar(s)
            && trim_spec(scalar_text(s)) == scalar_text(s)),
    }
}

/// An AI behaviour flag written as it is saved: absent, or `= yes`.
pub open spec fn flag_field(items: Seq<Item>, key: Seq<char>) -> bool {
    match find_spec(items, key) {
        None => true,
        Some(p) => crate::paradox::parser::is_assignment(p) && (p.value matches Value::Scalar(s)
            && scalar_text(s) == "yes"@),
    }
}

/// One when a pair with the key is there.
pub open spec fn present(items: Seq<Item>, key: Seq<char>) -> int {
    if find_spec(items, key) is Some {
        1
    } else {
        0
    }
}

/// The AI behaviour flags as they are saved: each absent or `= yes`, and at
/// most one of them there.
pub open spec fn behaviour_as_saved(items: Seq<Item>) -> bool {
    &&& flag_field(items, "ai_democratic"@)
    &&& flag_field(items, "ai_communist"@)
    &&& flag_field(items, "ai_fascist"@)
    &&& flag_field(items, "ai_neutral"@)
    &&& present(items, "ai_democratic"@) + present(items, "ai_communist"@) + present(items, "ai_fascist"@)
        + present(items, "ai_neutral"@) <= 1
}

/// The colour as it is saved: absent, or a body with at least one number.
pub open spec fn colour_as_saved(b: Seq<u8>, items: Seq<Item>) -> bool {
    find_spec(items, "color"@) is None || single_spaced(body_or_empty(b, items, "color"@)).len() > 0
}

/// A block field as it is saved: absent, or a block whose body can be
/// shown and laid out again.
pub open spec fn body_as_saved(b: Seq<u8>, items: Seq<Item>, key: Seq<char>) -> bool {
    match find_spec(items, key) {
        None => true,
        Some(p) => p.value is Block && body_fits(b, p.value) && layout_fits(block_body_spec(b, p.value)),
    }
}

/// Texts with no outer whitespace, none of them empty.
pub open spec fn all_trimmed(ns: Seq<Seq<char>>) -> bool {
    forall|k: int| 0 <= k < ns.len() ==> #[trigger] trim_spec(ns[k]) == ns[k] && ns[k].len() > 0
}

/// The faction names as they are saved: absent, or a block of names with
/// no outer whitespace.
pub open spec fn names_as_saved(items: Seq<Item>) -> bool {
    match find_spec(items, "dynamic_faction_names"@) {
        None => true,
        Some(p) => p.value matches Value::Block(c) && all_trimmed(crate::script::bare_scalars(c.items@)),
    }
}

/// A sub-ideology as it is saved: a block under a plain id that no pair
/// before it in the types block has, its flag a plain field.
pub open spec fn sub_as_saved(tb: Block, p: Pair) -> bool {
    &&& p.value is Block
    &&& trim_spec(p.key@) == p.key@
    &&& p.key@.len() > 0
    &&& !needs_quotes_spec(p.key@)
    &&& find_spec(tb.items@, p.key@) == Some(p)
    &&& plain_field(p.value->Block_0.items@, "can_be_randomly_selected"@)
}

/// The sub-ideologies as they are saved: absent, or a types block of them.
pub open spec fn types_as_saved(items: Seq<Item>) -> bool {
    match find_spec(items, "types"@) {
        None => true,
        Some(p) => p.value matches Value::Block(tb) && forall|k: int|
            0 <= k < pairs_of(tb.items@).len() ==> sub_as_saved(tb, #[trigger] pairs_of(tb.items@)[k]),
    }
}

/// A rule as it is saved: a plain key that no pair before it in the rules
/// block has, assigned a plain, non-empty scalar.
pub open spec fn rule_as_saved(rb: Block, p: Pair) -> bool {
    &&& p.value matches Value::Scalar(s) && trim_spec(scalar_text(s)) == scalar_text(s)
        && scalar_text(s).len() > 0
    &&& trim_spec(p.key@) == p.key@
    &&& p.key@.len() > 0
    &&& find_spec(rb.items@, p.key@) == Some(p)
}

/// The rules as they are saved: absent, or a rules block of them.
pub open spec fn rules_as_saved(items: Seq<Item>) -> bool {
    match find_spec(items, "rules"@) {
        None => true,
        Some(p) => p.value matches Value::Block(rb) && forall|k: int|
            0 <= k < pairs_of(rb.items@).len() ==> rule_as_saved(rb, #[trigger] pairs_of(rb.items@)[k]),
    }
}

/// An ideology block written the way `update_source` saves one: every field
/// it edits either absent or in the form it writes.
pub open spec fn ideology_as_saved(b: Seq<u8>, block: Block) -> bool {
    let items = block.items@;
    &&& colour_as_saved(b, items)
    &&& types_as_saved(items)
    &&& names_as_saved(items)
    &&& plain_field(items, "war_impact_on_world_tension"@)
    &&& plain_field(items, "faction_impact_on_world_tension"@)
    &&& plain_field(items, "can_host_government_in_exile"@)
    &&& plain_field(items, "can_be_boosted"@)
    &&& plain_field(items, "can_collaborate"@)
    &&& behaviour_as_saved(items)
    &&& plain_field(items, "ai_ideology_wanted_units_factor"@)
    &&& rules_as_saved(items)
    &&& body_as_saved(b, items, "modifiers"@)
    &&& body_as_saved(b, items, "faction_modifiers"@)
}

/// Every field of an update copied from an ideology as read.
pub open spec fn copied_from(u: IdeologyUpdate, i: Ideology) -> bool {
    &&& u.id@ == i.id@
    &&& u.color@ == i.color@
    &&& u.types@ == i.types@
    &&& u.dynamic_faction_names@ == i.dynamic_faction_names@
    &&& u.war_impact_on_world_tension@ == i.war_impact_on_world_tension@
    &&& u.faction_impact_on_world_tension@ == i.faction_impact_on_world_tension@
    &&& u.can_host_government_in_exile@ == i.can_host_government_in_exile@
    &&& u.can_be_boosted@ == i.can_be_boosted@
    &&& u.can_collaborate@ == i.can_collaborate@
    &&& u.ai_behaviour@ == i.ai_behaviour@
    &&& u.ai_ideology_wanted_units_factor@ == i.ai_ideology_wanted_units_factor@
    &&& u.rules@ == i.rules@
    &&& u.modifiers@ == i.modifiers@
    &&& u.faction_modifiers@ == i.faction_modifiers@
}

pub(crate) proof fn lemma_trim_empty()
    ensures
        trim_spec(Seq::<char>::empty()) == Seq::<char>::empty(),
{
    crate::text::lemma_trim_exact(Seq::<char>::empty(), 0, 0);
    assert(Seq::<char>::empty().subrange(0, 0) =~= Seq::<char>::empty());
}

/// A text with no whitespace at either end is its own trim.
pub(crate) proof fn lemma_trimmed_word(t: Seq<char>)
    requires
        t.len() > 0,
        !crate::text::is_ws(t[0]),
        !crate::text::is_ws(t.last()),
    ensures
        trim_spec(t) == t,
{
    crate::text::lemma_trim_exact(t, 0, t.len() as int);
    assert(t.subrange(0, t.len() as int) =~= t);
}

/// A plain field set to what reading it gives changes nothing.
pub(crate) proof fn lemma_plain_field(b: Seq<u8>, block: Block, key: Seq<char>)
    requires
        plain_field(block.items@, key),
    ensures
        scalar_change_spec(b, block, key, text_or_empty(block.items@, key)) == ChangeView::Nothing,
{
    lemma_trim_empty();
}

/// A flag written as it is saved says yes exactly when it is there, and
/// setting it as it reads changes nothing.
proof fn lemma_flag_field(b: Seq<u8>, block: Block, key: Seq<char>)
    requires
        flag_field(block.items@, key),
    ensures
        says_yes(block.items@, key) == (find_spec(block.items@, key) is Some),
        find_spec(block.items@, key) is Some ==> scalar_change_spec(b, block, key, "yes"@) == ChangeView::Nothing,
        find_spec(block.items@, key) is None ==> scalar_change_spec(b, block, key, Seq::empty()) == ChangeView::Nothing,
{
    reveal_strlit("yes");
    lemma_trim_empty();
    lemma_trimmed_word("yes"@);
    assert(eq_ignore_ascii_case_spec("yes"@, "yes"@));
}

/// The AI behaviour flags set from the behaviour read change nothing, and
/// that behaviour passes validation.
proof fn lemma_flags(b: Seq<u8>, block: Block)
    requires
        behaviour_as_saved(block.items@),
    ensures
        ({
            let behaviour = trim_spec(ai_behaviour_spec(block.items@));
            &&& behaviour.len() == 0 || known_behaviour(behaviour)
            &&& scalar_change_spec(b, block, "ai_democratic"@, flag_for(behaviour, "democratic"@))
                == ChangeView::Nothing
            &&& scalar_change_spec(b, block, "ai_communist"@, flag_for(behaviour, "communist"@))
                == ChangeView::Nothing
            &&& scalar_change_spec(b, block, "ai_fascist"@, flag_for(behaviour, "fascist"@))
                == ChangeView::Nothing
            &&& scalar_change_spec(b, block, "ai_neutral"@, flag_for(behaviour, "neutral"@))
                == ChangeView::Nothing
        }),
{
    let items = block.items@;
    lemma_flag_field(b, block, "ai_democratic"@);
    lemma_flag_field(b, block, "ai_communist"@);
    lemma_flag_field(b, block, "ai_fascist"@);
    lemma_flag_field(b, block, "ai_neutral"@);
    reveal_strlit("democratic");
    reveal_strlit("communist");
    reveal_strlit("fascist");
    reveal_strlit("neutral");
    reveal_strlit("yes");
    reveal_strlit("");
    lemma_trim_empty();
    lemma_trimmed_word("democratic"@);
    lemma_trimmed_word("communist"@);
    lemma_trimmed_word("fascist"@);
    lemma_trimmed_word("neutral"@);
    assert(flag_for(Seq::empty(), "democratic"@) == Seq::<char>::empty());
    assert(flag_for(Seq::empty(), "communist"@) == Seq::<char>::empty());
    assert(flag_for(Seq::empty(), "fascist"@) == Seq::<char>::empty());
    assert(flag_for(Seq::empty(), "neutral"@) == Seq::<char>::empty());
    assert("democratic"@ != "communist"@ && "democratic"@ != "fascist"@ && "democratic"@ != "neutral"@);
    assert("communist"@ != "fascist"@ && "communist"@ != "neutral"@);
    assert("fascist"@[0] != "neutral"@[0]);
    assert("fascist"@ != "neutral"@);
}

/// The colour set to the body read changes nothing.
proof fn lemma_colour_read(b: Seq<u8>, block: Block)
    requires
        colour_as_saved(b, block.items@),
    ensures
        colour_change(b, block, body_or_empty(b, block.items@, "color"@)) == ChangeView::Nothing,
{
    assert(crate::script::words_from(Seq::<char>::empty(), 0, Seq::empty()) =~= Seq::<Seq<char>>::empty());
    assert(single_spaced(Seq::<char>::empty()) =~= Seq::<char>::empty());
}

/// A block field set to the body read changes nothing.
pub(crate) proof fn lemma_body_read(b: Seq<u8>, block: Block, key: Seq<char>)
    requires
        body_as_saved(b, block.items@, key),
    ensures
        checked_block(b, block, key, body_or_empty(b, block.items@, key)) == Some(seq![ChangeView::Nothing]),
{
    lemma_trim_empty();
    match find_spec(block.items@, key) {
        None => {
            assert(layout_fits(Seq::empty()));
        },
        Some(p) => {
            let body = block_body_spec(b, p.value);
            let bl = p.value->Block_0;
            crate::text::lemma_trim_idempotent(
                join(
                    crate::paradox::edit::dedent_spec(
                        encode_utf8(
                            crate::paradox::edit::strip_breaks(
                                text_at(b, bl.inner.start as int, bl.inner.end as int),
                            ),
                        ),
                    ),
                    seq!['\n'],
                ),
            );
            assert(trim_spec(body) == body);
        },
    }
}

/// Names with no outer whitespace, none empty, are all wanted as they are.
pub(crate) proof fn lemma_wanted_names_keep(ns: Seq<Seq<char>>)
    requires
        all_trimmed(ns),
    ensures
        wanted_names(ns) == ns,
    decreases ns.len(),
{
    if ns.len() > 0 {
        assert forall|k: int| 0 <= k < ns.drop_last().len() implies #[trigger] trim_spec(ns.drop_last()[k])
            == ns.drop_last()[k] && ns.drop_last()[k].len() > 0 by {
            assert(ns.drop_last()[k] == ns[k]);
        }
        lemma_wanted_names_keep(ns.drop_last());
        assert(trim_spec(ns[ns.len() - 1]) == ns[ns.len() - 1]);
        assert(ns.drop_last().push(ns.last()) =~= ns);
    }
}

/// The faction names set to those read change nothing.
proof fn lemma_names_read(b: Seq<u8>, block: Block)
    requires
        names_as_saved(block.items@),
    ensures
        names_change(b, block, words_spec(block.items@, "dynamic_faction_names"@)) == Some(ChangeView::Nothing),
{
    match find_spec(block.items@, "dynamic_faction_names"@) {
        None => {
            assert(wanted_names(Seq::<Seq<char>>::empty()) =~= Seq::<Seq<char>>::empty());
        },
        Some(p) => {
            let c = p.value->Block_0;
            lemma_wanted_names_keep(crate::script::bare_scalars(c.items@));
        },
    }
}

/// Pairs that all assign blocks are their own block pairs.
proof fn lemma_block_pairs_all(ps: Seq<Pair>)
    requires
        forall|k: int| 0 <= k < ps.len() ==> (#[trigger] ps[k]).value is Block,
    ensures
        block_pairs(ps) == ps,
    decreases ps.len(),
{
    if ps.len() > 0 {
        assert forall|k: int| 0 <= k < ps.drop_last().len() implies (#[trigger] ps.drop_last()[k]).value is Block by {
            assert(ps.drop_last()[k] == ps[k]);
        }
        lemma_block_pairs_all(ps.drop_last());
        assert(ps[ps.len() - 1].value is Block);
        assert(ps.drop_last().push(ps.last()) =~= ps);
    }
}

/// Pairs that all assign scalars are their own scalar pairs.
pub(crate) proof fn lemma_scalar_pairs_all(ps: Seq<Pair>)
    requires
        forall|k: int| 0 <= k < ps.len() ==> (#[trigger] ps[k]).value is Scalar,
    ensures
        scalar_pairs(ps) == ps,
    decreases ps.len(),
{
    if ps.len() > 0 {
        assert forall|k: int| 0 <= k < ps.drop_last().len() implies (#[trigger] ps.drop_last()[k]).value is Scalar by {
            assert(ps.drop_last()[k] == ps[k]);
        }
        lemma_scalar_pairs_all(ps.drop_last());
        assert(ps[ps.len() - 1].value is Scalar);
        assert(ps.drop_last().push(ps.last()) =~= ps);
    }
}

/// Runs that all make no change make none together.
pub(crate) proof fn lemma_empty_runs(rs: Seq<Option<Seq<ChangeView>>>)
    requires
        forall|k: int| 0 <= k < rs.len() ==> #[trigger] rs[k] == Some(Seq::<ChangeView>::empty()),
    ensures
        all_runs(rs) == Some(Seq::<ChangeView>::empty()),
    decreases rs.len(),
{
    if rs.len() > 0 {
        assert forall|k: int| 0 <= k < rs.drop_last().len() implies #[trigger] rs.drop_last()[k]
            == Some(Seq::<ChangeView>::empty()) by {
            assert(rs.drop_last()[k] == rs[k]);
        }
        lemma_empty_runs(rs.drop_last());
        assert(rs[rs.len() - 1] == Some(Seq::<ChangeView>::empty()));
        assert(Seq::<ChangeView>::empty() + Seq::<ChangeView>::empty() =~= Seq::<ChangeView>::empty());
    }
}

/// Sub-ideologies with plain ids pass validation.
proof fn lemma_no_bad_sub(types: Seq<SubIdeology>, i: int)
    requires
        forall|k: int| 0 <= k < types.len() ==> #[trigger] trim_spec(types[k].id@).len() > 0
            && !needs_quotes_spec(trim_spec(types[k].id@)),
    ensures
        first_bad_sub(types, i) is None,
    decreases types.len() - i,
{
    if 0 <= i < types.len() {
        assert(trim_spec(types[i].id@).len() > 0);
        lemma_no_bad_sub(types, i + 1);
    }
}

/// The sub-ideologies set to those read change nothing, and pass
/// validation.
#[verifier::rlimit(40)]
proof fn lemma_types_read(b: Seq<u8>, block: Block, types: Seq<SubIdeology>)
    requires
        types_as_saved(block.items@),
        types.len() == type_pairs(block.items@).len(),
        forall|k: int| 0 <= k < types.len() ==> sub_read(#[trigger] types[k], type_pairs(block.items@)[k]),
    ensures
        types_change(b, block, types) == Some(Seq::<ChangeView>::empty()),
        first_bad_sub(types, 0) is None,
{
    match find_spec(block.items@, "types"@) {
        None => {},
        Some(p) => {
            let tb = p.value->Block_0;
            let ps = pairs_of(tb.items@);
            assert forall|k: int| 0 <= k < ps.len() implies (#[trigger] ps[k]).value is Block by {
                assert(sub_as_saved(tb, ps[k]));
            }
            lemma_block_pairs_all(ps);
            assert(type_pairs(block.items@) == ps);
            let flag = "can_be_randomly_selected"@;
            assert forall|k: int| 0 <= k < types.len() implies #[trigger] trim_spec(types[k].id@).len() > 0
                && !needs_quotes_spec(trim_spec(types[k].id@)) by {
                assert(sub_read(types[k], ps[k]));
                assert(sub_as_saved(tb, ps[k]));
            }
            lemma_no_bad_sub(types, 0);
            let rs = type_attempts(b, tb, types);
            assert forall|at: int| 0 <= at < rs.len() implies #[trigger] rs[at] == Some(Seq::<ChangeView>::empty()) by {
                lemma_type_attempt(b, tb, types, at);
                if at < types.len() {
                    let s = types[at];
                    let sp = ps[at];
                    assert(sub_read(s, sp));
                    assert(sub_as_saved(tb, sp));
                    let sb = sp.value->Block_0;
                    lemma_plain_field(b, sb, flag);
                    assert(flagged(b, sb, s) =~= Seq::<(Span, Seq<char>)>::empty());
                    assert(handed_on(Seq::<(Span, Seq<char>)>::empty()) =~= Seq::<ChangeView>::empty());
                } else {
                    let k = at - types.len();
                    assert(sub_read(types[k], ps[k]));
                    assert(sub_as_saved(tb, ps[k]));
                    assert(trim_spec(types[k].id@) == ps[k].key@);
                    assert(wants_type_spec(types, ps[k].key@));
                }
            }
            lemma_type_attempt(b, tb, types, 0);
            lemma_empty_runs(rs);
            assert(finished(b, tb, record_all((Seq::empty(), Seq::empty()), Seq::<ChangeView>::empty()))
                =~= Seq::<(Span, Seq<char>)>::empty());
            assert(handed_on(Seq::<(Span, Seq<char>)>::empty()) =~= Seq::<ChangeView>::empty());
        },
    }
}

/// Rules with plain keys and values are all wanted as they are.
proof fn lemma_wanted_rules_keep(rs: Seq<Rule>)
    requires
        forall|k: int| 0 <= k < rs.len() ==> #[trigger] trim_spec(rs[k].key@) == rs[k].key@
            && rs[k].key@.len() > 0 && trim_spec(rs[k].value@) == rs[k].value@ && rs[k].value@.len() > 0,
    ensures
        wanted_rules(rs) == Seq::new(rs.len(), |k: int| (rs[k].key@, rs[k].value@)),
    decreases rs.len(),
{
    if rs.len() > 0 {
        assert forall|k: int| 0 <= k < rs.drop_last().len() implies #[trigger] trim_spec(rs.drop_last()[k].key@)
            == rs.drop_last()[k].key@ && rs.drop_last()[k].key@.len() > 0 && trim_spec(rs.drop_last()[k].value@)
            == rs.drop_last()[k].value@ && rs.drop_last()[k].value@.len() > 0 by {
            assert(rs.drop_last()[k] == rs[k]);
        }
        lemma_wanted_rules_keep(rs.drop_last());
        assert(trim_spec(rs[rs.len() - 1].key@) == rs[rs.len() - 1].key@);
        assert(wanted_rules(rs) =~= Seq::new(rs.len(), |k: int| (rs[k].key@, rs[k].value@)));
    }
}

/// The rules set to those read change nothing.
#[verifier::rlimit(40)]
proof fn lemma_rules_read(b: Seq<u8>, block: Block, rules: Seq<Rule>)
    requires
        rules_as_saved(block.items@),
        rules.len() == rule_pairs(block.items@).len(),
        forall|k: int| 0 <= k < rules.len() ==> rule_read(#[trigger] rules[k], rule_pairs(block.items@)[k]),
    ensures
        rules_change(b, block, wanted_rules(rules)) == Some(Seq::<ChangeView>::empty()),
{
    match find_spec(block.items@, "rules"@) {
        None => {
            assert(wanted_rules(rules) =~= Seq::<(Seq<char>, Seq<char>)>::empty());
        },
        Some(p) => {
            let rb = p.value->Block_0;
            let ps = pairs_of(rb.items@);
            assert forall|k: int| 0 <= k < ps.len() implies (#[trigger] ps[k]).value is Scalar by {
                assert(rule_as_saved(rb, ps[k]));
            }
            lemma_scalar_pairs_all(ps);
            assert(rule_pairs(block.items@) == ps);
            assert forall|k: int| 0 <= k < rules.len() implies #[trigger] trim_spec(rules[k].key@) == rules[k].key@
                && rules[k].key@.len() > 0 && trim_spec(rules[k].value@) == rules[k].value@
                && rules[k].value@.len() > 0 by {
                assert(rule_read(rules[k], ps[k]));
                assert(rule_as_saved(rb, ps[k]));
            }
            lemma_wanted_rules_keep(rules);
            let ws = wanted_rules(rules);
            let cs = rule_sets(b, rb, ws) + rule_removals(b, ps, ws);
            assert forall|k: int| 0 <= k < cs.len() implies cs[k] == ChangeView::Nothing by {
                if k < ws.len() {
                    assert(rule_read(rules[k], ps[k]));
                    assert(rule_as_saved(rb, ps[k]));
                    assert(cs[k] == scalar_change_spec(b, rb, ws[k].0, ws[k].1));
                } else {
                    let j = k - ws.len();
                    assert(rule_read(rules[j], ps[j]));
                    assert(eq_ignore_ascii_case_spec(ws[j].0, ps[j].key@));
                    assert(rule_wanted(ws, ps[j].key@));
                    assert(cs[k] == rule_removals(b, ps, ws)[j]);
                }
            }
            crate::script::lemma_nothing_hands_on_nothing(b, rb, cs);
            assert(rules_edits(b, rb, ws) =~= Seq::<(Span, Seq<char>)>::empty());
            assert(handed_on(Seq::<(Span, Seq<char>)>::empty()) =~= Seq::<ChangeView>::empty());
        },
    }
}

/// An update copied from an ideology read out of a block written as it is
/// saved changes nothing inside that block.
#[verifier::rlimit(40)]
proof fn lemma_read_changes_nothing(b: Seq<u8>, block: Block, id: Seq<char>, start: int, i: Ideology, u: IdeologyUpdate)
    requires
        ideology_read(b, i, id, block, start),
        copied_from(u, i),
        ideology_as_saved(b, block),
    ensures
        ideology_runs(b, block, u) matches Some(cs) && forall|k: int| 0 <= k < cs.len() ==> cs[k] == ChangeView::Nothing,
        first_bad_sub(u.types@, 0) is None,
        trim_spec(u.ai_behaviour@).len() == 0 || known_behaviour(trim_spec(u.ai_behaviour@)),
{
    let items = block.items@;
    lemma_colour_read(b, block);
    lemma_types_read(b, block, u.types@);
    lemma_names_read(b, block);
    assert(views(u.dynamic_faction_names@) == words_spec(items, "dynamic_faction_names"@));
    lemma_plain_field(b, block, "war_impact_on_world_tension"@);
    lemma_plain_field(b, block, "faction_impact_on_world_tension"@);
    lemma_plain_field(b, block, "can_host_government_in_exile"@);
    lemma_plain_field(b, block, "can_be_boosted"@);
    lemma_plain_field(b, block, "can_collaborate"@);
    lemma_plain_field(b, block, "ai_ideology_wanted_units_factor"@);
    lemma_flags(b, block);
    lemma_rules_read(b, block, u.rules@);
    lemma_body_read(b, block, "modifiers"@);
    lemma_body_read(b, block, "faction_modifiers"@);
    let sc = ideology_scalars(b, block, u);
    assert(forall|k: int| 0 <= k < sc.len() ==> sc[k] == ChangeView::Nothing);
    let n = ChangeView::Nothing;
    let e = Seq::<ChangeView>::empty();
    let cs = seq![n] + e + seq![n] + sc + e + (seq![n] + seq![n]);
    assert(ideology_runs(b, block, u) == Some(cs));
    assert forall|k: int| 0 <= k < cs.len() implies cs[k] == ChangeView::Nothing by {
        if 2 <= k < 12 {
            assert(cs[k] == sc[k - 2]);
        }
    }
}

/// Law: saving an ideology exactly as it was read changes no byte of the
/// file, wherever its block is written the way `update_source` writes one
/// and its id is one the editor accepts. The update is not refused, and the
/// text it saves is the source.
pub proof fn law_saving_an_ideology_as_read_keeps_the_file(
    source: &str,
    path: Seq<char>,
    items: Seq<Item>,
    id: Seq<char>,
    p: Pair,
    block: Block,
    start: int,
    i: Ideology,
    u: IdeologyUpdate,
    r: Result<String, EditError>,
)
    requires
        find_ideology_spec(items, id) == Some(p),
        p.value == Value::Block(block),
        trim_spec(id) == id,
        id.len() > 0,
        !needs_quotes_spec(id),
        ideology_as_saved(bytes_of(source), block),
        ideology_read(bytes_of(source), i, id, block, start),
        copied_from(u, i),
    ensures
        update_refusal(bytes_of(source), path, items, id, u) is None,
        saved_as(bytes_of(source), ideology_edits(bytes_of(source), items, id, u), r) ==> (r matches Ok(
            text,
        ) && text@ == source@),
{
    let b = bytes_of(source);
    lemma_read_changes_nothing(b, block, id, start, i, u);
    assert(validate_spec(u) is None);
    if saved_as(b, ideology_edits(b, items, id, u), r) {
        let cs = ideology_runs(b, block, u)->0;
        law_unchanged_ideology_keeps_the_file(source, items, id, u, p, block, cs, r);
    }
}

} // verus!
