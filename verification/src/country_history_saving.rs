//! Saving a country history file exactly as it was read: read out of a file
//! written the way `update_source` writes one, a history saved unchanged
//! leaves the file byte for byte as it was.
use crate::country_history::{
    country_edits, country_read, country_runs, politics_runs, popularity_edits, popularity_read,
    popularity_removals, popularity_sets, render_politics_spec, render_popularities_spec,
    popularity_lines, wanted_spec, whole_file_block, CountryHistory, CountryHistoryUpdate,
    Popularity,
};
use crate::error::EditError;
use crate::ideology_saving::{lemma_plain_field, lemma_trim_empty, plain_field};
use crate::paradox::edit::{scalar_change_spec, ChangeView};
use crate::paradox::parser::{block_spec, find_spec, pairs_of, scalar_text};
use crate::paradox::{Block, Item, Pair, Span, Value};
use crate::script::{
    absent_block, law_nothing_changed_keeps_the_file, lemma_nothing_hands_on_nothing, saved_as,
    scalar_pairs, then_runs,
};
use crate::technology_saving::{lemma_then_nothing, nothing_run};
use crate::text::{bytes_of, join, lowercase, trim_spec};
use vstd::prelude::*;

verus! {

/// `set_politics` as it is saved: absent or not a block, or a block whose
/// four fields are plain.
pub open spec fn politics_as_saved(items: Seq<Item>) -> bool {
    match block_spec(items, "set_politics"@) {
        None => true,
        Some(pb) => {
            &&& plain_field(pb.items@, "ruling_party"@)
            &&& plain_field(pb.items@, "last_election"@)
            &&& plain_field(pb.items@, "election_frequency"@)
            &&& plain_field(pb.items@, "elections_allowed"@)
        },
    }
}

/// A popularity as it is saved: a plain ideology key that no pair before it
/// has, assigned a scalar with no outer whitespace.
pub open spec fn popularity_as_saved(pb: Block, p: Pair) -> bool {
    &&& p.value matches Value::Scalar(s) && trim_spec(scalar_text(s)) == scalar_text(s)
    &&& trim_spec(p.key@) == p.key@
    &&& p.key@.len() > 0
    &&& find_spec(pb.items@, p.key@) == Some(p)
}

/// `set_popularities` as it is saved: absent or not a block, or a block of
/// popularities as above.
pub open spec fn popularities_as_saved(items: Seq<Item>) -> bool {
    match block_spec(items, "set_popularities"@) {
        None => true,
        Some(pb) => forall|k: int|
            0 <= k < pairs_of(pb.items@).len() ==> popularity_as_saved(pb, #[trigger] pairs_of(pb.items@)[k]),
    }
}

/// A country history file written the way `update_source` saves one: every
/// field it edits either absent or in the form it writes.
pub open spec fn country_as_saved(items: Seq<Item>) -> bool {
    &&& plain_field(items, "capital"@)
    &&& plain_field(items, "oob"@)
    &&& plain_field(items, "set_research_slots"@)
    &&& plain_field(items, "set_convoys"@)
    &&& plain_field(items, "set_stability"@)
    &&& plain_field(items, "set_war_support"@)
    &&& politics_as_saved(items)
    &&& popularities_as_saved(items)
}

/// Every field of an update copied from a country history as read.
pub open spec fn copied_from(u: CountryHistoryUpdate, c: CountryHistory) -> bool {
    &&& u.capital@ == c.capital@
    &&& u.oob@ == c.oob@
    &&& u.research_slots@ == c.research_slots@
    &&& u.convoys@ == c.convoys@
    &&& u.stability@ == c.stability@
    &&& u.war_support@ == c.war_support@
    &&& u.politics == c.politics
    &&& u.popularities@ == c.popularities@
}

/// Popularity sets that each change nothing change nothing together.
proof fn lemma_sets_nothing(b: Seq<u8>, pb: Block, ps: Seq<Popularity>)
    requires
        forall|k: int| 0 <= k < ps.len() ==> #[trigger] scalar_change_spec(
            b,
            pb,
            trim_spec(ps[k].ideology@),
            ps[k].value@,
        ) == ChangeView::Nothing,
    ensures
        forall|i: int| 0 <= i < popularity_sets(b, pb, ps).len() ==> popularity_sets(b, pb, ps)[i]
            == ChangeView::Nothing,
    decreases ps.len(),
{
    if ps.len() > 0 {
        assert forall|k: int| 0 <= k < ps.drop_last().len() implies #[trigger] scalar_change_spec(
            b,
            pb,
            trim_spec(ps.drop_last()[k].ideology@),
            ps.drop_last()[k].value@,
        ) == ChangeView::Nothing by {
            assert(ps.drop_last()[k] == ps[k]);
        }
        lemma_sets_nothing(b, pb, ps.drop_last());
        assert(scalar_change_spec(b, pb, trim_spec(ps[ps.len() - 1].ideology@), ps[ps.len() - 1].value@)
            == ChangeView::Nothing);
    }
}

/// Pairs that are all wanted are none of them removed.
proof fn lemma_no_removals(b: Seq<u8>, pairs: Seq<Pair>, ps: Seq<Popularity>)
    requires
        forall|k: int| 0 <= k < pairs.len() ==> wanted_spec(ps, (#[trigger] pairs[k]).key@),
    ensures
        popularity_removals(b, pairs, ps) == Seq::<ChangeView>::empty(),
    decreases pairs.len(),
{
    if pairs.len() > 0 {
        assert forall|k: int| 0 <= k < pairs.drop_last().len() implies wanted_spec(
            ps,
            (#[trigger] pairs.drop_last()[k]).key@,
        ) by {
            assert(pairs.drop_last()[k] == pairs[k]);
        }
        lemma_no_removals(b, pairs.drop_last(), ps);
        assert(wanted_spec(ps, pairs[pairs.len() - 1].key@));
    }
}

/// The popularities set to those read change nothing.
#[verifier::rlimit(40)]
proof fn lemma_popularities_read(b: Seq<u8>, pb: Block, ps: Seq<Popularity>)
    requires
        forall|k: int|
            0 <= k < pairs_of(pb.items@).len() ==> popularity_as_saved(pb, #[trigger] pairs_of(pb.items@)[k]),
        ps.len() == scalar_pairs(pairs_of(pb.items@)).len(),
        forall|k: int| 0 <= k < ps.len() ==> popularity_read(#[trigger] ps[k], scalar_pairs(pairs_of(pb.items@))[k]),
    ensures
        popularity_edits(b, pb, ps) == Seq::<(Span, Seq<char>)>::empty(),
{
    let prs = pairs_of(pb.items@);
    assert forall|k: int| 0 <= k < prs.len() implies (#[trigger] prs[k]).value is Scalar by {
        assert(popularity_as_saved(pb, prs[k]));
    }
    crate::ideology_saving::lemma_scalar_pairs_all(prs);
    lemma_trim_empty();
    assert forall|k: int| 0 <= k < ps.len() implies #[trigger] scalar_change_spec(
        b,
        pb,
        trim_spec(ps[k].ideology@),
        ps[k].value@,
    ) == ChangeView::Nothing by {
        assert(popularity_read(ps[k], prs[k]));
        assert(popularity_as_saved(pb, prs[k]));
    }
    lemma_sets_nothing(b, pb, ps);
    assert forall|k: int| 0 <= k < prs.len() implies wanted_spec(ps, (#[trigger] prs[k]).key@) by {
        assert(popularity_read(ps[k], prs[k]));
        assert(popularity_as_saved(pb, prs[k]));
        assert(lowercase(trim_spec(ps[k].ideology@)) == lowercase(prs[k].key@));
    }
    lemma_no_removals(b, prs, ps);
    let cs = popularity_sets(b, pb, ps) + popularity_removals(b, prs, ps);
    assert(cs =~= popularity_sets(b, pb, ps));
    lemma_nothing_hands_on_nothing(b, pb, cs);
}

/// An empty text written as lines is empty.
proof fn lemma_no_lines()
    ensures
        join(Seq::<Seq<char>>::empty(), "\n"@) == Seq::<char>::empty(),
{
}

/// An update copied from a country history read out of a file written as
/// it is saved changes nothing at the top level of the file.
#[verifier::rlimit(40)]
proof fn lemma_read_changes_nothing(b: Seq<u8>, block: Block, c: CountryHistory, u: CountryHistoryUpdate)
    requires
        country_read(c, block.items@),
        copied_from(u, c),
        country_as_saved(block.items@),
    ensures
        nothing_run(country_runs(b, block, u)),
{
    let items = block.items@;
    lemma_trim_empty();
    lemma_plain_field(b, block, "capital"@);
    lemma_plain_field(b, block, "oob"@);
    lemma_plain_field(b, block, "set_research_slots"@);
    lemma_plain_field(b, block, "set_convoys"@);
    lemma_plain_field(b, block, "set_stability"@);
    lemma_plain_field(b, block, "set_war_support"@);
    if block_spec(items, "set_politics"@) is None {
        assert(crate::script::scalar_line("ruling_party"@, u.politics.ruling_party@) =~= Seq::<Seq<char>>::empty());
        assert(crate::script::scalar_line("last_election"@, u.politics.last_election@) =~= Seq::<Seq<char>>::empty());
        assert(crate::script::scalar_line("election_frequency"@, u.politics.election_frequency@) =~= Seq::<Seq<char>>::empty());
        assert(crate::script::scalar_line("elections_allowed"@, u.politics.elections_allowed@) =~= Seq::<Seq<char>>::empty());
        assert(render_politics_spec(u.politics) =~= Seq::<char>::empty());
    }
    if block_spec(items, "set_popularities"@) is None {
        assert(u.popularities@.len() == 0);
        assert(popularity_lines(u.popularities@) =~= Seq::<Seq<char>>::empty());
        assert(render_popularities_spec(u.popularities@) =~= Seq::<char>::empty());
    }
    let r0 = Some(seq![scalar_change_spec(b, block, "capital"@, u.capital@)]);
    assert(nothing_run(r0));
    let x1 = Some(seq![scalar_change_spec(b, block, "oob"@, u.oob@)]);
    assert(nothing_run(x1));
    lemma_then_nothing(r0, x1);
    let r1 = then_runs(r0, x1);
    let x2 = Some(seq![scalar_change_spec(b, block, "set_research_slots"@, u.research_slots@)]);
    assert(nothing_run(x2));
    lemma_then_nothing(r1, x2);
    let r2 = then_runs(r1, x2);
    let x3 = Some(seq![scalar_change_spec(b, block, "set_convoys"@, u.convoys@)]);
    assert(nothing_run(x3));
    lemma_then_nothing(r2, x3);
    let r3 = then_runs(r2, x3);
    let x4 = Some(seq![scalar_change_spec(b, block, "set_stability"@, u.stability@)]);
    assert(nothing_run(x4));
    lemma_then_nothing(r3, x4);
    let r4 = then_runs(r3, x4);
    let x5 = Some(seq![scalar_change_spec(b, block, "set_war_support"@, u.war_support@)]);
    assert(nothing_run(x5));
    lemma_then_nothing(r4, x5);
    let r5 = then_runs(r4, x5);
    let x6 = absent_block(b, block, "set_politics"@, render_politics_spec(u.politics));
    assert(nothing_run(x6));
    lemma_then_nothing(r5, x6);
    let r6 = then_runs(r5, x6);
    let x7 = absent_block(b, block, "set_popularities"@, render_popularities_spec(u.popularities@));
    assert(nothing_run(x7));
    lemma_then_nothing(r6, x7);
    let r7 = then_runs(r6, x7);
    assert(country_runs(b, block, u) == r7);
}

/// Law: saving a country history file exactly as it was read changes no
/// byte of it, wherever the file is written the way `update_source` writes
/// one: the text it saves is the source.
pub proof fn law_saving_a_country_history_as_read_keeps_the_file(
    source: &str,
    items: Seq<Item>,
    whole: Block,
    c: CountryHistory,
    u: CountryHistoryUpdate,
    r: Result<String, EditError>,
)
    requires
        whole_file_block(bytes_of(source), whole, items),
        country_as_saved(items),
        country_read(c, items),
        copied_from(u, c),
    ensures
        saved_as(bytes_of(source), country_edits(bytes_of(source), whole, u), r) ==> (r matches Ok(text)
            && text@ == source@),
{
    let b = bytes_of(source);
    lemma_read_changes_nothing(b, whole, c, u);
    let cs = country_runs(b, whole, u)->0;
    lemma_nothing_hands_on_nothing(b, whole, cs);
    let e = Seq::<(Span, Seq<char>)>::empty();
    match block_spec(items, "set_politics"@) {
        Some(pb) => {
            lemma_plain_field(b, pb, "ruling_party"@);
            lemma_plain_field(b, pb, "last_election"@);
            lemma_plain_field(b, pb, "election_frequency"@);
            lemma_plain_field(b, pb, "elections_allowed"@);
            let n = ChangeView::Nothing;
            let pr = seq![n] + seq![n] + seq![n] + seq![n];
            assert(politics_runs(b, pb, u.politics) == Some(pr));
            lemma_nothing_hands_on_nothing(b, pb, pr);
        },
        None => {},
    }
    match block_spec(items, "set_popularities"@) {
        Some(pb) => {
            lemma_popularities_read(b, pb, u.popularities@);
        },
        None => {},
    }
    assert(e + e + e =~= e);
    if saved_as(b, country_edits(b, whole, u), r) {
        law_nothing_changed_keeps_the_file(source, whole, cs, r);
    }
}

} // verus!
