//! Starting country setup: `history/countries/TAG - Name.txt`.
//!
//! Unlike a focus or state file there is no wrapper block — the assignments sit
//! at the top level, mixed in with `if` blocks, technology lists and character
//! definitions. Only the handful of fields below are touched; everything else
//! is left exactly where the author put it.
use crate::error::EditError;
use crate::paradox::edit::{
    apply_edits, apply_edits_spec, edits_fit, edits_fit_all, BlockEditor, TextEdit,
};
use crate::paradox::parser::{
    block_spec, item_fits, pairs_of, parse_spec as script_parse_spec, scalar_text, value_fits,
    Parsed,
};
use crate::paradox::{Block, Document, Item, Items, Pair, Span, Value};
use crate::paradox::edit::{removal_span, scalar_change_spec, ChangeView};
use crate::script::{
    lemma_made_none, lemma_made_push, made, absent_block, finish_editor, finished, handed, lemma_made_one,
    lemma_made_then, record_all, save_edits, saved_as, set_block_if_absent, then_runs,
};
use crate::script::{
    all_fit, derefs, kept_target, lemma_items_fit, lemma_pairs_derefs, merge_edits, parsed_items,
    set_block_checked, text_of, text_or_empty,
};
use crate::text::{
    bytes_of, chars_of, join, join_strings, lowercase, str_eq, to_lowercase, trim, trim_spec, views,
};
use vstd::prelude::*;

verus! {

#[derive(Debug, Clone, Default)]
pub struct Politics {
    pub ruling_party: String,
    pub last_election: String,
    pub election_frequency: String,
    /// `yes`, `no`, or empty when the file does not say.
    pub elections_allowed: String,
}

#[derive(Debug, Clone)]
pub struct Popularity {
    pub ideology: String,
    pub value: String,
}

#[derive(Debug, Clone)]
pub struct CountryHistory {
    pub path: String,
    /// Country tag taken from the file name, e.g. `ENG`.
    pub tag: String,
    pub file_name: String,
    pub capital: String,
    pub oob: String,
    pub research_slots: String,
    pub convoys: String,
    pub stability: String,
    pub war_support: String,
    pub politics: Politics,
    pub popularities: Vec<Popularity>,
    pub has_bom: bool,
    /// Read as Windows-1252 rather than UTF-8, and written back so.
    pub is_legacy_encoding: bool,
    /// Blocks the file never closed. One of the files the game ships is like
    /// this and the game loads it anyway, so it is a warning, not an error.
    pub unclosed_blocks: usize,
}

#[derive(Debug, Clone)]
pub struct CountryHistoryInfo {
    pub path: String,
    pub relative_path: String,
    pub tag: String,
    pub file_name: String,
}

/// The editable fields sent back when saving. Empty strings clear a field.
#[derive(Debug, Clone, Default)]
pub struct CountryHistoryUpdate {
    pub capital: String,
    pub oob: String,
    pub research_slots: String,
    pub convoys: String,
    pub stability: String,
    pub war_support: String,
    pub politics: Politics,
    pub popularities: Vec<Popularity>,
}

// ---------------------------------------------------------------------------
// Reading
// ---------------------------------------------------------------------------

/// Where the tag of a file name ends: at the first `-` or space.
pub open spec fn tag_end(s: Seq<char>, i: int) -> int
    decreases s.len() - i,
{
    if i < 0 || i >= s.len() {
        s.len() as int
    } else if s[i] == '-' || s[i] == ' ' {
        i
    } else {
        tag_end(s, i + 1)
    }
}

/// `ENG - Britain` -> `ENG`. Files that do not follow the convention keep the
/// whole stem, which is still a usable label.
pub open spec fn tag_spec(file_name: Seq<char>) -> Seq<char> {
    trim_spec(file_name.take(tag_end(file_name, 0)))
}

pub fn tag_of(file_name: &str) -> (r: String)
    ensures
        r@ == tag_spec(file_name@),
{
    let v = chars_of(file_name);
    let mut i: usize = 0;
    while i < v.len() && v[i] != '-' && v[i] != ' '
        invariant
            i <= v@.len(),
            v@ == file_name@,
            tag_end(v@, 0) == tag_end(v@, i as int),
        decreases v@.len() - i,
    {
        i = i + 1;
    }
    let head = crate::text::string_from_chars(&v, 0, i);
    proof {
        assert(v@.subrange(0, i as int) =~= file_name@.take(i as int));
    }
    trim(head.as_str())
}

/// `Path::file_stem`, lossily as text; empty when there is none. Which
/// characters separate components depends on the platform, so nothing is
/// stated of the answer.
#[verifier::external_body]
fn path_file_stem(path: &str) -> String {
    std::path::Path::new(path).file_stem().map(|stem| stem.to_string_lossy().to_string()).unwrap_or_default()
}

/// The scalar-valued pairs of `set_popularities`, as ideology and value.
pub open spec fn popularity_pairs(items: Seq<Item>) -> Seq<Pair> {
    match block_spec(items, "set_popularities"@) {
        Some(bl) => crate::script::scalar_pairs(pairs_of(bl.items@)),
        None => Seq::empty(),
    }
}

pub open spec fn popularity_read(p: Popularity, pair: Pair) -> bool {
    &&& p.ideology@ == pair.key@
    &&& p.value@ == scalar_text(pair.value->Scalar_0)
}

/// A scalar of `set_politics`, empty without one.
pub open spec fn politics_text(items: Seq<Item>, key: Seq<char>) -> Seq<char> {
    match block_spec(items, "set_politics"@) {
        Some(bl) => text_or_empty(bl.items@, key),
        None => Seq::empty(),
    }
}

/// What the file's fields read as.
pub open spec fn country_read(c: CountryHistory, items: Seq<Item>) -> bool {
    let pops = popularity_pairs(items);
    &&& c.capital@ == text_or_empty(items, "capital"@)
    &&& c.oob@ == text_or_empty(items, "oob"@)
    &&& c.research_slots@ == text_or_empty(items, "set_research_slots"@)
    &&& c.convoys@ == text_or_empty(items, "set_convoys"@)
    &&& c.stability@ == text_or_empty(items, "set_stability"@)
    &&& c.war_support@ == text_or_empty(items, "set_war_support"@)
    &&& c.politics.ruling_party@ == politics_text(items, "ruling_party"@)
    &&& c.politics.last_election@ == politics_text(items, "last_election"@)
    &&& c.politics.election_frequency@ == politics_text(items, "election_frequency"@)
    &&& c.politics.elections_allowed@ == politics_text(items, "elections_allowed"@)
    &&& c.popularities@.len() == pops.len()
    &&& forall|k: int| 0 <= k < pops.len() ==> popularity_read(#[trigger] c.popularities@[k], pops[k])
}

fn read_popularities(block: &Block) -> (r: Vec<Popularity>)
    ensures
        r@.len() == crate::script::scalar_pairs(pairs_of(block.items@)).len(),
        forall|k: int| 0 <= k < r@.len() ==> popularity_read(#[trigger] r@[k], crate::script::scalar_pairs(pairs_of(block.items@))[k]),
{
    let all = block.pairs();
    proof {
        lemma_pairs_derefs(all@, block.items@);
        crate::script::lemma_pair_kinds(pairs_of(block.items@));
    }
    let chosen = crate::script::pairs_with_scalars(&all);
    let ghost ps = crate::script::scalar_pairs(pairs_of(block.items@));
    let mut r: Vec<Popularity> = Vec::new();
    let mut i: usize = 0;
    while i < chosen.len()
        invariant
            i <= chosen@.len(),
            derefs(chosen@) == ps,
            forall|k: int| 0 <= k < ps.len() ==> (#[trigger] ps[k]).value is Scalar,
            r@.len() == i,
            forall|k: int| 0 <= k < i ==> popularity_read(#[trigger] r@[k], ps[k]),
        decreases chosen@.len() - i,
    {
        let pair = chosen[i];
        proof {
            assert(derefs(chosen@)[i as int] == *pair);
            assert(ps[i as int].value is Scalar);
        }
        let value = match &pair.value {
            Value::Scalar(scalar) => scalar.value(),
            _ => String::new(),
        };
        r.push(Popularity { ideology: pair.key.as_str().to_owned(), value });
        i = i + 1;
    }
    r
}

/// Reads a country history file's text. The tag comes from the file name.
pub fn parse(path: &str, content: &str, has_bom: bool, is_legacy_encoding: bool) -> (r: Result<
    CountryHistory,
    EditError,
>)
    ensures
        match script_parse_spec(content) {
            Parsed::Fail(m, o) => r matches Err(EditError::Script { path: p, source: e }) && p@
                == path@ && e.message@ == m && e.offset == o,
            Parsed::Read(_, _, u) => r matches Ok(c) && c.unclosed_blocks == u,
        },
        r matches Ok(c) ==> {
            &&& c.path@ == crate::text::replace_char(path@, '\\', '/')
            &&& c.tag@ == tag_spec(c.file_name@)
            &&& c.has_bom == has_bom
            &&& c.is_legacy_encoding == is_legacy_encoding
            &&& exists|items: Seq<Item>| #[trigger] parsed_items(content, items) && country_read(c, items)
        },
{
    let document = match crate::paradox::parse(content) {
        Ok(document) => document,
        Err(source) => {
            return Err(EditError::Script { path: path.to_owned(), source });
        },
    };
    let file_name = path_file_stem(path);
    let politics = match document.block("set_politics") {
        Some(block) => Politics {
            ruling_party: text_of(block, "ruling_party"),
            last_election: text_of(block, "last_election"),
            election_frequency: text_of(block, "election_frequency"),
            elections_allowed: text_of(block, "elections_allowed"),
        },
        None => Politics {
            ruling_party: String::new(),
            last_election: String::new(),
            election_frequency: String::new(),
            elections_allowed: String::new(),
        },
    };
    let popularities = match document.block("set_popularities") {
        Some(block) => read_popularities(block),
        None => Vec::new(),
    };
    proof {
        assert(parsed_items(content, document.items@));
    }
    Ok(
        CountryHistory {
            path: crate::text::replace_char_in(path, '\\', '/'),
            tag: tag_of(file_name.as_str()),
            file_name,
            capital: text_of(&document, "capital"),
            oob: text_of(&document, "oob"),
            research_slots: text_of(&document, "set_research_slots"),
            convoys: text_of(&document, "set_convoys"),
            stability: text_of(&document, "set_stability"),
            war_support: text_of(&document, "set_war_support"),
            politics,
            popularities,
            has_bom,
            is_legacy_encoding,
            unclosed_blocks: document.unclosed_blocks,
        },
    )
}

// ---------------------------------------------------------------------------
// Editing in place
// ---------------------------------------------------------------------------

/// `key = value` for each non-blank field of `set_politics`.
pub open spec fn render_politics_spec(p: Politics) -> Seq<char> {
    join(
        crate::script::scalar_line("ruling_party"@, p.ruling_party@) + crate::script::scalar_line(
            "last_election"@,
            p.last_election@,
        ) + crate::script::scalar_line("election_frequency"@, p.election_frequency@)
            + crate::script::scalar_line("elections_allowed"@, p.elections_allowed@),
        "\n"@,
    )
}

fn render_politics(politics: &Politics) -> (r: String)
    ensures
        r@ == render_politics_spec(*politics),
{
    let mut lines: Vec<String> = Vec::new();
    crate::script::push_scalar(&mut lines, "ruling_party", politics.ruling_party.as_str());
    crate::script::push_scalar(&mut lines, "last_election", politics.last_election.as_str());
    crate::script::push_scalar(&mut lines, "election_frequency", politics.election_frequency.as_str());
    crate::script::push_scalar(&mut lines, "elections_allowed", politics.elections_allowed.as_str());
    join_strings(&lines, "\n")
}

/// `ideology = value` for each popularity with an ideology, both trimmed.
pub open spec fn popularity_lines(ps: Seq<Popularity>) -> Seq<Seq<char>>
    decreases ps.len(),
{
    if ps.len() == 0 {
        Seq::empty()
    } else {
        let p = ps.last();
        popularity_lines(ps.drop_last()) + if trim_spec(p.ideology@).len() == 0 {
            Seq::empty()
        } else {
            seq![trim_spec(p.ideology@) + " = "@ + trim_spec(p.value@)]
        }
    }
}

pub open spec fn render_popularities_spec(ps: Seq<Popularity>) -> Seq<char> {
    join(popularity_lines(ps), "\n"@)
}

fn render_popularities(popularities: &Vec<Popularity>) -> (r: String)
    ensures
        r@ == render_popularities_spec(popularities@),
{
    let mut lines: Vec<String> = Vec::new();
    let mut i: usize = 0;
    assert(popularities@.take(0) =~= Seq::<Popularity>::empty());
    while i < popularities.len()
        invariant
            i <= popularities@.len(),
            views(lines@) == popularity_lines(popularities@.take(i as int)),
        decreases popularities@.len() - i,
    {
        proof {
            assert(popularities@.take(i + 1).drop_last() =~= popularities@.take(i as int));
            assert(popularities@.take(i + 1).last() == popularities@[i as int]);
        }
        let ghost before = views(lines@);
        let ideology = trim(popularities[i].ideology.as_str());
        if !ideology.as_str().is_empty() {
            let mut line = ideology.as_str().to_owned();
            line.push_str(" = ");
            line.push_str(trim(popularities[i].value.as_str()).as_str());
            proof {
                reveal_strlit(" = ");
            }
            lines.push(line);
            assert(views(lines@) =~= before.push(line@));
        }
        assert(views(lines@) =~= popularity_lines(popularities@.take(i + 1)));
        i = i + 1;
    }
    assert(popularities@.take(popularities@.len() as int) =~= popularities@);
    join_strings(&lines, "\n")
}

/// An ideology is among those the form keeps, ignoring case.
pub open spec fn wanted_spec(ps: Seq<Popularity>, key: Seq<char>) -> bool {
    exists|i: int|
        0 <= i < ps.len() && trim_spec(ps[i].ideology@).len() > 0 && #[trigger] lowercase(
            trim_spec(ps[i].ideology@),
        ) == lowercase(key)
}

/// Setting each popularity with an ideology, in order.
pub open spec fn popularity_sets(b: Seq<u8>, block: Block, ps: Seq<Popularity>) -> Seq<ChangeView>
    decreases ps.len(),
{
    if ps.len() == 0 {
        Seq::empty()
    } else {
        let rest = popularity_sets(b, block, ps.drop_last());
        let p = ps.last();
        if trim_spec(p.ideology@).len() == 0 {
            rest
        } else {
            rest.push(scalar_change_spec(b, block, trim_spec(p.ideology@), p.value@))
        }
    }
}

/// Removing each pair whose ideology the form no longer lists, in order.
pub open spec fn popularity_removals(b: Seq<u8>, pairs: Seq<Pair>, ps: Seq<Popularity>) -> Seq<ChangeView>
    decreases pairs.len(),
{
    if pairs.len() == 0 {
        Seq::empty()
    } else {
        let rest = popularity_removals(b, pairs.drop_last(), ps);
        if wanted_spec(ps, pairs.last().key@) {
            rest
        } else {
            rest.push(ChangeView::Remove(removal_span(b, pairs.last())))
        }
    }
}

/// Whether an ideology is among those the form keeps, ignoring case.
fn wanted_ideology(popularities: &Vec<Popularity>, key: &str) -> (r: bool)
    ensures
        r == wanted_spec(popularities@, key@),
{
    let lowered = to_lowercase(key);
    let mut i: usize = 0;
    while i < popularities.len()
        invariant
            i <= popularities.len(),
            lowered@ == lowercase(key@),
            forall|j: int|
                0 <= j < i ==> !(trim_spec(popularities@[j].ideology@).len() > 0 && #[trigger] lowercase(
                    trim_spec(popularities@[j].ideology@),
                ) == lowercase(key@)),
        decreases popularities@.len() - i,
    {
        let ideology = trim(popularities[i].ideology.as_str());
        if !ideology.as_str().is_empty() {
            let wanted = to_lowercase(ideology.as_str());
            if str_eq(wanted.as_str(), lowered.as_str()) {
                return true;
            }
        }
        i = i + 1;
    }
    false
}

/// Sets each ideology in place and drops the ones no longer listed.
fn set_popularities(editor: &mut BlockEditor, popularities: &Vec<Popularity>)
    requires
        old(editor).wf(),
    ensures
        made(
            *old(editor),
            *final(editor),
            popularity_sets(old(editor).source_bytes(), old(editor).edited_block(), popularities@)
                + popularity_removals(
                old(editor).source_bytes(),
                pairs_of(old(editor).edited_block().items@),
                popularities@,
            ),
        ),
{
    let ghost e0 = *editor;
    let ghost b = editor.source_bytes();
    let ghost blk = editor.edited_block();
    let source = editor.source();
    let block = editor.block();
    proof {
        lemma_made_none(e0);
        assert(popularities@.take(0) =~= Seq::<Popularity>::empty());
    }
    let mut i: usize = 0;
    while i < popularities.len()
        invariant
            e0 == *old(editor),
            b == e0.source_bytes(),
            blk == e0.edited_block(),
            i <= popularities.len(),
            made(e0, *editor, popularity_sets(b, blk, popularities@.take(i as int))),
        decreases popularities@.len() - i,
    {
        proof {
            assert(popularities@.take(i as int + 1).drop_last() =~= popularities@.take(i as int));
            assert(popularities@.take(i as int + 1).last() == popularities@[i as int]);
        }
        let ideology = trim(popularities[i].ideology.as_str());
        if !ideology.as_str().is_empty() {
            let ghost before = *editor;
            editor.set_scalar(ideology.as_str(), popularities[i].value.as_str());
            proof {
                lemma_made_push(
                    e0,
                    before,
                    *editor,
                    popularity_sets(b, blk, popularities@.take(i as int)),
                    scalar_change_spec(b, blk, ideology@, popularities@[i as int].value@),
                );
            }
        }
        i = i + 1;
    }
    proof {
        assert(popularities@.take(i as int) =~= popularities@);
    }
    let ghost sets = popularity_sets(b, blk, popularities@);
    let pairs = block.pairs();
    proof {
        editor.lemma_block_fits();
        lemma_pairs_derefs(pairs@, block.items@);
        lemma_items_fit(bytes_of(source), block.items@, Seq::empty());
        assert(sets + Seq::<ChangeView>::empty() =~= sets);
    }
    let mut k: usize = 0;
    while k < pairs.len()
        invariant
            e0 == *old(editor),
            b == e0.source_bytes(),
            blk == e0.edited_block(),
            *block == blk,
            sets == popularity_sets(b, blk, popularities@),
            k <= pairs.len(),
            made(e0, *editor, sets + popularity_removals(b, derefs(pairs@).take(k as int), popularities@)),
            editor.source_bytes() == bytes_of(source),
            bytes_of(source) == b,
            derefs(pairs@) == pairs_of(block.items@),
            crate::script::pairs_fit(bytes_of(source), pairs_of(block.items@)),
        decreases pairs@.len() - k,
    {
        proof {
            assert(derefs(pairs@)[k as int] == *pairs@[k as int]);
            assert(item_fits(bytes_of(source), Item::Pair(pairs_of(block.items@)[k as int])));
            let t = derefs(pairs@).take(k as int + 1);
            assert(t.drop_last() =~= derefs(pairs@).take(k as int));
            assert(t.last() == *pairs@[k as int]);
        }
        if !wanted_ideology(popularities, pairs[k].key.as_str()) {
            let ghost before = *editor;
            editor.remove(pairs[k]);
            proof {
                let done = sets + popularity_removals(b, derefs(pairs@).take(k as int), popularities@);
                let c = ChangeView::Remove(removal_span(b, *pairs@[k as int]));
                lemma_made_push(e0, before, *editor, done, c);
                assert(done.push(c) =~= sets + popularity_removals(b, derefs(pairs@).take(k as int + 1), popularities@));
            }
        } else {
            proof {
                assert(popularity_removals(b, derefs(pairs@).take(k as int), popularities@) =~= popularity_removals(b, derefs(pairs@).take(k as int + 1), popularities@));
            }
        }
        k = k + 1;
    }
    proof {
        assert(derefs(pairs@).take(k as int) =~= pairs_of(block.items@));
    }
}

/// Every change `update_source` makes at the top level of a country
/// history file: the plain fields, then a politics block and a popularities
/// block written at once where the file has none. `None` where one of them
/// cannot be laid out.
pub open spec fn country_runs(b: Seq<u8>, block: Block, u: CountryHistoryUpdate) -> Option<Seq<ChangeView>> {
    let runs = Some(seq![scalar_change_spec(b, block, "capital"@, u.capital@)]);
    let runs = then_runs(runs, Some(seq![scalar_change_spec(b, block, "oob"@, u.oob@)]));
    let runs = then_runs(runs, Some(seq![scalar_change_spec(b, block, "set_research_slots"@, u.research_slots@)]));
    let runs = then_runs(runs, Some(seq![scalar_change_spec(b, block, "set_convoys"@, u.convoys@)]));
    let runs = then_runs(runs, Some(seq![scalar_change_spec(b, block, "set_stability"@, u.stability@)]));
    let runs = then_runs(runs, Some(seq![scalar_change_spec(b, block, "set_war_support"@, u.war_support@)]));
    let runs = then_runs(runs, absent_block(b, block, "set_politics"@, render_politics_spec(u.politics)));
    let runs = then_runs(runs, absent_block(b, block, "set_popularities"@, render_popularities_spec(u.popularities@)));
    runs
}

/// The changes made inside a politics block that is already there.
pub open spec fn politics_runs(b: Seq<u8>, block: Block, u: Politics) -> Option<Seq<ChangeView>> {
    let runs = Some(seq![scalar_change_spec(b, block, "ruling_party"@, u.ruling_party@)]);
    let runs = then_runs(runs, Some(seq![scalar_change_spec(b, block, "last_election"@, u.last_election@)]));
    let runs = then_runs(runs, Some(seq![scalar_change_spec(b, block, "election_frequency"@, u.election_frequency@)]));
    let runs = then_runs(runs, Some(seq![scalar_change_spec(b, block, "elections_allowed"@, u.elections_allowed@)]));
    runs
}

/// The edits made inside a popularities block that is already there.
pub open spec fn popularity_edits(b: Seq<u8>, pb: Block, ps: Seq<Popularity>) -> Seq<(Span, Seq<char>)> {
    finished(
        b,
        pb,
        record_all(
            (Seq::empty(), Seq::empty()),
            popularity_sets(b, pb, ps) + popularity_removals(b, pairs_of(pb.items@), ps),
        ),
    )
}

fn popularity_block_edits(source: &str, block: &Block, popularities: &Vec<Popularity>) -> (r: Vec<TextEdit>)
    requires
        value_fits(bytes_of(source), Value::Block(*block)),
    ensures
        crate::paradox::edit::edit_views(r@) == popularity_edits(bytes_of(source), *block, popularities@),
{
    let mut popularity = BlockEditor::new(source, block);
    set_popularities(&mut popularity, popularities);
    finish_editor(popularity)
}

/// The file as one block: its items, spanning the whole source.
pub open spec fn whole_file_block(b: Seq<u8>, block: Block, items: Seq<Item>) -> bool {
    &&& block.items@ == items
    &&& block.span == Span { start: 0, end: b.len() as usize }
    &&& block.inner == Span { start: 0, end: b.len() as usize }
}

/// The edits `update_source` makes to a country history file seen as the
/// block `whole`: those inside its politics and popularities blocks, then
/// those at the top level.
pub open spec fn country_edits(b: Seq<u8>, whole: Block, u: CountryHistoryUpdate) -> Option<
    Seq<(Span, Seq<char>)>,
> {
    let politics = match block_spec(whole.items@, "set_politics"@) {
        Some(pb) => handed(b, pb, politics_runs(b, pb, u.politics))->0,
        None => Seq::empty(),
    };
    let popularities = match block_spec(whole.items@, "set_popularities"@) {
        Some(pb) => popularity_edits(b, pb, u.popularities@),
        None => Seq::empty(),
    };
    match handed(b, whole, country_runs(b, whole, u)) {
        Some(top) => Some(politics + popularities + top),
        None => None,
    }
}

/// The edits made at the top level of the file, as its editor hands them on.
#[verifier::rlimit(40)]
fn country_file_edits(source: &str, block: &Block, update: &CountryHistoryUpdate) -> (r: Option<Vec<TextEdit>>)
    requires
        value_fits(bytes_of(source), Value::Block(*block)),
    ensures
        match handed(bytes_of(source), *block, country_runs(bytes_of(source), *block, *update)) {
            Some(vs) => r matches Some(es) && crate::paradox::edit::edit_views(es@) == vs,
            None => r is None,
        },
{
    let ghost b = bytes_of(source);
    let mut editor = BlockEditor::new(source, block);
    let ghost e0 = editor;
    let ghost mut done: Seq<ChangeView> = Seq::empty();
    proof {
        lemma_made_none(editor);
    }
    let ghost ep = editor;
    editor.set_scalar("capital", update.capital.as_str());
    proof {
        lemma_made_one(ep, editor, scalar_change_spec(b, *block, "capital"@, (*update).capital@));
        assert(made(e0, editor, seq![scalar_change_spec(b, *block, "capital"@, (*update).capital@)]));
        done = seq![scalar_change_spec(b, *block, "capital"@, (*update).capital@)];
    }
    let ghost ep = editor;
    editor.set_scalar("oob", update.oob.as_str());
    proof {
        lemma_made_one(ep, editor, scalar_change_spec(b, *block, "oob"@, (*update).oob@));
        lemma_made_then(e0, ep, editor, done, seq![scalar_change_spec(b, *block, "oob"@, (*update).oob@)]);
        done = done + seq![scalar_change_spec(b, *block, "oob"@, (*update).oob@)];
    }
    let ghost ep = editor;
    editor.set_scalar("set_research_slots", update.research_slots.as_str());
    proof {
        lemma_made_one(ep, editor, scalar_change_spec(b, *block, "set_research_slots"@, (*update).research_slots@));
        lemma_made_then(e0, ep, editor, done, seq![scalar_change_spec(b, *block, "set_research_slots"@, (*update).research_slots@)]);
        done = done + seq![scalar_change_spec(b, *block, "set_research_slots"@, (*update).research_slots@)];
    }
    let ghost ep = editor;
    editor.set_scalar("set_convoys", update.convoys.as_str());
    proof {
        lemma_made_one(ep, editor, scalar_change_spec(b, *block, "set_convoys"@, (*update).convoys@));
        lemma_made_then(e0, ep, editor, done, seq![scalar_change_spec(b, *block, "set_convoys"@, (*update).convoys@)]);
        done = done + seq![scalar_change_spec(b, *block, "set_convoys"@, (*update).convoys@)];
    }
    let ghost ep = editor;
    editor.set_scalar("set_stability", update.stability.as_str());
    proof {
        lemma_made_one(ep, editor, scalar_change_spec(b, *block, "set_stability"@, (*update).stability@));
        lemma_made_then(e0, ep, editor, done, seq![scalar_change_spec(b, *block, "set_stability"@, (*update).stability@)]);
        done = done + seq![scalar_change_spec(b, *block, "set_stability"@, (*update).stability@)];
    }
    let ghost ep = editor;
    editor.set_scalar("set_war_support", update.war_support.as_str());
    proof {
        lemma_made_one(ep, editor, scalar_change_spec(b, *block, "set_war_support"@, (*update).war_support@));
        lemma_made_then(e0, ep, editor, done, seq![scalar_change_spec(b, *block, "set_war_support"@, (*update).war_support@)]);
        done = done + seq![scalar_change_spec(b, *block, "set_war_support"@, (*update).war_support@)];
    }
    let politics_body = render_politics(&update.politics);
    let popularities_body = render_popularities(&update.popularities);
    let ghost ep = editor;
    if !set_block_if_absent(&mut editor, "set_politics", politics_body.as_str()) {
        return None;
    }
    proof {
        
        lemma_made_then(e0, ep, editor, done, (absent_block(b, *block, "set_politics"@, render_politics_spec((*update).politics)))->0);
        done = done + (absent_block(b, *block, "set_politics"@, render_politics_spec((*update).politics)))->0;
    }
    let ghost ep = editor;
    if !set_block_if_absent(&mut editor, "set_popularities", popularities_body.as_str()) {
        return None;
    }
    proof {
        
        lemma_made_then(e0, ep, editor, done, (absent_block(b, *block, "set_popularities"@, render_popularities_spec((*update).popularities@)))->0);
        done = done + (absent_block(b, *block, "set_popularities"@, render_popularities_spec((*update).popularities@)))->0;
    }
    proof {
        assert(country_runs(b, *block, (*update)) == Some(done));
    }
    Some(finish_editor(editor))
}

/// The edits made inside a politics block, as its editor hands them on.
#[verifier::rlimit(30)]
fn politics_block_edits(source: &str, block: &Block, update: &Politics) -> (r: Option<Vec<TextEdit>>)
    requires
        value_fits(bytes_of(source), Value::Block(*block)),
    ensures
        match handed(bytes_of(source), *block, politics_runs(bytes_of(source), *block, *update)) {
            Some(vs) => r matches Some(es) && crate::paradox::edit::edit_views(es@) == vs,
            None => r is None,
        },
{
    let ghost b = bytes_of(source);
    let mut editor = BlockEditor::new(source, block);
    let ghost e0 = editor;
    let ghost mut done: Seq<ChangeView> = Seq::empty();
    proof {
        lemma_made_none(editor);
    }
    let ghost ep = editor;
    editor.set_scalar("ruling_party", update.ruling_party.as_str());
    proof {
        lemma_made_one(ep, editor, scalar_change_spec(b, *block, "ruling_party"@, (*update).ruling_party@));
        assert(made(e0, editor, seq![scalar_change_spec(b, *block, "ruling_party"@, (*update).ruling_party@)]));
        done = seq![scalar_change_spec(b, *block, "ruling_party"@, (*update).ruling_party@)];
    }
    let ghost ep = editor;
    editor.set_scalar("last_election", update.last_election.as_str());
    proof {
        lemma_made_one(ep, editor, scalar_change_spec(b, *block, "last_election"@, (*update).last_election@));
        lemma_made_then(e0, ep, editor, done, seq![scalar_change_spec(b, *block, "last_election"@, (*update).last_election@)]);
        done = done + seq![scalar_change_spec(b, *block, "last_election"@, (*update).last_election@)];
    }
    let ghost ep = editor;
    editor.set_scalar("election_frequency", update.election_frequency.as_str());
    proof {
        lemma_made_one(ep, editor, scalar_change_spec(b, *block, "election_frequency"@, (*update).election_frequency@));
        lemma_made_then(e0, ep, editor, done, seq![scalar_change_spec(b, *block, "election_frequency"@, (*update).election_frequency@)]);
        done = done + seq![scalar_change_spec(b, *block, "election_frequency"@, (*update).election_frequency@)];
    }
    let ghost ep = editor;
    editor.set_scalar("elections_allowed", update.elections_allowed.as_str());
    proof {
        lemma_made_one(ep, editor, scalar_change_spec(b, *block, "elections_allowed"@, (*update).elections_allowed@));
        lemma_made_then(e0, ep, editor, done, seq![scalar_change_spec(b, *block, "elections_allowed"@, (*update).elections_allowed@)]);
        done = done + seq![scalar_change_spec(b, *block, "elections_allowed"@, (*update).elections_allowed@)];
    }
    proof {
        assert(politics_runs(b, *block, (*update)) == Some(done));
    }
    Some(finish_editor(editor))
}

/// The whole file as one block, so the top-level fields are edited like the
/// fields of any block: found where they are, added at the end.
fn whole_file(source: &str, document: Document) -> (block: Block)
    requires
        all_fit(bytes_of(source), document.items@),
    ensures
        value_fits(bytes_of(source), Value::Block(block)),
        block.items@ == document.items@,
        whole_file_block(bytes_of(source), block, document.items@),
{
    proof {
        crate::text::lemma_str_valid(source);
    }
    let end = source.as_bytes().len();
    let block = Block { span: Span::new(0, end), inner: Span::new(0, end), items: document.items };
    assert(forall|k: int| 0 <= k < block.items.len() ==> item_fits(bytes_of(source), #[trigger] block.items@[k]));
    block
}

/// Rewrites the fields of a country history file in place. It refuses only
/// a file that does not parse, or a field that cannot be laid out.
#[verifier::rlimit(30)]
pub fn update_source(path: &str, source: &str, update: &CountryHistoryUpdate) -> (r: Result<String, EditError>)
    ensures
        match script_parse_spec(source) {
            Parsed::Fail(m, o) => r matches Err(EditError::Script { path: p, source: e }) && p@
                == path@ && e.message@ == m && e.offset == o,
            Parsed::Read(..) => exists|items: Seq<Item>, whole: Block|
                #[trigger] parsed_items(source, items) && #[trigger] whole_file_block(bytes_of(source), whole, items)
                    && saved_as(bytes_of(source), country_edits(bytes_of(source), whole, *update), r),
        },
{
    let document = match crate::paradox::parse(source) {
        Ok(document) => document,
        Err(e) => {
            return Err(EditError::Script { path: path.to_owned(), source: e });
        },
    };
    let ghost items = document.items@;
    proof {
        assert(parsed_items(source, items));
    }
    let whole = whole_file(source, document);
    proof {
        crate::script::lemma_block_items_fit(bytes_of(source), whole);
        lemma_items_fit(bytes_of(source), whole.items@, "set_politics"@);
        lemma_items_fit(bytes_of(source), whole.items@, "set_popularities"@);
    }
    let mut edits: Vec<TextEdit> = Vec::new();
    // The two blocks are edited key by key when they exist, so comments such as
    // the note HOI4 keeps beside `elections_allowed` are not swept away.
    match whole.block("set_politics") {
        Some(block) => {
            proof {
                crate::script::lemma_block_items_fit(bytes_of(source), *block);
            }
            let mut more = match politics_block_edits(source, block, &update.politics) {
                Some(es) => es,
                None => {
                    return Err(crate::script::layout_error());
                },
            };
            edits.append(&mut more);
        },
        None => {},
    }
    let ghost first = edits@;
    match whole.block("set_popularities") {
        Some(block) => {
            proof {
                crate::script::lemma_block_items_fit(bytes_of(source), *block);
            }
            let mut more = popularity_block_edits(source, block, &update.popularities);
            let ghost tail = more@;
            edits.append(&mut more);
            proof {
                crate::script::lemma_edit_views_append(first, tail);
                assert(edits@ == first + tail);
            }
        },
        None => {
            proof {
                assert(crate::paradox::edit::edit_views(edits@) + Seq::<(Span, Seq<char>)>::empty() =~= crate::paradox::edit::edit_views(edits@));
            }
        },
    }
    let ghost second = edits@;
    proof {
        assert(whole_file_block(bytes_of(source), whole, items));
    }
    let mut finished = match country_file_edits(source, &whole, update) {
        Some(es) => es,
        None => {
            return Err(crate::script::layout_error());
        },
    };
    let ghost tail = finished@;
    edits.append(&mut finished);
    proof {
        crate::script::lemma_edit_views_append(second, tail);
        assert(edits@ == second + tail);
        assert(crate::paradox::edit::edit_views(first) =~= match block_spec(whole.items@, "set_politics"@) {
            Some(pb) => handed(bytes_of(source), pb, politics_runs(bytes_of(source), pb, update.politics))->0,
            None => Seq::empty(),
        });
    }
    save_edits(source, edits)
}

} // verus!
