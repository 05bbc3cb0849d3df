//! Technologies: `common/technologies/*.txt`, the research trees.
//!
//! A technology is one `id = { }` block inside `technologies = { }`, placed
//! on one or more tree folders by a `folder = { name position }` block each,
//! and linked forward by `path = { leads_to_tech }` blocks. Rows are often
//! spelled through the file's `@1936 = 2` variables, which the form keeps
//! as written and the canvas resolves. What a technology *does* — the unit
//! and equipment modifiers it unlocks — is open-ended script, so it is
//! handed over as text for the code view rather than guessed at.
use crate::error::EditError;
use crate::paradox::edit::{
    apply_edits, apply_edits_spec, child_indent, detect_newline, edit_fits, edits_fit,
    edits_fit_all, indent_at, removal_span, BlockEditor, TextEdit, ChangeView, block_change_spec,
    child_indent_spec, layout_fits, newline_spec, record, scalar_change_spec,
};
use crate::paradox::Span;
use crate::paradox::lexer::{needs_quotes, needs_quotes_spec, quote, quote_spec};
use crate::paradox::parser::{
    block_spec, find_spec, item_fits, pairs_of, pairs_with, scalar_spec, parse_spec as script_parse_spec, scalar_text,
    value_fits, Parsed,
};
use crate::paradox::{line_number, Block, Document, Item, Items, Pair, Value};
use crate::script::{
    all_fit, block_values, blocks_among, body_or_empty, body_without, body_without_spec, both,
    derefs, entries, entries_spec, format_lines, format_lines_spec, kept_target,
    lemma_entries_are_blocks, lemma_entries_fit, lemma_items_fit, lemma_pairs_derefs, opt_text, pairs_fit, parsed_items, read_block, read_words, set_block_checked, set_quoted,
    set_words, text_of, text_or_empty, words_of, words_spec, all_runs, bare_scalars, finished,
    fmt_lines, hand_on, handed_on, lemma_all_runs_fails, lemma_all_runs_push, lemma_made_none,
    lemma_made_one, lemma_made_then, made, normalise_words_spec, record_all, views_fit, words_change,
    checked_block, finish_editor, handed, quoted_change, save_edits, saved_as, then_runs,
};
use crate::text::{boundary, text_at, bytes_of, chars_of, join, join_strings, str_eq, trim, trim_spec, views};
use vstd::prelude::*;
use vstd::utf8::encode_utf8;

verus! {

#[derive(Debug, Clone, Default, PartialEq)]
pub struct TechFolder {
    pub name: String,
    /// As written: a number, or a `@variable` the file declares.
    pub x: String,
    pub y: String,
}

#[derive(Debug, Clone, Default, PartialEq)]
pub struct TechPath {
    pub leads_to_tech: String,
    pub research_cost_coeff: String,
}

#[derive(Debug, Clone, Default, PartialEq)]
pub struct Variable {
    /// Without the `@`.
    pub name: String,
    pub value: String,
}

#[derive(Debug, Clone, Default)]
pub struct Technology {
    pub id: String,
    pub research_cost: String,
    pub start_year: String,
    /// `yes` for a doctrine, else empty.
    pub doctrine: String,
    pub doctrine_name: String,
    pub xp_research_type: String,
    pub xp_research_cost: String,
    pub xp_research_bonus: String,
    pub folders: Vec<TechFolder>,
    pub paths: Vec<TechPath>,
    pub categories: Vec<String>,
    pub xor: Vec<String>,
    pub sub_technologies: Vec<String>,
    pub enable_equipments: Vec<String>,
    pub enable_equipment_modules: Vec<String>,
    pub enable_subunits: Vec<String>,
    pub allow: String,
    pub allow_branch: String,
    pub on_research_complete: String,
    pub ai_will_do: String,
    pub ai_research_weights: String,
    /// Everything else in the block — the modifiers it grants — as script,
    /// for reading beside the form and editing in the code view.
    pub effects: String,
    pub line: usize,
}

#[derive(Debug, Clone)]
pub struct TechnologyFile {
    pub path: String,
    /// The `@name = value` rows the file declares, for placing positions.
    pub variables: Vec<Variable>,
    pub technologies: Vec<Technology>,
    pub has_bom: bool,
    /// Read as Windows-1252 rather than UTF-8, and written back so.
    pub is_legacy_encoding: bool,
    /// The text the technologies were read from, for the code view.
    pub source: String,
}

/// The editable fields sent back when saving. Empty strings clear a field;
/// a folder, path or list entry left out is removed. The effects are not
/// here: they are edited in the code view.
#[derive(Debug, Clone, Default)]
pub struct TechnologyUpdate {
    pub id: String,
    pub research_cost: String,
    pub start_year: String,
    pub doctrine: String,
    pub doctrine_name: String,
    pub xp_research_type: String,
    pub xp_research_cost: String,
    pub xp_research_bonus: String,
    pub folders: Vec<TechFolder>,
    pub paths: Vec<TechPath>,
    pub categories: Vec<String>,
    pub xor: Vec<String>,
    pub sub_technologies: Vec<String>,
    pub enable_equipments: Vec<String>,
    pub enable_equipment_modules: Vec<String>,
    pub enable_subunits: Vec<String>,
    pub allow: String,
    pub allow_branch: String,
    pub on_research_complete: String,
    pub ai_will_do: String,
    pub ai_research_weights: String,
}

// ---------------------------------------------------------------------------
// Reading
// ---------------------------------------------------------------------------

/// A key spelled as a variable: `@1936`.
pub open spec fn marked(key: Seq<char>) -> bool {
    key.len() > 0 && key[0] == '@'
}

fn is_marked(key: &str) -> (r: bool)
    ensures
        r == marked(key@),
{
    let v = chars_of(key);
    v.len() > 0 && v[0] == '@'
}

/// The pairs among `pairs` whose key is not a variable, in order.
pub open spec fn unmarked(pairs: Seq<Pair>) -> Seq<Pair>
    decreases pairs.len(),
{
    if pairs.len() == 0 {
        Seq::empty()
    } else {
        let rest = unmarked(pairs.drop_last());
        if marked(pairs.last().key@) {
            rest
        } else {
            rest.push(pairs.last())
        }
    }
}

/// Every `id = { }` pair inside the file's `technologies` blocks, in file
/// order, variables left out.
pub open spec fn technology_pairs_spec(items: Seq<Item>) -> Seq<Pair> {
    unmarked(entries_spec(items, "technologies"@))
}

proof fn lemma_unmarked_within(pairs: Seq<Pair>)
    ensures
        forall|k: int| 0 <= k < unmarked(pairs).len() ==> exists|j: int| 0 <= j < pairs.len() && #[trigger] unmarked(pairs)[k] == pairs[j],
        forall|k: int| 0 <= k < unmarked(pairs).len() ==> !marked(#[trigger] unmarked(pairs)[k].key@),
    decreases pairs.len(),
{
    if pairs.len() > 0 {
        let d = pairs.drop_last();
        lemma_unmarked_within(d);
        let rest = unmarked(d);
        assert forall|k: int| 0 <= k < unmarked(pairs).len() implies exists|j: int| 0 <= j < pairs.len() && #[trigger] unmarked(pairs)[k] == pairs[j] by {
            if k < rest.len() {
                let j = choose|j: int| 0 <= j < d.len() && rest[k] == d[j];
                assert(unmarked(pairs)[k] == rest[k]);
                assert(pairs[j] == d[j]);
            } else {
                assert(unmarked(pairs)[k] == pairs[pairs.len() - 1]);
            }
        }
        assert forall|k: int| 0 <= k < unmarked(pairs).len() implies !marked(#[trigger] unmarked(pairs)[k].key@) by {
            if k < rest.len() {
                assert(unmarked(pairs)[k] == rest[k]);
            }
        }
    }
}

/// Technology pairs lie inside the source and assign blocks.
proof fn lemma_technology_pairs(b: Seq<u8>, items: Seq<Item>)
    requires
        all_fit(b, items),
    ensures
        pairs_fit(b, technology_pairs_spec(items)),
        forall|k: int| 0 <= k < technology_pairs_spec(items).len() ==> (#[trigger] technology_pairs_spec(items)[k]).value is Block,
{
    lemma_items_fit(b, items, "technologies"@);
    lemma_entries_fit(b, pairs_with(items, "technologies"@));
    lemma_entries_are_blocks(pairs_with(items, "technologies"@));
    let es = entries_spec(items, "technologies"@);
    lemma_unmarked_within(es);
    assert forall|k: int| 0 <= k < technology_pairs_spec(items).len() implies item_fits(b, Item::Pair(#[trigger] technology_pairs_spec(items)[k])) && technology_pairs_spec(items)[k].value is Block by {
        let j = choose|j: int| 0 <= j < es.len() && unmarked(es)[k] == es[j];
        assert(item_fits(b, Item::Pair(es[j])));
    }
}

fn unmarked_pairs<'a>(pairs: &Vec<&'a Pair>) -> (r: Vec<&'a Pair>)
    ensures
        derefs(r@) == unmarked(derefs(pairs@)),
{
    let ghost all = derefs(pairs@);
    let mut r: Vec<&'a Pair> = Vec::new();
    let mut i: usize = 0;
    while i < pairs.len()
        invariant
            i <= pairs@.len(),
            all == derefs(pairs@),
            derefs(r@) == unmarked(all.take(i as int)),
        decreases pairs@.len() - i,
    {
        let ghost before = derefs(r@);
        proof {
            assert(all.take(i + 1).drop_last() =~= all.take(i as int));
            assert(all.take(i + 1).last() == *pairs@[i as int]);
        }
        if !is_marked(pairs[i].key.as_str()) {
            r.push(pairs[i]);
            assert(derefs(r@) =~= before.push(*pairs@[i as int]));
        }
        i = i + 1;
    }
    assert(all.take(all.len() as int) =~= all);
    r
}

pub fn technology_pairs(document: &Document) -> (r: Vec<&Pair>)
    ensures
        derefs(r@) == technology_pairs_spec(document.items@),
{
    let all = entries(document, "technologies");
    unmarked_pairs(&all)
}

/// Every pair directly inside the blocks that `pairs` assign, in order.
pub open spec fn inner_pairs(pairs: Seq<Pair>) -> Seq<Pair>
    decreases pairs.len(),
{
    if pairs.len() == 0 {
        Seq::empty()
    } else {
        let rest = inner_pairs(pairs.drop_last());
        match pairs.last().value {
            Value::Block(b) => rest + pairs_of(b.items@),
            _ => rest,
        }
    }
}

/// The variable rows among `pairs`: a marked key assigned a scalar.
pub open spec fn variable_pairs(pairs: Seq<Pair>) -> Seq<Pair>
    decreases pairs.len(),
{
    if pairs.len() == 0 {
        Seq::empty()
    } else {
        let rest = variable_pairs(pairs.drop_last());
        if marked(pairs.last().key@) && pairs.last().value is Scalar {
            rest.push(pairs.last())
        } else {
            rest
        }
    }
}

/// The `@name = value` rows of the file's `technologies` blocks.
pub open spec fn variable_pairs_spec(items: Seq<Item>) -> Seq<Pair> {
    variable_pairs(inner_pairs(pairs_with(items, "technologies"@)))
}

/// A variable row read: the name without its `@`, the value's text.
pub open spec fn variable_read(v: Variable, p: Pair) -> bool {
    &&& v.name@ == p.key@.skip(1)
    &&& v.value@ == scalar_text(p.value->Scalar_0)
}

pub open spec fn variables_read(vs: Seq<Variable>, items: Seq<Item>) -> bool {
    let ps = variable_pairs_spec(items);
    &&& vs.len() == ps.len()
    &&& forall|k: int| 0 <= k < ps.len() ==> variable_read(#[trigger] vs[k], ps[k])
}

proof fn lemma_variable_pairs_push(pairs: Seq<Pair>, more: Seq<Pair>)
    ensures
        variable_pairs(pairs + more) == variable_pairs(pairs) + variable_pairs(more),
    decreases more.len(),
{
    if more.len() == 0 {
        assert(pairs + more =~= pairs);
        assert(variable_pairs(pairs) + variable_pairs(more) =~= variable_pairs(pairs));
    } else {
        assert((pairs + more).drop_last() =~= pairs + more.drop_last());
        lemma_variable_pairs_push(pairs, more.drop_last());
        let l = more.last();
        assert((pairs + more).last() == l);
        if marked(l.key@) && l.value is Scalar {
            assert(variable_pairs(pairs) + variable_pairs(more) =~= (variable_pairs(pairs)
                + variable_pairs(more.drop_last())).push(l));
        } else {
            assert(variable_pairs(pairs) + variable_pairs(more) =~= variable_pairs(pairs)
                + variable_pairs(more.drop_last()));
        }
    }
}

fn read_variables(document: &Document) -> (r: Vec<Variable>)
    ensures
        variables_read(r@, document.items@),
{
    let outer = document.find_all("technologies");
    proof {
        crate::script::lemma_find_all_derefs(outer@, document.items@, "technologies"@);
    }
    let ghost all = derefs(outer@);
    let mut r: Vec<Variable> = Vec::new();
    let mut i: usize = 0;
    while i < outer.len()
        invariant
            i <= outer@.len(),
            all == derefs(outer@),
            all == pairs_with(document.items@, "technologies"@),
            r@.len() == variable_pairs(inner_pairs(all.take(i as int))).len(),
            forall|k: int| 0 <= k < r@.len() ==> variable_read(#[trigger] r@[k], variable_pairs(inner_pairs(all.take(i as int)))[k]),
        decreases outer@.len() - i,
    {
        proof {
            assert(all.take(i + 1).drop_last() =~= all.take(i as int));
            assert(all.take(i + 1).last() == *outer@[i as int]);
        }
        match &outer[i].value {
            Value::Block(block) => {
                let inner = block.pairs();
                proof {
                    lemma_pairs_derefs(inner@, block.items@);
                    lemma_variable_pairs_push(inner_pairs(all.take(i as int)), pairs_of(block.items@));
                }
                let ghost base = variable_pairs(inner_pairs(all.take(i as int)));
                let ghost ps = pairs_of(block.items@);
                let ghost n = r@.len();
                let mut j: usize = 0;
                while j < inner.len()
                    invariant
                        j <= inner@.len(),
                        derefs(inner@) == ps,
                        n == base.len(),
                        r@.len() == n + variable_pairs(ps.take(j as int)).len(),
                        forall|k: int| 0 <= k < n ==> variable_read(#[trigger] r@[k], base[k]),
                        forall|k: int| 0 <= k < variable_pairs(ps.take(j as int)).len() ==> variable_read(#[trigger] r@[n + k], variable_pairs(ps.take(j as int))[k]),
                    decreases inner@.len() - j,
                {
                    let pair = inner[j];
                    proof {
                        assert(ps.take(j + 1).drop_last() =~= ps.take(j as int));
                        assert(ps.take(j + 1).last() == *pair);
                        assert(derefs(inner@)[j as int] == *pair);
                    }
                    if is_marked(pair.key.as_str()) {
                        if let Value::Scalar(scalar) = &pair.value {
                            let v = chars_of(pair.key.as_str());
                            let name = crate::text::string_from_chars(&v, 1, v.len());
                            proof {
                                assert(v@.subrange(1, v@.len() as int) =~= pair.key@.skip(1));
                            }
                            r.push(Variable { name, value: scalar.value() });
                            assert(variable_pairs(ps.take(j + 1)) == variable_pairs(ps.take(j as int)).push(*pair));
                        }
                    }
                    j = j + 1;
                }
                proof {
                    assert(ps.take(ps.len() as int) =~= ps);
                    let total = base + variable_pairs(ps);
                    assert forall|k: int| 0 <= k < r@.len() implies variable_read(#[trigger] r@[k], total[k]) by {
                        if k < n {
                            assert(total[k] == base[k]);
                        } else {
                            assert(total[k] == variable_pairs(ps)[k - n]);
                            assert(r@[n + (k - n)] == r@[k]);
                        }
                    }
                }
            },
            _ => {},
        }
        i = i + 1;
    }
    assert(all.take(all.len() as int) =~= all);
    r
}

/// The folder blocks of a technology, in order.
pub open spec fn folder_blocks(items: Seq<Item>) -> Seq<Block> {
    block_values(pairs_with(items, "folder"@))
}

/// The path blocks of a technology, in order.
pub open spec fn path_blocks(items: Seq<Item>) -> Seq<Block> {
    block_values(pairs_with(items, "path"@))
}

/// A coordinate of a folder's `position = { x y }`.
pub open spec fn coordinate(items: Seq<Item>, key: Seq<char>) -> Seq<char> {
    match block_spec(items, "position"@) {
        Some(p) => text_or_empty(p.items@, key),
        None => Seq::empty(),
    }
}

pub open spec fn folder_read(f: TechFolder, block: Block) -> bool {
    &&& f.name@ == text_or_empty(block.items@, "name"@)
    &&& f.x@ == coordinate(block.items@, "x"@)
    &&& f.y@ == coordinate(block.items@, "y"@)
}

pub open spec fn path_read(p: TechPath, block: Block) -> bool {
    &&& p.leads_to_tech@ == text_or_empty(block.items@, "leads_to_tech"@)
    &&& p.research_cost_coeff@ == text_or_empty(block.items@, "research_cost_coeff"@)
}

/// The keys a form edits; everything else in a technology is its effects.
pub open spec fn edited_key(key: Seq<char>) -> bool {
    ||| key == "research_cost"@
    ||| key == "start_year"@
    ||| key == "doctrine"@
    ||| key == "doctrine_name"@
    ||| key == "xp_research_type"@
    ||| key == "xp_research_cost"@
    ||| key == "xp_research_bonus"@
    ||| key == "categories"@
    ||| key == "xor"@
    ||| key == "sub_technologies"@
    ||| key == "enable_equipments"@
    ||| key == "enable_equipment_modules"@
    ||| key == "enable_subunits"@
    ||| key == "allow"@
    ||| key == "allow_branch"@
    ||| key == "on_research_complete"@
    ||| key == "ai_will_do"@
    ||| key == "ai_research_weights"@
    ||| key == "folder"@
    ||| key == "path"@
}

fn is_edited_key(key: &str) -> (r: bool)
    ensures
        r == edited_key(key@),
{
    str_eq(key, "research_cost") || str_eq(key, "start_year") || str_eq(key, "doctrine")
        || str_eq(key, "doctrine_name") || str_eq(key, "xp_research_type") || str_eq(
        key,
        "xp_research_cost",
    ) || str_eq(key, "xp_research_bonus") || str_eq(key, "categories") || str_eq(key, "xor")
        || str_eq(key, "sub_technologies") || str_eq(key, "enable_equipments") || str_eq(
        key,
        "enable_equipment_modules",
    ) || str_eq(key, "enable_subunits") || str_eq(key, "allow") || str_eq(key, "allow_branch")
        || str_eq(key, "on_research_complete") || str_eq(key, "ai_will_do") || str_eq(
        key,
        "ai_research_weights",
    ) || str_eq(key, "folder") || str_eq(key, "path")
}

/// The assignments of a technology a form edits, in order.
pub open spec fn edited_pairs(pairs: Seq<Pair>) -> Seq<Pair>
    decreases pairs.len(),
{
    if pairs.len() == 0 {
        Seq::empty()
    } else {
        let rest = edited_pairs(pairs.drop_last());
        if edited_key(pairs.last().key@) {
            rest.push(pairs.last())
        } else {
            rest
        }
    }
}

proof fn lemma_edited_pairs_fit(b: Seq<u8>, pairs: Seq<Pair>)
    requires
        pairs_fit(b, pairs),
    ensures
        pairs_fit(b, edited_pairs(pairs)),
    decreases pairs.len(),
{
    if pairs.len() > 0 {
        let d = pairs.drop_last();
        assert forall|k: int| 0 <= k < d.len() implies item_fits(b, Item::Pair(#[trigger] d[k])) by {
            assert(d[k] == pairs[k]);
        }
        lemma_edited_pairs_fit(b, d);
        assert(item_fits(b, Item::Pair(pairs[pairs.len() - 1])));
    }
}

fn edited_among<'a>(pairs: &Vec<&'a Pair>) -> (r: Vec<&'a Pair>)
    ensures
        derefs(r@) == edited_pairs(derefs(pairs@)),
{
    let ghost all = derefs(pairs@);
    let mut r: Vec<&'a Pair> = Vec::new();
    let mut i: usize = 0;
    while i < pairs.len()
        invariant
            i <= pairs@.len(),
            all == derefs(pairs@),
            derefs(r@) == edited_pairs(all.take(i as int)),
        decreases pairs@.len() - i,
    {
        let ghost before = derefs(r@);
        proof {
            assert(all.take(i + 1).drop_last() =~= all.take(i as int));
            assert(all.take(i + 1).last() == *pairs@[i as int]);
        }
        if is_edited_key(pairs[i].key.as_str()) {
            r.push(pairs[i]);
            assert(derefs(r@) =~= before.push(*pairs@[i as int]));
        }
        i = i + 1;
    }
    assert(all.take(all.len() as int) =~= all);
    r
}

/// What `read_technology` makes of the block keyed `id` starting at `start`.
pub open spec fn technology_read(b: Seq<u8>, t: Technology, id: Seq<char>, block: Block, start: int) -> bool {
    let items = block.items@;
    let folders = folder_blocks(items);
    let paths = path_blocks(items);
    &&& t.id@ == id
    &&& t.research_cost@ == text_or_empty(items, "research_cost"@)
    &&& t.start_year@ == text_or_empty(items, "start_year"@)
    &&& t.doctrine@ == text_or_empty(items, "doctrine"@)
    &&& t.doctrine_name@ == text_or_empty(items, "doctrine_name"@)
    &&& t.xp_research_type@ == text_or_empty(items, "xp_research_type"@)
    &&& t.xp_research_cost@ == text_or_empty(items, "xp_research_cost"@)
    &&& t.xp_research_bonus@ == text_or_empty(items, "xp_research_bonus"@)
    &&& t.folders@.len() == folders.len()
    &&& forall|k: int| 0 <= k < folders.len() ==> folder_read(#[trigger] t.folders@[k], folders[k])
    &&& t.paths@.len() == paths.len()
    &&& forall|k: int| 0 <= k < paths.len() ==> path_read(#[trigger] t.paths@[k], paths[k])
    &&& views(t.categories@) == words_spec(items, "categories"@)
    &&& views(t.xor@) == words_spec(items, "xor"@)
    &&& views(t.sub_technologies@) == words_spec(items, "sub_technologies"@)
    &&& views(t.enable_equipments@) == words_spec(items, "enable_equipments"@)
    &&& views(t.enable_equipment_modules@) == words_spec(items, "enable_equipment_modules"@)
    &&& views(t.enable_subunits@) == words_spec(items, "enable_subunits"@)
    &&& t.allow@ == body_or_empty(b, items, "allow"@)
    &&& t.allow_branch@ == body_or_empty(b, items, "allow_branch"@)
    &&& t.on_research_complete@ == body_or_empty(b, items, "on_research_complete"@)
    &&& t.ai_will_do@ == body_or_empty(b, items, "ai_will_do"@)
    &&& t.ai_research_weights@ == body_or_empty(b, items, "ai_research_weights"@)
    &&& t.effects@ == body_without_spec(b, block, edited_pairs(pairs_of(items)))
    &&& t.line == line_number(b, start)
}

fn read_folders(block: &Block) -> (r: Vec<TechFolder>)
    ensures
        r@.len() == folder_blocks(block.items@).len(),
        forall|k: int| 0 <= k < r@.len() ==> folder_read(#[trigger] r@[k], folder_blocks(block.items@)[k]),
{
    let pairs = block.find_all("folder");
    proof {
        crate::script::lemma_find_all_derefs(pairs@, block.items@, "folder"@);
    }
    let blocks = blocks_among(&pairs);
    let ghost fs = folder_blocks(block.items@);
    let mut r: Vec<TechFolder> = Vec::new();
    let mut i: usize = 0;
    while i < blocks.len()
        invariant
            i <= blocks@.len(),
            derefs(blocks@) == fs,
            r@.len() == i,
            forall|k: int| 0 <= k < i ==> folder_read(#[trigger] r@[k], fs[k]),
        decreases blocks@.len() - i,
    {
        let folder = blocks[i];
        proof {
            assert(derefs(blocks@)[i as int] == *folder);
        }
        let (x, y) = match folder.block("position") {
            Some(position) => (text_of(position, "x"), text_of(position, "y")),
            None => (String::new(), String::new()),
        };
        r.push(TechFolder { name: text_of(folder, "name"), x, y });
        i = i + 1;
    }
    r
}

fn read_paths(block: &Block) -> (r: Vec<TechPath>)
    ensures
        r@.len() == path_blocks(block.items@).len(),
        forall|k: int| 0 <= k < r@.len() ==> path_read(#[trigger] r@[k], path_blocks(block.items@)[k]),
{
    let pairs = block.find_all("path");
    proof {
        crate::script::lemma_find_all_derefs(pairs@, block.items@, "path"@);
    }
    let blocks = blocks_among(&pairs);
    let ghost ps = path_blocks(block.items@);
    let mut r: Vec<TechPath> = Vec::new();
    let mut i: usize = 0;
    while i < blocks.len()
        invariant
            i <= blocks@.len(),
            derefs(blocks@) == ps,
            r@.len() == i,
            forall|k: int| 0 <= k < i ==> path_read(#[trigger] r@[k], ps[k]),
        decreases blocks@.len() - i,
    {
        let path = blocks[i];
        proof {
            assert(derefs(blocks@)[i as int] == *path);
        }
        r.push(
            TechPath {
                leads_to_tech: text_of(path, "leads_to_tech"),
                research_cost_coeff: text_of(path, "research_cost_coeff"),
            },
        );
        i = i + 1;
    }
    r
}

/// The technology keyed `id` whose block starts at byte `start`.
pub fn read_technology(source: &str, id: &str, block: &Block, start: usize) -> (t: Technology)
    requires
        bytes_of(source).len() <= isize::MAX,
        value_fits(bytes_of(source), Value::Block(*block)),
        start >= bytes_of(source).len() || boundary(bytes_of(source), start as int),
    ensures
        technology_read(bytes_of(source), t, id@, *block, start as int),
{
    let all = block.pairs();
    proof {
        lemma_pairs_derefs(all@, block.items@);
        crate::script::lemma_block_items_fit(bytes_of(source), *block);
        lemma_items_fit(bytes_of(source), block.items@, Seq::empty());
        crate::paradox::parser::lemma_pairs_of_in(block.items@);
        assert forall|k: int| 0 <= k < pairs_of(block.items@).len() implies item_fits(
            bytes_of(source),
            Item::Pair(#[trigger] pairs_of(block.items@)[k]),
        ) by {
            let j = choose|j: int| 0 <= j < block.items@.len() && block.items@[j] == Item::Pair(pairs_of(block.items@)[k]);
            assert(item_fits(bytes_of(source), block.items@[j]));
        }
        lemma_edited_pairs_fit(bytes_of(source), pairs_of(block.items@));
    }
    let cut = edited_among(&all);
    let effects = body_without(source, block, &cut);
    Technology {
        id: id.to_owned(),
        research_cost: text_of(block, "research_cost"),
        start_year: text_of(block, "start_year"),
        doctrine: text_of(block, "doctrine"),
        doctrine_name: text_of(block, "doctrine_name"),
        xp_research_type: text_of(block, "xp_research_type"),
        xp_research_cost: text_of(block, "xp_research_cost"),
        xp_research_bonus: text_of(block, "xp_research_bonus"),
        folders: read_folders(block),
        paths: read_paths(block),
        categories: read_words(block, "categories"),
        xor: read_words(block, "xor"),
        sub_technologies: read_words(block, "sub_technologies"),
        enable_equipments: read_words(block, "enable_equipments"),
        enable_equipment_modules: read_words(block, "enable_equipment_modules"),
        enable_subunits: read_words(block, "enable_subunits"),
        allow: read_block(source, block, "allow"),
        allow_branch: read_block(source, block, "allow_branch"),
        on_research_complete: read_block(source, block, "on_research_complete"),
        ai_will_do: read_block(source, block, "ai_will_do"),
        ai_research_weights: read_block(source, block, "ai_research_weights"),
        effects,
        line: crate::paradox::line_of(source, start),
    }
}

/// Every technology of the file, read from the parsed items `items`.
pub open spec fn technologies_read(b: Seq<u8>, ts: Seq<Technology>, items: Seq<Item>) -> bool {
    let ps = technology_pairs_spec(items);
    &&& ts.len() == ps.len()
    &&& forall|k: int|
        0 <= k < ps.len() ==> match (#[trigger] ps[k]).value {
            Value::Block(bl) => technology_read(b, ts[k], ps[k].key@, bl, ps[k].span.start as int),
            _ => false,
        }
}

pub fn read_technologies(source: &str, document: &Document) -> (r: Vec<Technology>)
    requires
        bytes_of(source).len() <= isize::MAX,
        all_fit(bytes_of(source), document.items@),
    ensures
        technologies_read(bytes_of(source), r@, document.items@),
{
    let ghost b = bytes_of(source);
    let pairs = technology_pairs(document);
    let ghost ps = technology_pairs_spec(document.items@);
    proof {
        lemma_technology_pairs(b, document.items@);
    }
    let mut r: Vec<Technology> = Vec::new();
    let mut i: usize = 0;
    while i < pairs.len()
        invariant
            i <= pairs@.len(),
            b == bytes_of(source),
            b.len() <= isize::MAX,
            derefs(pairs@) == ps,
            ps == technology_pairs_spec(document.items@),
            pairs_fit(b, ps),
            forall|k: int| 0 <= k < ps.len() ==> (#[trigger] ps[k]).value is Block,
            r@.len() == i,
            forall|k: int|
                0 <= k < i ==> match (#[trigger] ps[k]).value {
                    Value::Block(bl) => technology_read(b, r@[k], ps[k].key@, bl, ps[k].span.start as int),
                    _ => false,
                },
        decreases pairs@.len() - i,
    {
        let pair = pairs[i];
        proof {
            assert(derefs(pairs@)[i as int] == *pair);
            assert(item_fits(b, Item::Pair(ps[i as int])));
        }
        match &pair.value {
            Value::Block(block) => {
                r.push(read_technology(source, pair.key.as_str(), block, pair.span.start));
            },
            _ => {
                proof {
                    assert(ps[i as int].value is Block);
                }
            },
        }
        i = i + 1;
    }
    r
}

/// Reads technologies out of text the window holds, which need not be what
/// is on disk: the code view parses its buffer as the user types.
pub fn parse(path: &str, content: &str, has_bom: bool, is_legacy_encoding: bool) -> (r: Result<
    TechnologyFile,
    EditError,
>)
    requires
        bytes_of(content).len() <= isize::MAX,
    ensures
        match script_parse_spec(content) {
            Parsed::Fail(m, o) => r matches Err(EditError::Script { path: p, source: e }) && p@
                == path@ && e.message@ == m && e.offset == o,
            Parsed::Read(..) => r is Ok,
        },
        r matches Ok(file) ==> {
            &&& file.path@ == crate::text::replace_char(path@, '\\', '/')
            &&& file.source@ == content@
            &&& file.has_bom == has_bom
            &&& file.is_legacy_encoding == is_legacy_encoding
            &&& exists|items: Seq<Item>|
                #[trigger] parsed_items(content, items) && variables_read(file.variables@, items)
                    && technologies_read(bytes_of(content), file.technologies@, items)
        },
{
    let document = match crate::paradox::parse(content) {
        Ok(document) => document,
        Err(source) => {
            return Err(EditError::Script { path: path.to_owned(), source });
        },
    };
    let variables = read_variables(&document);
    let technologies = read_technologies(content, &document);
    proof {
        assert(parsed_items(content, document.items@));
    }
    Ok(
        TechnologyFile {
            path: crate::text::replace_char_in(path, '\\', '/'),
            variables,
            technologies,
            has_bom,
            is_legacy_encoding,
            source: content.to_owned(),
        },
    )
}

/// The first technology keyed exactly `id`.
pub open spec fn find_technology_spec(items: Seq<Item>, id: Seq<char>) -> Option<Pair> {
    crate::script::first_keyed(technology_pairs_spec(items), id, 0)
}

pub fn find_technology<'a>(document: &'a Document, id: &str) -> (r: Option<&'a Pair>)
    ensures
        match find_technology_spec(document.items@, id@) {
            Some(p) => r matches Some(q) && *q == p,
            None => r is None,
        },
{
    let pairs = technology_pairs(document);
    let ghost ps = technology_pairs_spec(document.items@);
    let mut i: usize = 0;
    while i < pairs.len()
        invariant
            i <= pairs@.len(),
            derefs(pairs@) == ps,
            ps == technology_pairs_spec(document.items@),
            crate::script::first_keyed(ps, id@, 0) == crate::script::first_keyed(ps, id@, i as int),
        decreases pairs@.len() - i,
    {
        proof {
            assert(derefs(pairs@)[i as int] == *pairs@[i as int]);
        }
        if str_eq(pairs[i].key.as_str(), id) {
            assert(ps[i as int].key@ == id@);
            return Some(pairs[i]);
        }
        i = i + 1;
    }
    None
}

/// The technology a search finds lies inside the source and is a block.
proof fn lemma_found_technology(b: Seq<u8>, items: Seq<Item>, id: Seq<char>)
    requires
        all_fit(b, items),
    ensures
        find_technology_spec(items, id) matches Some(p) ==> item_fits(b, Item::Pair(p))
            && p.value is Block,
{
    lemma_technology_pairs(b, items);
    let ps = technology_pairs_spec(items);
    crate::script::lemma_first_keyed_in(ps, id, 0);
    if let Some(p) = find_technology_spec(items, id) {
        let k = choose|k: int| 0 <= k < ps.len() && p == #[trigger] ps[k];
        assert(item_fits(b, Item::Pair(ps[k])));
    }
}

/// "no technology with id `ID` exists in PATH".
pub open spec fn no_technology_message(id: Seq<char>, path: Seq<char>) -> Seq<char> {
    "no technology with id `"@ + id + "` exists in "@ + path
}

fn no_technology(id: &str, path: &str) -> (m: String)
    ensures
        m@ == no_technology_message(id@, path@),
{
    let mut m = "no technology with id `".to_owned();
    m.push_str(id);
    m.push_str("` exists in ");
    m.push_str(path);
    proof {
        reveal_strlit("no technology with id `");
        reveal_strlit("` exists in ");
    }
    m
}

/// Deletes one technology, with its line when it owns one.
pub fn delete_source(path: &str, source: &str, tech_id: &str) -> (r: Result<String, EditError>)
    ensures
        script_parse_spec(source) matches Parsed::Fail(m, o) ==> r matches Err(
            EditError::Script { path: p, source: e },
        ) && p@ == path@ && e.message@ == m && e.offset == o,
        script_parse_spec(source) is Read ==> exists|items: Seq<Item>|
            #[trigger] parsed_items(source, items) && match find_technology_spec(items, tech_id@) {
                Some(p) => r matches Ok(text) && text@ == text_at(
                    bytes_of(source),
                    0,
                    removal_span(bytes_of(source), p).start as int,
                ) + text_at(
                    bytes_of(source),
                    removal_span(bytes_of(source), p).end as int,
                    bytes_of(source).len() as int,
                ),
                None => r matches Err(EditError::Message(m)) && m@ == no_technology_message(
                    tech_id@,
                    path@,
                ),
            },
{
    let document = match crate::paradox::parse(source) {
        Ok(document) => document,
        Err(e) => {
            return Err(EditError::Script { path: path.to_owned(), source: e });
        },
    };
    proof {
        assert(parsed_items(source, document.items@));
        lemma_found_technology(bytes_of(source), document.items@, tech_id@);
    }
    let pair = match find_technology(&document, tech_id) {
        Some(pair) => pair,
        None => {
            return Err(EditError::Message(no_technology(tech_id, path)));
        },
    };
    let edits = crate::paradox::edit::remove_pair(source, pair);
    proof {
        assert(edits@ =~= seq![edits@[0]]);
        crate::paradox::edit::law_single_edit_replaces_its_span(bytes_of(source), edits@[0]);
    }
    proof {
        crate::paradox::edit::lemma_fitting_edits_apply(source, edits@);
    }
    let text = apply_edits(source, edits);
    Ok(text)
}

// ---------------------------------------------------------------------------
// Checking an update
// ---------------------------------------------------------------------------

/// Why an update cannot be written, if it cannot.
pub open spec fn validate_spec(u: TechnologyUpdate) -> Option<Seq<char>> {
    let id = trim_spec(u.id@);
    if id.len() == 0 {
        Some("a technology needs an id"@)
    } else if marked(id) || needs_quotes_spec(id) {
        Some("`"@ + id + "` cannot be a technology id: use letters, digits and underscores"@)
    } else if exists|k: int| 0 <= k < u.folders@.len() && trim_spec(#[trigger] u.folders@[k].name@).len() == 0 {
        Some("every folder entry needs a folder name"@)
    } else {
        None
    }
}

pub fn validate(update: &TechnologyUpdate) -> (r: Result<(), EditError>)
    ensures
        match validate_spec(*update) {
            Some(m) => r matches Err(EditError::Message(t)) && t@ == m,
            None => r is Ok,
        },
{
    let id = trim(update.id.as_str());
    if id.as_str().is_empty() {
        let m = "a technology needs an id".to_owned();
        proof {
            reveal_strlit("a technology needs an id");
        }
        return Err(EditError::Message(m));
    }
    if is_marked(id.as_str()) || needs_quotes(id.as_str()) {
        let mut m = "`".to_owned();
        m.push_str(id.as_str());
        m.push_str("` cannot be a technology id: use letters, digits and underscores");
        proof {
            reveal_strlit("`");
            reveal_strlit("` cannot be a technology id: use letters, digits and underscores");
        }
        return Err(EditError::Message(m));
    }
    let mut k: usize = 0;
    while k < update.folders.len()
        invariant
            k <= update.folders@.len(),
            trim_spec(update.id@).len() != 0,
            !marked(trim_spec(update.id@)),
            !needs_quotes_spec(trim_spec(update.id@)),
            forall|j: int| 0 <= j < k ==> trim_spec(#[trigger] update.folders@[j].name@).len() != 0,
        decreases update.folders@.len() - k,
    {
        let name = trim(update.folders[k].name.as_str());
        if name.as_str().is_empty() {
            assert(trim_spec(update.folders@[k as int].name@).len() == 0);
            let m = "every folder entry needs a folder name".to_owned();
            proof {
                reveal_strlit("every folder entry needs a folder name");
            }
            return Err(EditError::Message(m));
        }
        k = k + 1;
    }
    Ok(())
}

// ---------------------------------------------------------------------------
// Rendering new blocks
// ---------------------------------------------------------------------------
//
// The renderers produce a block body with `\n` line breaks and no leading
// indentation; the formatter re-indents it wherever it lands.

/// `x = X y = Y`.
pub open spec fn render_position_spec(f: TechFolder) -> Seq<char> {
    "x = "@ + trim_spec(f.x@) + " y = "@ + trim_spec(f.y@)
}

/// `name = NAME` and the position block, for a new folder entry.
pub open spec fn render_folder_spec(f: TechFolder) -> Seq<char> {
    "name = "@ + trim_spec(f.name@) + "\nposition = { "@ + render_position_spec(f) + " }"@
}

/// The target and cost of a new path entry, each left out when blank.
pub open spec fn render_path_spec(p: TechPath) -> Seq<char> {
    join(
        crate::script::scalar_line("leads_to_tech"@, p.leads_to_tech@) + crate::script::scalar_line(
            "research_cost_coeff"@,
            p.research_cost_coeff@,
        ),
        "\n"@,
    )
}

fn render_position(folder: &TechFolder) -> (r: String)
    ensures
        r@ == render_position_spec(*folder),
{
    let mut r = "x = ".to_owned();
    r.push_str(trim(folder.x.as_str()).as_str());
    r.push_str(" y = ");
    r.push_str(trim(folder.y.as_str()).as_str());
    proof {
        reveal_strlit("x = ");
        reveal_strlit(" y = ");
    }
    r
}

fn render_folder(folder: &TechFolder) -> (r: String)
    ensures
        r@ == render_folder_spec(*folder),
{
    let mut r = "name = ".to_owned();
    r.push_str(trim(folder.name.as_str()).as_str());
    r.push_str("\nposition = { ");
    r.push_str(render_position(folder).as_str());
    r.push_str(" }");
    proof {
        reveal_strlit("name = ");
        reveal_strlit("\nposition = { ");
        reveal_strlit(" }");
    }
    r
}

fn render_path(path: &TechPath) -> (r: String)
    ensures
        r@ == render_path_spec(*path),
{
    let mut lines: Vec<String> = Vec::new();
    crate::script::push_scalar(&mut lines, "leads_to_tech", path.leads_to_tech.as_str());
    crate::script::push_scalar(&mut lines, "research_cost_coeff", path.research_cost_coeff.as_str());
    join_strings(&lines, "\n")
}

/// `key = { body }` with the braces on lines of their own, for each body.
pub open spec fn entry_lines(key: Seq<char>, bodies: Seq<Seq<char>>) -> Option<Seq<Seq<char>>>
    decreases bodies.len(),
{
    if bodies.len() == 0 {
        Some(Seq::empty())
    } else {
        match (entry_lines(key, bodies.drop_last()), crate::script::fmt_lines(bodies.last(), Seq::empty(), "\n"@)) {
            (Some(ls), Some(t)) => Some(ls.push(key + " = "@ + t)),
            _ => None,
        }
    }
}

pub open spec fn path_bodies(ps: Seq<TechPath>) -> Seq<Seq<char>> {
    Seq::new(ps.len(), |k: int| render_path_spec(ps[k]))
}

pub open spec fn folder_bodies(fs: Seq<TechFolder>) -> Seq<Seq<char>> {
    Seq::new(fs.len(), |k: int| render_folder_spec(fs[k]))
}

/// `categories = { ... }` with a category per line, nothing when empty.
pub open spec fn categories_lines(values: Seq<Seq<char>>) -> Option<Seq<Seq<char>>> {
    let words = crate::script::normalise_words_spec(values);
    if words.len() == 0 {
        Some(Seq::empty())
    } else {
        match crate::script::fmt_lines(join(words, "\n"@), Seq::empty(), "\n"@) {
            Some(t) => Some(seq!["categories = "@ + t]),
            None => None,
        }
    }
}

pub open spec fn doctrine_name_lines(name: Seq<char>) -> Seq<Seq<char>> {
    if trim_spec(name).len() == 0 {
        Seq::empty()
    } else {
        seq!["doctrine_name = "@ + quote_spec(trim_spec(name))]
    }
}

pub open spec fn lists_part(u: TechnologyUpdate) -> Option<Seq<Seq<char>>> {
    both(
        both(
            both(
                both(
                    crate::script::words_lines("xor"@, views(u.xor@)),
                    crate::script::words_lines("sub_technologies"@, views(u.sub_technologies@)),
                ),
                crate::script::words_lines("enable_equipments"@, views(u.enable_equipments@)),
            ),
            crate::script::words_lines("enable_equipment_modules"@, views(u.enable_equipment_modules@)),
        ),
        crate::script::words_lines("enable_subunits"@, views(u.enable_subunits@)),
    )
}

pub open spec fn scalars_part(u: TechnologyUpdate) -> Seq<Seq<char>> {
    crate::script::scalar_line("research_cost"@, u.research_cost@) + crate::script::scalar_line(
        "start_year"@,
        u.start_year@,
    ) + crate::script::scalar_line("doctrine"@, u.doctrine@) + crate::script::scalar_line(
        "xp_research_type"@,
        u.xp_research_type@,
    ) + crate::script::scalar_line("xp_research_cost"@, u.xp_research_cost@)
        + crate::script::scalar_line("xp_research_bonus"@, u.xp_research_bonus@)
        + doctrine_name_lines(u.doctrine_name@)
}

pub open spec fn blocks_part(u: TechnologyUpdate) -> Option<Seq<Seq<char>>> {
    both(
        both(
            both(
                both(
                    crate::script::block_lines("allow"@, u.allow@),
                    crate::script::block_lines("allow_branch"@, u.allow_branch@),
                ),
                crate::script::block_lines("on_research_complete"@, u.on_research_complete@),
            ),
            crate::script::block_lines("ai_will_do"@, u.ai_will_do@),
        ),
        crate::script::block_lines("ai_research_weights"@, u.ai_research_weights@),
    )
}

/// The lines of a new technology block: its lists, paths, scalars,
/// folders, categories and script blocks, in the order the game's files
/// use.
pub open spec fn technology_lines(u: TechnologyUpdate) -> Option<Seq<Seq<char>>> {
    both(
        both(
            both(
                both(lists_part(u), entry_lines("path"@, path_bodies(u.paths@))),
                Some(scalars_part(u)),
            ),
            both(entry_lines("folder"@, folder_bodies(u.folders@)), categories_lines(views(u.categories@))),
        ),
        blocks_part(u),
    )
}

/// The body of a new technology block.
pub open spec fn render_technology_spec(u: TechnologyUpdate) -> Option<Seq<char>> {
    match technology_lines(u) {
        Some(ls) => Some(join(ls, "\n"@)),
        None => None,
    }
}

/// Appends `key = { body }` for each body.
fn push_entries(lines: &mut Vec<String>, key: &str, bodies: &Vec<String>) -> (ok: bool)
    ensures
        ok <==> entry_lines(key@, views(bodies@)) is Some,
        ok ==> views(final(lines)@) == views(old(lines)@) + entry_lines(key@, views(bodies@))->0,
{
    let ghost before = views(lines@);
    let mut i: usize = 0;
    proof {
        reveal_strlit("");
        assert(""@ =~= Seq::<char>::empty());
        assert(views(bodies@).take(0) =~= Seq::<Seq<char>>::empty());
        assert(views(lines@) =~= before + Seq::<Seq<char>>::empty());
    }
    while i < bodies.len()
        invariant
            i <= bodies@.len(),
            entry_lines(key@, views(bodies@).take(i as int)) is Some,
            views(lines@) == before + entry_lines(key@, views(bodies@).take(i as int))->0,
        decreases bodies@.len() - i,
    {
        proof {
            assert(views(bodies@).take(i + 1).drop_last() =~= views(bodies@).take(i as int));
            assert(views(bodies@).take(i + 1).last() == bodies@[i as int]@);
        }
        match format_lines(bodies[i].as_str(), "", "\n") {
            Some(block) => {
                let ghost was = views(lines@);
                let mut line = key.to_owned();
                line.push_str(" = ");
                line.push_str(block.as_str());
                lines.push(line);
                proof {
                    reveal_strlit(" = ");
                    reveal_strlit("");
                    assert(""@ =~= Seq::<char>::empty());
                }
                assert(views(lines@) =~= was.push(line@));
            },
            None => {
                proof {
                    reveal_strlit("");
                    assert(""@ =~= Seq::<char>::empty());
                    lemma_entry_lines_none(key@, views(bodies@), i as int);
                }
                return false;
            },
        }
        i = i + 1;
    }
    assert(views(bodies@).take(bodies@.len() as int) =~= views(bodies@));
    true
}

proof fn lemma_entry_lines_none(key: Seq<char>, bodies: Seq<Seq<char>>, i: int)
    requires
        0 <= i < bodies.len(),
        crate::script::fmt_lines(bodies[i], Seq::empty(), "\n"@) is None,
    ensures
        entry_lines(key, bodies) is None,
    decreases bodies.len(),
{
    if i < bodies.len() - 1 {
        assert(bodies.drop_last()[i] == bodies[i]);
        lemma_entry_lines_none(key, bodies.drop_last(), i);
    }
}

fn render_paths(paths: &Vec<TechPath>) -> (r: Vec<String>)
    ensures
        views(r@) == path_bodies(paths@),
{
    let mut r: Vec<String> = Vec::new();
    let mut i: usize = 0;
    while i < paths.len()
        invariant
            i <= paths@.len(),
            views(r@) == path_bodies(paths@).take(i as int),
        decreases paths@.len() - i,
    {
        let ghost before = views(r@);
        let body = render_path(&paths[i]);
        r.push(body);
        assert(views(r@) =~= before.push(render_path_spec(paths@[i as int])));
        assert(views(r@) =~= path_bodies(paths@).take(i + 1));
        i = i + 1;
    }
    assert(path_bodies(paths@).take(paths@.len() as int) =~= path_bodies(paths@));
    r
}

fn render_folders(folders: &Vec<TechFolder>) -> (r: Vec<String>)
    ensures
        views(r@) == folder_bodies(folders@),
{
    let mut r: Vec<String> = Vec::new();
    let mut i: usize = 0;
    while i < folders.len()
        invariant
            i <= folders@.len(),
            views(r@) == folder_bodies(folders@).take(i as int),
        decreases folders@.len() - i,
    {
        let ghost before = views(r@);
        let body = render_folder(&folders[i]);
        r.push(body);
        assert(views(r@) =~= before.push(render_folder_spec(folders@[i as int])));
        assert(views(r@) =~= folder_bodies(folders@).take(i + 1));
        i = i + 1;
    }
    assert(folder_bodies(folders@).take(folders@.len() as int) =~= folder_bodies(folders@));
    r
}

fn push_categories(lines: &mut Vec<String>, values: &Vec<String>) -> (ok: bool)
    ensures
        ok <==> categories_lines(views(values@)) is Some,
        ok ==> views(final(lines)@) == views(old(lines)@) + categories_lines(views(values@))->0,
{
    let ghost before = views(lines@);
    let words = crate::script::normalise_words(values);
    if words.len() == 0 {
        assert(views(lines@) =~= before + Seq::<Seq<char>>::empty());
        return true;
    }
    let joined = join_strings(&words, "\n");
    proof {
        reveal_strlit("");
        reveal_strlit("\n");
        assert(""@ =~= Seq::<char>::empty());
    }
    match format_lines(joined.as_str(), "", "\n") {
        Some(block) => {
            let mut line = "categories = ".to_owned();
            line.push_str(block.as_str());
            lines.push(line);
            proof {
                reveal_strlit("categories = ");
            }
            assert(views(lines@) =~= before + seq![line@]);
            true
        },
        None => false,
    }
}

fn push_doctrine_name(lines: &mut Vec<String>, name: &str)
    ensures
        views(final(lines)@) == views(old(lines)@) + doctrine_name_lines(name@),
{
    let ghost before = views(lines@);
    let trimmed = trim(name);
    if !trimmed.as_str().is_empty() {
        let mut line = "doctrine_name = ".to_owned();
        line.push_str(quote(trimmed.as_str()).as_str());
        lines.push(line);
        proof {
            reveal_strlit("doctrine_name = ");
        }
        assert(views(lines@) =~= before + doctrine_name_lines(name@));
    } else {
        assert(views(lines@) =~= before + doctrine_name_lines(name@));
    }
}

fn push_lists(lines: &mut Vec<String>, tech: &TechnologyUpdate) -> (ok: bool)
    ensures
        ok <==> lists_part(*tech) is Some,
        ok ==> views(final(lines)@) == views(old(lines)@) + lists_part(*tech)->0,
{
    let ghost before = views(lines@);
    if !crate::script::push_words(lines, "xor", &tech.xor) {
        return false;
    }
    if !crate::script::push_words(lines, "sub_technologies", &tech.sub_technologies) {
        return false;
    }
    if !crate::script::push_words(lines, "enable_equipments", &tech.enable_equipments) {
        return false;
    }
    if !crate::script::push_words(lines, "enable_equipment_modules", &tech.enable_equipment_modules) {
        return false;
    }
    if !crate::script::push_words(lines, "enable_subunits", &tech.enable_subunits) {
        return false;
    }
    assert(views(lines@) =~= before + lists_part(*tech)->0);
    true
}

fn push_blocks(lines: &mut Vec<String>, tech: &TechnologyUpdate) -> (ok: bool)
    ensures
        ok <==> blocks_part(*tech) is Some,
        ok ==> views(final(lines)@) == views(old(lines)@) + blocks_part(*tech)->0,
{
    let ghost before = views(lines@);
    if !crate::script::push_block(lines, "allow", tech.allow.as_str()) {
        return false;
    }
    if !crate::script::push_block(lines, "allow_branch", tech.allow_branch.as_str()) {
        return false;
    }
    if !crate::script::push_block(lines, "on_research_complete", tech.on_research_complete.as_str()) {
        return false;
    }
    if !crate::script::push_block(lines, "ai_will_do", tech.ai_will_do.as_str()) {
        return false;
    }
    if !crate::script::push_block(lines, "ai_research_weights", tech.ai_research_weights.as_str()) {
        return false;
    }
    assert(views(lines@) =~= before + blocks_part(*tech)->0);
    true
}

fn push_scalars(lines: &mut Vec<String>, tech: &TechnologyUpdate)
    ensures
        views(final(lines)@) == views(old(lines)@) + scalars_part(*tech),
{
    let ghost before = views(lines@);
    crate::script::push_scalar(lines, "research_cost", tech.research_cost.as_str());
    crate::script::push_scalar(lines, "start_year", tech.start_year.as_str());
    crate::script::push_scalar(lines, "doctrine", tech.doctrine.as_str());
    crate::script::push_scalar(lines, "xp_research_type", tech.xp_research_type.as_str());
    crate::script::push_scalar(lines, "xp_research_cost", tech.xp_research_cost.as_str());
    crate::script::push_scalar(lines, "xp_research_bonus", tech.xp_research_bonus.as_str());
    push_doctrine_name(lines, tech.doctrine_name.as_str());
    assert(views(lines@) =~= before + scalars_part(*tech));
}

fn push_placement(lines: &mut Vec<String>, tech: &TechnologyUpdate) -> (ok: bool)
    ensures
        ok <==> both(entry_lines("folder"@, folder_bodies(tech.folders@)), categories_lines(views(tech.categories@))) is Some,
        ok ==> views(final(lines)@) == views(old(lines)@) + both(entry_lines("folder"@, folder_bodies(tech.folders@)), categories_lines(views(tech.categories@)))->0,
{
    let ghost before = views(lines@);
    let folders = render_folders(&tech.folders);
    proof {
        reveal_strlit("folder");
    }
    if !push_entries(lines, "folder", &folders) {
        return false;
    }
    if !push_categories(lines, &tech.categories) {
        return false;
    }
    assert(views(lines@) =~= before + both(entry_lines("folder"@, folder_bodies(tech.folders@)), categories_lines(views(tech.categories@)))->0);
    true
}

/// The body of a new technology block.
pub fn render_technology(tech: &TechnologyUpdate) -> (r: Option<String>)
    ensures
        opt_text(r) == render_technology_spec(*tech),
{
    let mut lines: Vec<String> = Vec::new();
    if !push_lists(&mut lines, tech) {
        return None;
    }
    let paths = render_paths(&tech.paths);
    proof {
        reveal_strlit("path");
    }
    if !push_entries(&mut lines, "path", &paths) {
        return None;
    }
    push_scalars(&mut lines, tech);
    if !push_placement(&mut lines, tech) {
        return None;
    }
    if !push_blocks(&mut lines, tech) {
        return None;
    }
    assert(views(lines@) =~= technology_lines(*tech)->0);
    Some(join_strings(&lines, "\n"))
}

// ---------------------------------------------------------------------------
// Editing in place
// ---------------------------------------------------------------------------

/// What `set_list` does to a block: with no words left, the list removed
/// unless it already reads as empty; otherwise what `set_words` does.
/// `None` where the list cannot be laid out.
pub open spec fn list_change(b: Seq<u8>, block: Block, key: Seq<char>, values: Seq<Seq<char>>) -> Option<
    Seq<ChangeView>,
> {
    if normalise_words_spec(values).len() == 0 {
        match find_spec(block.items@, key) {
            Some(pair) => if (pair.value matches Value::Block(list) && bare_scalars(list.items@).len()
                == 0) {
                Some(Seq::empty())
            } else {
                Some(seq![ChangeView::Remove(removal_span(b, pair))])
            },
            None => Some(Seq::empty()),
        }
    } else {
        match words_change(b, block, key, values) {
            Some(c) => Some(seq![c]),
            None => None,
        }
    }
}

/// A word list the form edits: set in place, and dropped altogether when
/// the form empties it, since none of these means anything empty. A list
/// that already reads as empty — every entry commented out, as the game
/// does to retire an equipment — is left as it is.
fn set_list(editor: &mut BlockEditor, key: &str, values: &Vec<String>) -> (ok: bool)
    requires
        old(editor).wf(),
    ensures
        kept_target(*old(editor), *final(editor)),
        ok == list_change(old(editor).source_bytes(), old(editor).edited_block(), key@, views(values@)) is Some,
        ok ==> made(
            *old(editor),
            *final(editor),
            list_change(old(editor).source_bytes(), old(editor).edited_block(), key@, views(values@))->0,
        ),
{
    let ghost e0 = *editor;
    let wanted = crate::script::normalise_words(values);
    if wanted.len() == 0 {
        let source = editor.source();
        let block = editor.block();
        proof {
            editor.lemma_block_fits();
            lemma_items_fit(bytes_of(source), block.items@, key@);
            lemma_made_none(*editor);
        }
        if let Some(pair) = block.find(key) {
            let already_empty = match &pair.value {
                Value::Block(list) => words_of(list).len() == 0,
                _ => false,
            };
            if !already_empty {
                editor.remove(pair);
                proof {
                    lemma_made_one(e0, *editor, ChangeView::Remove(removal_span(bytes_of(source), *pair)));
                }
            }
        }
        return true;
    }
    set_words(editor, key, values)
}

/// Whether a pair is a folder entry naming `name`.
fn names_folder(pair: &Pair, name: &str) -> (r: bool)
    ensures
        r == (pair.value matches Value::Block(b) && crate::paradox::parser::scalar_spec(b.items@, "name"@) == Some(name@)),
{
    match &pair.value {
        Value::Block(block) => match block.scalar("name") {
            Some(current) => str_eq(current.as_str(), name),
            None => false,
        },
        _ => false,
    }
}

/// Whether a pair is a path entry leading to `target`; a path without a
/// target leads to the empty name.
fn leads_to(pair: &Pair, target: &str) -> (r: bool)
    ensures
        r == (pair.value matches Value::Block(b) && text_or_empty(b.items@, "leads_to_tech"@) == target@),
{
    match &pair.value {
        Value::Block(block) => {
            let current = text_of(block, "leads_to_tech");
            str_eq(current.as_str(), target)
        },
        _ => false,
    }
}

/// The edits an editor of a folder's `position` block hands on once `x`
/// and `y` are set.
pub open spec fn position_placed(b: Seq<u8>, position: Block, f: TechFolder) -> Seq<(Span, Seq<char>)> {
    let first = record(Seq::empty(), Seq::empty(), scalar_change_spec(b, position, "x"@, f.x@));
    finished(b, position, record(first.0, first.1, scalar_change_spec(b, position, "y"@, f.y@)))
}

/// The changes made inside a folder entry: its position set in place, or
/// written when it has none. `None` where that cannot be done.
pub open spec fn folder_changes(b: Seq<u8>, folder_block: Block, f: TechFolder) -> Option<Seq<ChangeView>> {
    match block_spec(folder_block.items@, "position"@) {
        Some(position) => if views_fit(b, position_placed(b, position, f)) {
            Some(handed_on(position_placed(b, position, f)))
        } else {
            None
        },
        None => if layout_fits(render_position_spec(f)) {
            Some(seq![block_change_spec(b, folder_block, "position"@, render_position_spec(f))])
        } else {
            None
        },
    }
}

/// The edits the editor of a folder entry hands on, when its changes can
/// be made.
pub open spec fn folder_edits(b: Seq<u8>, folder_block: Block, f: TechFolder) -> Option<
    Seq<(Span, Seq<char>)>,
> {
    match folder_changes(b, folder_block, f) {
        Some(cs) => Some(finished(b, folder_block, record_all((Seq::empty(), Seq::empty()), cs))),
        None => None,
    }
}

/// What moving a folder entry does to the enclosing block.
pub open spec fn placed(b: Seq<u8>, folder_block: Block, f: TechFolder) -> Option<Seq<ChangeView>> {
    match folder_edits(b, folder_block, f) {
        Some(vs) => if views_fit(b, vs) {
            Some(handed_on(vs))
        } else {
            None
        },
        None => None,
    }
}

/// Moves a folder entry that is already there: its position is set in
/// place, or written when it has none.
fn place_folder(editor: &mut BlockEditor, folder_block: &Block, folder: &TechFolder) -> (ok: bool)
    requires
        old(editor).wf(),
        value_fits(old(editor).source_bytes(), Value::Block(*folder_block)),
    ensures
        kept_target(*old(editor), *final(editor)),
        ok == placed(old(editor).source_bytes(), *folder_block, *folder) is Some,
        ok ==> made(*old(editor), *final(editor), placed(old(editor).source_bytes(), *folder_block, *folder)->0),
{
    let ghost e0 = *editor;
    let source = editor.source();
    let ghost b = bytes_of(source);
    proof {
        crate::script::lemma_block_items_fit(bytes_of(source), *folder_block);
        lemma_items_fit(bytes_of(source), folder_block.items@, "position"@);
    }
    let mut inner = BlockEditor::new(source, folder_block);
    let ghost i0 = inner;
    match folder_block.block("position") {
        Some(position) => {
            let mut place = BlockEditor::new(source, position);
            place.set_scalar("x", folder.x.as_str());
            place.set_scalar("y", folder.y.as_str());
            if !hand_on(&mut inner, place) {
                return false;
            }
        },
        None => {
            let text = render_position(folder);
            if !set_block_checked(&mut inner, "position", text.as_str()) {
                return false;
            }
        },
    }
    proof {
        assert(made(i0, inner, folder_changes(b, *folder_block, *folder)->0));
    }
    hand_on(editor, inner)
}

/// A folder entry naming `name`.
pub open spec fn names_spec(pair: Pair, name: Seq<char>) -> bool {
    pair.value matches Value::Block(b) && scalar_spec(b.items@, "name"@) == Some(name)
}

/// The first of `pairs` from `k` on that names `name`.
pub open spec fn first_named(pairs: Seq<Pair>, name: Seq<char>, k: int) -> Option<Pair>
    decreases pairs.len() - k,
{
    if k < 0 || k >= pairs.len() {
        None
    } else if names_spec(pairs[k], name) {
        Some(pairs[k])
    } else {
        first_named(pairs, name, k + 1)
    }
}

/// Folder `m` of the form names the entry.
pub open spec fn named_by(pair: Pair, folders: Seq<TechFolder>, m: int) -> bool {
    names_spec(pair, trim_spec(folders[m].name@))
}

/// Some folder of the form names the entry.
pub open spec fn named_by_any(pair: Pair, folders: Seq<TechFolder>) -> bool {
    exists|m: int| 0 <= m < folders.len() && #[trigger] named_by(pair, folders, m)
}

/// What `set_folders` does for one folder of the form: the entry naming it
/// moved, or a new entry added.
pub open spec fn folder_attempt(b: Seq<u8>, block: Block, pairs: Seq<Pair>, f: TechFolder) -> Option<
    Seq<ChangeView>,
> {
    match first_named(pairs, trim_spec(f.name@), 0) {
        Some(pair) => match pair.value {
            Value::Block(fb) => placed(b, fb, f),
            Value::Scalar(_) => Some(Seq::empty()),
        },
        None => match fmt_lines(render_folder_spec(f), child_indent_spec(b, block), newline_spec(b)) {
            Some(t) => Some(seq![ChangeView::Add("folder = "@ + t)]),
            None => None,
        },
    }
}

/// An entry no folder of the form names, removed.
pub open spec fn unnamed_removal(b: Seq<u8>, pair: Pair, folders: Seq<TechFolder>) -> Seq<ChangeView> {
    if named_by_any(pair, folders) {
        Seq::empty()
    } else {
        seq![ChangeView::Remove(removal_span(b, pair))]
    }
}

/// The runs of changes `set_folders` makes on a block whose folder entries
/// are `pairs`: each folder of the form in turn, then the removals.
#[verifier::opaque]
pub open spec fn folder_attempts(b: Seq<u8>, block: Block, pairs: Seq<Pair>, folders: Seq<TechFolder>) -> Seq<
    Option<Seq<ChangeView>>,
> {
    Seq::new(folders.len(), |i: int| folder_attempt(b, block, pairs, folders[i])) + Seq::new(
        pairs.len(),
        |k: int| Some(unnamed_removal(b, pairs[k], folders)),
    )
}

pub(crate) proof fn lemma_folder_attempt(b: Seq<u8>, block: Block, pairs: Seq<Pair>, folders: Seq<TechFolder>, at: int)
    ensures
        folder_attempts(b, block, pairs, folders).len() == folders.len() + pairs.len(),
        0 <= at < folders.len() ==> folder_attempts(b, block, pairs, folders)[at] == folder_attempt(
            b,
            block,
            pairs,
            folders[at],
        ),
        folders.len() <= at < folders.len() + pairs.len() ==> folder_attempts(b, block, pairs, folders)[at]
            == Some(unnamed_removal(b, pairs[at - folders.len()], folders)),
{
    reveal(folder_attempts);
}

/// Folders are keyed by name: one the technology is already on has its
/// position set in place, one it joins is added, one it leaves is removed.
fn set_folders(editor: &mut BlockEditor, folders: &Vec<TechFolder>) -> (ok: bool)
    requires
        old(editor).wf(),
    ensures
        kept_target(*old(editor), *final(editor)),
        ok == all_runs(
            folder_attempts(
                old(editor).source_bytes(),
                old(editor).edited_block(),
                pairs_with(old(editor).edited_block().items@, "folder"@),
                folders@,
            ),
        ) is Some,
        ok ==> made(
            *old(editor),
            *final(editor),
            all_runs(
                folder_attempts(
                    old(editor).source_bytes(),
                    old(editor).edited_block(),
                    pairs_with(old(editor).edited_block().items@, "folder"@),
                    folders@,
                ),
            )->0,
        ),
{
    let ghost e0 = *editor;
    let source = editor.source();
    let block = editor.block();
    let newline = detect_newline(source);
    let existing = block.find_all("folder");
    let ghost b = bytes_of(source);
    let ghost pairs = pairs_with(block.items@, "folder"@);
    let ghost all = folder_attempts(b, *block, pairs, folders@);
    let ghost mut done: Seq<ChangeView> = Seq::empty();
    proof {
        editor.lemma_block_fits();
        crate::script::lemma_find_all_derefs(existing@, block.items@, "folder"@);
        lemma_items_fit(bytes_of(source), block.items@, "folder"@);
        lemma_made_none(*editor);
        lemma_folder_attempt(b, *block, pairs, folders@, 0);
        assert(all.take(0) =~= Seq::<Option<Seq<ChangeView>>>::empty());
    }
    let mut i: usize = 0;
    while i < folders.len()
        invariant
            e0 == *old(editor),
            b == e0.source_bytes(),
            *block == e0.edited_block(),
            editor.source_bytes() == bytes_of(source),
            editor.edited_block() == *block,
            bytes_of(source) == b,
            newline@ == newline_spec(b),
            value_fits(bytes_of(source), Value::Block(*block)),
            derefs(existing@) == pairs,
            pairs == pairs_with(e0.edited_block().items@, "folder"@),
            pairs_fit(b, pairs),
            all == folder_attempts(b, *block, pairs, folders@),
            i <= folders@.len(),
            all_runs(all.take(i as int)) == Some(done),
            made(e0, *editor, done),
        decreases folders@.len() - i,
    {
        let ghost e1 = *editor;
        proof {
            lemma_folder_attempt(b, *block, pairs, folders@, i as int);
            assert(all.take(i as int + 1) =~= all.take(i as int).push(all[i as int]));
            lemma_all_runs_push(all.take(i as int), all[i as int]);
        }
        let folder = &folders[i];
        let name = trim(folder.name.as_str());
        let mut found: Option<&Pair> = None;
        let mut k: usize = 0;
        while k < existing.len() && found.is_none()
            invariant
                k <= existing@.len(),
                found matches Some(p) ==> item_fits(b, Item::Pair(*p)),
                found is None ==> first_named(pairs, name@, 0) == first_named(pairs, name@, k as int),
                found matches Some(p) ==> first_named(pairs, name@, 0) == Some(*p),
                derefs(existing@) == pairs,
                pairs_fit(b, pairs),
            decreases existing@.len() - k,
        {
            proof {
                assert(derefs(existing@)[k as int] == *existing@[k as int]);
            }
            if names_folder(existing[k], name.as_str()) {
                found = Some(existing[k]);
            }
            k = k + 1;
        }
        match found {
            Some(pair) => {
                if let Value::Block(folder_block) = &pair.value {
                    if !place_folder(editor, folder_block, folder) {
                        proof {
                            assert(all =~= all.take(i as int).push(None) + all.skip(i as int + 1));
                            lemma_all_runs_fails(all.take(i as int), all.skip(i as int + 1));
                        }
                        return false;
                    }
                    proof {
                        lemma_made_then(e0, e1, *editor, done, all[i as int]->0);
                    }
                }
            },
            None => {
                let indent = child_indent(source, block);
                let body = render_folder(folder);
                match format_lines(body.as_str(), indent.as_str(), newline) {
                    Some(text) => {
                        let mut line = "folder = ".to_owned();
                        line.push_str(text.as_str());
                        editor.add_line(line);
                        proof {
                            lemma_made_one(e1, *editor, ChangeView::Add(line@));
                            lemma_made_then(e0, e1, *editor, done, all[i as int]->0);
                        }
                    },
                    None => {
                        proof {
                            assert(all =~= all.take(i as int).push(None) + all.skip(i as int + 1));
                            lemma_all_runs_fails(all.take(i as int), all.skip(i as int + 1));
                        }
                        return false;
                    },
                }
            },
        }
        proof {
            done = done + all[i as int]->0;
        }
        i = i + 1;
    }
    let mut k: usize = 0;
    while k < existing.len()
        invariant
            e0 == *old(editor),
            b == e0.source_bytes(),
            editor.source_bytes() == bytes_of(source),
            bytes_of(source) == b,
            derefs(existing@) == pairs,
            pairs_fit(b, pairs),
            all == folder_attempts(b, *block, pairs, folders@),
            k <= pairs.len(),
            all_runs(all.take(folders@.len() + k)) == Some(done),
            made(e0, *editor, done),
        decreases existing@.len() - k,
    {
        let ghost e1 = *editor;
        let ghost at = folders@.len() + k;
        proof {
            assert(derefs(existing@)[k as int] == *existing@[k as int]);
            assert(item_fits(b, Item::Pair(pairs[k as int])));
            lemma_folder_attempt(b, *block, pairs, folders@, at);
            assert(all.take(at + 1) =~= all.take(at).push(all[at]));
            lemma_all_runs_push(all.take(at), all[at]);
        }
        let mut keep = false;
        let mut j: usize = 0;
        while j < folders.len() && !keep
            invariant
                k < existing@.len(),
                j <= folders@.len(),
                *existing@[k as int] == pairs[k as int],
                keep == exists|m: int| 0 <= m < j && #[trigger] named_by(pairs[k as int], folders@, m),
            decreases folders@.len() - j,
        {
            let name = trim(folders[j].name.as_str());
            if names_folder(existing[k], name.as_str()) {
                keep = true;
            }
            proof {
                if keep {
                    assert(named_by(pairs[k as int], folders@, j as int) || exists|m: int| 0 <= m < j && #[trigger] named_by(pairs[k as int], folders@, m));
                }
            }
            j = j + 1;
        }
        if !keep {
            editor.remove(existing[k]);
            proof {
                lemma_made_one(e1, *editor, ChangeView::Remove(removal_span(b, pairs[k as int])));
            }
        } else {
            proof {
                lemma_made_none(*editor);
                assert(named_by_any(pairs[k as int], folders@));
            }
        }
        proof {
            assert(unnamed_removal(b, pairs[k as int], folders@) == if keep {
                Seq::<ChangeView>::empty()
            } else {
                seq![ChangeView::Remove(removal_span(b, pairs[k as int]))]
            });
            lemma_made_then(e0, e1, *editor, done, all[at]->0);
            done = done + all[at]->0;
        }
        k = k + 1;
    }
    proof {
        lemma_folder_attempt(b, *block, pairs, folders@, 0);
        assert(all.take(all.len() as int) =~= all);
    }
    true
}

/// A path entry leading to `target`; one without a target leads to the
/// empty name.
pub open spec fn leads_spec(pair: Pair, target: Seq<char>) -> bool {
    pair.value matches Value::Block(b) && text_or_empty(b.items@, "leads_to_tech"@) == target
}

/// The first of `pairs` from `k` on that leads to `target`.
pub open spec fn first_leading(pairs: Seq<Pair>, target: Seq<char>, k: int) -> Option<Pair>
    decreases pairs.len() - k,
{
    if k < 0 || k >= pairs.len() {
        None
    } else if leads_spec(pairs[k], target) {
        Some(pairs[k])
    } else {
        first_leading(pairs, target, k + 1)
    }
}

/// Path `m` of the form leads where the entry does.
pub open spec fn kept_by(pair: Pair, paths: Seq<TechPath>, m: int) -> bool {
    leads_spec(pair, trim_spec(paths[m].leads_to_tech@))
}

/// Some path of the form leads where the entry does.
pub open spec fn kept_by_any(pair: Pair, paths: Seq<TechPath>) -> bool {
    exists|m: int| 0 <= m < paths.len() && #[trigger] kept_by(pair, paths, m)
}

/// The edits an editor of a path entry hands on once its cost is set.
pub open spec fn costed(b: Seq<u8>, path_block: Block, p: TechPath) -> Seq<(Span, Seq<char>)> {
    finished(
        b,
        path_block,
        record(
            Seq::empty(),
            Seq::empty(),
            scalar_change_spec(b, path_block, "research_cost_coeff"@, p.research_cost_coeff@),
        ),
    )
}

/// What `set_paths` does for one path of the form: the cost of the entry
/// leading where it does set, or a new entry added.
pub open spec fn path_attempt(b: Seq<u8>, block: Block, pairs: Seq<Pair>, p: TechPath) -> Option<
    Seq<ChangeView>,
> {
    match first_leading(pairs, trim_spec(p.leads_to_tech@), 0) {
        Some(pair) => match pair.value {
            Value::Block(pb) => if views_fit(b, costed(b, pb, p)) {
                Some(handed_on(costed(b, pb, p)))
            } else {
                None
            },
            Value::Scalar(_) => Some(Seq::empty()),
        },
        None => match fmt_lines(render_path_spec(p), child_indent_spec(b, block), newline_spec(b)) {
            Some(t) => Some(seq![ChangeView::Add("path = "@ + t)]),
            None => None,
        },
    }
}

/// An entry no path of the form leads where it does, removed.
pub open spec fn unkept_removal(b: Seq<u8>, pair: Pair, paths: Seq<TechPath>) -> Seq<ChangeView> {
    if kept_by_any(pair, paths) {
        Seq::empty()
    } else {
        seq![ChangeView::Remove(removal_span(b, pair))]
    }
}

/// The runs of changes `set_paths` makes on a block whose path entries are
/// `pairs`: each path of the form in turn, then the removals.
#[verifier::opaque]
pub open spec fn path_attempts(b: Seq<u8>, block: Block, pairs: Seq<Pair>, paths: Seq<TechPath>) -> Seq<
    Option<Seq<ChangeView>>,
> {
    Seq::new(paths.len(), |i: int| path_attempt(b, block, pairs, paths[i])) + Seq::new(
        pairs.len(),
        |k: int| Some(unkept_removal(b, pairs[k], paths)),
    )
}

pub(crate) proof fn lemma_path_attempt(b: Seq<u8>, block: Block, pairs: Seq<Pair>, paths: Seq<TechPath>, at: int)
    ensures
        path_attempts(b, block, pairs, paths).len() == paths.len() + pairs.len(),
        0 <= at < paths.len() ==> path_attempts(b, block, pairs, paths)[at] == path_attempt(
            b,
            block,
            pairs,
            paths[at],
        ),
        paths.len() <= at < paths.len() + pairs.len() ==> path_attempts(b, block, pairs, paths)[at]
            == Some(unkept_removal(b, pairs[at - paths.len()], paths)),
{
    reveal(path_attempts);
}

/// Paths are keyed by the technology they lead to. The game's own files
/// carry the odd `path = { research_cost_coeff = 1 }` that leads nowhere,
/// so an empty target is a key like any other rather than an error.
fn set_paths(editor: &mut BlockEditor, paths: &Vec<TechPath>) -> (ok: bool)
    requires
        old(editor).wf(),
    ensures
        kept_target(*old(editor), *final(editor)),
        ok == all_runs(
            path_attempts(
                old(editor).source_bytes(),
                old(editor).edited_block(),
                pairs_with(old(editor).edited_block().items@, "path"@),
                paths@,
            ),
        ) is Some,
        ok ==> made(
            *old(editor),
            *final(editor),
            all_runs(
                path_attempts(
                    old(editor).source_bytes(),
                    old(editor).edited_block(),
                    pairs_with(old(editor).edited_block().items@, "path"@),
                    paths@,
                ),
            )->0,
        ),
{
    let ghost e0 = *editor;
    let source = editor.source();
    let block = editor.block();
    let newline = detect_newline(source);
    let existing = block.find_all("path");
    let ghost b = bytes_of(source);
    let ghost pairs = pairs_with(block.items@, "path"@);
    let ghost all = path_attempts(b, *block, pairs, paths@);
    let ghost mut done: Seq<ChangeView> = Seq::empty();
    proof {
        editor.lemma_block_fits();
        crate::script::lemma_find_all_derefs(existing@, block.items@, "path"@);
        lemma_items_fit(bytes_of(source), block.items@, "path"@);
        lemma_made_none(*editor);
        lemma_path_attempt(b, *block, pairs, paths@, 0);
        assert(all.take(0) =~= Seq::<Option<Seq<ChangeView>>>::empty());
    }
    let mut i: usize = 0;
    while i < paths.len()
        invariant
            e0 == *old(editor),
            b == e0.source_bytes(),
            *block == e0.edited_block(),
            editor.source_bytes() == bytes_of(source),
            editor.edited_block() == *block,
            bytes_of(source) == b,
            newline@ == newline_spec(b),
            value_fits(bytes_of(source), Value::Block(*block)),
            derefs(existing@) == pairs,
            pairs == pairs_with(e0.edited_block().items@, "path"@),
            pairs_fit(b, pairs),
            all == path_attempts(b, *block, pairs, paths@),
            i <= paths@.len(),
            all_runs(all.take(i as int)) == Some(done),
            made(e0, *editor, done),
        decreases paths@.len() - i,
    {
        let ghost e1 = *editor;
        proof {
            lemma_path_attempt(b, *block, pairs, paths@, i as int);
            assert(all.take(i as int + 1) =~= all.take(i as int).push(all[i as int]));
            lemma_all_runs_push(all.take(i as int), all[i as int]);
        }
        let path = &paths[i];
        let target = trim(path.leads_to_tech.as_str());
        let mut found: Option<&Pair> = None;
        let mut k: usize = 0;
        while k < existing.len() && found.is_none()
            invariant
                k <= existing@.len(),
                found matches Some(p) ==> item_fits(b, Item::Pair(*p)),
                found is None ==> first_leading(pairs, target@, 0) == first_leading(pairs, target@, k as int),
                found matches Some(p) ==> first_leading(pairs, target@, 0) == Some(*p),
                derefs(existing@) == pairs,
                pairs_fit(b, pairs),
            decreases existing@.len() - k,
        {
            proof {
                assert(derefs(existing@)[k as int] == *existing@[k as int]);
            }
            if leads_to(existing[k], target.as_str()) {
                found = Some(existing[k]);
            }
            k = k + 1;
        }
        match found {
            Some(pair) => {
                if let Value::Block(path_block) = &pair.value {
                    proof {
                        crate::script::lemma_block_items_fit(b, *path_block);
                    }
                    let mut inner = BlockEditor::new(source, path_block);
                    inner.set_scalar("research_cost_coeff", path.research_cost_coeff.as_str());
                    if !hand_on(editor, inner) {
                        proof {
                            assert(all =~= all.take(i as int).push(None) + all.skip(i as int + 1));
                            lemma_all_runs_fails(all.take(i as int), all.skip(i as int + 1));
                        }
                        return false;
                    }
                    proof {
                        lemma_made_then(e0, e1, *editor, done, all[i as int]->0);
                    }
                }
            },
            None => {
                let indent = child_indent(source, block);
                let body = render_path(path);
                match format_lines(body.as_str(), indent.as_str(), newline) {
                    Some(text) => {
                        let mut line = "path = ".to_owned();
                        line.push_str(text.as_str());
                        editor.add_line(line);
                        proof {
                            lemma_made_one(e1, *editor, ChangeView::Add(line@));
                            lemma_made_then(e0, e1, *editor, done, all[i as int]->0);
                        }
                    },
                    None => {
                        proof {
                            assert(all =~= all.take(i as int).push(None) + all.skip(i as int + 1));
                            lemma_all_runs_fails(all.take(i as int), all.skip(i as int + 1));
                        }
                        return false;
                    },
                }
            },
        }
        proof {
            done = done + all[i as int]->0;
        }
        i = i + 1;
    }
    let mut k: usize = 0;
    while k < existing.len()
        invariant
            e0 == *old(editor),
            b == e0.source_bytes(),
            editor.source_bytes() == bytes_of(source),
            bytes_of(source) == b,
            derefs(existing@) == pairs,
            pairs_fit(b, pairs),
            all == path_attempts(b, *block, pairs, paths@),
            k <= pairs.len(),
            all_runs(all.take(paths@.len() + k)) == Some(done),
            made(e0, *editor, done),
        decreases existing@.len() - k,
    {
        let ghost e1 = *editor;
        let ghost at = paths@.len() + k;
        proof {
            assert(derefs(existing@)[k as int] == *existing@[k as int]);
            assert(item_fits(b, Item::Pair(pairs[k as int])));
            lemma_path_attempt(b, *block, pairs, paths@, at);
            assert(all.take(at + 1) =~= all.take(at).push(all[at]));
            lemma_all_runs_push(all.take(at), all[at]);
        }
        let mut keep = false;
        let mut j: usize = 0;
        while j < paths.len() && !keep
            invariant
                k < existing@.len(),
                j <= paths@.len(),
                *existing@[k as int] == pairs[k as int],
                keep == exists|m: int| 0 <= m < j && #[trigger] kept_by(pairs[k as int], paths@, m),
            decreases paths@.len() - j,
        {
            let target = trim(paths[j].leads_to_tech.as_str());
            if leads_to(existing[k], target.as_str()) {
                keep = true;
            }
            proof {
                if keep {
                    assert(kept_by(pairs[k as int], paths@, j as int) || exists|m: int| 0 <= m < j && #[trigger] kept_by(pairs[k as int], paths@, m));
                }
            }
            j = j + 1;
        }
        if !keep {
            editor.remove(existing[k]);
            proof {
                lemma_made_one(e1, *editor, ChangeView::Remove(removal_span(b, pairs[k as int])));
            }
        } else {
            proof {
                lemma_made_none(*editor);
                assert(kept_by_any(pairs[k as int], paths@));
            }
        }
        proof {
            assert(unkept_removal(b, pairs[k as int], paths@) == if keep {
                Seq::<ChangeView>::empty()
            } else {
                seq![ChangeView::Remove(removal_span(b, pairs[k as int]))]
            });
            lemma_made_then(e0, e1, *editor, done, all[at]->0);
            done = done + all[at]->0;
        }
        k = k + 1;
    }
    proof {
        lemma_path_attempt(b, *block, pairs, paths@, 0);
        assert(all.take(all.len() as int) =~= all);
    }
    true
}

/// "a technology with id `ID` already exists in this file".
pub open spec fn taken_message(id: Seq<char>) -> Seq<char> {
    "a technology with id `"@ + id + "` already exists in this file"@
}

/// The bytes a technology's key covers: its id, at the start of its pair.
pub open spec fn key_span(p: Pair, id: Seq<char>) -> crate::paradox::Span {
    crate::paradox::Span { start: p.span.start, end: (p.span.start + encode_utf8(id).len()) as usize }
}

/// Why `update_source` refuses an update of the technology keyed `id`,
/// before any block is laid out.
pub open spec fn update_refusal(
    b: Seq<u8>,
    path: Seq<char>,
    items: Seq<Item>,
    id: Seq<char>,
    u: TechnologyUpdate,
) -> Option<Seq<char>> {
    match find_technology_spec(items, id) {
        None => Some(no_technology_message(id, path)),
        Some(p) => if validate_spec(u) is Some {
            validate_spec(u)
        } else if trim_spec(u.id@) != id {
            if find_technology_spec(items, trim_spec(u.id@)) is Some {
                Some(taken_message(trim_spec(u.id@)))
            } else if crate::paradox::span_text(b, key_span(p, id)) != id {
                Some("the id of `"@ + id + "` is written in a way that cannot be renamed"@)
            } else {
                None
            }
        } else {
            None
        },
    }
}

fn taken(id: &str) -> (m: String)
    ensures
        m@ == taken_message(id@),
{
    let mut m = "a technology with id `".to_owned();
    m.push_str(id);
    m.push_str("` already exists in this file");
    proof {
        reveal_strlit("a technology with id `");
        reveal_strlit("` already exists in this file");
    }
    m
}

/// Every change `update_source` makes inside a technology block, in order:
/// the plain fields, folders, paths, the word lists and the script blocks.
/// `None` where one of them cannot be laid out.
pub open spec fn technology_runs(b: Seq<u8>, block: Block, u: TechnologyUpdate) -> Option<Seq<ChangeView>> {
    let runs = Some(seq![scalar_change_spec(b, block, "research_cost"@, u.research_cost@)]);
    let runs = then_runs(runs, Some(seq![scalar_change_spec(b, block, "start_year"@, u.start_year@)]));
    let runs = then_runs(runs, Some(seq![scalar_change_spec(b, block, "doctrine"@, u.doctrine@)]));
    let runs = then_runs(runs, Some(seq![quoted_change(b, block, "doctrine_name"@, u.doctrine_name@)]));
    let runs = then_runs(runs, Some(seq![scalar_change_spec(b, block, "xp_research_type"@, u.xp_research_type@)]));
    let runs = then_runs(runs, Some(seq![scalar_change_spec(b, block, "xp_research_cost"@, u.xp_research_cost@)]));
    let runs = then_runs(runs, Some(seq![scalar_change_spec(b, block, "xp_research_bonus"@, u.xp_research_bonus@)]));
    let runs = then_runs(runs, all_runs(folder_attempts(b, block, pairs_with(block.items@, "folder"@), u.folders@)));
    let runs = then_runs(runs, all_runs(path_attempts(b, block, pairs_with(block.items@, "path"@), u.paths@)));
    let runs = then_runs(runs, list_change(b, block, "categories"@, views(u.categories@)));
    let runs = then_runs(runs, list_change(b, block, "xor"@, views(u.xor@)));
    let runs = then_runs(runs, list_change(b, block, "sub_technologies"@, views(u.sub_technologies@)));
    let runs = then_runs(runs, list_change(b, block, "enable_equipments"@, views(u.enable_equipments@)));
    let runs = then_runs(runs, list_change(b, block, "enable_equipment_modules"@, views(u.enable_equipment_modules@)));
    let runs = then_runs(runs, list_change(b, block, "enable_subunits"@, views(u.enable_subunits@)));
    let runs = then_runs(runs, checked_block(b, block, "allow"@, u.allow@));
    let runs = then_runs(runs, checked_block(b, block, "allow_branch"@, u.allow_branch@));
    let runs = then_runs(runs, checked_block(b, block, "on_research_complete"@, u.on_research_complete@));
    let runs = then_runs(runs, checked_block(b, block, "ai_will_do"@, u.ai_will_do@));
    let runs = then_runs(runs, checked_block(b, block, "ai_research_weights"@, u.ai_research_weights@));
    runs
}

/// The rename of a technology's key, when its id changes.
pub open spec fn rename_views(p: Pair, id: Seq<char>, new_id: Seq<char>) -> Seq<(Span, Seq<char>)> {
    if new_id != id {
        seq![(key_span(p, id), new_id)]
    } else {
        Seq::empty()
    }
}

/// The edits `update_source` makes to the file for the technology keyed
/// `id`: the rename of its key, then what its block's editor hands on.
pub open spec fn technology_edits(b: Seq<u8>, items: Seq<Item>, id: Seq<char>, u: TechnologyUpdate) -> Option<
    Seq<(Span, Seq<char>)>,
> {
    match find_technology_spec(items, id) {
        Some(p) => match p.value {
            Value::Block(block) => match handed(b, block, technology_runs(b, block, u)) {
                Some(vs) => Some(rename_views(p, id, trim_spec(u.id@)) + vs),
                None => None,
            },
            Value::Scalar(_) => None,
        },
        None => None,
    }
}

/// The edits made inside a technology's block, as its editor hands them on.
#[verifier::rlimit(60)]
fn technology_block_edits(source: &str, block: &Block, update: &TechnologyUpdate) -> (r: Option<Vec<TextEdit>>)
    requires
        value_fits(bytes_of(source), Value::Block(*block)),
    ensures
        match handed(bytes_of(source), *block, technology_runs(bytes_of(source), *block, *update)) {
            Some(vs) => r matches Some(es) && crate::paradox::edit::edit_views(es@) == vs,
            None => r is None,
        },
{
    let ghost b = bytes_of(source);
    let mut editor = BlockEditor::new(source, block);
    let ghost e0 = editor;
    let ghost mut done: Seq<ChangeView> = Seq::empty();
    proof {
        lemma_made_none(editor);
    }
    let ghost ep = editor;
    editor.set_scalar("research_cost", update.research_cost.as_str());
    proof {
        lemma_made_one(ep, editor, scalar_change_spec(b, *block, "research_cost"@, (*update).research_cost@));
        assert(made(e0, editor, seq![scalar_change_spec(b, *block, "research_cost"@, (*update).research_cost@)]));
        done = seq![scalar_change_spec(b, *block, "research_cost"@, (*update).research_cost@)];
    }
    let ghost ep = editor;
    editor.set_scalar("start_year", update.start_year.as_str());
    proof {
        lemma_made_one(ep, editor, scalar_change_spec(b, *block, "start_year"@, (*update).start_year@));
        lemma_made_then(e0, ep, editor, done, seq![scalar_change_spec(b, *block, "start_year"@, (*update).start_year@)]);
        done = done + seq![scalar_change_spec(b, *block, "start_year"@, (*update).start_year@)];
    }
    let ghost ep = editor;
    editor.set_scalar("doctrine", update.doctrine.as_str());
    proof {
        lemma_made_one(ep, editor, scalar_change_spec(b, *block, "doctrine"@, (*update).doctrine@));
        lemma_made_then(e0, ep, editor, done, seq![scalar_change_spec(b, *block, "doctrine"@, (*update).doctrine@)]);
        done = done + seq![scalar_change_spec(b, *block, "doctrine"@, (*update).doctrine@)];
    }
    let ghost ep = editor;
    set_quoted(&mut editor, "doctrine_name", update.doctrine_name.as_str());
    proof {
        
        lemma_made_then(e0, ep, editor, done, seq![quoted_change(b, *block, "doctrine_name"@, (*update).doctrine_name@)]);
        done = done + seq![quoted_change(b, *block, "doctrine_name"@, (*update).doctrine_name@)];
    }
    let ghost ep = editor;
    editor.set_scalar("xp_research_type", update.xp_research_type.as_str());
    proof {
        lemma_made_one(ep, editor, scalar_change_spec(b, *block, "xp_research_type"@, (*update).xp_research_type@));
        lemma_made_then(e0, ep, editor, done, seq![scalar_change_spec(b, *block, "xp_research_type"@, (*update).xp_research_type@)]);
        done = done + seq![scalar_change_spec(b, *block, "xp_research_type"@, (*update).xp_research_type@)];
    }
    let ghost ep = editor;
    editor.set_scalar("xp_research_cost", update.xp_research_cost.as_str());
    proof {
        lemma_made_one(ep, editor, scalar_change_spec(b, *block, "xp_research_cost"@, (*update).xp_research_cost@));
        lemma_made_then(e0, ep, editor, done, seq![scalar_change_spec(b, *block, "xp_research_cost"@, (*update).xp_research_cost@)]);
        done = done + seq![scalar_change_spec(b, *block, "xp_research_cost"@, (*update).xp_research_cost@)];
    }
    let ghost ep = editor;
    editor.set_scalar("xp_research_bonus", update.xp_research_bonus.as_str());
    proof {
        lemma_made_one(ep, editor, scalar_change_spec(b, *block, "xp_research_bonus"@, (*update).xp_research_bonus@));
        lemma_made_then(e0, ep, editor, done, seq![scalar_change_spec(b, *block, "xp_research_bonus"@, (*update).xp_research_bonus@)]);
        done = done + seq![scalar_change_spec(b, *block, "xp_research_bonus"@, (*update).xp_research_bonus@)];
    }
    let ghost ep = editor;
    if !set_folders(&mut editor, &update.folders) {
        return None;
    }
    proof {
        
        lemma_made_then(e0, ep, editor, done, (all_runs(folder_attempts(b, *block, pairs_with(block.items@, "folder"@), (*update).folders@)))->0);
        done = done + (all_runs(folder_attempts(b, *block, pairs_with(block.items@, "folder"@), (*update).folders@)))->0;
    }
    let ghost ep = editor;
    if !set_paths(&mut editor, &update.paths) {
        return None;
    }
    proof {
        
        lemma_made_then(e0, ep, editor, done, (all_runs(path_attempts(b, *block, pairs_with(block.items@, "path"@), (*update).paths@)))->0);
        done = done + (all_runs(path_attempts(b, *block, pairs_with(block.items@, "path"@), (*update).paths@)))->0;
    }
    let ghost ep = editor;
    if !set_list(&mut editor, "categories", &update.categories) {
        return None;
    }
    proof {
        
        lemma_made_then(e0, ep, editor, done, (list_change(b, *block, "categories"@, views((*update).categories@)))->0);
        done = done + (list_change(b, *block, "categories"@, views((*update).categories@)))->0;
    }
    let ghost ep = editor;
    if !set_list(&mut editor, "xor", &update.xor) {
        return None;
    }
    proof {
        
        lemma_made_then(e0, ep, editor, done, (list_change(b, *block, "xor"@, views((*update).xor@)))->0);
        done = done + (list_change(b, *block, "xor"@, views((*update).xor@)))->0;
    }
    let ghost ep = editor;
    if !set_list(&mut editor, "sub_technologies", &update.sub_technologies) {
        return None;
    }
    proof {
        
        lemma_made_then(e0, ep, editor, done, (list_change(b, *block, "sub_technologies"@, views((*update).sub_technologies@)))->0);
        done = done + (list_change(b, *block, "sub_technologies"@, views((*update).sub_technologies@)))->0;
    }
    let ghost ep = editor;
    if !set_list(&mut editor, "enable_equipments", &update.enable_equipments) {
        return None;
    }
    proof {
        
        lemma_made_then(e0, ep, editor, done, (list_change(b, *block, "enable_equipments"@, views((*update).enable_equipments@)))->0);
        done = done + (list_change(b, *block, "enable_equipments"@, views((*update).enable_equipments@)))->0;
    }
    let ghost ep = editor;
    if !set_list(&mut editor, "enable_equipment_modules", &update.enable_equipment_modules) {
        return None;
    }
    proof {
        
        lemma_made_then(e0, ep, editor, done, (list_change(b, *block, "enable_equipment_modules"@, views((*update).enable_equipment_modules@)))->0);
        done = done + (list_change(b, *block, "enable_equipment_modules"@, views((*update).enable_equipment_modules@)))->0;
    }
    let ghost ep = editor;
    if !set_list(&mut editor, "enable_subunits", &update.enable_subunits) {
        return None;
    }
    proof {
        
        lemma_made_then(e0, ep, editor, done, (list_change(b, *block, "enable_subunits"@, views((*update).enable_subunits@)))->0);
        done = done + (list_change(b, *block, "enable_subunits"@, views((*update).enable_subunits@)))->0;
    }
    let ghost ep = editor;
    if !set_block_checked(&mut editor, "allow", update.allow.as_str()) {
        return None;
    }
    proof {
        
        lemma_made_then(e0, ep, editor, done, seq![block_change_spec(b, *block, "allow"@, (*update).allow@)]);
        done = done + seq![block_change_spec(b, *block, "allow"@, (*update).allow@)];
    }
    let ghost ep = editor;
    if !set_block_checked(&mut editor, "allow_branch", update.allow_branch.as_str()) {
        return None;
    }
    proof {
        
        lemma_made_then(e0, ep, editor, done, seq![block_change_spec(b, *block, "allow_branch"@, (*update).allow_branch@)]);
        done = done + seq![block_change_spec(b, *block, "allow_branch"@, (*update).allow_branch@)];
    }
    let ghost ep = editor;
    if !set_block_checked(&mut editor, "on_research_complete", update.on_research_complete.as_str()) {
        return None;
    }
    proof {
        
        lemma_made_then(e0, ep, editor, done, seq![block_change_spec(b, *block, "on_research_complete"@, (*update).on_research_complete@)]);
        done = done + seq![block_change_spec(b, *block, "on_research_complete"@, (*update).on_research_complete@)];
    }
    let ghost ep = editor;
    if !set_block_checked(&mut editor, "ai_will_do", update.ai_will_do.as_str()) {
        return None;
    }
    proof {
        
        lemma_made_then(e0, ep, editor, done, seq![block_change_spec(b, *block, "ai_will_do"@, (*update).ai_will_do@)]);
        done = done + seq![block_change_spec(b, *block, "ai_will_do"@, (*update).ai_will_do@)];
    }
    let ghost ep = editor;
    if !set_block_checked(&mut editor, "ai_research_weights", update.ai_research_weights.as_str()) {
        return None;
    }
    proof {
        
        lemma_made_then(e0, ep, editor, done, seq![block_change_spec(b, *block, "ai_research_weights"@, (*update).ai_research_weights@)]);
        done = done + seq![block_change_spec(b, *block, "ai_research_weights"@, (*update).ai_research_weights@)];
    }
    proof {
        assert(technology_runs(b, *block, (*update)) == Some(done));
    }
    Some(finish_editor(editor))
}

/// Rewrites one technology in place, matched by its current id.
pub fn update_source(path: &str, source: &str, tech_id: &str, update: &TechnologyUpdate) -> (r: Result<String, EditError>)
    requires
        bytes_of(source).len() <= isize::MAX,
        bytes_of(tech_id).len() <= isize::MAX,
    ensures
        script_parse_spec(source) matches Parsed::Fail(m, o) ==> r matches Err(
            EditError::Script { path: p, source: e },
        ) && p@ == path@ && e.message@ == m && e.offset == o,
        script_parse_spec(source) is Read ==> exists|items: Seq<Item>|
            #[trigger] parsed_items(source, items) && match update_refusal(
                bytes_of(source),
                path@,
                items,
                tech_id@,
                *update,
            ) {
                Some(m) => r matches Err(EditError::Message(t)) && t@ == m,
                None => saved_as(bytes_of(source), technology_edits(bytes_of(source), items, tech_id@, *update), r),
            },
{
    let document = match crate::paradox::parse(source) {
        Ok(document) => document,
        Err(e) => {
            return Err(EditError::Script { path: path.to_owned(), source: e });
        },
    };
    proof {
        assert(parsed_items(source, document.items@));
        lemma_found_technology(bytes_of(source), document.items@, tech_id@);
    }
    let pair = match find_technology(&document, tech_id) {
        Some(pair) => pair,
        None => {
            return Err(EditError::Message(no_technology(tech_id, path)));
        },
    };
    let block = match &pair.value {
        Value::Block(block) => block,
        _ => {
            return Err(EditError::Message("the technology is not a block".to_owned()));
        },
    };
    match validate(update) {
        Ok(()) => {},
        Err(e) => {
            return Err(e);
        },
    }
    let new_id = trim(update.id.as_str());
    let mut edits: Vec<TextEdit> = Vec::new();
    if !str_eq(new_id.as_str(), tech_id) {
        if find_technology(&document, new_id.as_str()).is_some() {
            return Err(EditError::Message(taken(new_id.as_str())));
        }
        // The id is the block's key, which sits at the very start of the pair.
        let key = crate::paradox::Span::new(pair.span.start, pair.span.start + tech_id.len());
        if !str_eq(key.text(source), tech_id) {
            let mut m = "the id of `".to_owned();
            m.push_str(tech_id);
            m.push_str("` is written in a way that cannot be renamed");
            proof {
                reveal_strlit("the id of `");
                reveal_strlit("` is written in a way that cannot be renamed");
            }
            return Err(EditError::Message(m));
        }
        edits.push(TextEdit::new(key, new_id));
    }
    proof {
        assert(crate::paradox::edit::edit_views(edits@) =~= rename_views(*pair, tech_id@, trim_spec(update.id@)));
        crate::script::lemma_block_items_fit(bytes_of(source), *block);
    }
    let mut finished = match technology_block_edits(source, block, update) {
        Some(es) => es,
        None => {
            return Err(crate::script::layout_error());
        },
    };
    let ghost front = edits@;
    let ghost tail = finished@;
    edits.append(&mut finished);
    proof {
        crate::script::lemma_edit_views_append(front, tail);
        assert(edits@ == front + tail);
    }
    save_edits(source, edits)
}

/// Appends a technology to the file's `technologies` block, creating the
/// block in a file that has none.
pub fn add_source(path: &str, source: &str, tech: &TechnologyUpdate) -> (r: Result<String, EditError>)
    ensures
        validate_spec(*tech) matches Some(m) ==> r matches Err(EditError::Message(t)) && t@ == m,
        validate_spec(*tech) is None ==> {
            &&& script_parse_spec(source) matches Parsed::Fail(m, o) ==> r matches Err(
                EditError::Script { path: p, source: e },
            ) && p@ == path@ && e.message@ == m && e.offset == o
            &&& script_parse_spec(source) is Read ==> exists|items: Seq<Item>|
                #[trigger] parsed_items(source, items) && if find_technology_spec(
                    items,
                    trim_spec(tech.id@),
                ) is Some {
                    r matches Err(EditError::Message(t)) && t@ == taken_message(trim_spec(tech.id@))
                } else {
                    match render_technology_spec(*tech) {
                        None => r matches Err(EditError::Message(t)) && t@ == crate::script::layout_message(),
                        Some(body) => match block_spec(items, "technologies"@) {
                            Some(bl) => {
                                let b = bytes_of(source);
                                let line = trim_spec(tech.id@) + " = "@ + format_lines_spec(
                                    body,
                                    crate::paradox::edit::child_indent_spec(b, bl),
                                    crate::paradox::edit::newline_spec(b),
                                );
                                crate::paradox::edit::layout_fits(body) && boundary(b, crate::paradox::edit::insertion_start(b, bl))
                                    ==> (r matches Ok(text) && text@ == text_at(b, 0, crate::paradox::edit::insertion_start(b, bl))
                                    + crate::paradox::edit::newline_spec(b) + crate::paradox::edit::child_indent_spec(b, bl) + line
                                    + crate::paradox::edit::newline_spec(b) + crate::paradox::edit::indent_spec(b, bl.span.start as int)
                                    + text_at(b, bl.inner.end as int, b.len() as int))
                            },
                            None => {
                                let line = trim_spec(tech.id@) + " = "@ + format_lines_spec(
                                    body,
                                    Seq::empty(),
                                    "\n"@,
                                );
                                crate::paradox::edit::layout_fits(body) && crate::paradox::edit::layout_fits(line) ==> (r matches Ok(text)
                                    && text@ == crate::script::new_block_text(bytes_of(source), source@, "technologies"@, line))
                            },
                        },
                    }
                }
        },
{
    match validate(tech) {
        Ok(()) => {},
        Err(e) => {
            return Err(e);
        },
    }
    let document = match crate::paradox::parse(source) {
        Ok(document) => document,
        Err(e) => {
            return Err(EditError::Script { path: path.to_owned(), source: e });
        },
    };
    proof {
        assert(parsed_items(source, document.items@));
        lemma_items_fit(bytes_of(source), document.items@, "technologies"@);
    }
    let id = trim(tech.id.as_str());
    if find_technology(&document, id.as_str()).is_some() {
        return Err(EditError::Message(taken(id.as_str())));
    }
    let body = match render_technology(tech) {
        Some(body) => body,
        None => {
            return Err(crate::script::layout_error());
        },
    };
    match document.block("technologies") {
        Some(block) => crate::script::add_to_block(source, block, id.as_str(), body.as_str()),
        None => crate::script::add_new_block(source, "technologies", id.as_str(), body.as_str()),
    }
}

/// Law: the keys a technology form edits — its plain fields, word lists,
/// script blocks, folders and paths — are kept out of its effects.
pub proof fn law_the_form_keys_are_not_effects()
    ensures
        edited_key("research_cost"@),
        edited_key("start_year"@),
        edited_key("doctrine"@),
        edited_key("doctrine_name"@),
        edited_key("xp_research_type"@),
        edited_key("xp_research_cost"@),
        edited_key("xp_research_bonus"@),
        edited_key("categories"@),
        edited_key("xor"@),
        edited_key("sub_technologies"@),
        edited_key("enable_equipments"@),
        edited_key("enable_equipment_modules"@),
        edited_key("enable_subunits"@),
        edited_key("allow"@),
        edited_key("allow_branch"@),
        edited_key("on_research_complete"@),
        edited_key("ai_will_do"@),
        edited_key("ai_research_weights"@),
        edited_key("folder"@),
        edited_key("path"@),
{
}

} // verus!
