//! Ideologies: `common/ideologies/*.txt`, the groups a country's politics
//! fall into, each with its sub-ideologies, colour, world tension impact,
//! rules and modifiers.
//!
//! An ideology is one `id = { }` block inside `ideologies = { }`. Its
//! sub-ideologies and rules are keyed by name and edited in place; its
//! modifier blocks are handed over as text, since a mod tends to keep a
//! commented-out menu of them in there.
use crate::error::EditError;
use crate::paradox::edit::{
    apply_edits, apply_edits_spec, child_indent, child_indent_spec, detect_newline, edit_fits,
    edits_fit, edits_fit_all, format_block_spec, indent_at, indent_spec, insert_lines,
    insertion_start, law_single_edit_replaces_its_span, layout_fits, newline_spec, remove_pair,
    removal_span, try_format_block, BlockEditor, TextEdit,
};
use crate::paradox::lexer::{needs_quotes, needs_quotes_spec, quote, quote_spec};
use crate::paradox::parser::{
    block_spec, item_fits, pairs_of, parse_spec as script_parse_spec, scalar_text, value_fits,
    Parsed,
};
use crate::paradox::{line_number, Block, Document, Item, Items, Pair, Value};
use crate::paradox::edit::{block_body_spec, body_fits, ChangeView};
use crate::paradox::parser::{find_spec, value_span};
use crate::script::{
    fmt_block, lists_of,
    lemma_made_one, lemma_made_then, lemma_made_none, lemma_made_push, made, finished, fmt_lines,
    hand_on, handed_on, record_all, views_fit, all_runs, lemma_all_runs_fails, lemma_all_runs_push,
};
use crate::paradox::edit::{block_change_spec, record, scalar_change_spec};
use crate::paradox::Span;
use crate::text::eq_ignore_ascii_case_spec;
use crate::script::{
    all_fit, block_pairs, body_or_empty, both, derefs, entries, entries_spec, find_entry,
    find_entry_spec, format_lines, format_lines_spec, is_yes, kept_target, lemma_entries_are_blocks,
    lemma_entries_fit, lemma_found_entry_fits, lemma_items_fit, lemma_pair_kinds,
    lemma_pairs_derefs, opt_text, pairs_fit, pairs_with_blocks, pairs_with_scalars,
    parsed_items, read_block, says_yes, scalar_pairs, set_block_checked, single_space,
    single_spaced, text_of, text_or_empty, words_of, words_spec, checked_block, handed, save_edits,
    saved_as, then_runs, finish_editor,
};
use crate::text::{
    boundary, bytes_of, chars_of, eq_ignore_ascii_case, join, join_strings, str_eq, text_at, trim,
    trim_spec, views,
};
use vstd::prelude::*;
use vstd::utf8::encode_utf8;

verus! {

#[derive(Debug, Clone, Default, PartialEq)]
pub struct SubIdeology {
    pub id: String,
    /// `yes`, `no`, or empty when the file does not say (which means yes).
    pub can_be_randomly_selected: String,
}

#[derive(Debug, Clone, Default, PartialEq)]
pub struct Rule {
    pub key: String,
    pub value: String,
}

#[derive(Debug, Clone, Default)]
pub struct Ideology {
    pub id: String,
    /// The body of `color = { }`: three numbers, 0-255 or 0-1.
    pub color: String,
    pub types: Vec<SubIdeology>,
    /// Localisation keys of the faction names, unquoted.
    pub dynamic_faction_names: Vec<String>,
    pub war_impact_on_world_tension: String,
    pub faction_impact_on_world_tension: String,
    pub can_host_government_in_exile: String,
    pub can_be_boosted: String,
    pub can_collaborate: String,
    /// `democratic`, `communist`, `fascist`, `neutral`, or empty: which
    /// `ai_<x> = yes` the file sets.
    pub ai_behaviour: String,
    pub ai_ideology_wanted_units_factor: String,
    pub rules: Vec<Rule>,
    /// Bodies of the modifier blocks, kept as text.
    pub modifiers: String,
    pub faction_modifiers: String,
    pub line: usize,
}

#[derive(Debug, Clone)]
pub struct IdeologyFile {
    pub path: String,
    pub ideologies: Vec<Ideology>,
    pub has_bom: bool,
    /// The bytes were not valid UTF-8 and were read as Windows-1252.
    pub is_legacy_encoding: bool,
    /// The text the ideologies were read from, for the code view.
    pub source: String,
}

/// The editable fields sent back when saving. Empty strings clear a field;
/// a sub-ideology, faction name or rule left out of its list is removed.
#[derive(Debug, Clone, Default)]
pub struct IdeologyUpdate {
    pub id: String,
    pub color: String,
    pub types: Vec<SubIdeology>,
    pub dynamic_faction_names: Vec<String>,
    pub war_impact_on_world_tension: String,
    pub faction_impact_on_world_tension: String,
    pub can_host_government_in_exile: String,
    pub can_be_boosted: String,
    pub can_collaborate: String,
    pub ai_behaviour: String,
    pub ai_ideology_wanted_units_factor: String,
    pub rules: Vec<Rule>,
    pub modifiers: String,
    pub faction_modifiers: String,
}

// ---------------------------------------------------------------------------
// Reading
// ---------------------------------------------------------------------------

/// The AI behaviour the file sets: the first of `democratic`, `communist`,
/// `fascist`, `neutral` whose `ai_<x>` says yes.
pub open spec fn ai_behaviour_spec(items: Seq<Item>) -> Seq<char> {
    if says_yes(items, "ai_democratic"@) {
        "democratic"@
    } else if says_yes(items, "ai_communist"@) {
        "communist"@
    } else if says_yes(items, "ai_fascist"@) {
        "fascist"@
    } else if says_yes(items, "ai_neutral"@) {
        "neutral"@
    } else {
        Seq::empty()
    }
}

/// The sub-ideology pairs: the block-valued pairs of `types = { }`.
pub open spec fn type_pairs(items: Seq<Item>) -> Seq<Pair> {
    match block_spec(items, "types"@) {
        Some(t) => block_pairs(pairs_of(t.items@)),
        None => Seq::empty(),
    }
}

/// The rule pairs: the scalar-valued pairs of `rules = { }`.
pub open spec fn rule_pairs(items: Seq<Item>) -> Seq<Pair> {
    match block_spec(items, "rules"@) {
        Some(r) => scalar_pairs(pairs_of(r.items@)),
        None => Seq::empty(),
    }
}

pub open spec fn sub_read(s: SubIdeology, p: Pair) -> bool {
    &&& s.id@ == p.key@
    &&& s.can_be_randomly_selected@ == text_or_empty(
        p.value->Block_0.items@,
        "can_be_randomly_selected"@,
    )
}

pub open spec fn rule_read(r: Rule, p: Pair) -> bool {
    &&& r.key@ == p.key@
    &&& r.value@ == scalar_text(p.value->Scalar_0)
}

/// What `read_ideology` makes of the block keyed `id` starting at `start`.
pub open spec fn ideology_read(b: Seq<u8>, i: Ideology, id: Seq<char>, block: Block, start: int) -> bool {
    let items = block.items@;
    let types = type_pairs(items);
    let rules = rule_pairs(items);
    &&& i.id@ == id
    &&& i.color@ == body_or_empty(b, items, "color"@)
    &&& i.types@.len() == types.len()
    &&& forall|k: int| 0 <= k < types.len() ==> sub_read(#[trigger] i.types@[k], types[k])
    &&& views(i.dynamic_faction_names@) == words_spec(items, "dynamic_faction_names"@)
    &&& i.war_impact_on_world_tension@ == text_or_empty(items, "war_impact_on_world_tension"@)
    &&& i.faction_impact_on_world_tension@ == text_or_empty(
        items,
        "faction_impact_on_world_tension"@,
    )
    &&& i.can_host_government_in_exile@ == text_or_empty(items, "can_host_government_in_exile"@)
    &&& i.can_be_boosted@ == text_or_empty(items, "can_be_boosted"@)
    &&& i.can_collaborate@ == text_or_empty(items, "can_collaborate"@)
    &&& i.ai_behaviour@ == ai_behaviour_spec(items)
    &&& i.ai_ideology_wanted_units_factor@ == text_or_empty(
        items,
        "ai_ideology_wanted_units_factor"@,
    )
    &&& i.rules@.len() == rules.len()
    &&& forall|k: int| 0 <= k < rules.len() ==> rule_read(#[trigger] i.rules@[k], rules[k])
    &&& i.modifiers@ == body_or_empty(b, items, "modifiers"@)
    &&& i.faction_modifiers@ == body_or_empty(b, items, "faction_modifiers"@)
    &&& i.line == line_number(b, start)
}

fn ai_behaviour_of(block: &Block) -> (r: String)
    ensures
        r@ == ai_behaviour_spec(block.items@),
{
    if is_yes(block, "ai_democratic") {
        "democratic".to_owned()
    } else if is_yes(block, "ai_communist") {
        "communist".to_owned()
    } else if is_yes(block, "ai_fascist") {
        "fascist".to_owned()
    } else if is_yes(block, "ai_neutral") {
        "neutral".to_owned()
    } else {
        String::new()
    }
}

fn read_types(block: &Block) -> (r: Vec<SubIdeology>)
    ensures
        r@.len() == type_pairs(block.items@).len(),
        forall|k: int| 0 <= k < r@.len() ==> sub_read(#[trigger] r@[k], type_pairs(block.items@)[k]),
{
    let types = match block.block("types") {
        Some(t) => t,
        None => {
            return Vec::new();
        },
    };
    let all = types.pairs();
    proof {
        lemma_pairs_derefs(all@, types.items@);
    }
    let subs = pairs_with_blocks(&all);
    let ghost ps = block_pairs(pairs_of(types.items@));
    proof {
        lemma_pair_kinds(pairs_of(types.items@));
    }
    let mut r: Vec<SubIdeology> = Vec::new();
    let mut i: usize = 0;
    while i < subs.len()
        invariant
            i <= subs@.len(),
            derefs(subs@) == ps,
            ps == block_pairs(pairs_of(types.items@)),
            forall|k: int| 0 <= k < ps.len() ==> (#[trigger] ps[k]).value is Block,
            r@.len() == i,
            forall|k: int| 0 <= k < i ==> sub_read(#[trigger] r@[k], ps[k]),
        decreases subs@.len() - i,
    {
        let pair = subs[i];
        proof {
            assert(derefs(subs@)[i as int] == *pair);
            assert(ps[i as int].value is Block);
        }
        let flag = match &pair.value {
            Value::Block(sub) => text_of(sub, "can_be_randomly_selected"),
            _ => String::new(),
        };
        r.push(SubIdeology { id: pair.key.as_str().to_owned(), can_be_randomly_selected: flag });
        i = i + 1;
    }
    r
}

fn read_rules(block: &Block) -> (r: Vec<Rule>)
    ensures
        r@.len() == rule_pairs(block.items@).len(),
        forall|k: int| 0 <= k < r@.len() ==> rule_read(#[trigger] r@[k], rule_pairs(block.items@)[k]),
{
    let rules = match block.block("rules") {
        Some(t) => t,
        None => {
            return Vec::new();
        },
    };
    let all = rules.pairs();
    proof {
        lemma_pairs_derefs(all@, rules.items@);
    }
    let chosen = pairs_with_scalars(&all);
    let ghost ps = scalar_pairs(pairs_of(rules.items@));
    proof {
        lemma_pair_kinds(pairs_of(rules.items@));
    }
    let mut r: Vec<Rule> = Vec::new();
    let mut i: usize = 0;
    while i < chosen.len()
        invariant
            i <= chosen@.len(),
            derefs(chosen@) == ps,
            ps == scalar_pairs(pairs_of(rules.items@)),
            forall|k: int| 0 <= k < ps.len() ==> (#[trigger] ps[k]).value is Scalar,
            r@.len() == i,
            forall|k: int| 0 <= k < i ==> rule_read(#[trigger] r@[k], ps[k]),
        decreases chosen@.len() - i,
    {
        let pair = chosen[i];
        proof {
            assert(derefs(chosen@)[i as int] == *pair);
            assert(ps[i as int].value is Scalar);
        }
        let value = match &pair.value {
            Value::Scalar(scalar) => scalar.value(),
            _ => String::new(),
        };
        r.push(Rule { key: pair.key.as_str().to_owned(), value });
        i = i + 1;
    }
    r
}

/// The ideology keyed `id` whose block starts at byte `start`.
pub fn read_ideology(source: &str, id: &str, block: &Block, start: usize) -> (i: Ideology)
    requires
        bytes_of(source).len() <= isize::MAX,
        value_fits(bytes_of(source), Value::Block(*block)),
        start >= bytes_of(source).len() || boundary(bytes_of(source), start as int),
    ensures
        ideology_read(bytes_of(source), i, id@, *block, start as int),
{
    let names = match block.block("dynamic_faction_names") {
        Some(list) => words_of(list),
        None => {
            let v: Vec<String> = Vec::new();
            assert(views(v@) =~= Seq::<Seq<char>>::empty());
            v
        },
    };
    Ideology {
        id: id.to_owned(),
        color: read_block(source, block, "color"),
        types: read_types(block),
        dynamic_faction_names: names,
        war_impact_on_world_tension: text_of(block, "war_impact_on_world_tension"),
        faction_impact_on_world_tension: text_of(block, "faction_impact_on_world_tension"),
        can_host_government_in_exile: text_of(block, "can_host_government_in_exile"),
        can_be_boosted: text_of(block, "can_be_boosted"),
        can_collaborate: text_of(block, "can_collaborate"),
        ai_behaviour: ai_behaviour_of(block),
        ai_ideology_wanted_units_factor: text_of(block, "ai_ideology_wanted_units_factor"),
        rules: read_rules(block),
        modifiers: read_block(source, block, "modifiers"),
        faction_modifiers: read_block(source, block, "faction_modifiers"),
        line: crate::paradox::line_of(source, start),
    }
}

/// Every `id = { }` pair inside the file's `ideologies` blocks, in file order.
pub open spec fn ideology_pairs_spec(items: Seq<Item>) -> Seq<Pair> {
    entries_spec(items, "ideologies"@)
}

pub fn ideology_pairs(document: &Document) -> (r: Vec<&Pair>)
    ensures
        derefs(r@) == ideology_pairs_spec(document.items@),
{
    entries(document, "ideologies")
}

/// The first ideology keyed exactly `id`.
pub open spec fn find_ideology_spec(items: Seq<Item>, id: Seq<char>) -> Option<Pair> {
    find_entry_spec(items, "ideologies"@, id)
}

pub fn find_ideology<'a>(document: &'a Document, id: &str) -> (r: Option<&'a Pair>)
    ensures
        match find_ideology_spec(document.items@, id@) {
            Some(p) => r matches Some(q) && *q == p,
            None => r is None,
        },
{
    find_entry(document, "ideologies", id)
}

/// Every ideology of the file, read from the parsed items `items`.
pub open spec fn ideologies_read(b: Seq<u8>, is: Seq<Ideology>, items: Seq<Item>) -> bool {
    let ps = ideology_pairs_spec(items);
    &&& is.len() == ps.len()
    &&& forall|k: int|
        0 <= k < ps.len() ==> match (#[trigger] ps[k]).value {
            Value::Block(bl) => ideology_read(b, is[k], ps[k].key@, bl, ps[k].span.start as int),
            _ => false,
        }
}

pub fn read_ideologies(source: &str, document: &Document) -> (r: Vec<Ideology>)
    requires
        bytes_of(source).len() <= isize::MAX,
        all_fit(bytes_of(source), document.items@),
    ensures
        ideologies_read(bytes_of(source), r@, document.items@),
{
    let ghost b = bytes_of(source);
    let pairs = ideology_pairs(document);
    let ghost ps = ideology_pairs_spec(document.items@);
    proof {
        lemma_items_fit(b, document.items@, "ideologies"@);
        lemma_entries_fit(b, crate::paradox::parser::pairs_with(document.items@, "ideologies"@));
        lemma_entries_are_blocks(crate::paradox::parser::pairs_with(document.items@, "ideologies"@));
    }
    let mut r: Vec<Ideology> = Vec::new();
    let mut i: usize = 0;
    while i < pairs.len()
        invariant
            i <= pairs@.len(),
            b == bytes_of(source),
            b.len() <= isize::MAX,
            derefs(pairs@) == ps,
            ps == ideology_pairs_spec(document.items@),
            pairs_fit(b, ps),
            forall|k: int| 0 <= k < ps.len() ==> (#[trigger] ps[k]).value is Block,
            r@.len() == i,
            forall|k: int|
                0 <= k < i ==> match (#[trigger] ps[k]).value {
                    Value::Block(bl) => ideology_read(b, r@[k], ps[k].key@, bl, ps[k].span.start as int),
                    _ => false,
                },
        decreases pairs@.len() - i,
    {
        let pair = pairs[i];
        proof {
            assert(derefs(pairs@)[i as int] == *pair);
            assert(item_fits(b, Item::Pair(ps[i as int])));
        }
        match &pair.value {
            Value::Block(block) => {
                r.push(read_ideology(source, pair.key.as_str(), block, pair.span.start));
            },
            _ => {
                proof {
                    assert(ps[i as int].value is Block);
                }
            },
        }
        i = i + 1;
    }
    r
}

/// Reads ideologies out of text the window holds, which need not be what
/// is on disk: the code view parses its buffer as the user types.
pub fn parse(path: &str, content: &str, has_bom: bool, is_legacy_encoding: bool) -> (r: Result<
    IdeologyFile,
    EditError,
>)
    requires
        bytes_of(content).len() <= isize::MAX,
    ensures
        match script_parse_spec(content) {
            Parsed::Fail(m, o) => r matches Err(EditError::Script { path: p, source: e }) && p@
                == path@ && e.message@ == m && e.offset == o,
            Parsed::Read(..) => r is Ok,
        },
        r matches Ok(file) ==> {
            &&& file.path@ == crate::text::replace_char(path@, '\\', '/')
            &&& file.source@ == content@
            &&& file.has_bom == has_bom
            &&& file.is_legacy_encoding == is_legacy_encoding
            &&& exists|items: Seq<Item>|
                #[trigger] parsed_items(content, items) && ideologies_read(
                    bytes_of(content),
                    file.ideologies@,
                    items,
                )
        },
{
    let document = match crate::paradox::parse(content) {
        Ok(document) => document,
        Err(source) => {
            return Err(EditError::Script { path: path.to_owned(), source });
        },
    };
    let ideologies = read_ideologies(content, &document);
    proof {
        assert(parsed_items(content, document.items@));
    }
    Ok(
        IdeologyFile {
            path: crate::text::replace_char_in(path, '\\', '/'),
            ideologies,
            has_bom,
            is_legacy_encoding,
            source: content.to_owned(),
        },
    )
}

/// "no ideology with id `ID` exists in PATH".
pub open spec fn no_ideology_message(id: Seq<char>, path: Seq<char>) -> Seq<char> {
    "no ideology with id `"@ + id + "` exists in "@ + path
}

fn no_ideology(id: &str, path: &str) -> (m: String)
    ensures
        m@ == no_ideology_message(id@, path@),
{
    let mut m = "no ideology with id `".to_owned();
    m.push_str(id);
    m.push_str("` exists in ");
    m.push_str(path);
    m
}

/// Removes an ideology, with the line it owned when it owned one.
pub fn delete_source(path: &str, source: &str, ideology_id: &str) -> (r: Result<String, EditError>)
    ensures
        script_parse_spec(source) matches Parsed::Fail(m, o) ==> r matches Err(
            EditError::Script { path: p, source: e },
        ) && p@ == path@ && e.message@ == m && e.offset == o,
        script_parse_spec(source) is Read ==> exists|items: Seq<Item>|
            #[trigger] parsed_items(source, items) && match find_ideology_spec(items, ideology_id@) {
                Some(p) => r matches Ok(text) && text@ == text_at(
                    bytes_of(source),
                    0,
                    removal_span(bytes_of(source), p).start as int,
                ) + text_at(
                    bytes_of(source),
                    removal_span(bytes_of(source), p).end as int,
                    bytes_of(source).len() as int,
                ),
                None => r matches Err(EditError::Message(m)) && m@ == no_ideology_message(
                    ideology_id@,
                    path@,
                ),
            },
{
    let document = match crate::paradox::parse(source) {
        Ok(document) => document,
        Err(e) => {
            return Err(EditError::Script { path: path.to_owned(), source: e });
        },
    };
    proof {
        assert(parsed_items(source, document.items@));
    }
    let pair = match find_ideology(&document, ideology_id) {
        Some(pair) => pair,
        None => {
            return Err(EditError::Message(no_ideology(ideology_id, path)));
        },
    };
    proof {
        lemma_found_entry_fits(bytes_of(source), document.items@, "ideologies"@, ideology_id@);
    }
    let edits = remove_pair(source, pair);
    proof {
        assert(edits@ =~= seq![edits@[0]]);
        law_single_edit_replaces_its_span(bytes_of(source), edits@[0]);
    }
    proof {
        crate::paradox::edit::lemma_fitting_edits_apply(source, edits@);
    }
    let text = apply_edits(source, edits);
    proof {
        assert(parsed_items(source, document.items@));
    }
    Ok(text)
}

// ---------------------------------------------------------------------------
// Checking an update
// ---------------------------------------------------------------------------

/// The AI behaviours an ideology can adopt, as the file's `ai_<x> = yes`.
pub open spec fn known_behaviour(b: Seq<char>) -> bool {
    b == "democratic"@ || b == "communist"@ || b == "fascist"@ || b == "neutral"@
}

/// The first sub-ideology from `i` on whose trimmed id is empty or needs quotes.
pub open spec fn first_bad_sub(types: Seq<SubIdeology>, i: int) -> Option<Seq<char>>
    decreases types.len() - i,
{
    if i < 0 || i >= types.len() {
        None
    } else if trim_spec(types[i].id@).len() == 0 || needs_quotes_spec(trim_spec(types[i].id@)) {
        Some(trim_spec(types[i].id@))
    } else {
        first_bad_sub(types, i + 1)
    }
}

/// Why an update is refused before the file is looked at, if it is.
pub open spec fn validate_spec(u: IdeologyUpdate) -> Option<Seq<char>> {
    let id = trim_spec(u.id@);
    let behaviour = trim_spec(u.ai_behaviour@);
    if id.len() == 0 {
        Some("an ideology needs an id"@)
    } else if needs_quotes_spec(id) {
        Some("`"@ + id + "` cannot be an ideology id: use letters, digits and underscores"@)
    } else if first_bad_sub(u.types@, 0) is Some {
        Some(
            "`"@ + first_bad_sub(u.types@, 0)->0
                + "` cannot be a sub-ideology id: use letters, digits and underscores"@,
        )
    } else if behaviour.len() != 0 && !known_behaviour(behaviour) {
        Some(
            "`"@ + behaviour
                + "` is not an AI behaviour; use one of democratic, communist, fascist, neutral"@,
        )
    } else {
        None
    }
}

fn is_known_behaviour(b: &str) -> (r: bool)
    ensures
        r == known_behaviour(b@),
{
    str_eq(b, "democratic") || str_eq(b, "communist") || str_eq(b, "fascist") || str_eq(b, "neutral")
}

/// Refuses an id the script cannot hold and an unknown AI behaviour.
pub fn validate(update: &IdeologyUpdate) -> (r: Result<(), EditError>)
    ensures
        match validate_spec(*update) {
            Some(m) => r matches Err(EditError::Message(t)) && t@ == m,
            None => r is Ok,
        },
{
    let id = trim(update.id.as_str());
    if id.as_str().is_empty() {
        return Err(EditError::Message("an ideology needs an id".to_owned()));
    }
    if needs_quotes(id.as_str()) {
        let mut m = "`".to_owned();
        m.push_str(id.as_str());
        m.push_str("` cannot be an ideology id: use letters, digits and underscores");
        return Err(EditError::Message(m));
    }
    let mut i: usize = 0;
    while i < update.types.len()
        invariant
            i <= update.types@.len(),
            trim_spec(update.id@).len() != 0,
            !needs_quotes_spec(trim_spec(update.id@)),
            first_bad_sub(update.types@, 0) == first_bad_sub(update.types@, i as int),
        decreases update.types@.len() - i,
    {
        let sub_id = trim(update.types[i].id.as_str());
        if sub_id.as_str().is_empty() || needs_quotes(sub_id.as_str()) {
            let mut m = "`".to_owned();
            m.push_str(sub_id.as_str());
            m.push_str("` cannot be a sub-ideology id: use letters, digits and underscores");
            return Err(EditError::Message(m));
        }
        i = i + 1;
    }
    let behaviour = trim(update.ai_behaviour.as_str());
    if !behaviour.as_str().is_empty() && !is_known_behaviour(behaviour.as_str()) {
        let mut m = "`".to_owned();
        m.push_str(behaviour.as_str());
        m.push_str("` is not an AI behaviour; use one of democratic, communist, fascist, neutral");
        return Err(EditError::Message(m));
    }
    Ok(())
}

// ---------------------------------------------------------------------------
// Rendering new blocks
// ---------------------------------------------------------------------------
//
// The renderers produce a block body with `\n` line breaks and no leading
// indentation; the formatter re-indents it wherever it lands. Each gives
// `None` only where a body handed to it cannot be laid out.

/// `can_be_randomly_selected = flag`, or nothing for a blank flag.
pub open spec fn sub_body_spec(s: SubIdeology) -> Seq<char> {
    if trim_spec(s.can_be_randomly_selected@).len() == 0 {
        Seq::empty()
    } else {
        "can_be_randomly_selected = "@ + trim_spec(s.can_be_randomly_selected@)
    }
}

/// `id = { flag }` for one sub-ideology.
pub open spec fn type_line(s: SubIdeology) -> Option<Seq<char>> {
    match crate::script::fmt_block(sub_body_spec(s), Seq::empty(), "\n"@) {
        Some(t) => Some(trim_spec(s.id@) + " = "@ + t),
        None => None,
    }
}

pub open spec fn types_lines(ts: Seq<SubIdeology>) -> Option<Seq<Seq<char>>>
    decreases ts.len(),
{
    if ts.len() == 0 {
        Some(Seq::empty())
    } else {
        match (types_lines(ts.drop_last()), type_line(ts.last())) {
            (Some(ls), Some(l)) => Some(ls.push(l)),
            _ => None,
        }
    }
}

/// The faction names worth writing: trimmed, blank ones left out.
pub open spec fn wanted_names(ns: Seq<Seq<char>>) -> Seq<Seq<char>>
    decreases ns.len(),
{
    if ns.len() == 0 {
        Seq::empty()
    } else if trim_spec(ns.last()).len() == 0 {
        wanted_names(ns.drop_last())
    } else {
        wanted_names(ns.drop_last()).push(trim_spec(ns.last()))
    }
}

/// Each name quoted, one per line.
pub open spec fn quoted_lines(ns: Seq<Seq<char>>) -> Seq<Seq<char>> {
    Seq::new(ns.len(), |k: int| quote_spec(ns[k]))
}

/// The rules worth writing: key and value trimmed, blank ones left out.
pub open spec fn wanted_rules(rs: Seq<Rule>) -> Seq<(Seq<char>, Seq<char>)>
    decreases rs.len(),
{
    if rs.len() == 0 {
        Seq::empty()
    } else {
        let k = trim_spec(rs.last().key@);
        let v = trim_spec(rs.last().value@);
        if k.len() == 0 || v.len() == 0 {
            wanted_rules(rs.drop_last())
        } else {
            wanted_rules(rs.drop_last()).push((k, v))
        }
    }
}

/// `key = value`, one rule per line.
pub open spec fn rule_lines(ws: Seq<(Seq<char>, Seq<char>)>) -> Seq<Seq<char>> {
    Seq::new(ws.len(), |k: int| ws[k].0 + " = "@ + ws[k].1)
}

/// `key = { body }` with the braces on lines of their own.
pub open spec fn section(key: Seq<char>, body: Option<Seq<char>>) -> Option<Seq<Seq<char>>> {
    match body {
        Some(b) => match crate::script::fmt_lines(b, Seq::empty(), "\n"@) {
            Some(t) => Some(seq![key + " = "@ + t]),
            None => None,
        },
        None => None,
    }
}

pub open spec fn colour_lines(colour: Seq<char>) -> Seq<Seq<char>> {
    if single_spaced(colour).len() == 0 {
        Seq::empty()
    } else {
        seq!["color = { "@ + single_spaced(colour) + " }"@]
    }
}

pub open spec fn behaviour_lines(b: Seq<char>) -> Seq<Seq<char>> {
    if trim_spec(b).len() == 0 {
        Seq::empty()
    } else {
        seq!["ai_"@ + trim_spec(b) + " = yes"@]
    }
}

pub open spec fn types_part(u: IdeologyUpdate) -> Option<Seq<Seq<char>>> {
    if u.types@.len() == 0 {
        Some(Seq::empty())
    } else {
        section(
            "types"@,
            match types_lines(u.types@) {
                Some(ls) => Some(join(ls, "\n"@)),
                None => None,
            },
        )
    }
}

pub open spec fn names_part(u: IdeologyUpdate) -> Option<Seq<Seq<char>>> {
    let names = wanted_names(views(u.dynamic_faction_names@));
    if names.len() == 0 {
        Some(Seq::empty())
    } else {
        section("dynamic_faction_names"@, Some(join(quoted_lines(names), "\n"@)))
    }
}

pub open spec fn rules_part(u: IdeologyUpdate) -> Option<Seq<Seq<char>>> {
    let rules = wanted_rules(u.rules@);
    if rules.len() == 0 {
        Some(Seq::empty())
    } else {
        section("rules"@, Some(join(rule_lines(rules), "\n"@)))
    }
}

pub open spec fn scalars_part(u: IdeologyUpdate) -> Seq<Seq<char>> {
    crate::script::scalar_line("war_impact_on_world_tension"@, u.war_impact_on_world_tension@)
        + crate::script::scalar_line(
        "faction_impact_on_world_tension"@,
        u.faction_impact_on_world_tension@,
    ) + crate::script::scalar_line(
        "can_host_government_in_exile"@,
        u.can_host_government_in_exile@,
    ) + crate::script::scalar_line("can_be_boosted"@, u.can_be_boosted@)
        + crate::script::scalar_line("can_collaborate"@, u.can_collaborate@)
        + crate::script::scalar_line(
        "ai_ideology_wanted_units_factor"@,
        u.ai_ideology_wanted_units_factor@,
    )
}

/// The lines of a new ideology block that hold nested blocks.
pub open spec fn nested_part(u: IdeologyUpdate) -> Option<Seq<Seq<char>>> {
    both(
        both(
            both(both(both(Some(colour_lines(u.color@)), types_part(u)), names_part(u)), rules_part(u)),
            crate::script::block_lines("modifiers"@, u.modifiers@),
        ),
        crate::script::block_lines("faction_modifiers"@, u.faction_modifiers@),
    )
}

/// The body of a new ideology block.
pub open spec fn render_ideology_spec(u: IdeologyUpdate) -> Option<Seq<char>> {
    match nested_part(u) {
        Some(ls) => Some(join(ls + scalars_part(u) + behaviour_lines(u.ai_behaviour@), "\n"@)),
        None => None,
    }
}

/// The body of a sub-ideology block.
fn render_sub_body(sub: &SubIdeology) -> (r: String)
    ensures
        r@ == sub_body_spec(*sub),
{
    let flag = trim(sub.can_be_randomly_selected.as_str());
    if flag.as_str().is_empty() {
        String::new()
    } else {
        let mut r = "can_be_randomly_selected = ".to_owned();
        r.push_str(flag.as_str());
        r
    }
}

/// One `id = { flag }` line per sub-ideology.
fn render_types(types: &Vec<SubIdeology>) -> (r: Option<String>)
    ensures
        opt_text(r) == (match types_lines(types@) {
            Some(ls) => Some(join(ls, "\n"@)),
            None => None,
        }),
{
    let mut lines: Vec<String> = Vec::new();
    let mut i: usize = 0;
    while i < types.len()
        invariant
            i <= types@.len(),
            types_lines(types@.take(i as int)) matches Some(ls) && views(lines@) == ls,
        decreases types@.len() - i,
    {
        proof {
            assert(types@.take(i + 1).drop_last() =~= types@.take(i as int));
            reveal_strlit("");
            assert(""@ =~= Seq::<char>::empty());
        }
        let body = render_sub_body(&types[i]);
        match try_format_block(body.as_str(), "", "\n") {
            Some(block) => {
                let ghost before = views(lines@);
                let mut line = trim(types[i].id.as_str());
                line.push_str(" = ");
                line.push_str(block.as_str());
                lines.push(line);
                assert(views(lines@) =~= before.push(line@));
            },
            None => {
                proof {
                    lemma_types_none(types@, i as int + 1);
                }
                return None;
            },
        }
        i = i + 1;
    }
    assert(types@.take(types@.len() as int) =~= types@);
    Some(join_strings(&lines, "\n"))
}

proof fn lemma_types_none(ts: Seq<SubIdeology>, i: int)
    requires
        0 <= i <= ts.len(),
        types_lines(ts.take(i)) is None,
    ensures
        types_lines(ts) is None,
    decreases ts.len() - i,
{
    if i < ts.len() {
        assert(ts.take(i + 1).drop_last() =~= ts.take(i));
        lemma_types_none(ts, i + 1);
    } else {
        assert(ts.take(i) =~= ts);
    }
}

/// The faction names worth writing.
fn names_wanted(names: &Vec<String>) -> (r: Vec<String>)
    ensures
        views(r@) == wanted_names(views(names@)),
{
    let ghost all = views(names@);
    let mut r: Vec<String> = Vec::new();
    let mut i: usize = 0;
    while i < names.len()
        invariant
            i <= names@.len(),
            all == views(names@),
            views(r@) == wanted_names(all.take(i as int)),
        decreases names@.len() - i,
    {
        proof {
            assert(all.take(i + 1).drop_last() =~= all.take(i as int));
            assert(all.take(i + 1).last() == names@[i as int]@);
        }
        let t = trim(names[i].as_str());
        if !t.as_str().is_empty() {
            let ghost before = views(r@);
            r.push(t);
            assert(views(r@) =~= before.push(t@));
        }
        i = i + 1;
    }
    assert(all.take(all.len() as int) =~= all);
    r
}

/// Each name quoted, one per line.
fn render_names(names: &Vec<String>) -> (r: String)
    ensures
        r@ == join(quoted_lines(views(names@)), "\n"@),
{
    let mut lines: Vec<String> = Vec::new();
    let mut i: usize = 0;
    while i < names.len()
        invariant
            i <= names@.len(),
            views(lines@) == quoted_lines(views(names@)).take(i as int),
        decreases names@.len() - i,
    {
        let q = quote(names[i].as_str());
        assert(q@ == quoted_lines(views(names@))[i as int]);
        let ghost before = views(lines@);
        lines.push(q);
        assert(views(lines@) =~= before.push(q@));
        i = i + 1;
        assert(views(lines@) =~= quoted_lines(views(names@)).take(i as int));
    }
    assert(quoted_lines(views(names@)).take(names@.len() as int) =~= quoted_lines(views(names@)));
    join_strings(&lines, "\n")
}

/// The rules worth writing, as `(key, value)` texts.
fn rules_wanted(rules: &Vec<Rule>) -> (r: Vec<(String, String)>)
    ensures
        r@.len() == wanted_rules(rules@).len(),
        forall|k: int| 0 <= k < r@.len() ==> (#[trigger] r@[k]).0@ == wanted_rules(rules@)[k].0
            && r@[k].1@ == wanted_rules(rules@)[k].1,
{
    let mut r: Vec<(String, String)> = Vec::new();
    let mut i: usize = 0;
    while i < rules.len()
        invariant
            i <= rules@.len(),
            r@.len() == wanted_rules(rules@.take(i as int)).len(),
            forall|k: int| 0 <= k < r@.len() ==> (#[trigger] r@[k]).0@ == wanted_rules(rules@.take(i as int))[k].0
                && r@[k].1@ == wanted_rules(rules@.take(i as int))[k].1,
        decreases rules@.len() - i,
    {
        proof {
            assert(rules@.take(i + 1).drop_last() =~= rules@.take(i as int));
        }
        let k = trim(rules[i].key.as_str());
        let v = trim(rules[i].value.as_str());
        if !k.as_str().is_empty() && !v.as_str().is_empty() {
            r.push((k, v));
        }
        i = i + 1;
    }
    assert(rules@.take(rules@.len() as int) =~= rules@);
    r
}

/// `key = value`, one rule per line.
fn render_rules(rules: &Vec<(String, String)>) -> (r: String)
    ensures
        r@ == join(
            rule_lines(Seq::new(rules@.len(), |k: int| (rules@[k].0@, rules@[k].1@))),
            "\n"@,
        ),
{
    let ghost ws = Seq::new(rules@.len(), |k: int| (rules@[k].0@, rules@[k].1@));
    let mut lines: Vec<String> = Vec::new();
    let mut i: usize = 0;
    while i < rules.len()
        invariant
            i <= rules@.len(),
            ws == Seq::new(rules@.len(), |k: int| (rules@[k].0@, rules@[k].1@)),
            views(lines@) == rule_lines(ws).take(i as int),
        decreases rules@.len() - i,
    {
        let mut line = rules[i].0.as_str().to_owned();
        line.push_str(" = ");
        line.push_str(rules[i].1.as_str());
        assert(line@ == rule_lines(ws)[i as int]);
        let ghost before = views(lines@);
        lines.push(line);
        assert(views(lines@) =~= before.push(line@));
        i = i + 1;
        assert(views(lines@) =~= rule_lines(ws).take(i as int));
    }
    assert(rule_lines(ws).take(rules@.len() as int) =~= rule_lines(ws));
    join_strings(&lines, "\n")
}

/// `key = { body }` with the braces on lines of their own.
fn push_section(lines: &mut Vec<String>, key: &str, body: Option<String>) -> (ok: bool)
    ensures
        ok <==> section(key@, opt_text(body)) is Some,
        ok ==> views(final(lines)@) == views(old(lines)@) + section(key@, opt_text(body))->0,
{
    let ghost before = views(lines@);
    match body {
        Some(b) => match format_lines(b.as_str(), "", "\n") {
            Some(block) => {
                let mut line = key.to_owned();
                line.push_str(" = ");
                line.push_str(block.as_str());
                lines.push(line);
                proof {
                    reveal_strlit("");
                    assert(""@ =~= Seq::<char>::empty());
                }
                assert(views(lines@) =~= before + seq![line@]);
                true
            },
            None => {
                proof {
                    reveal_strlit("");
                }
                false
            },
        },
        None => false,
    }
}

fn push_types(lines: &mut Vec<String>, u: &IdeologyUpdate) -> (ok: bool)
    ensures
        ok <==> types_part(*u) is Some,
        ok ==> views(final(lines)@) == views(old(lines)@) + types_part(*u)->0,
{
    if u.types.len() > 0 {
        push_section(lines, "types", render_types(&u.types))
    } else {
        assert(views(lines@) =~= views(lines@) + Seq::<Seq<char>>::empty());
        true
    }
}

fn push_names(lines: &mut Vec<String>, u: &IdeologyUpdate) -> (ok: bool)
    ensures
        ok <==> names_part(*u) is Some,
        ok ==> views(final(lines)@) == views(old(lines)@) + names_part(*u)->0,
{
    let names = names_wanted(&u.dynamic_faction_names);
    if names.len() > 0 {
        let text = render_names(&names);
        push_section(lines, "dynamic_faction_names", Some(text))
    } else {
        assert(views(lines@) =~= views(lines@) + Seq::<Seq<char>>::empty());
        true
    }
}

fn push_rules(lines: &mut Vec<String>, u: &IdeologyUpdate) -> (ok: bool)
    ensures
        ok <==> rules_part(*u) is Some,
        ok ==> views(final(lines)@) == views(old(lines)@) + rules_part(*u)->0,
{
    let rules = rules_wanted(&u.rules);
    if rules.len() > 0 {
        let text = render_rules(&rules);
        proof {
            assert(Seq::new(rules@.len(), |k: int| (rules@[k].0@, rules@[k].1@)) =~= wanted_rules(
                u.rules@,
            ));
        }
        push_section(lines, "rules", Some(text))
    } else {
        assert(views(lines@) =~= views(lines@) + Seq::<Seq<char>>::empty());
        true
    }
}

fn nested_lines(u: &IdeologyUpdate) -> (r: Option<Vec<String>>)
    ensures
        match r {
            Some(ls) => nested_part(*u) == Some(views(ls@)),
            None => nested_part(*u) is None,
        },
{
    let mut lines: Vec<String> = Vec::new();
    let colour = single_space(u.color.as_str());
    if !colour.as_str().is_empty() {
        let mut line = "color = { ".to_owned();
        line.push_str(colour.as_str());
        line.push_str(" }");
        lines.push(line);
        assert(views(lines@) =~= colour_lines(u.color@));
    } else {
        assert(views(lines@) =~= colour_lines(u.color@));
    }
    if !push_types(&mut lines, u) {
        return None;
    }
    if !push_names(&mut lines, u) {
        return None;
    }
    if !push_rules(&mut lines, u) {
        return None;
    }
    if !crate::script::push_block(&mut lines, "modifiers", u.modifiers.as_str()) {
        return None;
    }
    if !crate::script::push_block(&mut lines, "faction_modifiers", u.faction_modifiers.as_str()) {
        return None;
    }
    Some(lines)
}

/// The body of a new ideology block.
#[verifier::rlimit(30)]
pub fn render_ideology(ideology: &IdeologyUpdate) -> (r: Option<String>)
    ensures
        opt_text(r) == render_ideology_spec(*ideology),
{
    let mut lines = match nested_lines(ideology) {
        Some(lines) => lines,
        None => {
            return None;
        },
    };
    let ghost nested = views(lines@);
    crate::script::push_scalar(&mut lines, "war_impact_on_world_tension", ideology.war_impact_on_world_tension.as_str());
    crate::script::push_scalar(&mut lines, "faction_impact_on_world_tension", ideology.faction_impact_on_world_tension.as_str());
    crate::script::push_scalar(&mut lines, "can_host_government_in_exile", ideology.can_host_government_in_exile.as_str());
    crate::script::push_scalar(&mut lines, "can_be_boosted", ideology.can_be_boosted.as_str());
    crate::script::push_scalar(&mut lines, "can_collaborate", ideology.can_collaborate.as_str());
    crate::script::push_scalar(&mut lines, "ai_ideology_wanted_units_factor", ideology.ai_ideology_wanted_units_factor.as_str());
    assert(views(lines@) =~= nested + scalars_part(*ideology));
    let ghost with_scalars = views(lines@);
    let behaviour = trim(ideology.ai_behaviour.as_str());
    if !behaviour.as_str().is_empty() {
        let mut line = "ai_".to_owned();
        line.push_str(behaviour.as_str());
        line.push_str(" = yes");
        lines.push(line);
        assert(views(lines@) =~= with_scalars + behaviour_lines(ideology.ai_behaviour@));
    } else {
        assert(views(lines@) =~= with_scalars + behaviour_lines(ideology.ai_behaviour@));
    }
    Some(join_strings(&lines, "\n"))
}

// ---------------------------------------------------------------------------
// Editing in place
// ---------------------------------------------------------------------------

/// What `set_colour` does to a block: the colour removed when blank, set to
/// `{ r g b }` when it says other numbers, added when missing.
pub open spec fn colour_change(b: Seq<u8>, block: Block, colour: Seq<char>) -> ChangeView {
    let wanted = single_spaced(colour);
    match find_spec(block.items@, "color"@) {
        Some(pair) => if wanted.len() == 0 {
            ChangeView::Remove(removal_span(b, pair))
        } else {
            let current = if body_fits(b, pair.value) {
                single_spaced(block_body_spec(b, pair.value))
            } else {
                Seq::empty()
            };
            if current == wanted {
                ChangeView::Nothing
            } else {
                ChangeView::Replace(value_span(pair.value), "{ "@ + wanted + " }"@)
            }
        },
        None => if wanted.len() == 0 {
            ChangeView::Nothing
        } else {
            ChangeView::Add("color = { "@ + wanted + " }"@)
        },
    }
}

/// `color = { r g b }` stays on one line however it is spelled, and is left
/// alone when it already says these numbers.
fn set_colour(editor: &mut BlockEditor, colour: &str)
    requires
        old(editor).wf(),
    ensures
        made(*old(editor), *final(editor), seq![colour_change(old(editor).source_bytes(), old(editor).edited_block(), colour@)]),
{
    let ghost e0 = *editor;
    let wanted = single_space(colour);
    let source = editor.source();
    let block = editor.block();
    proof {
        editor.lemma_block_fits();
        lemma_items_fit(bytes_of(source), block.items@, "color"@);
    }
    match block.find("color") {
        Some(pair) => {
            if wanted.as_str().is_empty() {
                editor.remove(pair);
            } else {
                let current = match crate::paradox::edit::try_block_body(source, &pair.value) {
                    Some(body) => single_space(body.as_str()),
                    None => String::new(),
                };
                if !str_eq(current.as_str(), wanted.as_str()) {
                    let mut text = "{ ".to_owned();
                    text.push_str(wanted.as_str());
                    text.push_str(" }");
                    let edit = TextEdit::new(pair.value.span(), text);
                    proof {
                        assert(item_fits(bytes_of(source), Item::Pair(*pair)));
                        assert(seq![edit][0] == edit);
                        reveal_strlit("{ ");
                        reveal_strlit(" }");
                    }
                    if edit_fits(source, &edit) {
                        editor.edit(edit);
                    }
                }
            }
        },
        None => {
            if !wanted.as_str().is_empty() {
                let mut line = "color = { ".to_owned();
                line.push_str(wanted.as_str());
                line.push_str(" }");
                proof {
                    reveal_strlit("color = { ");
                    reveal_strlit(" }");
                }
                editor.add_line(line);
            }
        },
    }
    proof {
        lemma_made_one(e0, *editor, colour_change(e0.source_bytes(), e0.edited_block(), colour@));
    }
}

/// A sub-ideology with exactly this trimmed id is wanted.
pub open spec fn wants_type_spec(types: Seq<SubIdeology>, key: Seq<char>) -> bool {
    exists|i: int| 0 <= i < types.len() && #[trigger] trim_spec(types[i].id@) == key
}

/// Whether a sub-ideology with exactly this trimmed id is wanted.
fn wants_type(types: &Vec<SubIdeology>, key: &str) -> (r: bool)
    ensures
        r == wants_type_spec(types@, key@),
{
    let mut i: usize = 0;
    while i < types.len()
        invariant
            i <= types.len(),
            forall|j: int| 0 <= j < i ==> #[trigger] trim_spec(types@[j].id@) != key@,
        decreases types@.len() - i,
    {
        if str_eq(trim(types[i].id.as_str()).as_str(), key) {
            return true;
        }
        i = i + 1;
    }
    false
}

/// The edits an editor of a sub-ideology block hands on once its flag is
/// set.
pub open spec fn flagged(b: Seq<u8>, sub_block: Block, s: SubIdeology) -> Seq<(Span, Seq<char>)> {
    finished(
        b,
        sub_block,
        record(
            Seq::empty(),
            Seq::empty(),
            scalar_change_spec(b, sub_block, "can_be_randomly_selected"@, s.can_be_randomly_selected@),
        ),
    )
}

/// What `set_types` does inside a types block for one sub-ideology: the
/// flag of one already there set in place, a scalar in its stead rewritten,
/// a missing one added. `None` where that cannot be done.
pub open spec fn type_attempt(b: Seq<u8>, tb: Block, s: SubIdeology) -> Option<Seq<ChangeView>> {
    let id = trim_spec(s.id@);
    match find_spec(tb.items@, id) {
        Some(sp) => match sp.value {
            Value::Block(sb) => if views_fit(b, flagged(b, sb, s)) {
                Some(handed_on(flagged(b, sb, s)))
            } else {
                None
            },
            Value::Scalar(_) => match fmt_block(
                sub_body_spec(s),
                indent_spec(b, sp.span.start as int),
                newline_spec(b),
            ) {
                Some(t) => Some(seq![ChangeView::Replace(value_span(sp.value), t)]),
                None => None,
            },
        },
        None => match fmt_block(sub_body_spec(s), child_indent_spec(b, tb), newline_spec(b)) {
            Some(t) => Some(seq![ChangeView::Add(id + " = "@ + t)]),
            None => None,
        },
    }
}

/// A sub-ideology no longer wanted, removed.
pub open spec fn type_removal(b: Seq<u8>, pair: Pair, types: Seq<SubIdeology>) -> Seq<ChangeView> {
    if wants_type_spec(types, pair.key@) {
        Seq::empty()
    } else {
        seq![ChangeView::Remove(removal_span(b, pair))]
    }
}

/// The runs of changes made inside a types block: each sub-ideology of the
/// form in turn, then the removals.
#[verifier::opaque]
pub open spec fn type_attempts(b: Seq<u8>, tb: Block, types: Seq<SubIdeology>) -> Seq<Option<Seq<ChangeView>>> {
    Seq::new(types.len(), |i: int| type_attempt(b, tb, types[i])) + Seq::new(
        pairs_of(tb.items@).len(),
        |k: int| Some(type_removal(b, pairs_of(tb.items@)[k], types)),
    )
}

pub(crate) proof fn lemma_type_attempt(b: Seq<u8>, tb: Block, types: Seq<SubIdeology>, at: int)
    ensures
        type_attempts(b, tb, types).len() == types.len() + pairs_of(tb.items@).len(),
        0 <= at < types.len() ==> type_attempts(b, tb, types)[at] == type_attempt(b, tb, types[at]),
        types.len() <= at < types.len() + pairs_of(tb.items@).len() ==> type_attempts(b, tb, types)[at]
            == Some(type_removal(b, pairs_of(tb.items@)[at - types.len()], types)),
{
    reveal(type_attempts);
}

/// The sub-ideologies written out as a types block body.
pub open spec fn types_text(types: Seq<SubIdeology>) -> Option<Seq<char>> {
    match types_lines(types) {
        Some(ls) => Some(join(ls, "\n"@)),
        None => None,
    }
}

/// What `set_types` does to an ideology block. `None` where the types
/// cannot be laid out or their edits do not fit.
pub open spec fn types_change(b: Seq<u8>, block: Block, types: Seq<SubIdeology>) -> Option<Seq<ChangeView>> {
    match find_spec(block.items@, "types"@) {
        None => if types.len() == 0 {
            Some(Seq::empty())
        } else {
            match types_text(types) {
                Some(body) => match fmt_lines(body, child_indent_spec(b, block), newline_spec(b)) {
                    Some(t) => Some(seq![ChangeView::Add("types = "@ + t)]),
                    None => None,
                },
                None => None,
            }
        },
        Some(pair) => match pair.value {
            Value::Block(tb) => match all_runs(type_attempts(b, tb, types)) {
                Some(cs) => {
                    let vs = finished(b, tb, record_all((Seq::empty(), Seq::empty()), cs));
                    if views_fit(b, vs) {
                        Some(handed_on(vs))
                    } else {
                        None
                    }
                },
                None => None,
            },
            Value::Scalar(_) => match types_text(types) {
                Some(body) => match fmt_lines(body, indent_spec(b, pair.span.start as int), newline_spec(b)) {
                    Some(t) => Some(seq![ChangeView::Replace(value_span(pair.value), t)]),
                    None => None,
                },
                None => None,
            },
        },
    }
}

/// Sub-ideologies are keyed by id: one already there has its flag set in
/// place, one missing is added, one no longer wanted is removed.
#[verifier::rlimit(40)]
fn set_types(editor: &mut BlockEditor, types: &Vec<SubIdeology>) -> (ok: bool)
    requires
        old(editor).wf(),
    ensures
        kept_target(*old(editor), *final(editor)),
        ok == types_change(old(editor).source_bytes(), old(editor).edited_block(), types@) is Some,
        ok ==> made(
            *old(editor),
            *final(editor),
            types_change(old(editor).source_bytes(), old(editor).edited_block(), types@)->0,
        ),
{
    let ghost e0 = *editor;
    let source = editor.source();
    let block = editor.block();
    let ghost b = bytes_of(source);
    let newline = detect_newline(source);
    proof {
        editor.lemma_block_fits();
        lemma_items_fit(bytes_of(source), block.items@, "types"@);
        lemma_made_none(*editor);
    }
    let pair = match block.find("types") {
        Some(pair) => pair,
        None => {
            if types.len() > 0 {
                let indent = child_indent(source, block);
                let body = match render_types(types) {
                    Some(body) => body,
                    None => {
                        return false;
                    },
                };
                match format_lines(body.as_str(), indent.as_str(), newline) {
                    Some(text) => {
                        let mut line = "types = ".to_owned();
                        line.push_str(text.as_str());
                        editor.add_line(line);
                        proof {
                            lemma_made_one(e0, *editor, ChangeView::Add(line@));
                        }
                    },
                    None => {
                        return false;
                    },
                }
            }
            return true;
        },
    };
    let types_block = match &pair.value {
        Value::Block(b) => b,
        _ => {
            let indent = indent_at(source, pair.span.start);
            let body = match render_types(types) {
                Some(body) => body,
                None => {
                    return false;
                },
            };
            return match format_lines(body.as_str(), indent.as_str(), newline) {
                Some(text) => {
                    let edit = TextEdit::new(pair.value.span(), text);
                    proof {
                        assert(seq![edit][0] == edit);
                        assert(item_fits(b, Item::Pair(*pair)));
                        assert(edits_fit(b, seq![edit]));
                    }
                    if !edit_fits(source, &edit) {
                        return false;
                    }
                    editor.edit(edit);
                    proof {
                        lemma_made_one(e0, *editor, ChangeView::Replace(edit.span, edit.replacement@));
                    }
                    true
                },
                None => false,
            };
        },
    };
    proof {
        crate::script::lemma_block_items_fit(b, *types_block);
    }
    let mut inner = BlockEditor::new(source, types_block);
    let ghost i0 = inner;
    let ghost all = type_attempts(b, *types_block, types@);
    let ghost mut done: Seq<ChangeView> = Seq::empty();
    proof {
        lemma_made_none(inner);
        lemma_type_attempt(b, *types_block, types@, 0);
        assert(all.take(0) =~= Seq::<Option<Seq<ChangeView>>>::empty());
    }
    let mut i: usize = 0;
    while i < types.len()
        invariant
            e0 == *old(editor),
            e0.wf(),
            *editor == e0,
            b == e0.source_bytes(),
            bytes_of(source) == b,
            newline@ == newline_spec(b),
            i0.source_bytes() == b,
            i0.edited_block() == *types_block,
            lists_of(i0) == (Seq::<(Span, Seq<char>)>::empty(), Seq::<Seq<char>>::empty()),
            value_fits(bytes_of(source), Value::Block(*types_block)),
            find_spec(e0.edited_block().items@, "types"@) == Some(*pair),
            pair.value == Value::Block(*types_block),
            all == type_attempts(b, *types_block, types@),
            i <= types@.len(),
            all_runs(all.take(i as int)) == Some(done),
            made(i0, inner, done),
        decreases types@.len() - i,
    {
        let ghost i1 = inner;
        proof {
            lemma_type_attempt(b, *types_block, types@, i as int);
            assert(all.take(i as int + 1) =~= all.take(i as int).push(all[i as int]));
            lemma_all_runs_push(all.take(i as int), all[i as int]);
        }
        let sub = &types[i];
        let id = trim(sub.id.as_str());
        proof {
            lemma_items_fit(bytes_of(source), types_block.items@, id@);
        }
        match types_block.find(id.as_str()) {
            Some(sub_pair) => match &sub_pair.value {
                Value::Block(sub_block) => {
                    proof {
                        crate::script::lemma_block_items_fit(b, *sub_block);
                    }
                    let mut flag = BlockEditor::new(source, sub_block);
                    flag.set_scalar("can_be_randomly_selected", sub.can_be_randomly_selected.as_str());
                    if !hand_on(&mut inner, flag) {
                        proof {
                            assert(all =~= all.take(i as int).push(None) + all.skip(i as int + 1));
                            lemma_all_runs_fails(all.take(i as int), all.skip(i as int + 1));
                        }
                        return false;
                    }
                    proof {
                        lemma_made_then(i0, i1, inner, done, all[i as int]->0);
                    }
                },
                _ => {
                    let indent = indent_at(source, sub_pair.span.start);
                    let body = render_sub_body(sub);
                    match try_format_block(body.as_str(), indent.as_str(), newline) {
                        Some(text) => {
                            let edit = TextEdit::new(sub_pair.value.span(), text);
                            proof {
                                assert(seq![edit][0] == edit);
                                assert(item_fits(b, Item::Pair(*sub_pair)));
                                assert(edits_fit(b, seq![edit]));
                            }
                            if !edit_fits(source, &edit) {
                                return false;
                            }
                            inner.edit(edit);
                            proof {
                                lemma_made_one(i1, inner, ChangeView::Replace(edit.span, edit.replacement@));
                                lemma_made_then(i0, i1, inner, done, all[i as int]->0);
                            }
                        },
                        None => {
                            proof {
                                assert(all =~= all.take(i as int).push(None) + all.skip(i as int + 1));
                                lemma_all_runs_fails(all.take(i as int), all.skip(i as int + 1));
                            }
                            return false;
                        },
                    }
                },
            },
            None => {
                let indent = child_indent(source, types_block);
                let body = render_sub_body(sub);
                match try_format_block(body.as_str(), indent.as_str(), newline) {
                    Some(text) => {
                        let mut line = id.clone();
                        line.push_str(" = ");
                        line.push_str(text.as_str());
                        inner.add_line(line);
                        proof {
                            reveal_strlit(" = ");
                            lemma_made_one(i1, inner, ChangeView::Add(line@));
                            lemma_made_then(i0, i1, inner, done, all[i as int]->0);
                        }
                    },
                    None => {
                        proof {
                            assert(all =~= all.take(i as int).push(None) + all.skip(i as int + 1));
                            lemma_all_runs_fails(all.take(i as int), all.skip(i as int + 1));
                        }
                        return false;
                    },
                }
            },
        }
        proof {
            done = done + all[i as int]->0;
        }
        i = i + 1;
    }
    let subs = types_block.pairs();
    proof {
        lemma_items_fit(bytes_of(source), types_block.items@, Seq::empty());
        lemma_pairs_derefs(subs@, types_block.items@);
    }
    let mut k: usize = 0;
    while k < subs.len()
        invariant
            e0 == *old(editor),
            e0.wf(),
            *editor == e0,
            i0.source_bytes() == b,
            bytes_of(source) == b,
            i0.edited_block() == *types_block,
            lists_of(i0) == (Seq::<(Span, Seq<char>)>::empty(), Seq::<Seq<char>>::empty()),
            find_spec(e0.edited_block().items@, "types"@) == Some(*pair),
            pair.value == Value::Block(*types_block),
            derefs(subs@) == pairs_of(types_block.items@),
            pairs_fit(b, pairs_of(types_block.items@)),
            all == type_attempts(b, *types_block, types@),
            k <= subs@.len(),
            all_runs(all.take(types@.len() + k)) == Some(done),
            made(i0, inner, done),
        decreases subs@.len() - k,
    {
        let ghost i1 = inner;
        let ghost at = types@.len() + k;
        proof {
            assert(derefs(subs@)[k as int] == *subs@[k as int]);
            assert(item_fits(b, Item::Pair(pairs_of(types_block.items@)[k as int])));
            lemma_type_attempt(b, *types_block, types@, at);
            assert(all.take(at + 1) =~= all.take(at).push(all[at]));
            lemma_all_runs_push(all.take(at), all[at]);
        }
        if !wants_type(types, subs[k].key.as_str()) {
            inner.remove(subs[k]);
            proof {
                lemma_made_one(i1, inner, ChangeView::Remove(removal_span(b, pairs_of(types_block.items@)[k as int])));
            }
        } else {
            proof {
                lemma_made_none(inner);
            }
        }
        proof {
            lemma_made_then(i0, i1, inner, done, all[at]->0);
            done = done + all[at]->0;
        }
        k = k + 1;
    }
    proof {
        lemma_type_attempt(b, *types_block, types@, 0);
        assert(all.take(all.len() as int) =~= all);
    }
    hand_on(editor, inner)
}

/// What `set_names` does to a block; `None` when the list cannot be laid
/// out.
pub open spec fn names_change(b: Seq<u8>, block: Block, names: Seq<Seq<char>>) -> Option<ChangeView> {
    let wanted = wanted_names(names);
    let body = join(quoted_lines(wanted), "\n"@);
    let newline = newline_spec(b);
    match find_spec(block.items@, "dynamic_faction_names"@) {
        None => if wanted.len() == 0 {
            Some(ChangeView::Nothing)
        } else if layout_fits(body) {
            Some(
                ChangeView::Add(
                    "dynamic_faction_names = "@ + format_lines_spec(body, child_indent_spec(b, block), newline),
                ),
            )
        } else {
            None
        },
        Some(pair) => if (pair.value matches Value::Block(c) && crate::script::bare_scalars(c.items@)
            == wanted) {
            Some(ChangeView::Nothing)
        } else if wanted.len() == 0 {
            Some(ChangeView::Replace(value_span(pair.value), "{ }"@))
        } else if layout_fits(body) {
            Some(
                ChangeView::Replace(
                    value_span(pair.value),
                    format_lines_spec(body, indent_spec(b, pair.span.start as int), newline),
                ),
            )
        } else {
            None
        },
    }
}

/// The faction names are one quoted key per line; a list already saying
/// these names is left alone.
fn set_names(editor: &mut BlockEditor, names: &Vec<String>) -> (ok: bool)
    requires
        old(editor).wf(),
    ensures
        kept_target(*old(editor), *final(editor)),
        ok == names_change(old(editor).source_bytes(), old(editor).edited_block(), views(names@)) is Some,
        ok ==> made(
            *old(editor),
            *final(editor),
            seq![names_change(old(editor).source_bytes(), old(editor).edited_block(), views(names@))->0],
        ),
{
    let ghost e0 = *editor;
    let ghost c = names_change(editor.source_bytes(), editor.edited_block(), views(names@));
    let wanted = names_wanted(names);
    let source = editor.source();
    let block = editor.block();
    let newline = detect_newline(source);
    proof {
        editor.lemma_block_fits();
        lemma_items_fit(bytes_of(source), block.items@, "dynamic_faction_names"@);
    }
    match block.find("dynamic_faction_names") {
        None => {
            if wanted.len() > 0 {
                let indent = child_indent(source, block);
                let body = render_names(&wanted);
                match format_lines(body.as_str(), indent.as_str(), newline) {
                    Some(text) => {
                        let mut line = "dynamic_faction_names = ".to_owned();
                        line.push_str(text.as_str());
                        editor.add_line(line);
                        proof {
                            reveal_strlit("dynamic_faction_names = ");
                            lemma_made_one(e0, *editor, c->0);
                        }
                    },
                    None => {
                        return false;
                    },
                }
            }
            proof {
                if wanted.len() == 0 {
                    lemma_made_one(e0, *editor, c->0);
                }
            }
            true
        },
        Some(pair) => {
            if let Value::Block(current) = &pair.value {
                if crate::script::same_texts(&words_of(current), &wanted) {
                    proof {
                        lemma_made_one(e0, *editor, c->0);
                    }
                    return true;
                }
            }
            let indent = indent_at(source, pair.span.start);
            let text = if wanted.len() == 0 {
                proof {
                    reveal_strlit("{ }");
                }
                "{ }".to_owned()
            } else {
                let body = render_names(&wanted);
                match format_lines(body.as_str(), indent.as_str(), newline) {
                    Some(text) => text,
                    None => {
                        return false;
                    },
                }
            };
            let edit = TextEdit::new(pair.value.span(), text);
            proof {
                assert(item_fits(bytes_of(source), Item::Pair(*pair)));
                assert(seq![edit][0] == edit);
            }
            if !edit_fits(source, &edit) {
                return false;
            }
            editor.edit(edit);
            proof {
                lemma_made_one(e0, *editor, c->0);
            }
            true
        },
    }
}

/// A wanted rule has this key, ignoring ASCII case.
pub open spec fn wants_rule_spec(rules: Seq<(String, String)>, key: Seq<char>) -> bool {
    exists|i: int| 0 <= i < rules.len() && #[trigger] eq_ignore_ascii_case_spec(rules[i].0@, key)
}

/// Whether a wanted rule has this key, ignoring ASCII case.
fn wants_rule(rules: &Vec<(String, String)>, key: &str) -> (r: bool)
    ensures
        r == wants_rule_spec(rules@, key@),
{
    let mut i: usize = 0;
    while i < rules.len()
        invariant
            i <= rules.len(),
            forall|j: int| 0 <= j < i ==> !#[trigger] eq_ignore_ascii_case_spec(rules@[j].0@, key@),
        decreases rules@.len() - i,
    {
        if eq_ignore_ascii_case(rules[i].0.as_str(), key) {
            return true;
        }
        i = i + 1;
    }
    false
}

/// A wanted rule has this key, ignoring ASCII case.
pub open spec fn rule_wanted(ws: Seq<(Seq<char>, Seq<char>)>, key: Seq<char>) -> bool {
    exists|i: int| 0 <= i < ws.len() && #[trigger] eq_ignore_ascii_case_spec(ws[i].0, key)
}

/// Each wanted rule set in a rules block.
pub open spec fn rule_sets(b: Seq<u8>, rb: Block, ws: Seq<(Seq<char>, Seq<char>)>) -> Seq<ChangeView> {
    Seq::new(ws.len(), |i: int| scalar_change_spec(b, rb, ws[i].0, ws[i].1))
}

/// Each rule no longer wanted removed; the others left alone.
pub open spec fn rule_removals(b: Seq<u8>, pairs: Seq<Pair>, ws: Seq<(Seq<char>, Seq<char>)>) -> Seq<ChangeView> {
    Seq::new(
        pairs.len(),
        |k: int|
            if rule_wanted(ws, pairs[k].key@) {
                ChangeView::Nothing
            } else {
                ChangeView::Remove(removal_span(b, pairs[k]))
            },
    )
}

/// The edits an editor of a rules block hands on.
pub open spec fn rules_edits(b: Seq<u8>, rb: Block, ws: Seq<(Seq<char>, Seq<char>)>) -> Seq<(Span, Seq<char>)> {
    finished(
        b,
        rb,
        record_all(
            (Seq::empty(), Seq::empty()),
            rule_sets(b, rb, ws) + rule_removals(b, pairs_of(rb.items@), ws),
        ),
    )
}

/// What `set_rules` does to an ideology block: a rules block there is
/// edited in place, a scalar in its stead rewritten, a missing one added.
/// `None` where the rules cannot be laid out.
pub open spec fn rules_change(b: Seq<u8>, block: Block, ws: Seq<(Seq<char>, Seq<char>)>) -> Option<
    Seq<ChangeView>,
> {
    match find_spec(block.items@, "rules"@) {
        None => if ws.len() == 0 {
            Some(Seq::empty())
        } else {
            match fmt_lines(join(rule_lines(ws), "\n"@), child_indent_spec(b, block), newline_spec(b)) {
                Some(t) => Some(seq![ChangeView::Add("rules = "@ + t)]),
                None => None,
            }
        },
        Some(pair) => match pair.value {
            Value::Block(rb) => if views_fit(b, rules_edits(b, rb, ws)) {
                Some(handed_on(rules_edits(b, rb, ws)))
            } else {
                None
            },
            Value::Scalar(_) => match fmt_lines(
                join(rule_lines(ws), "\n"@),
                indent_spec(b, pair.span.start as int),
                newline_spec(b),
            ) {
                Some(t) => Some(seq![ChangeView::Replace(value_span(pair.value), t)]),
                None => None,
            },
        },
    }
}

/// Rules are keyed: each wanted one is set in place or added, each other
/// one in the file is removed.
fn set_rules(editor: &mut BlockEditor, rules: &Vec<Rule>) -> (ok: bool)
    requires
        old(editor).wf(),
    ensures
        kept_target(*old(editor), *final(editor)),
        ok == rules_change(old(editor).source_bytes(), old(editor).edited_block(), wanted_rules(rules@)) is Some,
        ok ==> made(
            *old(editor),
            *final(editor),
            rules_change(old(editor).source_bytes(), old(editor).edited_block(), wanted_rules(rules@))->0,
        ),
{
    let ghost e0 = *editor;
    let wanted = rules_wanted(rules);
    let ghost ws = wanted_rules(rules@);
    proof {
        assert(Seq::new(wanted@.len(), |k: int| (wanted@[k].0@, wanted@[k].1@)) =~= ws);
    }
    let source = editor.source();
    let block = editor.block();
    let ghost b = bytes_of(source);
    let newline = detect_newline(source);
    proof {
        editor.lemma_block_fits();
        lemma_items_fit(bytes_of(source), block.items@, "rules"@);
        lemma_made_none(*editor);
    }
    let pair = match block.find("rules") {
        Some(pair) => pair,
        None => {
            if wanted.len() > 0 {
                let indent = child_indent(source, block);
                let body = render_rules(&wanted);
                match format_lines(body.as_str(), indent.as_str(), newline) {
                    Some(text) => {
                        let mut line = "rules = ".to_owned();
                        line.push_str(text.as_str());
                        editor.add_line(line);
                        proof {
                            lemma_made_one(e0, *editor, ChangeView::Add(line@));
                        }
                    },
                    None => {
                        return false;
                    },
                }
            }
            return true;
        },
    };
    let rules_block = match &pair.value {
        Value::Block(b) => b,
        _ => {
            let indent = indent_at(source, pair.span.start);
            let body = render_rules(&wanted);
            return match format_lines(body.as_str(), indent.as_str(), newline) {
                Some(text) => {
                    let edit = TextEdit::new(pair.value.span(), text);
                    proof {
                        assert(seq![edit][0] == edit);
                        assert(item_fits(b, Item::Pair(*pair)));
                        assert(edits_fit(b, seq![edit]));
                    }
                    if !edit_fits(source, &edit) {
                        return false;
                    }
                    editor.edit(edit);
                    proof {
                        lemma_made_one(e0, *editor, ChangeView::Replace(edit.span, edit.replacement@));
                    }
                    true
                },
                None => false,
            };
        },
    };
    proof {
        crate::script::lemma_block_items_fit(b, *rules_block);
    }
    let mut inner = BlockEditor::new(source, rules_block);
    let ghost i0 = inner;
    let ghost sets = rule_sets(b, *rules_block, ws);
    proof {
        lemma_made_none(inner);
        assert(sets.take(0) =~= Seq::<ChangeView>::empty());
    }
    let mut i: usize = 0;
    while i < wanted.len()
        invariant
            e0 == *old(editor),
            *editor == e0,
            i <= wanted@.len(),
            wanted@.len() == ws.len(),
            forall|k: int| 0 <= k < wanted@.len() ==> (#[trigger] wanted@[k]).0@ == ws[k].0 && wanted@[k].1@
                == ws[k].1,
            sets == rule_sets(b, *rules_block, ws),
            i0.source_bytes() == b,
            i0.edited_block() == *rules_block,
            made(i0, inner, sets.take(i as int)),
        decreases wanted@.len() - i,
    {
        let ghost i1 = inner;
        inner.set_scalar(wanted[i].0.as_str(), wanted[i].1.as_str());
        proof {
            assert(sets[i as int] == scalar_change_spec(b, *rules_block, ws[i as int].0, ws[i as int].1));
            lemma_made_push(i0, i1, inner, sets.take(i as int), sets[i as int]);
            assert(sets.take(i as int + 1) =~= sets.take(i as int).push(sets[i as int]));
        }
        i = i + 1;
    }
    let existing = rules_block.pairs();
    let ghost rm = rule_removals(b, pairs_of(rules_block.items@), ws);
    proof {
        lemma_items_fit(bytes_of(source), rules_block.items@, Seq::empty());
        lemma_pairs_derefs(existing@, rules_block.items@);
        assert(sets.take(i as int) =~= sets);
        assert(sets + rm.take(0) =~= sets);
    }
    let mut k: usize = 0;
    while k < existing.len()
        invariant
            e0 == *old(editor),
            *editor == e0,
            wanted@.len() == ws.len(),
            forall|j: int| 0 <= j < wanted@.len() ==> (#[trigger] wanted@[j]).0@ == ws[j].0 && wanted@[j].1@
                == ws[j].1,
            i0.source_bytes() == b,
            bytes_of(source) == b,
            i0.edited_block() == *rules_block,
            derefs(existing@) == pairs_of(rules_block.items@),
            pairs_fit(b, pairs_of(rules_block.items@)),
            rm == rule_removals(b, pairs_of(rules_block.items@), ws),
            k <= existing@.len(),
            made(i0, inner, sets + rm.take(k as int)),
        decreases existing@.len() - k,
    {
        let ghost i1 = inner;
        proof {
            assert(derefs(existing@)[k as int] == *existing@[k as int]);
            assert(item_fits(b, Item::Pair(pairs_of(rules_block.items@)[k as int])));
        }
        let wanted_here = wants_rule(&wanted, existing[k].key.as_str());
        proof {
            let key = existing@[k as int].key@;
            assert(wanted_here == rule_wanted(ws, key)) by {
                if wanted_here {
                    let j = choose|j: int| 0 <= j < wanted@.len() && #[trigger] eq_ignore_ascii_case_spec(wanted@[j].0@, key);
                    assert(eq_ignore_ascii_case_spec(ws[j].0, key));
                }
                if rule_wanted(ws, key) {
                    let j = choose|j: int| 0 <= j < ws.len() && #[trigger] eq_ignore_ascii_case_spec(ws[j].0, key);
                    assert(wanted@[j].0@ == ws[j].0);
                    assert(eq_ignore_ascii_case_spec(wanted@[j].0@, key));
                }
            }
        }
        if !wanted_here {
            inner.remove(existing[k]);
        }
        proof {
            lemma_made_push(i0, i1, inner, sets + rm.take(k as int), rm[k as int]);
            assert(sets + rm.take(k as int + 1) =~= (sets + rm.take(k as int)).push(rm[k as int]));
        }
        k = k + 1;
    }
    proof {
        assert(rm.take(k as int) =~= rm);
    }
    hand_on(editor, inner)
}

/// "an ideology with id `ID` already exists in this file".
pub open spec fn taken_message(id: Seq<char>) -> Seq<char> {
    "an ideology with id `"@ + id + "` already exists in this file"@
}

/// The bytes an ideology's key covers: its id, at the start of its pair.
pub open spec fn key_span(p: Pair, id: Seq<char>) -> crate::paradox::Span {
    crate::paradox::Span {
        start: p.span.start,
        end: (p.span.start + encode_utf8(id).len()) as usize,
    }
}

/// Why `update_source` refuses an update of the ideology keyed `id`, before
/// any block is laid out.
pub open spec fn update_refusal(
    b: Seq<u8>,
    path: Seq<char>,
    items: Seq<Item>,
    id: Seq<char>,
    u: IdeologyUpdate,
) -> Option<Seq<char>> {
    match find_ideology_spec(items, id) {
        None => Some(no_ideology_message(id, path)),
        Some(p) => if validate_spec(u) is Some {
            validate_spec(u)
        } else if trim_spec(u.id@) != id {
            if find_ideology_spec(items, trim_spec(u.id@)) is Some {
                Some(taken_message(trim_spec(u.id@)))
            } else if crate::paradox::span_text(b, key_span(p, id)) != id {
                Some("the id of `"@ + id + "` is written in a way that cannot be renamed"@)
            } else {
                None
            }
        } else {
            None
        },
    }
}

/// `ai_<x> = yes` for the chosen behaviour, removed for the others.
pub open spec fn flag_for(behaviour: Seq<char>, name: Seq<char>) -> Seq<char> {
    if behaviour == name {
        "yes"@
    } else {
        ""@
    }
}

/// The plain fields of an ideology, each set as `set_scalar` does.
pub open spec fn ideology_scalars(b: Seq<u8>, block: Block, u: IdeologyUpdate) -> Seq<ChangeView> {
    let behaviour = trim_spec(u.ai_behaviour@);
    seq![
        scalar_change_spec(b, block, "war_impact_on_world_tension"@, u.war_impact_on_world_tension@),
        scalar_change_spec(b, block, "faction_impact_on_world_tension"@, u.faction_impact_on_world_tension@),
        scalar_change_spec(b, block, "can_host_government_in_exile"@, u.can_host_government_in_exile@),
        scalar_change_spec(b, block, "can_be_boosted"@, u.can_be_boosted@),
        scalar_change_spec(b, block, "can_collaborate"@, u.can_collaborate@),
        scalar_change_spec(b, block, "ai_democratic"@, flag_for(behaviour, "democratic"@)),
        scalar_change_spec(b, block, "ai_communist"@, flag_for(behaviour, "communist"@)),
        scalar_change_spec(b, block, "ai_fascist"@, flag_for(behaviour, "fascist"@)),
        scalar_change_spec(b, block, "ai_neutral"@, flag_for(behaviour, "neutral"@)),
        scalar_change_spec(b, block, "ai_ideology_wanted_units_factor"@, u.ai_ideology_wanted_units_factor@),
    ]
}

/// Every change `update_source` makes inside an ideology block, in order:
/// colour, sub-ideologies, faction names, the plain fields, rules and the
/// two modifier blocks. `None` where one of them cannot be laid out.
pub open spec fn ideology_runs(b: Seq<u8>, block: Block, u: IdeologyUpdate) -> Option<Seq<ChangeView>> {
    then_runs(
        then_runs(
            then_runs(
                then_runs(
                    then_runs(
                        Some(seq![colour_change(b, block, u.color@)]),
                        types_change(b, block, u.types@),
                    ),
                    match names_change(b, block, views(u.dynamic_faction_names@)) {
                        Some(c) => Some(seq![c]),
                        None => None,
                    },
                ),
                Some(ideology_scalars(b, block, u)),
            ),
            rules_change(b, block, wanted_rules(u.rules@)),
        ),
        then_runs(
            checked_block(b, block, "modifiers"@, u.modifiers@),
            checked_block(b, block, "faction_modifiers"@, u.faction_modifiers@),
        ),
    )
}

/// The rename of an ideology's key, when its id changes.
pub open spec fn rename_views(p: Pair, id: Seq<char>, new_id: Seq<char>) -> Seq<(Span, Seq<char>)> {
    if new_id != id {
        seq![(key_span(p, id), new_id)]
    } else {
        Seq::empty()
    }
}

/// The edits `update_source` makes to the file for the ideology keyed `id`:
/// the rename of its key, then what its block's editor hands on.
pub open spec fn ideology_edits(b: Seq<u8>, items: Seq<Item>, id: Seq<char>, u: IdeologyUpdate) -> Option<
    Seq<(Span, Seq<char>)>,
> {
    match find_ideology_spec(items, id) {
        Some(p) => match p.value {
            Value::Block(block) => match handed(b, block, ideology_runs(b, block, u)) {
                Some(vs) => Some(rename_views(p, id, trim_spec(u.id@)) + vs),
                None => None,
            },
            Value::Scalar(_) => None,
        },
        None => None,
    }
}

/// Law: an update that keeps an ideology's id and whose every change inside
/// its block is `Nothing` saves the file byte for byte.
pub proof fn law_unchanged_ideology_keeps_the_file(
    source: &str,
    items: Seq<Item>,
    id: Seq<char>,
    u: IdeologyUpdate,
    p: Pair,
    block: Block,
    cs: Seq<ChangeView>,
    r: Result<String, EditError>,
)
    requires
        find_ideology_spec(items, id) == Some(p),
        p.value == Value::Block(block),
        trim_spec(u.id@) == id,
        ideology_runs(bytes_of(source), block, u) == Some(cs),
        forall|i: int| 0 <= i < cs.len() ==> cs[i] == ChangeView::Nothing,
        saved_as(bytes_of(source), ideology_edits(bytes_of(source), items, id, u), r),
    ensures
        r matches Ok(text) && text@ == source@,
{
    let b = bytes_of(source);
    crate::script::lemma_nothing_hands_on_nothing(b, block, cs);
    assert(rename_views(p, id, trim_spec(u.id@)) + Seq::<(Span, Seq<char>)>::empty() =~= Seq::<(Span, Seq<char>)>::empty());
    crate::script::law_nothing_changed_keeps_the_file(source, block, cs, r);
}

/// The edits made inside an ideology's block, as its editor hands them on;
/// `None` where a field cannot be laid out.
#[verifier::rlimit(40)]
fn ideology_block_edits(source: &str, block: &Block, update: &IdeologyUpdate) -> (r: Option<Vec<TextEdit>>)
    requires
        value_fits(bytes_of(source), Value::Block(*block)),
    ensures
        match handed(bytes_of(source), *block, ideology_runs(bytes_of(source), *block, *update)) {
            Some(vs) => r matches Some(es) && crate::paradox::edit::edit_views(es@) == vs,
            None => r is None,
        },
{
    let ghost b = bytes_of(source);
    let ghost runs = ideology_runs(b, *block, *update);
    let mut editor = BlockEditor::new(source, block);
    let ghost e0 = editor;
    let ghost mut done: Seq<ChangeView> = Seq::empty();
    proof {
        lemma_made_none(editor);
    }
    set_colour(&mut editor, update.color.as_str());
    proof {
        lemma_made_then(e0, e0, editor, done, seq![colour_change(b, *block, update.color@)]);
        done = done + seq![colour_change(b, *block, update.color@)];
    }
    let ghost e1 = editor;
    if !set_types(&mut editor, &update.types) {
        return None;
    }
    proof {
        lemma_made_then(e0, e1, editor, done, types_change(b, *block, update.types@)->0);
        done = done + types_change(b, *block, update.types@)->0;
    }
    let ghost e2 = editor;
    if !set_names(&mut editor, &update.dynamic_faction_names) {
        return None;
    }
    proof {
        let c = names_change(b, *block, views(update.dynamic_faction_names@))->0;
        lemma_made_then(e0, e2, editor, done, seq![c]);
        done = done + seq![c];
    }
    let ghost e3 = editor;
    let ghost before_scalars = done;
    editor.set_scalar("war_impact_on_world_tension", update.war_impact_on_world_tension.as_str());
    editor.set_scalar("faction_impact_on_world_tension", update.faction_impact_on_world_tension.as_str());
    editor.set_scalar("can_host_government_in_exile", update.can_host_government_in_exile.as_str());
    editor.set_scalar("can_be_boosted", update.can_be_boosted.as_str());
    editor.set_scalar("can_collaborate", update.can_collaborate.as_str());
    let behaviour = trim(update.ai_behaviour.as_str());
    proof {
        reveal_strlit("democratic");
        reveal_strlit("communist");
        reveal_strlit("fascist");
        reveal_strlit("neutral");
    }
    editor.set_scalar("ai_democratic", if str_eq(behaviour.as_str(), "democratic") { "yes" } else { "" });
    editor.set_scalar("ai_communist", if str_eq(behaviour.as_str(), "communist") { "yes" } else { "" });
    editor.set_scalar("ai_fascist", if str_eq(behaviour.as_str(), "fascist") { "yes" } else { "" });
    editor.set_scalar("ai_neutral", if str_eq(behaviour.as_str(), "neutral") { "yes" } else { "" });
    editor.set_scalar("ai_ideology_wanted_units_factor", update.ai_ideology_wanted_units_factor.as_str());
    proof {
        let sc = ideology_scalars(b, *block, *update);
        assert(lists_of(editor) == record_all(lists_of(e3), sc)) by {
            reveal_with_fuel(record_all, 11);
            assert(sc.drop_last().drop_last().drop_last().drop_last().drop_last().drop_last().drop_last().drop_last().drop_last().drop_last() =~= Seq::<ChangeView>::empty());
        }
        lemma_made_then(e0, e3, editor, done, sc);
        done = done + sc;
    }
    let ghost e4 = editor;
    if !set_rules(&mut editor, &update.rules) {
        return None;
    }
    proof {
        lemma_made_then(e0, e4, editor, done, rules_change(b, *block, wanted_rules(update.rules@))->0);
        done = done + rules_change(b, *block, wanted_rules(update.rules@))->0;
    }
    let ghost e5 = editor;
    if !set_block_checked(&mut editor, "modifiers", update.modifiers.as_str()) {
        return None;
    }
    let ghost e6 = editor;
    if !set_block_checked(&mut editor, "faction_modifiers", update.faction_modifiers.as_str()) {
        return None;
    }
    proof {
        let m1 = seq![block_change_spec(b, *block, "modifiers"@, update.modifiers@)];
        let m2 = seq![block_change_spec(b, *block, "faction_modifiers"@, update.faction_modifiers@)];
        lemma_made_then(e5, e6, editor, m1, m2);
        lemma_made_then(e0, e5, editor, done, m1 + m2);
        done = done + (m1 + m2);
        assert(runs == Some(done));
    }
    Some(finish_editor(editor))
}

/// Rewrites one ideology in place, matched by its current id.
#[verifier::rlimit(60)]
pub fn update_source(path: &str, source: &str, ideology_id: &str, update: &IdeologyUpdate) -> (r:
    Result<String, EditError>)
    requires
        bytes_of(source).len() <= isize::MAX,
        bytes_of(ideology_id).len() <= isize::MAX,
    ensures
        script_parse_spec(source) matches Parsed::Fail(m, o) ==> r matches Err(
            EditError::Script { path: p, source: e },
        ) && p@ == path@ && e.message@ == m && e.offset == o,
        script_parse_spec(source) is Read ==> exists|items: Seq<Item>|
            #[trigger] parsed_items(source, items) && match update_refusal(
                bytes_of(source),
                path@,
                items,
                ideology_id@,
                *update,
            ) {
                Some(m) => r matches Err(EditError::Message(t)) && t@ == m,
                None => saved_as(bytes_of(source), ideology_edits(bytes_of(source), items, ideology_id@, *update), r),
            },
{
    let document = match crate::paradox::parse(source) {
        Ok(document) => document,
        Err(e) => {
            return Err(EditError::Script { path: path.to_owned(), source: e });
        },
    };
    let ghost b = bytes_of(source);
    let ghost items = document.items@;
    proof {
        assert(parsed_items(source, document.items@));
        lemma_found_entry_fits(bytes_of(source), document.items@, "ideologies"@, ideology_id@);
    }
    let pair = match find_ideology(&document, ideology_id) {
        Some(pair) => pair,
        None => {
            return Err(EditError::Message(no_ideology(ideology_id, path)));
        },
    };
    let block = match &pair.value {
        Value::Block(block) => block,
        _ => {
            return Err(EditError::Message("the ideology is not a block".to_owned()));
        },
    };
    match validate(update) {
        Ok(()) => {},
        Err(e) => {
            return Err(e);
        },
    }
    let new_id = trim(update.id.as_str());
    let mut edits: Vec<TextEdit> = Vec::new();
    if !str_eq(new_id.as_str(), ideology_id) {
        if find_ideology(&document, new_id.as_str()).is_some() {
            let mut m = "an ideology with id `".to_owned();
            m.push_str(new_id.as_str());
            m.push_str("` already exists in this file");
            return Err(EditError::Message(m));
        }
        // The id is the block's key, which sits at the very start of the pair.
        let key = crate::paradox::Span::new(pair.span.start, pair.span.start + ideology_id.len());
        if !str_eq(key.text(source), ideology_id) {
            let mut m = "the id of `".to_owned();
            m.push_str(ideology_id);
            m.push_str("` is written in a way that cannot be renamed");
            return Err(EditError::Message(m));
        }
        edits.push(TextEdit::new(key, new_id));
    }
    proof {
        assert(crate::paradox::edit::edit_views(edits@) =~= rename_views(*pair, ideology_id@, trim_spec(update.id@)));
        crate::script::lemma_block_items_fit(b, *block);
        assert(find_ideology_spec(items, ideology_id@) == Some(*pair));
    }
    let mut finished = match ideology_block_edits(source, block, update) {
        Some(es) => es,
        None => {
            return Err(crate::script::layout_error());
        },
    };
    let ghost front = edits@;
    let ghost tail = finished@;
    edits.append(&mut finished);
    proof {
        crate::script::lemma_edit_views_append(front, tail);
        assert(edits@ == front + tail);
    }
    save_edits(source, edits)
}

/// Appends an ideology to the file's `ideologies` block, creating the block
/// in a file that has none.
pub fn add_source(path: &str, source: &str, ideology: &IdeologyUpdate) -> (r: Result<String, EditError>)
    ensures
        validate_spec(*ideology) matches Some(m) ==> r matches Err(EditError::Message(t)) && t@ == m,
        validate_spec(*ideology) is None ==> {
            &&& script_parse_spec(source) matches Parsed::Fail(m, o) ==> r matches Err(
                EditError::Script { path: p, source: e },
            ) && p@ == path@ && e.message@ == m && e.offset == o
            &&& script_parse_spec(source) is Read ==> exists|items: Seq<Item>|
                #[trigger] parsed_items(source, items) && if find_ideology_spec(
                    items,
                    trim_spec(ideology.id@),
                ) is Some {
                    r matches Err(EditError::Message(t)) && t@ == taken_message(trim_spec(ideology.id@))
                } else {
                    match render_ideology_spec(*ideology) {
                        None => r matches Err(EditError::Message(t)) && t@ == crate::script::layout_message(),
                        Some(body) => match block_spec(items, "ideologies"@) {
                            Some(bl) => {
                                let line = trim_spec(ideology.id@) + " = "@ + format_lines_spec(
                                    body,
                                    child_indent_spec(bytes_of(source), bl),
                                    newline_spec(bytes_of(source)),
                                );
                                layout_fits(body) && boundary(bytes_of(source), insertion_start(bytes_of(source), bl))
                                    ==> (r matches Ok(text) && text@ == text_at(
                                    bytes_of(source),
                                    0,
                                    insertion_start(bytes_of(source), bl),
                                ) + newline_spec(bytes_of(source)) + child_indent_spec(bytes_of(source), bl) + line
                                    + newline_spec(bytes_of(source)) + indent_spec(bytes_of(source), bl.span.start as int) + text_at(
                                    bytes_of(source),
                                    bl.inner.end as int,
                                    bytes_of(source).len() as int,
                                ))
                            },
                            None => {
                                let line = trim_spec(ideology.id@) + " = "@ + format_lines_spec(
                                    body,
                                    Seq::empty(),
                                    "\n"@,
                                );
                                layout_fits(body) && layout_fits(line) ==> (r matches Ok(text)
                                    && text@ == crate::script::new_block_text(bytes_of(source), source@, "ideologies"@, line))
                            },
                        },
                    }
                }
        },
{
    match validate(ideology) {
        Ok(()) => {},
        Err(e) => {
            return Err(e);
        },
    }
    let document = match crate::paradox::parse(source) {
        Ok(document) => document,
        Err(e) => {
            return Err(EditError::Script { path: path.to_owned(), source: e });
        },
    };
    proof {
        assert(parsed_items(source, document.items@));
        lemma_items_fit(bytes_of(source), document.items@, "ideologies"@);
    }
    let id = trim(ideology.id.as_str());
    if find_ideology(&document, id.as_str()).is_some() {
        let mut m = "an ideology with id `".to_owned();
        m.push_str(id.as_str());
        m.push_str("` already exists in this file");
        return Err(EditError::Message(m));
    }
    let body = match render_ideology(ideology) {
        Some(body) => body,
        None => {
            return Err(crate::script::layout_error());
        },
    };
    match document.block("ideologies") {
        Some(block) => crate::script::add_to_block(source, block, id.as_str(), body.as_str()),
        None => crate::script::add_new_block(source, "ideologies", id.as_str(), body.as_str()),
    }
}


/// Law: the four AI behaviours the game defines are the ones an update may
/// name.
pub proof fn law_the_four_ai_behaviours()
    ensures
        known_behaviour("democratic"@),
        known_behaviour("communist"@),
        known_behaviour("fascist"@),
        known_behaviour("neutral"@),
{
}

} // verus!
