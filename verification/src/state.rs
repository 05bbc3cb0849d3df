//! Map states: reading `history/states/*.txt` and writing single states back.
//!
//! A state file wraps everything in one `state = { ... }` block, with the
//! ownership details a level deeper inside `history = { ... }`. Both levels are
//! edited in place, so the province lists, comments and building blocks a file
//! carries survive a save untouched.
use crate::error::EditError;
use crate::paradox::edit::{
    apply_edits, apply_edits_spec, child_indent, edit_fits, edits_fit, edits_fit_all,
    try_block_body, BlockEditor, TextEdit, ChangeView, assignment, block_body_spec, body_fits,
    holds_scalar, raw_spec, removal_span, block_change_spec, scalar_change_spec,
};
use crate::paradox::Span;
use crate::paradox::parser::value_span;
use crate::paradox::lexer::{needs_quotes, quote};
use crate::paradox::parser::{
    block_spec, item_fits, pairs_with, parse_spec as script_parse_spec, scalar_spec, scalar_text,
    value_fits, Parsed,
};
use crate::paradox::{line_number, Block, Document, Item, Items, Pair, Value};
use crate::script::{
    all_fit, block_pairs, body_or_empty, derefs, lemma_made_none, lemma_made_push, made, kept_values, shorter,
    beyond, extra_removals, lemma_trimmed_kept, checked_block, finish_editor, handed, lemma_made_then,
    record_all, save_edits, saved_as, then_runs, lemma_items_fit, opt_text,
    pairs_fit, pairs_with_blocks, parsed_items, read_block, read_words, set_block_checked,
    single_space, single_spaced, text_of, text_or_empty, words_spec,
};
use crate::text::{
    boundary, bytes_of, chars_of, join, join_strings, str_eq, trim, trim_spec, views,
};
use vstd::prelude::*;

verus! {

#[derive(Debug, Clone, Default)]
pub struct State {
    pub id: String,
    /// Localisation key, e.g. `STATE_1`.
    pub name: String,
    pub manpower: String,
    pub state_category: String,
    pub local_supplies: String,
    pub buildings_max_level_factor: String,
    /// Province ids, in the order the file lists them.
    pub provinces: Vec<String>,
    /// Body of `resources = { ... }`, kept as text: the keys vary by mod.
    pub resources: String,
    pub owner: String,
    pub controller: String,
    /// One entry per `add_core_of`.
    pub cores: Vec<String>,
    /// One entry per `add_claim_by`.
    pub claims: Vec<String>,
    /// Body of `buildings = { ... }`, which nests province-keyed blocks.
    pub buildings: String,
    /// Body of `victory_points = { ... }`, one province and value per block.
    pub victory_points: Vec<String>,
    pub line: usize,
}

#[derive(Debug, Clone)]
pub struct StateFile {
    pub path: String,
    pub states: Vec<State>,
    pub has_bom: bool,
    /// Read as Windows-1252 rather than UTF-8, and written back so.
    pub is_legacy_encoding: bool,
    /// Blocks the file never closed. The game tolerates these, so the file is
    /// still editable, but it is worth telling the user about.
    pub unclosed_blocks: usize,
}

/// The editable fields sent back when saving. Empty strings clear a field.
#[derive(Debug, Clone, Default)]
pub struct StateUpdate {
    pub id: String,
    pub name: String,
    pub manpower: String,
    pub state_category: String,
    pub local_supplies: String,
    pub buildings_max_level_factor: String,
    pub provinces: Vec<String>,
    pub resources: String,
    pub owner: String,
    pub controller: String,
    pub cores: Vec<String>,
    pub claims: Vec<String>,
    pub buildings: String,
    pub victory_points: Vec<String>,
}

// ---------------------------------------------------------------------------
// Reading
// ---------------------------------------------------------------------------

/// A scalar of the `history` block, empty without one.
pub open spec fn history_text(history: Option<Block>, key: Seq<char>) -> Seq<char> {
    match history {
        Some(h) => text_or_empty(h.items@, key),
        None => Seq::empty(),
    }
}

/// Every scalar a repeated key of the `history` block assigns.
pub open spec fn history_values(history: Option<Block>, key: Seq<char>) -> Seq<Seq<char>> {
    match history {
        Some(h) => crate::events::scalar_values(pairs_with(h.items@, key)),
        None => Seq::empty(),
    }
}

/// What `read_state` makes of a `state` block.
pub open spec fn state_read(b: Seq<u8>, s: State, block: Block, start: int) -> bool {
    let items = block.items@;
    let history = block_spec(items, "history"@);
    &&& s.id@ == text_or_empty(items, "id"@)
    &&& s.name@ == text_or_empty(items, "name"@)
    &&& s.manpower@ == text_or_empty(items, "manpower"@)
    &&& s.state_category@ == text_or_empty(items, "state_category"@)
    &&& s.local_supplies@ == text_or_empty(items, "local_supplies"@)
    &&& s.buildings_max_level_factor@ == text_or_empty(items, "buildings_max_level_factor"@)
    &&& views(s.provinces@) == words_spec(items, "provinces"@)
    &&& s.resources@ == body_or_empty(b, items, "resources"@)
    &&& s.owner@ == history_text(history, "owner"@)
    &&& s.controller@ == history_text(history, "controller"@)
    &&& views(s.cores@) == history_values(history, "add_core_of"@)
    &&& views(s.claims@) == history_values(history, "add_claim_by"@)
    &&& s.buildings@ == (match history {
        Some(h) => body_or_empty(b, h.items@, "buildings"@),
        None => Seq::empty(),
    })
    &&& views(s.victory_points@) == (match history {
        Some(h) => crate::events::texts_spec(b, h.items@, "victory_points"@),
        None => Seq::empty(),
    })
    &&& s.line == line_number(b, start)
}

fn history_scalars(history: &Block, key: &str) -> (r: Vec<String>)
    ensures
        views(r@) == crate::events::scalar_values(pairs_with(history.items@, key@)),
{
    let pairs = history.find_all(key);
    proof {
        crate::script::lemma_find_all_derefs(pairs@, history.items@, key@);
    }
    let ghost all = derefs(pairs@);
    let mut r: Vec<String> = Vec::new();
    let mut i: usize = 0;
    while i < pairs.len()
        invariant
            i <= pairs@.len(),
            all == derefs(pairs@),
            views(r@) == crate::events::scalar_values(all.take(i as int)),
        decreases pairs@.len() - i,
    {
        let ghost before = views(r@);
        proof {
            assert(all.take(i + 1).drop_last() =~= all.take(i as int));
            assert(all.take(i + 1).last() == *pairs@[i as int]);
        }
        if let Value::Scalar(scalar) = &pairs[i].value {
            r.push(scalar.value());
            assert(views(r@) =~= before.push(scalar_text(*scalar)));
        }
        i = i + 1;
    }
    assert(all.take(all.len() as int) =~= all);
    r
}

fn history_texts(source: &str, history: &Block, key: &str) -> (r: Vec<String>)
    requires
        value_fits(bytes_of(source), Value::Block(*history)),
    ensures
        views(r@) == crate::events::texts_spec(bytes_of(source), history.items@, key@),
{
    let pairs = history.find_all(key);
    proof {
        crate::script::lemma_find_all_derefs(pairs@, history.items@, key@);
        crate::script::lemma_block_items_fit(bytes_of(source), *history);
        lemma_items_fit(bytes_of(source), history.items@, key@);
    }
    let ghost ps = pairs_with(history.items@, key@);
    let mut r: Vec<String> = Vec::new();
    let mut i: usize = 0;
    while i < pairs.len()
        invariant
            i <= pairs@.len(),
            derefs(pairs@) == ps,
            ps == pairs_with(history.items@, key@),
            pairs_fit(bytes_of(source), ps),
            views(r@) == crate::events::texts_spec(bytes_of(source), history.items@, key@).take(i as int),
        decreases pairs@.len() - i,
    {
        proof {
            assert(derefs(pairs@)[i as int] == *pairs@[i as int]);
            assert(item_fits(bytes_of(source), Item::Pair(ps[i as int])));
        }
        let ghost before = views(r@);
        let text = match try_block_body(source, &pairs[i].value) {
            Some(t) => t,
            None => String::new(),
        };
        r.push(text);
        assert(views(r@) =~= before.push(crate::events::shown(bytes_of(source), ps[i as int].value)));
        assert(views(r@) =~= crate::events::texts_spec(bytes_of(source), history.items@, key@).take(i + 1));
        i = i + 1;
    }
    assert(crate::events::texts_spec(bytes_of(source), history.items@, key@).take(pairs@.len() as int)
        =~= crate::events::texts_spec(bytes_of(source), history.items@, key@));
    r
}

/// The state a `state` block describes, starting at byte `start`.
pub fn read_state(source: &str, block: &Block, start: usize) -> (s: State)
    requires
        bytes_of(source).len() <= isize::MAX,
        value_fits(bytes_of(source), Value::Block(*block)),
        start >= bytes_of(source).len() || boundary(bytes_of(source), start as int),
    ensures
        state_read(bytes_of(source), s, *block, start as int),
{
    proof {
        crate::script::lemma_block_items_fit(bytes_of(source), *block);
        lemma_items_fit(bytes_of(source), block.items@, "history"@);
    }
    let history = block.block("history");
    let (owner, controller, cores, claims, buildings, victory_points) = match history {
        Some(h) => {
            proof {
                crate::script::lemma_block_items_fit(bytes_of(source), *h);
            }
            (
                text_of(h, "owner"),
                text_of(h, "controller"),
                history_scalars(h, "add_core_of"),
                history_scalars(h, "add_claim_by"),
                read_block(source, h, "buildings"),
                history_texts(source, h, "victory_points"),
            )
        },
        None => {
            let cores: Vec<String> = Vec::new();
            let claims: Vec<String> = Vec::new();
            let points: Vec<String> = Vec::new();
            assert(views(cores@) =~= Seq::<Seq<char>>::empty());
            (String::new(), String::new(), cores, claims, String::new(), points)
        },
    };
    State {
        id: text_of(block, "id"),
        name: text_of(block, "name"),
        manpower: text_of(block, "manpower"),
        state_category: text_of(block, "state_category"),
        local_supplies: text_of(block, "local_supplies"),
        buildings_max_level_factor: text_of(block, "buildings_max_level_factor"),
        provinces: read_words(block, "provinces"),
        resources: read_block(source, block, "resources"),
        owner,
        controller,
        cores,
        claims,
        buildings,
        victory_points,
        line: crate::paradox::line_of(source, start),
    }
}

/// The `state` blocks of the file, in order.
pub open spec fn state_pairs_spec(items: Seq<Item>) -> Seq<Pair> {
    block_pairs(pairs_with(items, "state"@))
}

/// Every state of the file, read from the parsed items `items`.
pub open spec fn states_read(b: Seq<u8>, ss: Seq<State>, items: Seq<Item>) -> bool {
    let ps = state_pairs_spec(items);
    &&& ss.len() == ps.len()
    &&& forall|k: int|
        0 <= k < ps.len() ==> state_read(b, #[trigger] ss[k], ps[k].value->Block_0, ps[k].span.start as int)
}

pub fn read_states(source: &str, document: &Document) -> (r: Vec<State>)
    requires
        bytes_of(source).len() <= isize::MAX,
        all_fit(bytes_of(source), document.items@),
    ensures
        states_read(bytes_of(source), r@, document.items@),
{
    let ghost b = bytes_of(source);
    let all = document.find_all("state");
    proof {
        crate::script::lemma_find_all_derefs(all@, document.items@, "state"@);
        lemma_items_fit(b, document.items@, "state"@);
        crate::script::lemma_block_values_fit(b, pairs_with(document.items@, "state"@));
        crate::script::lemma_block_pairs_are_blocks(pairs_with(document.items@, "state"@));
    }
    let pairs = pairs_with_blocks(&all);
    let ghost ps = state_pairs_spec(document.items@);
    let mut r: Vec<State> = Vec::new();
    let mut i: usize = 0;
    while i < pairs.len()
        invariant
            i <= pairs@.len(),
            b == bytes_of(source),
            b.len() <= isize::MAX,
            derefs(pairs@) == ps,
            ps == state_pairs_spec(document.items@),
            pairs_fit(b, ps),
            forall|k: int| 0 <= k < ps.len() ==> (#[trigger] ps[k]).value is Block,
            r@.len() == i,
            forall|k: int| 0 <= k < i ==> state_read(b, #[trigger] r@[k], ps[k].value->Block_0, ps[k].span.start as int),
        decreases pairs@.len() - i,
    {
        let pair = pairs[i];
        proof {
            assert(derefs(pairs@)[i as int] == *pair);
            assert(item_fits(b, Item::Pair(ps[i as int])));
            assert(ps[i as int].value is Block);
        }
        if let Value::Block(block) = &pair.value {
            r.push(read_state(source, block, pair.span.start));
        }
        i = i + 1;
    }
    r
}

/// Reads the states out of a file's text.
pub fn parse(path: &str, content: &str, has_bom: bool, is_legacy_encoding: bool) -> (r: Result<
    StateFile,
    EditError,
>)
    requires
        bytes_of(content).len() <= isize::MAX,
    ensures
        match script_parse_spec(content) {
            Parsed::Fail(m, o) => r matches Err(EditError::Script { path: p, source: e }) && p@
                == path@ && e.message@ == m && e.offset == o,
            Parsed::Read(_, _, u) => r matches Ok(file) && file.unclosed_blocks == u,
        },
        r matches Ok(file) ==> {
            &&& file.path@ == crate::text::replace_char(path@, '\\', '/')
            &&& file.has_bom == has_bom
            &&& file.is_legacy_encoding == is_legacy_encoding
            &&& exists|items: Seq<Item>|
                #[trigger] parsed_items(content, items) && states_read(bytes_of(content), file.states@, items)
        },
{
    let document = match crate::paradox::parse(content) {
        Ok(document) => document,
        Err(source) => {
            return Err(EditError::Script { path: path.to_owned(), source });
        },
    };
    let states = read_states(content, &document);
    proof {
        assert(parsed_items(content, document.items@));
    }
    Ok(
        StateFile {
            path: crate::text::replace_char_in(path, '\\', '/'),
            states,
            has_bom,
            is_legacy_encoding,
            unclosed_blocks: document.unclosed_blocks,
        },
    )
}

// ---------------------------------------------------------------------------
// Finding a state
// ---------------------------------------------------------------------------

/// The first `state` block with the id `id`.
pub open spec fn find_state_spec(items: Seq<Item>, id: Seq<char>) -> Option<Pair> {
    first_with_id(pairs_with(items, "state"@), id, 0)
}

/// The first of `pairs` from `i` on whose block has the id `id`.
pub open spec fn first_with_id(pairs: Seq<Pair>, id: Seq<char>, i: int) -> Option<Pair>
    decreases pairs.len() - i,
{
    if i < 0 || i >= pairs.len() {
        None
    } else if pairs[i].value matches Value::Block(bl) && scalar_spec(bl.items@, "id"@) == Some(id) {
        Some(pairs[i])
    } else {
        first_with_id(pairs, id, i + 1)
    }
}

proof fn lemma_first_with_id(b: Seq<u8>, pairs: Seq<Pair>, id: Seq<char>, i: int)
    requires
        pairs_fit(b, pairs),
        0 <= i,
    ensures
        first_with_id(pairs, id, i) matches Some(p) ==> item_fits(b, Item::Pair(p)) && p.value is Block,
    decreases pairs.len() - i,
{
    if i < pairs.len() {
        lemma_first_with_id(b, pairs, id, i + 1);
    }
}

pub fn find_state<'a>(document: &'a Document, id: &str) -> (r: Option<&'a Pair>)
    ensures
        match find_state_spec(document.items@, id@) {
            Some(p) => r matches Some(q) && *q == p,
            None => r is None,
        },
{
    let pairs = document.find_all("state");
    proof {
        crate::script::lemma_find_all_derefs(pairs@, document.items@, "state"@);
    }
    let ghost ps = pairs_with(document.items@, "state"@);
    let mut i: usize = 0;
    while i < pairs.len()
        invariant
            i <= pairs@.len(),
            derefs(pairs@) == ps,
            ps == pairs_with(document.items@, "state"@),
            first_with_id(ps, id@, 0) == first_with_id(ps, id@, i as int),
        decreases pairs@.len() - i,
    {
        proof {
            assert(derefs(pairs@)[i as int] == *pairs@[i as int]);
        }
        let found = match &pairs[i].value {
            Value::Block(block) => match block.scalar("id") {
                Some(current) => str_eq(current.as_str(), id),
                None => false,
            },
            _ => false,
        };
        if found {
            return Some(pairs[i]);
        }
        i = i + 1;
    }
    None
}

/// Whether a file's text defines a state with `id`; a file that does not
/// parse defines none. State ids are global across `history/states`, so a
/// rename checks the other files with this.
pub fn defines_state(content: &str, id: &str) -> (r: bool)
    ensures
        script_parse_spec(content) is Fail ==> !r,
        script_parse_spec(content) is Read ==> exists|items: Seq<Item>|
            #[trigger] parsed_items(content, items) && r == find_state_spec(items, id@) is Some,
{
    match crate::paradox::parse(content) {
        Ok(document) => {
            proof {
                assert(parsed_items(content, document.items@));
            }
            find_state(&document, id).is_some()
        },
        Err(_) => false,
    }
}

// ---------------------------------------------------------------------------
// Rendering
// ---------------------------------------------------------------------------

/// `key = value` for each non-blank value, trimmed.
pub open spec fn value_lines(key: Seq<char>, values: Seq<Seq<char>>) -> Seq<Seq<char>>
    decreases values.len(),
{
    if values.len() == 0 {
        Seq::empty()
    } else {
        value_lines(key, values.drop_last()) + crate::script::scalar_line(key, values.last())
    }
}

/// `victory_points = { p v }` for each non-blank point, single spaced.
pub open spec fn point_lines(points: Seq<Seq<char>>) -> Seq<Seq<char>>
    decreases points.len(),
{
    if points.len() == 0 {
        Seq::empty()
    } else {
        let p = single_spaced(points.last());
        point_lines(points.drop_last()) + if p.len() == 0 {
            Seq::empty()
        } else {
            seq!["victory_points = { "@ + p + " }"@]
        }
    }
}

/// The buildings block of a new history block: each line of the form's
/// text indented by a tab, its trailing whitespace trimmed.
pub open spec fn buildings_lines(buildings: Seq<char>) -> Seq<Seq<char>> {
    if trim_spec(buildings).len() == 0 {
        Seq::empty()
    } else {
        let lines = crate::localisation::lines_of(buildings);
        let body = join(Seq::new(lines.len(), |k: int| seq!['\t'] + crate::text::trim_end_spec(lines[k])), "\n"@);
        seq!["buildings = {\n"@ + body + "\n}"@]
    }
}

/// The body of a new history block, built from the form at once.
pub open spec fn render_history_spec(u: StateUpdate) -> Seq<char> {
    join(
        crate::script::scalar_line("owner"@, u.owner@) + crate::script::scalar_line("controller"@, u.controller@)
            + point_lines(views(u.victory_points@)) + value_lines("add_core_of"@, views(u.cores@))
            + value_lines("add_claim_by"@, views(u.claims@)) + buildings_lines(u.buildings@),
        "\n"@,
    )
}

fn push_values(lines: &mut Vec<String>, key: &str, values: &Vec<String>)
    ensures
        views(final(lines)@) == views(old(lines)@) + value_lines(key@, views(values@)),
{
    let ghost before = views(lines@);
    let mut i: usize = 0;
    assert(views(values@).take(0) =~= Seq::<Seq<char>>::empty());
    assert(views(lines@) =~= before + value_lines(key@, views(values@).take(0)));
    while i < values.len()
        invariant
            i <= values@.len(),
            views(lines@) == before + value_lines(key@, views(values@).take(i as int)),
        decreases values@.len() - i,
    {
        proof {
            assert(views(values@).take(i + 1).drop_last() =~= views(values@).take(i as int));
            assert(views(values@).take(i + 1).last() == values@[i as int]@);
        }
        let ghost was = views(lines@);
        crate::script::push_scalar(lines, key, values[i].as_str());
        assert(views(lines@) =~= before + value_lines(key@, views(values@).take(i + 1)));
        i = i + 1;
    }
    assert(views(values@).take(values@.len() as int) =~= views(values@));
}

fn push_points(lines: &mut Vec<String>, points: &Vec<String>)
    ensures
        views(final(lines)@) == views(old(lines)@) + point_lines(views(points@)),
{
    let ghost before = views(lines@);
    let mut i: usize = 0;
    assert(views(points@).take(0) =~= Seq::<Seq<char>>::empty());
    assert(views(lines@) =~= before + point_lines(views(points@).take(0)));
    while i < points.len()
        invariant
            i <= points@.len(),
            views(lines@) == before + point_lines(views(points@).take(i as int)),
        decreases points@.len() - i,
    {
        proof {
            assert(views(points@).take(i + 1).drop_last() =~= views(points@).take(i as int));
            assert(views(points@).take(i + 1).last() == points@[i as int]@);
        }
        let ghost was = views(lines@);
        let p = single_space(points[i].as_str());
        if !p.as_str().is_empty() {
            let mut line = "victory_points = { ".to_owned();
            line.push_str(p.as_str());
            line.push_str(" }");
            proof {
                reveal_strlit("victory_points = { ");
                reveal_strlit(" }");
            }
            lines.push(line);
            assert(views(lines@) =~= was.push(line@));
        }
        assert(views(lines@) =~= before + point_lines(views(points@).take(i + 1)));
        i = i + 1;
    }
    assert(views(points@).take(points@.len() as int) =~= views(points@));
}

fn push_buildings(lines: &mut Vec<String>, buildings: &str)
    ensures
        views(final(lines)@) == views(old(lines)@) + buildings_lines(buildings@),
{
    let ghost before = views(lines@);
    let t = trim(buildings);
    if t.as_str().is_empty() {
        assert(views(lines@) =~= before + buildings_lines(buildings@));
        return;
    }
    let chars = chars_of(buildings);
    let source_lines = crate::localisation::split_lines(&chars);
    let ghost ls = crate::localisation::lines_of(buildings@);
    let mut indented: Vec<String> = Vec::new();
    let mut i: usize = 0;
    while i < source_lines.len()
        invariant
            i <= source_lines@.len(),
            views(source_lines@) == ls,
            views(indented@) == Seq::new(ls.len(), |k: int| seq!['\t'] + crate::text::trim_end_spec(ls[k])).take(i as int),
        decreases source_lines@.len() - i,
    {
        let ghost was = views(indented@);
        let mut line = "\t".to_owned();
        let trimmed = crate::text::trim_end(source_lines[i].as_str());
        line.push_str(trimmed.as_str());
        proof {
            reveal_strlit("\t");
            assert("\t"@ =~= seq!['\t']);
            assert(views(source_lines@)[i as int] == source_lines@[i as int]@);
            assert(line@ =~= seq!['\t'] + crate::text::trim_end_spec(ls[i as int]));
        }
        indented.push(line);
        assert(views(indented@) =~= was.push(seq!['\t'] + crate::text::trim_end_spec(ls[i as int])));
        assert(views(indented@) =~= Seq::new(ls.len(), |k: int| seq!['\t'] + crate::text::trim_end_spec(ls[k])).take(i + 1));
        i = i + 1;
    }
    assert(Seq::new(ls.len(), |k: int| seq!['\t'] + crate::text::trim_end_spec(ls[k])).take(ls.len() as int)
        =~= Seq::new(ls.len(), |k: int| seq!['\t'] + crate::text::trim_end_spec(ls[k])));
    let body = join_strings(&indented, "\n");
    let mut block = "buildings = {\n".to_owned();
    block.push_str(body.as_str());
    block.push_str("\n}");
    proof {
        reveal_strlit("buildings = {\n");
        reveal_strlit("\n}");
        reveal_strlit("\n");
    }
    lines.push(block);
    assert(views(lines@) =~= before + buildings_lines(buildings@));
}

/// The body of a new history block.
pub fn render_history(update: &StateUpdate) -> (r: String)
    ensures
        r@ == render_history_spec(*update),
{
    let mut lines: Vec<String> = Vec::new();
    crate::script::push_scalar(&mut lines, "owner", update.owner.as_str());
    crate::script::push_scalar(&mut lines, "controller", update.controller.as_str());
    push_points(&mut lines, &update.victory_points);
    push_values(&mut lines, "add_core_of", &update.cores);
    push_values(&mut lines, "add_claim_by", &update.claims);
    push_buildings(&mut lines, update.buildings.as_str());
    assert(views(lines@) =~= crate::script::scalar_line("owner"@, update.owner@) + crate::script::scalar_line("controller"@, update.controller@)
        + point_lines(views(update.victory_points@)) + value_lines("add_core_of"@, views(update.cores@))
        + value_lines("add_claim_by"@, views(update.claims@)) + buildings_lines(update.buildings@));
    join_strings(&lines, "\n")
}

// ---------------------------------------------------------------------------
// Editing in place
// ---------------------------------------------------------------------------

/// Each point single spaced, the blank ones dropped.
pub open spec fn kept_points(points: Seq<Seq<char>>) -> Seq<Seq<char>>
    decreases points.len(),
{
    if points.len() == 0 {
        Seq::empty()
    } else {
        let p = single_spaced(points.last());
        kept_points(points.drop_last()) + if p.len() == 0 {
            Seq::empty()
        } else {
            seq![p]
        }
    }
}

/// An entry rewritten to `w` unless it already says `w`.
pub open spec fn scalar_rewrite(pair: Pair, w: Seq<char>) -> ChangeView {
    if holds_scalar(pair.value, w) {
        ChangeView::Nothing
    } else {
        ChangeView::Replace(value_span(pair.value), raw_spec(w))
    }
}

/// The entries there are, each set to the wanted value at its position.
pub open spec fn scalar_rewrites(pairs: Seq<Pair>, wanted: Seq<Seq<char>>) -> Seq<ChangeView> {
    Seq::new(shorter(wanted.len(), pairs.len()), |i: int| scalar_rewrite(pairs[i], wanted[i]))
}

/// The wanted values past the first `n`, each added as `key = value`.
pub open spec fn scalar_additions(key: Seq<char>, n: nat, wanted: Seq<Seq<char>>) -> Seq<ChangeView> {
    Seq::new(beyond(wanted.len(), n), |k: int| ChangeView::Add(assignment(key, raw_spec(wanted[n + k]))))
}

/// What `set_repeated_scalars` does to a block whose entries under `key`
/// are `pairs`: rewrites by position, then removals, then additions.
pub open spec fn repeated_scalar_changes(
    b: Seq<u8>,
    pairs: Seq<Pair>,
    key: Seq<char>,
    wanted: Seq<Seq<char>>,
) -> Seq<ChangeView> {
    scalar_rewrites(pairs, wanted) + extra_removals(b, pairs, wanted.len()) + scalar_additions(
        key,
        pairs.len(),
        wanted,
    )
}

/// A repeated scalar such as `add_core_of = X`, set by position: entries
/// already saying the same are left alone, extra ones removed, new ones
/// appended.
fn set_repeated_scalars(editor: &mut BlockEditor, key: &str, values: &Vec<String>)
    requires
        old(editor).wf(),
    ensures
        made(
            *old(editor),
            *final(editor),
            repeated_scalar_changes(
                old(editor).source_bytes(),
                pairs_with(old(editor).edited_block().items@, key@),
                key@,
                kept_values(views(values@)),
            ),
        ),
{
    let ghost e0 = *editor;
    let source = editor.source();
    let block = editor.block();
    let mut wanted: Vec<String> = Vec::new();
    let mut v: usize = 0;
    while v < values.len()
        invariant
            v <= values@.len(),
            views(wanted@) == kept_values(views(values@).take(v as int)),
        decreases values@.len() - v,
    {
        let t = trim(values[v].as_str());
        proof {
            lemma_trimmed_kept(values@, v as int, t@);
        }
        if !t.as_str().is_empty() {
            wanted.push(t);
        }
        proof {
            assert(views(wanted@) =~= kept_values(views(values@).take(v as int + 1)));
        }
        v = v + 1;
    }
    proof {
        assert(views(values@).take(values@.len() as int) =~= views(values@));
    }
    let existing = block.find_all(key);
    let ghost b = bytes_of(source);
    let ghost pairs = pairs_with(block.items@, key@);
    let ghost w = views(wanted@);
    let ghost rw = scalar_rewrites(pairs, w);
    let ghost rm = extra_removals(b, pairs, w.len());
    let ghost ad = scalar_additions(key@, pairs.len(), w);
    proof {
        editor.lemma_block_fits();
        crate::script::lemma_find_all_derefs(existing@, block.items@, key@);
        lemma_items_fit(bytes_of(source), block.items@, key@);
        lemma_made_none(*editor);
        assert(rw.take(0) =~= Seq::<ChangeView>::empty());
    }
    let mut i: usize = 0;
    while i < wanted.len() && i < existing.len()
        invariant
            e0 == *old(editor),
            b == e0.source_bytes(),
            *block == e0.edited_block(),
            editor.source_bytes() == bytes_of(source),
            bytes_of(source) == b,
            derefs(existing@) == pairs,
            pairs == pairs_with(block.items@, key@),
            pairs_fit(b, pairs),
            w == views(wanted@),
            rw == scalar_rewrites(pairs, w),
            i <= shorter(w.len(), pairs.len()),
            made(e0, *editor, rw.take(i as int)),
        decreases wanted@.len() - i,
    {
        let pair = existing[i];
        let ghost e1 = *editor;
        proof {
            assert(derefs(existing@)[i as int] == *pair);
            assert(item_fits(b, Item::Pair(pairs[i as int])));
        }
        let same = match &pair.value {
            Value::Scalar(scalar) => str_eq(scalar.value().as_str(), wanted[i].as_str()),
            _ => false,
        };
        if !same {
            let raw = if needs_quotes(wanted[i].as_str()) {
                quote(wanted[i].as_str())
            } else {
                wanted[i].as_str().to_owned()
            };
            let edit = TextEdit::new(pair.value.span(), raw);
            proof {
                assert(seq![edit][0] == edit);
            }
            if edit_fits(source, &edit) {
                editor.edit(edit);
            }
        }
        proof {
            assert(rw[i as int] == scalar_rewrite(pairs[i as int], w[i as int]));
            lemma_made_push(e0, e1, *editor, rw.take(i as int), rw[i as int]);
            assert(rw.take(i as int + 1) =~= rw.take(i as int).push(rw[i as int]));
        }
        i = i + 1;
    }
    proof {
        assert(rw.take(i as int) =~= rw);
        assert(rw + rm.take(0) =~= rw);
    }
    let mut k: usize = wanted.len();
    while k < existing.len()
        invariant
            e0 == *old(editor),
            b == e0.source_bytes(),
            editor.source_bytes() == bytes_of(source),
            bytes_of(source) == b,
            derefs(existing@) == pairs,
            pairs_fit(b, pairs),
            w == views(wanted@),
            rm == extra_removals(b, pairs, w.len()),
            w.len() <= k,
            k <= pairs.len() || k == w.len(),
            made(e0, *editor, rw + rm.take(k - w.len())),
        decreases existing@.len() - k,
    {
        let ghost e1 = *editor;
        proof {
            assert(derefs(existing@)[k as int] == *existing@[k as int]);
            assert(item_fits(b, Item::Pair(pairs[k as int])));
        }
        editor.remove(existing[k]);
        proof {
            let m = k - w.len();
            assert(rm[m] == ChangeView::Remove(removal_span(b, pairs[k as int])));
            lemma_made_push(e0, e1, *editor, rw + rm.take(m), rm[m]);
            assert(rw + rm.take(m + 1) =~= (rw + rm.take(m)).push(rm[m]));
        }
        k = k + 1;
    }
    proof {
        assert(rm.take(k - w.len()) =~= rm);
        assert(rw + rm + ad.take(0) =~= rw + rm);
    }
    let mut j: usize = existing.len();
    while j < wanted.len()
        invariant
            e0 == *old(editor),
            w == views(wanted@),
            pairs.len() == existing@.len(),
            ad == scalar_additions(key@, pairs.len(), w),
            pairs.len() <= j,
            j <= w.len() || j == pairs.len(),
            made(e0, *editor, rw + rm + ad.take(j - pairs.len())),
        decreases wanted@.len() - j,
    {
        let ghost e1 = *editor;
        let raw = if needs_quotes(wanted[j].as_str()) {
            quote(wanted[j].as_str())
        } else {
            wanted[j].as_str().to_owned()
        };
        let mut line = key.to_owned();
        line.push_str(" = ");
        line.push_str(raw.as_str());
        editor.add_line(line);
        proof {
            reveal_strlit(" = ");
            let m = j - pairs.len();
            assert(line@ =~= assignment(key@, raw_spec(w[j as int])));
            assert(ad[m] == ChangeView::Add(assignment(key@, raw_spec(w[j as int]))));
            lemma_made_push(e0, e1, *editor, rw + rm + ad.take(m), ad[m]);
            assert(rw + rm + ad.take(m + 1) =~= (rw + rm + ad.take(m)).push(ad[m]));
        }
        j = j + 1;
    }
    proof {
        assert(ad.take(j - pairs.len()) =~= ad);
    }
}

/// An entry rewritten to `{ w }` unless its body already reads `w`.
pub open spec fn point_rewrite(b: Seq<u8>, pair: Pair, w: Seq<char>) -> ChangeView {
    if body_fits(b, pair.value) && block_body_spec(b, pair.value) == w {
        ChangeView::Nothing
    } else {
        ChangeView::Replace(value_span(pair.value), "{ "@ + w + " }"@)
    }
}

/// The entries there are, each set to the wanted point at its position.
pub open spec fn point_rewrites(b: Seq<u8>, pairs: Seq<Pair>, wanted: Seq<Seq<char>>) -> Seq<ChangeView> {
    Seq::new(shorter(wanted.len(), pairs.len()), |i: int| point_rewrite(b, pairs[i], wanted[i]))
}

/// The wanted points past the first `n`, each added as its own entry.
pub open spec fn point_additions(n: nat, wanted: Seq<Seq<char>>) -> Seq<ChangeView> {
    Seq::new(beyond(wanted.len(), n), |k: int| ChangeView::Add("victory_points = { "@ + wanted[n + k] + " }"@))
}

/// What `set_victory_points` does to a block whose `victory_points` entries
/// are `pairs`: rewrites by position, then removals, then additions.
pub open spec fn victory_point_changes(b: Seq<u8>, pairs: Seq<Pair>, wanted: Seq<Seq<char>>) -> Seq<ChangeView> {
    point_rewrites(b, pairs, wanted) + extra_removals(b, pairs, wanted.len()) + point_additions(
        pairs.len(),
        wanted,
    )
}

proof fn lemma_spaced_kept(points: Seq<String>, v: int, p: Seq<char>)
    requires
        0 <= v < points.len(),
        p == single_spaced(points[v]@),
    ensures
        kept_points(views(points).take(v + 1)) == kept_points(views(points).take(v)) + if p.len() == 0 {
            Seq::<Seq<char>>::empty()
        } else {
            seq![p]
        },
{
    assert(views(points).take(v + 1).drop_last() =~= views(points).take(v));
}

/// `victory_points = { 3838 1 }` repeats once per point, set by position.
fn set_victory_points(editor: &mut BlockEditor, points: &Vec<String>)
    requires
        old(editor).wf(),
    ensures
        made(
            *old(editor),
            *final(editor),
            victory_point_changes(
                old(editor).source_bytes(),
                pairs_with(old(editor).edited_block().items@, "victory_points"@),
                kept_points(views(points@)),
            ),
        ),
{
    let ghost e0 = *editor;
    let source = editor.source();
    let block = editor.block();
    let mut wanted: Vec<String> = Vec::new();
    let mut v: usize = 0;
    while v < points.len()
        invariant
            v <= points@.len(),
            views(wanted@) == kept_points(views(points@).take(v as int)),
        decreases points@.len() - v,
    {
        let p = single_space(points[v].as_str());
        proof {
            lemma_spaced_kept(points@, v as int, p@);
        }
        if !p.as_str().is_empty() {
            wanted.push(p);
        }
        proof {
            assert(views(wanted@) =~= kept_points(views(points@).take(v as int + 1)));
        }
        v = v + 1;
    }
    proof {
        assert(views(points@).take(points@.len() as int) =~= views(points@));
    }
    let existing = block.find_all("victory_points");
    let ghost b = bytes_of(source);
    let ghost pairs = pairs_with(block.items@, "victory_points"@);
    let ghost w = views(wanted@);
    let ghost rw = point_rewrites(b, pairs, w);
    let ghost rm = extra_removals(b, pairs, w.len());
    let ghost ad = point_additions(pairs.len(), w);
    proof {
        editor.lemma_block_fits();
        crate::script::lemma_find_all_derefs(existing@, block.items@, "victory_points"@);
        lemma_items_fit(bytes_of(source), block.items@, "victory_points"@);
        lemma_made_none(*editor);
        assert(rw.take(0) =~= Seq::<ChangeView>::empty());
    }
    let mut i: usize = 0;
    while i < wanted.len() && i < existing.len()
        invariant
            e0 == *old(editor),
            b == e0.source_bytes(),
            *block == e0.edited_block(),
            editor.source_bytes() == bytes_of(source),
            bytes_of(source) == b,
            derefs(existing@) == pairs,
            pairs_fit(b, pairs),
            w == views(wanted@),
            rw == point_rewrites(b, pairs, w),
            i <= shorter(w.len(), pairs.len()),
            made(e0, *editor, rw.take(i as int)),
        decreases wanted@.len() - i,
    {
        let pair = existing[i];
        let ghost e1 = *editor;
        proof {
            assert(derefs(existing@)[i as int] == *pair);
            assert(item_fits(b, Item::Pair(pairs[i as int])));
        }
        let same = match try_block_body(source, &pair.value) {
            Some(body) => str_eq(body.as_str(), wanted[i].as_str()),
            None => false,
        };
        if !same {
            let mut text = "{ ".to_owned();
            text.push_str(wanted[i].as_str());
            text.push_str(" }");
            let edit = TextEdit::new(pair.value.span(), text);
            proof {
                assert(seq![edit][0] == edit);
            }
            if edit_fits(source, &edit) {
                editor.edit(edit);
            }
        }
        proof {
            assert(rw[i as int] == point_rewrite(b, pairs[i as int], w[i as int]));
            lemma_made_push(e0, e1, *editor, rw.take(i as int), rw[i as int]);
            assert(rw.take(i as int + 1) =~= rw.take(i as int).push(rw[i as int]));
        }
        i = i + 1;
    }
    proof {
        assert(rw.take(i as int) =~= rw);
        assert(rw + rm.take(0) =~= rw);
    }
    let mut k: usize = wanted.len();
    while k < existing.len()
        invariant
            e0 == *old(editor),
            b == e0.source_bytes(),
            editor.source_bytes() == bytes_of(source),
            bytes_of(source) == b,
            derefs(existing@) == pairs,
            pairs_fit(b, pairs),
            w == views(wanted@),
            rm == extra_removals(b, pairs, w.len()),
            w.len() <= k,
            k <= pairs.len() || k == w.len(),
            made(e0, *editor, rw + rm.take(k - w.len())),
        decreases existing@.len() - k,
    {
        let ghost e1 = *editor;
        proof {
            assert(derefs(existing@)[k as int] == *existing@[k as int]);
            assert(item_fits(b, Item::Pair(pairs[k as int])));
        }
        editor.remove(existing[k]);
        proof {
            let m = k - w.len();
            assert(rm[m] == ChangeView::Remove(removal_span(b, pairs[k as int])));
            lemma_made_push(e0, e1, *editor, rw + rm.take(m), rm[m]);
            assert(rw + rm.take(m + 1) =~= (rw + rm.take(m)).push(rm[m]));
        }
        k = k + 1;
    }
    proof {
        assert(rm.take(k - w.len()) =~= rm);
        assert(rw + rm + ad.take(0) =~= rw + rm);
    }
    let mut j: usize = existing.len();
    while j < wanted.len()
        invariant
            e0 == *old(editor),
            w == views(wanted@),
            pairs.len() == existing@.len(),
            ad == point_additions(pairs.len(), w),
            pairs.len() <= j,
            j <= w.len() || j == pairs.len(),
            made(e0, *editor, rw + rm + ad.take(j - pairs.len())),
        decreases wanted@.len() - j,
    {
        let ghost e1 = *editor;
        let mut line = "victory_points = { ".to_owned();
        line.push_str(wanted[j].as_str());
        line.push_str(" }");
        editor.add_line(line);
        proof {
            let m = j - pairs.len();
            assert(line@ =~= "victory_points = { "@ + w[j as int] + " }"@);
            assert(ad[m] == ChangeView::Add("victory_points = { "@ + w[j as int] + " }"@));
            lemma_made_push(e0, e1, *editor, rw + rm + ad.take(m), ad[m]);
            assert(rw + rm + ad.take(m + 1) =~= (rw + rm + ad.take(m)).push(ad[m]));
        }
        j = j + 1;
    }
    proof {
        assert(ad.take(j - pairs.len()) =~= ad);
    }
}

/// "no state with id `ID` exists in PATH".
pub open spec fn no_state_message(id: Seq<char>, path: Seq<char>) -> Seq<char> {
    "no state with id `"@ + id + "` exists in "@ + path
}

/// Why `update_source` refuses an update of the state with `id`, before any
/// block is laid out. `sibling` names the other file of `history/states`
/// that already defines the new id, when the id is changed and one does.
pub open spec fn update_refusal(
    items: Seq<Item>,
    path: Seq<char>,
    id: Seq<char>,
    u: StateUpdate,
    sibling: Option<Seq<char>>,
) -> Option<Seq<char>> {
    let new_id = trim_spec(u.id@);
    if find_state_spec(items, id) is None {
        Some(no_state_message(id, path))
    } else if new_id.len() == 0 {
        Some("a state needs an id"@)
    } else if new_id != id && find_state_spec(items, new_id) is Some {
        Some("a state with id `"@ + new_id + "` already exists in this file"@)
    } else if new_id != id && sibling is Some {
        Some("state id `"@ + new_id + "` is already used by "@ + sibling->0)
    } else {
        None
    }
}

/// The fields set on a state block, each as `set_scalar` does.
pub open spec fn state_scalars(b: Seq<u8>, sb: Block, u: StateUpdate) -> Seq<ChangeView> {
    seq![
        scalar_change_spec(b, sb, "id"@, u.id@),
        scalar_change_spec(b, sb, "name"@, u.name@),
        scalar_change_spec(b, sb, "manpower"@, u.manpower@),
        scalar_change_spec(b, sb, "state_category"@, u.state_category@),
        scalar_change_spec(b, sb, "local_supplies"@, u.local_supplies@),
        scalar_change_spec(b, sb, "buildings_max_level_factor"@, u.buildings_max_level_factor@),
    ]
}

/// Every change made inside a state block: its fields, its resources and
/// provinces, and a history block built at once when it has none.
pub open spec fn state_runs(b: Seq<u8>, sb: Block, u: StateUpdate) -> Option<Seq<ChangeView>> {
    then_runs(
        then_runs(
            then_runs(
                Some(state_scalars(b, sb, u)),
                checked_block(b, sb, "resources"@, u.resources@),
            ),
            checked_block(b, sb, "provinces"@, join(views(u.provinces@), " "@)),
        ),
        if block_spec(sb.items@, "history"@) is None && render_history_spec(u).len() != 0 {
            checked_block(b, sb, "history"@, render_history_spec(u))
        } else {
            Some(Seq::empty())
        },
    )
}

/// Every change made inside a history block that is already there: owner,
/// controller, cores, claims, buildings and victory points.
pub open spec fn history_runs(b: Seq<u8>, h: Block, u: StateUpdate) -> Option<Seq<ChangeView>> {
    then_runs(
        then_runs(
            Some(
                seq![
                    scalar_change_spec(b, h, "owner"@, u.owner@),
                    scalar_change_spec(b, h, "controller"@, u.controller@),
                ] + repeated_scalar_changes(b, pairs_with(h.items@, "add_core_of"@), "add_core_of"@, kept_values(views(u.cores@)))
                    + repeated_scalar_changes(
                    b,
                    pairs_with(h.items@, "add_claim_by"@),
                    "add_claim_by"@,
                    kept_values(views(u.claims@)),
                ),
            ),
            checked_block(b, h, "buildings"@, u.buildings@),
        ),
        Some(victory_point_changes(b, pairs_with(h.items@, "victory_points"@), kept_points(views(u.victory_points@)))),
    )
}

/// The edits `update_source` makes for the state with `id`: what the state
/// block's editor hands on, then what its history block's editor does.
pub open spec fn state_edits(b: Seq<u8>, items: Seq<Item>, id: Seq<char>, u: StateUpdate) -> Option<
    Seq<(Span, Seq<char>)>,
> {
    match find_state_spec(items, id) {
        Some(p) => match p.value {
            Value::Block(sb) => match (
                handed(b, sb, state_runs(b, sb, u)),
                match block_spec(sb.items@, "history"@) {
                    Some(h) => handed(b, h, history_runs(b, h, u)),
                    None => Some(Seq::empty()),
                },
            ) {
                (Some(x), Some(y)) => Some(x + y),
                _ => None,
            },
            Value::Scalar(_) => None,
        },
        None => None,
    }
}

/// The edits made inside a state block, as its editor hands them on.
#[verifier::rlimit(40)]
fn state_block_edits(source: &str, state_block: &Block, update: &StateUpdate) -> (r: Option<Vec<TextEdit>>)
    requires
        value_fits(bytes_of(source), Value::Block(*state_block)),
    ensures
        match handed(bytes_of(source), *state_block, state_runs(bytes_of(source), *state_block, *update)) {
            Some(vs) => r matches Some(es) && crate::paradox::edit::edit_views(es@) == vs,
            None => r is None,
        },
{
    let ghost b = bytes_of(source);
    proof {
        crate::script::lemma_block_items_fit(b, *state_block);
        lemma_items_fit(b, state_block.items@, "history"@);
    }
    let history = state_block.block("history");
    let mut editor = BlockEditor::new(source, state_block);
    let ghost e0 = editor;
    proof {
        lemma_made_none(editor);
    }
    editor.set_scalar("id", update.id.as_str());
    editor.set_scalar("name", update.name.as_str());
    editor.set_scalar("manpower", update.manpower.as_str());
    editor.set_scalar("state_category", update.state_category.as_str());
    editor.set_scalar("local_supplies", update.local_supplies.as_str());
    editor.set_scalar("buildings_max_level_factor", update.buildings_max_level_factor.as_str());
    let ghost done = state_scalars(b, *state_block, *update);
    proof {
        reveal_with_fuel(record_all, 7);
        assert(done.drop_last().drop_last().drop_last().drop_last().drop_last().drop_last() =~= Seq::<ChangeView>::empty());
        assert(made(e0, editor, done));
    }
    let provinces = join_strings(&update.provinces, " ");
    let ghost e1 = editor;
    if !set_block_checked(&mut editor, "resources", update.resources.as_str()) {
        return None;
    }
    let ghost e2 = editor;
    if !set_block_checked(&mut editor, "provinces", provinces.as_str()) {
        return None;
    }
    proof {
        let c1 = seq![block_change_spec(b, *state_block, "resources"@, update.resources@)];
        let c2 = seq![block_change_spec(b, *state_block, "provinces"@, provinces@)];
        lemma_made_then(e0, e1, e2, done, c1);
        lemma_made_then(e0, e2, editor, done + c1, c2);
    }
    let ghost done2 = done + seq![block_change_spec(b, *state_block, "resources"@, update.resources@)]
        + seq![block_change_spec(b, *state_block, "provinces"@, provinces@)];
    let ghost e3 = editor;
    // A state with no history block yet gets one built from the fields at once.
    if history.is_none() {
        let body = render_history(update);
        if !body.as_str().is_empty() {
            if !set_block_checked(&mut editor, "history", body.as_str()) {
                return None;
            }
            proof {
                lemma_made_then(e0, e3, editor, done2, seq![block_change_spec(b, *state_block, "history"@, body@)]);
            }
        } else {
            proof {
                assert(done2 + Seq::<ChangeView>::empty() =~= done2);
            }
        }
    } else {
        proof {
            assert(done2 + Seq::<ChangeView>::empty() =~= done2);
        }
    }
    Some(finish_editor(editor))
}

/// The edits made inside a history block that is already there.
#[verifier::rlimit(40)]
fn history_block_edits(source: &str, history: &Block, update: &StateUpdate) -> (r: Option<Vec<TextEdit>>)
    requires
        value_fits(bytes_of(source), Value::Block(*history)),
    ensures
        match handed(bytes_of(source), *history, history_runs(bytes_of(source), *history, *update)) {
            Some(vs) => r matches Some(es) && crate::paradox::edit::edit_views(es@) == vs,
            None => r is None,
        },
{
    let ghost b = bytes_of(source);
    let mut history_editor = BlockEditor::new(source, history);
    let ghost e0 = history_editor;
    proof {
        lemma_made_none(history_editor);
    }
    history_editor.set_scalar("owner", update.owner.as_str());
    history_editor.set_scalar("controller", update.controller.as_str());
    let ghost sc = seq![
        scalar_change_spec(b, *history, "owner"@, update.owner@),
        scalar_change_spec(b, *history, "controller"@, update.controller@),
    ];
    proof {
        reveal_with_fuel(record_all, 3);
        assert(sc.drop_last().drop_last() =~= Seq::<ChangeView>::empty());
        assert(made(e0, history_editor, sc));
    }
    let ghost e1 = history_editor;
    set_repeated_scalars(&mut history_editor, "add_core_of", &update.cores);
    let ghost e2 = history_editor;
    set_repeated_scalars(&mut history_editor, "add_claim_by", &update.claims);
    let ghost cores = repeated_scalar_changes(b, pairs_with(history.items@, "add_core_of"@), "add_core_of"@, kept_values(views(update.cores@)));
    let ghost claims = repeated_scalar_changes(b, pairs_with(history.items@, "add_claim_by"@), "add_claim_by"@, kept_values(views(update.claims@)));
    proof {
        lemma_made_then(e0, e1, e2, sc, cores);
        lemma_made_then(e0, e2, history_editor, sc + cores, claims);
    }
    let ghost e3 = history_editor;
    if !set_block_checked(&mut history_editor, "buildings", update.buildings.as_str()) {
        return None;
    }
    let ghost e4 = history_editor;
    set_victory_points(&mut history_editor, &update.victory_points);
    proof {
        let c = seq![block_change_spec(b, *history, "buildings"@, update.buildings@)];
        let v = victory_point_changes(b, pairs_with(history.items@, "victory_points"@), kept_points(views(update.victory_points@)));
        lemma_made_then(e0, e3, e4, sc + cores + claims, c);
        lemma_made_then(e0, e4, history_editor, sc + cores + claims + c, v);
    }
    Some(finish_editor(history_editor))
}

/// Rewrites one state in place, matched by its current id. `sibling` is the
/// name of another file of the state database that already defines the new
/// id, found by the caller when the id changes: ids are global, not per file.
pub fn update_source(path: &str, source: &str, state_id: &str, update: &StateUpdate, sibling: Option<&str>) -> (r: Result<String, EditError>)
    requires
        bytes_of(source).len() <= isize::MAX,
    ensures
        script_parse_spec(source) matches Parsed::Fail(m, o) ==> r matches Err(
            EditError::Script { path: p, source: e },
        ) && p@ == path@ && e.message@ == m && e.offset == o,
        script_parse_spec(source) is Read ==> exists|items: Seq<Item>|
            #[trigger] parsed_items(source, items) && match update_refusal(
                items,
                path@,
                state_id@,
                *update,
                match sibling {
                    Some(s) => Some(s@),
                    None => None,
                },
            ) {
                Some(m) => r matches Err(EditError::Message(t)) && t@ == m,
                None => saved_as(bytes_of(source), state_edits(bytes_of(source), items, state_id@, *update), r),
            },
{
    let document = match crate::paradox::parse(source) {
        Ok(document) => document,
        Err(e) => {
            return Err(EditError::Script { path: path.to_owned(), source: e });
        },
    };
    let ghost b = bytes_of(source);
    let ghost items = document.items@;
    proof {
        assert(parsed_items(source, document.items@));
        lemma_items_fit(bytes_of(source), document.items@, "state"@);
        lemma_first_with_id(bytes_of(source), pairs_with(document.items@, "state"@), state_id@, 0);
    }
    let state = match find_state(&document, state_id) {
        Some(pair) => pair,
        None => {
            let mut m = "no state with id `".to_owned();
            m.push_str(state_id);
            m.push_str("` exists in ");
            m.push_str(path);
            proof {
                reveal_strlit("no state with id `");
                reveal_strlit("` exists in ");
            }
            return Err(EditError::Message(m));
        },
    };
    let new_id = trim(update.id.as_str());
    if new_id.as_str().is_empty() {
        let m = "a state needs an id".to_owned();
        proof {
            reveal_strlit("a state needs an id");
        }
        return Err(EditError::Message(m));
    }
    if !str_eq(new_id.as_str(), state_id) {
        if find_state(&document, new_id.as_str()).is_some() {
            let mut m = "a state with id `".to_owned();
            m.push_str(new_id.as_str());
            m.push_str("` already exists in this file");
            proof {
                reveal_strlit("a state with id `");
                reveal_strlit("` already exists in this file");
            }
            return Err(EditError::Message(m));
        }
        if let Some(other) = sibling {
            let mut m = "state id `".to_owned();
            m.push_str(new_id.as_str());
            m.push_str("` is already used by ");
            m.push_str(other);
            proof {
                reveal_strlit("state id `");
                reveal_strlit("` is already used by ");
            }
            return Err(EditError::Message(m));
        }
    }
    let state_block = match &state.value {
        Value::Block(block) => block,
        _ => {
            return Err(EditError::Message("state is not a block".to_owned()));
        },
    };
    proof {
        crate::script::lemma_block_items_fit(bytes_of(source), *state_block);
        lemma_items_fit(bytes_of(source), state_block.items@, "history"@);
    }
    // One editor per scope, never two over the same block: each of them would
    // insert at the same span before the closing brace and only the first
    // insertion would survive.
    let history = state_block.block("history");
    let mut edits = match state_block_edits(source, state_block, update) {
        Some(es) => es,
        None => {
            return Err(crate::script::layout_error());
        },
    };
    let ghost front = edits@;
    if let Some(history) = history {
        proof {
            crate::script::lemma_block_items_fit(bytes_of(source), *history);
        }
        let mut more = match history_block_edits(source, history, update) {
            Some(es) => es,
            None => {
                return Err(crate::script::layout_error());
            },
        };
        let ghost tail = more@;
        edits.append(&mut more);
        proof {
            crate::script::lemma_edit_views_append(front, tail);
            assert(edits@ == front + tail);
        }
    } else {
        proof {
            assert(crate::paradox::edit::edit_views(edits@) + Seq::<(Span, Seq<char>)>::empty() =~= crate::paradox::edit::edit_views(edits@));
        }
    }
    save_edits(source, edits)
}

} // verus!
