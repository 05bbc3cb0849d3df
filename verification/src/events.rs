//! Events: `events/*.txt`, the pop-ups a country, a state or a leader gets.
//!
//! An event is one `country_event = { }` (or `news_event`, `state_event`,
//! `unit_leader_event`, `operative_leader_event`) block at the top level of
//! a file that also declares its `add_namespace`. Its title and description
//! are usually one localisation key each, but either can be repeated as
//! `desc = { text = key trigger = { } }` blocks picked by trigger; both are
//! kept as a list of "key or block body" so a form shows what is there.
//! An option is a name plus whatever effects follow it; the effects are
//! handed over as text, since they are script rather than fields.
use crate::error::EditError;
use crate::paradox::edit::{
    apply_edits, apply_edits_spec, block_body_spec, body_fits, child_indent, detect_newline,
    edit_fits, edits_fit, edits_fit_all, indent_at, line_end, line_start, removal_span,
    try_block_body, try_format_block, BlockEditor, TextEdit, ChangeView, assignment,
    child_indent_spec, indent_spec, newline_spec, record, scalar_change_spec, block_change_spec,
};
use crate::paradox::Span;
use crate::paradox::parser::value_span;
use crate::paradox::lexer::{needs_quotes, needs_quotes_spec, quote};
use crate::paradox::parser::{
    item_fits, pairs_of, pairs_with, parse_spec as script_parse_spec, scalar_text, value_fits,
    Parsed,
};
use crate::paradox::{line_number, Block, Document, Item, Items, Pair, Value};
use crate::script::{
    all_fit, block_values, blocks_among, body_or_empty, body_without, body_without_spec, derefs,
    format_lines, format_lines_spec, kept_target, lemma_items_fit, lemma_pairs_derefs, opt_text, pairs_fit, parsed_items, read_block, set_block_checked, text_of, text_or_empty,
    all_some, beyond, extra_removals, kept_values, lemma_all_some_fails, lemma_all_some_push,
    lemma_made_none, lemma_made_push, lemma_trimmed_kept, made, shorter, all_runs, finished,
    fmt_lines, hand_on, handed_on, lemma_all_runs_fails, lemma_all_runs_push, lemma_made_one,
    lemma_made_then, views_fit, sure, checked_block, finish_editor, handed, lists_of, record_all,
    save_edits, saved_as, then_runs,
};
use crate::text::{
    boundary, bytes_of, chars_of, eq_ignore_ascii_case, eq_ignore_ascii_case_spec, join,
    join_strings, lowercase, str_eq, text_at, to_lowercase, trim, trim_spec, views,
};
use vstd::prelude::*;
use vstd::utf8::encode_utf8;

verus! {

#[derive(Debug, Clone, Default, PartialEq)]
pub struct EventOption {
    /// Localisation key of the button text.
    pub name: String,
    /// Everything else in the option, effects and `ai_chance` and `trigger`
    /// alike, as script text.
    pub body: String,
}

#[derive(Debug, Clone, Default)]
pub struct Event {
    /// `country_event`, `news_event`, and so on.
    pub kind: String,
    pub id: String,
    /// Each a localisation key, or the body of a `title = { }` block when
    /// the title is picked by trigger.
    pub titles: Vec<String>,
    pub descs: Vec<String>,
    pub picture: String,
    /// `yes`, `no`, or empty when the file does not say.
    pub fire_only_once: String,
    pub is_triggered_only: String,
    pub hidden: String,
    pub major: String,
    pub timeout_days: String,
    pub trigger: String,
    pub mean_time_to_happen: String,
    pub immediate: String,
    pub options: Vec<EventOption>,
    pub line: usize,
}

#[derive(Debug, Clone)]
pub struct EventFile {
    pub path: String,
    /// Every `add_namespace` the file declares, in order.
    pub namespaces: Vec<String>,
    pub events: Vec<Event>,
    pub has_bom: bool,
    /// Read as Windows-1252 rather than UTF-8, and written back so.
    pub is_legacy_encoding: bool,
    /// The text the events were read from, for the code view.
    pub source: String,
}

/// The editable fields sent back when saving. Empty strings clear a field;
/// a title, description or option left out of its list is removed.
#[derive(Debug, Clone, Default)]
pub struct EventUpdate {
    pub kind: String,
    pub id: String,
    pub titles: Vec<String>,
    pub descs: Vec<String>,
    pub picture: String,
    pub fire_only_once: String,
    pub is_triggered_only: String,
    pub hidden: String,
    pub major: String,
    pub timeout_days: String,
    pub trigger: String,
    pub mean_time_to_happen: String,
    pub immediate: String,
    pub options: Vec<EventOption>,
}

// ---------------------------------------------------------------------------
// Reading
// ---------------------------------------------------------------------------

/// The event kinds, as the file spells them, in any ASCII case.
pub open spec fn event_kind(key: Seq<char>) -> bool {
    ||| eq_ignore_ascii_case_spec(key, "country_event"@)
    ||| eq_ignore_ascii_case_spec(key, "news_event"@)
    ||| eq_ignore_ascii_case_spec(key, "state_event"@)
    ||| eq_ignore_ascii_case_spec(key, "unit_leader_event"@)
    ||| eq_ignore_ascii_case_spec(key, "operative_leader_event"@)
}

pub fn is_event_kind(key: &str) -> (r: bool)
    ensures
        r == event_kind(key@),
{
    eq_ignore_ascii_case(key, "country_event") || eq_ignore_ascii_case(key, "news_event")
        || eq_ignore_ascii_case(key, "state_event") || eq_ignore_ascii_case(key, "unit_leader_event")
        || eq_ignore_ascii_case(key, "operative_leader_event")
}

/// The event blocks among `pairs`, in order.
pub open spec fn event_pairs_in(pairs: Seq<Pair>) -> Seq<Pair>
    decreases pairs.len(),
{
    if pairs.len() == 0 {
        Seq::empty()
    } else {
        let rest = event_pairs_in(pairs.drop_last());
        if event_kind(pairs.last().key@) && pairs.last().value is Block {
            rest.push(pairs.last())
        } else {
            rest
        }
    }
}

/// Every event block at the top level of the file, in file order.
pub open spec fn event_pairs_spec(items: Seq<Item>) -> Seq<Pair> {
    event_pairs_in(pairs_of(items))
}

proof fn lemma_event_pairs_within(pairs: Seq<Pair>)
    ensures
        forall|k: int| 0 <= k < event_pairs_in(pairs).len() ==> exists|j: int| 0 <= j < pairs.len() && #[trigger] event_pairs_in(pairs)[k] == pairs[j],
        forall|k: int| 0 <= k < event_pairs_in(pairs).len() ==> (#[trigger] event_pairs_in(pairs)[k]).value is Block,
    decreases pairs.len(),
{
    if pairs.len() > 0 {
        let d = pairs.drop_last();
        lemma_event_pairs_within(d);
        let rest = event_pairs_in(d);
        assert forall|k: int| 0 <= k < event_pairs_in(pairs).len() implies exists|j: int| 0 <= j < pairs.len() && #[trigger] event_pairs_in(pairs)[k] == pairs[j] by {
            if k < rest.len() {
                let j = choose|j: int| 0 <= j < d.len() && rest[k] == d[j];
                assert(event_pairs_in(pairs)[k] == rest[k]);
                assert(pairs[j] == d[j]);
            } else {
                assert(event_pairs_in(pairs)[k] == pairs[pairs.len() - 1]);
            }
        }
        assert forall|k: int| 0 <= k < event_pairs_in(pairs).len() implies (#[trigger] event_pairs_in(pairs)[k]).value is Block by {
            if k < rest.len() {
                assert(event_pairs_in(pairs)[k] == rest[k]);
            }
        }
    }
}

/// Event pairs lie inside the source and assign blocks.
proof fn lemma_event_pairs(b: Seq<u8>, items: Seq<Item>)
    requires
        all_fit(b, items),
    ensures
        pairs_fit(b, event_pairs_spec(items)),
        forall|k: int| 0 <= k < event_pairs_spec(items).len() ==> (#[trigger] event_pairs_spec(items)[k]).value is Block,
{
    lemma_items_fit(b, items, Seq::empty());
    let ps = pairs_of(items);
    lemma_event_pairs_within(ps);
    assert forall|k: int| 0 <= k < event_pairs_spec(items).len() implies item_fits(b, Item::Pair(#[trigger] event_pairs_spec(items)[k])) by {
        let j = choose|j: int| 0 <= j < ps.len() && event_pairs_in(ps)[k] == ps[j];
        assert(item_fits(b, Item::Pair(ps[j])));
    }
}

pub fn event_pairs(document: &Document) -> (r: Vec<&Pair>)
    ensures
        derefs(r@) == event_pairs_spec(document.items@),
{
    let pairs = document.pairs();
    proof {
        lemma_pairs_derefs(pairs@, document.items@);
    }
    let ghost all = derefs(pairs@);
    let mut r: Vec<&Pair> = Vec::new();
    let mut i: usize = 0;
    while i < pairs.len()
        invariant
            i <= pairs@.len(),
            all == derefs(pairs@),
            derefs(r@) == event_pairs_in(all.take(i as int)),
        decreases pairs@.len() - i,
    {
        let ghost before = derefs(r@);
        proof {
            assert(all.take(i + 1).drop_last() =~= all.take(i as int));
            assert(all.take(i + 1).last() == *pairs@[i as int]);
        }
        let is_block = match &pairs[i].value {
            Value::Block(_) => true,
            _ => false,
        };
        if is_event_kind(pairs[i].key.as_str()) && is_block {
            r.push(pairs[i]);
            assert(derefs(r@) =~= before.push(*pairs@[i as int]));
        }
        i = i + 1;
    }
    assert(all.take(all.len() as int) =~= all);
    r
}

/// The scalar texts that `pairs` assign, in order.
pub open spec fn scalar_values(pairs: Seq<Pair>) -> Seq<Seq<char>>
    decreases pairs.len(),
{
    if pairs.len() == 0 {
        Seq::empty()
    } else {
        let rest = scalar_values(pairs.drop_last());
        match pairs.last().value {
            Value::Scalar(s) => rest.push(scalar_text(s)),
            _ => rest,
        }
    }
}

/// Every `add_namespace` the file declares, in order.
pub open spec fn namespaces_spec(items: Seq<Item>) -> Seq<Seq<char>> {
    scalar_values(pairs_with(items, "add_namespace"@))
}

fn read_namespaces(document: &Document) -> (r: Vec<String>)
    ensures
        views(r@) == namespaces_spec(document.items@),
{
    let pairs = document.find_all("add_namespace");
    proof {
        crate::script::lemma_find_all_derefs(pairs@, document.items@, "add_namespace"@);
    }
    let ghost all = derefs(pairs@);
    let mut r: Vec<String> = Vec::new();
    let mut i: usize = 0;
    while i < pairs.len()
        invariant
            i <= pairs@.len(),
            all == derefs(pairs@),
            views(r@) == scalar_values(all.take(i as int)),
        decreases pairs@.len() - i,
    {
        let ghost before = views(r@);
        proof {
            assert(all.take(i + 1).drop_last() =~= all.take(i as int));
            assert(all.take(i + 1).last() == *pairs@[i as int]);
        }
        if let Value::Scalar(scalar) = &pairs[i].value {
            r.push(scalar.value());
            assert(views(r@) =~= before.push(scalar_text(*scalar)));
        }
        i = i + 1;
    }
    assert(all.take(all.len() as int) =~= all);
    r
}

/// A value as a plain editor shows it: a scalar's text or a block's body;
/// empty where a block's indentation cannot be cut on character boundaries.
pub open spec fn shown(b: Seq<u8>, v: Value) -> Seq<char> {
    if body_fits(b, v) {
        block_body_spec(b, v)
    } else {
        Seq::empty()
    }
}

/// Each value of a repeated key, as a plain editor shows it.
pub open spec fn texts_spec(b: Seq<u8>, items: Seq<Item>, key: Seq<char>) -> Seq<Seq<char>> {
    let ps = pairs_with(items, key);
    Seq::new(ps.len(), |k: int| shown(b, ps[k].value))
}

fn read_texts(source: &str, block: &Block, key: &str) -> (r: Vec<String>)
    requires
        value_fits(bytes_of(source), Value::Block(*block)),
    ensures
        views(r@) == texts_spec(bytes_of(source), block.items@, key@),
{
    let pairs = block.find_all(key);
    proof {
        crate::script::lemma_find_all_derefs(pairs@, block.items@, key@);
        crate::script::lemma_block_items_fit(bytes_of(source), *block);
        lemma_items_fit(bytes_of(source), block.items@, key@);
    }
    let ghost ps = pairs_with(block.items@, key@);
    let mut r: Vec<String> = Vec::new();
    let mut i: usize = 0;
    while i < pairs.len()
        invariant
            i <= pairs@.len(),
            derefs(pairs@) == ps,
            ps == pairs_with(block.items@, key@),
            pairs_fit(bytes_of(source), ps),
            views(r@) == texts_spec(bytes_of(source), block.items@, key@).take(i as int),
        decreases pairs@.len() - i,
    {
        proof {
            assert(derefs(pairs@)[i as int] == *pairs@[i as int]);
            assert(item_fits(bytes_of(source), Item::Pair(ps[i as int])));
        }
        let ghost before = views(r@);
        let text = match try_block_body(source, &pairs[i].value) {
            Some(t) => t,
            None => String::new(),
        };
        r.push(text);
        assert(views(r@) =~= before.push(shown(bytes_of(source), ps[i as int].value)));
        assert(views(r@) =~= texts_spec(bytes_of(source), block.items@, key@).take(i + 1));
        i = i + 1;
    }
    assert(texts_spec(bytes_of(source), block.items@, key@).take(pairs@.len() as int) =~= texts_spec(
        bytes_of(source),
        block.items@,
        key@,
    ));
    r
}

/// An option read: its name, and the rest of its body.
pub open spec fn option_read(b: Seq<u8>, o: EventOption, block: Block) -> bool {
    &&& o.name@ == text_or_empty(block.items@, "name"@)
    &&& o.body@ == body_without_spec(b, block, pairs_with(block.items@, "name"@))
}

fn read_options(source: &str, block: &Block) -> (r: Vec<EventOption>)
    requires
        value_fits(bytes_of(source), Value::Block(*block)),
    ensures
        r@.len() == block_values(pairs_with(block.items@, "option"@)).len(),
        forall|k: int| 0 <= k < r@.len() ==> option_read(bytes_of(source), #[trigger] r@[k], block_values(pairs_with(block.items@, "option"@))[k]),
{
    let pairs = block.find_all("option");
    proof {
        crate::script::lemma_find_all_derefs(pairs@, block.items@, "option"@);
        crate::script::lemma_block_items_fit(bytes_of(source), *block);
        lemma_items_fit(bytes_of(source), block.items@, "option"@);
        crate::script::lemma_block_values_fit(bytes_of(source), pairs_with(block.items@, "option"@));
    }
    let blocks = blocks_among(&pairs);
    let ghost os = block_values(pairs_with(block.items@, "option"@));
    let mut r: Vec<EventOption> = Vec::new();
    let mut i: usize = 0;
    while i < blocks.len()
        invariant
            i <= blocks@.len(),
            derefs(blocks@) == os,
            crate::script::blocks_fit(bytes_of(source), os),
            r@.len() == i,
            forall|k: int| 0 <= k < i ==> option_read(bytes_of(source), #[trigger] r@[k], os[k]),
        decreases blocks@.len() - i,
    {
        let option = blocks[i];
        proof {
            assert(derefs(blocks@)[i as int] == *option);
            assert(value_fits(bytes_of(source), Value::Block(os[i as int])));
            crate::script::lemma_block_items_fit(bytes_of(source), *option);
            lemma_items_fit(bytes_of(source), option.items@, "name"@);
        }
        let names = option.find_all("name");
        proof {
            crate::script::lemma_find_all_derefs(names@, option.items@, "name"@);
        }
        let body = body_without(source, option, &names);
        r.push(EventOption { name: text_of(option, "name"), body });
        i = i + 1;
    }
    r
}

/// What `read_event` makes of the block keyed `kind` starting at `start`.
pub open spec fn event_read(b: Seq<u8>, e: Event, kind: Seq<char>, block: Block, start: int) -> bool {
    let items = block.items@;
    let options = block_values(pairs_with(items, "option"@));
    &&& e.kind@ == kind
    &&& e.id@ == text_or_empty(items, "id"@)
    &&& views(e.titles@) == texts_spec(b, items, "title"@)
    &&& views(e.descs@) == texts_spec(b, items, "desc"@)
    &&& e.picture@ == text_or_empty(items, "picture"@)
    &&& e.fire_only_once@ == text_or_empty(items, "fire_only_once"@)
    &&& e.is_triggered_only@ == text_or_empty(items, "is_triggered_only"@)
    &&& e.hidden@ == text_or_empty(items, "hidden"@)
    &&& e.major@ == text_or_empty(items, "major"@)
    &&& e.timeout_days@ == text_or_empty(items, "timeout_days"@)
    &&& e.trigger@ == body_or_empty(b, items, "trigger"@)
    &&& e.mean_time_to_happen@ == body_or_empty(b, items, "mean_time_to_happen"@)
    &&& e.immediate@ == body_or_empty(b, items, "immediate"@)
    &&& e.options@.len() == options.len()
    &&& forall|k: int| 0 <= k < options.len() ==> option_read(b, #[trigger] e.options@[k], options[k])
    &&& e.line == line_number(b, start)
}

/// The event of kind `kind` whose block starts at byte `start`.
pub fn read_event(source: &str, kind: &str, block: &Block, start: usize) -> (e: Event)
    requires
        bytes_of(source).len() <= isize::MAX,
        value_fits(bytes_of(source), Value::Block(*block)),
        start >= bytes_of(source).len() || boundary(bytes_of(source), start as int),
    ensures
        event_read(bytes_of(source), e, kind@, *block, start as int),
{
    proof {
        crate::script::lemma_block_items_fit(bytes_of(source), *block);
    }
    Event {
        kind: kind.to_owned(),
        id: text_of(block, "id"),
        titles: read_texts(source, block, "title"),
        descs: read_texts(source, block, "desc"),
        picture: text_of(block, "picture"),
        fire_only_once: text_of(block, "fire_only_once"),
        is_triggered_only: text_of(block, "is_triggered_only"),
        hidden: text_of(block, "hidden"),
        major: text_of(block, "major"),
        timeout_days: text_of(block, "timeout_days"),
        trigger: read_block(source, block, "trigger"),
        mean_time_to_happen: read_block(source, block, "mean_time_to_happen"),
        immediate: read_block(source, block, "immediate"),
        options: read_options(source, block),
        line: crate::paradox::line_of(source, start),
    }
}

/// Every event of the file, read from the parsed items `items`; an event's
/// kind is its key lowercased.
pub open spec fn events_read(b: Seq<u8>, es: Seq<Event>, items: Seq<Item>) -> bool {
    let ps = event_pairs_spec(items);
    &&& es.len() == ps.len()
    &&& forall|k: int|
        0 <= k < ps.len() ==> match (#[trigger] ps[k]).value {
            Value::Block(bl) => event_read(b, es[k], lowercase(ps[k].key@), bl, ps[k].span.start as int),
            _ => false,
        }
}

pub fn read_events(source: &str, document: &Document) -> (r: Vec<Event>)
    requires
        bytes_of(source).len() <= isize::MAX,
        all_fit(bytes_of(source), document.items@),
    ensures
        events_read(bytes_of(source), r@, document.items@),
{
    let ghost b = bytes_of(source);
    let pairs = event_pairs(document);
    let ghost ps = event_pairs_spec(document.items@);
    proof {
        lemma_event_pairs(b, document.items@);
    }
    let mut r: Vec<Event> = Vec::new();
    let mut i: usize = 0;
    while i < pairs.len()
        invariant
            i <= pairs@.len(),
            b == bytes_of(source),
            b.len() <= isize::MAX,
            derefs(pairs@) == ps,
            ps == event_pairs_spec(document.items@),
            pairs_fit(b, ps),
            forall|k: int| 0 <= k < ps.len() ==> (#[trigger] ps[k]).value is Block,
            r@.len() == i,
            forall|k: int|
                0 <= k < i ==> match (#[trigger] ps[k]).value {
                    Value::Block(bl) => event_read(b, r@[k], lowercase(ps[k].key@), bl, ps[k].span.start as int),
                    _ => false,
                },
        decreases pairs@.len() - i,
    {
        let pair = pairs[i];
        proof {
            assert(derefs(pairs@)[i as int] == *pair);
            assert(item_fits(b, Item::Pair(ps[i as int])));
        }
        match &pair.value {
            Value::Block(block) => {
                let kind = to_lowercase(pair.key.as_str());
                r.push(read_event(source, kind.as_str(), block, pair.span.start));
            },
            _ => {
                proof {
                    assert(ps[i as int].value is Block);
                }
            },
        }
        i = i + 1;
    }
    r
}

/// Reads events out of text the window holds, which need not be what is on
/// disk: the code view parses its buffer as the user types.
pub fn parse(path: &str, content: &str, has_bom: bool, is_legacy_encoding: bool) -> (r: Result<
    EventFile,
    EditError,
>)
    requires
        bytes_of(content).len() <= isize::MAX,
    ensures
        match script_parse_spec(content) {
            Parsed::Fail(m, o) => r matches Err(EditError::Script { path: p, source: e }) && p@
                == path@ && e.message@ == m && e.offset == o,
            Parsed::Read(..) => r is Ok,
        },
        r matches Ok(file) ==> {
            &&& file.path@ == crate::text::replace_char(path@, '\\', '/')
            &&& file.source@ == content@
            &&& file.has_bom == has_bom
            &&& file.is_legacy_encoding == is_legacy_encoding
            &&& exists|items: Seq<Item>|
                #[trigger] parsed_items(content, items) && views(file.namespaces@) == namespaces_spec(items)
                    && events_read(bytes_of(content), file.events@, items)
        },
{
    let document = match crate::paradox::parse(content) {
        Ok(document) => document,
        Err(source) => {
            return Err(EditError::Script { path: path.to_owned(), source });
        },
    };
    let namespaces = read_namespaces(&document);
    let events = read_events(content, &document);
    proof {
        assert(parsed_items(content, document.items@));
    }
    Ok(
        EventFile {
            path: crate::text::replace_char_in(path, '\\', '/'),
            namespaces,
            events,
            has_bom,
            is_legacy_encoding,
            source: content.to_owned(),
        },
    )
}

// ---------------------------------------------------------------------------
// Finding an event
// ---------------------------------------------------------------------------

/// The event blocks among `pairs` whose `id` is `id`, in order.
pub open spec fn with_id(pairs: Seq<Pair>, id: Seq<char>) -> Seq<Pair>
    decreases pairs.len(),
{
    if pairs.len() == 0 {
        Seq::empty()
    } else {
        let rest = with_id(pairs.drop_last(), id);
        if pairs.last().value matches Value::Block(bl) && crate::paradox::parser::scalar_spec(
            bl.items@,
            "id"@,
        ) == Some(id) {
            rest.push(pairs.last())
        } else {
            rest
        }
    }
}

/// Every event of the file with the id `id`, in file order.
pub open spec fn events_with_id_spec(items: Seq<Item>, id: Seq<char>) -> Seq<Pair> {
    with_id(event_pairs_spec(items), id)
}

proof fn lemma_with_id_within(pairs: Seq<Pair>, id: Seq<char>)
    ensures
        forall|k: int| 0 <= k < with_id(pairs, id).len() ==> exists|j: int| 0 <= j < pairs.len() && #[trigger] with_id(pairs, id)[k] == pairs[j],
    decreases pairs.len(),
{
    if pairs.len() > 0 {
        let d = pairs.drop_last();
        lemma_with_id_within(d, id);
        let rest = with_id(d, id);
        assert forall|k: int| 0 <= k < with_id(pairs, id).len() implies exists|j: int| 0 <= j < pairs.len() && #[trigger] with_id(pairs, id)[k] == pairs[j] by {
            if k < rest.len() {
                let j = choose|j: int| 0 <= j < d.len() && rest[k] == d[j];
                assert(with_id(pairs, id)[k] == rest[k]);
                assert(pairs[j] == d[j]);
            } else {
                assert(with_id(pairs, id)[k] == pairs[pairs.len() - 1]);
            }
        }
    }
}

proof fn lemma_events_with_id(b: Seq<u8>, items: Seq<Item>, id: Seq<char>)
    requires
        all_fit(b, items),
    ensures
        forall|k: int| 0 <= k < events_with_id_spec(items, id).len() ==> item_fits(b, Item::Pair(#[trigger] events_with_id_spec(items, id)[k])) && events_with_id_spec(items, id)[k].value is Block,
{
    lemma_event_pairs(b, items);
    let ps = event_pairs_spec(items);
    lemma_with_id_within(ps, id);
    assert forall|k: int| 0 <= k < events_with_id_spec(items, id).len() implies item_fits(b, Item::Pair(#[trigger] events_with_id_spec(items, id)[k])) && events_with_id_spec(items, id)[k].value is Block by {
        let j = choose|j: int| 0 <= j < ps.len() && with_id(ps, id)[k] == ps[j];
        assert(item_fits(b, Item::Pair(ps[j])));
    }
}

fn has_id(pair: &Pair, id: &str) -> (r: bool)
    ensures
        r == (pair.value matches Value::Block(bl) && crate::paradox::parser::scalar_spec(bl.items@, "id"@) == Some(id@)),
{
    match &pair.value {
        Value::Block(block) => match block.scalar("id") {
            Some(current) => str_eq(current.as_str(), id),
            None => false,
        },
        _ => false,
    }
}

pub fn events_with_id<'a>(document: &'a Document, id: &str) -> (r: Vec<&'a Pair>)
    ensures
        derefs(r@) == events_with_id_spec(document.items@, id@),
{
    let pairs = event_pairs(document);
    let ghost all = derefs(pairs@);
    let mut r: Vec<&Pair> = Vec::new();
    let mut i: usize = 0;
    while i < pairs.len()
        invariant
            i <= pairs@.len(),
            all == derefs(pairs@),
            derefs(r@) == with_id(all.take(i as int), id@),
        decreases pairs@.len() - i,
    {
        let ghost before = derefs(r@);
        proof {
            assert(all.take(i + 1).drop_last() =~= all.take(i as int));
            assert(all.take(i + 1).last() == *pairs@[i as int]);
        }
        if has_id(pairs[i], id) {
            r.push(pairs[i]);
            assert(derefs(r@) =~= before.push(*pairs@[i as int]));
        }
        i = i + 1;
    }
    assert(all.take(all.len() as int) =~= all);
    r
}

/// Why the event with `id` cannot be edited on its own: there is none, or
/// there are several (a bug in the mod the game would trip over too, left
/// to the code view rather than edited in whichever comes first).
pub open spec fn lookup_refusal(items: Seq<Item>, id: Seq<char>, path: Seq<char>) -> Option<Seq<char>> {
    let n = events_with_id_spec(items, id).len();
    if n == 0 {
        Some("no event with id `"@ + id + "` exists in "@ + path)
    } else if n > 1 {
        Some(crate::error::decimal_spec(n) + " events share the id `"@ + id + "` in "@ + path
            + "; edit them in the code view"@)
    } else {
        None
    }
}

/// The one event with `id`.
pub fn find_the_event<'a>(document: &'a Document, id: &str, path: &str) -> (r: Result<&'a Pair, EditError>)
    ensures
        match lookup_refusal(document.items@, id@, path@) {
            Some(m) => r matches Err(EditError::Message(t)) && t@ == m,
            None => r matches Ok(p) && *p == events_with_id_spec(document.items@, id@)[0],
        },
{
    let found = events_with_id(document, id);
    proof {
        assert(derefs(found@).len() == found@.len());
    }
    if found.len() == 0 {
        let mut m = "no event with id `".to_owned();
        m.push_str(id);
        m.push_str("` exists in ");
        m.push_str(path);
        proof {
            reveal_strlit("no event with id `");
            reveal_strlit("` exists in ");
        }
        return Err(EditError::Message(m));
    }
    if found.len() > 1 {
        let mut m = crate::error::decimal(found.len());
        m.push_str(" events share the id `");
        m.push_str(id);
        m.push_str("` in ");
        m.push_str(path);
        m.push_str("; edit them in the code view");
        proof {
            reveal_strlit(" events share the id `");
            reveal_strlit("` in ");
            reveal_strlit("; edit them in the code view");
        }
        return Err(EditError::Message(m));
    }
    proof {
        assert(derefs(found@)[0] == *found@[0]);
    }
    Ok(found[0])
}

// ---------------------------------------------------------------------------
// Checking an update
// ---------------------------------------------------------------------------

/// Why an update cannot be written, if it cannot.
pub open spec fn validate_spec(u: EventUpdate) -> Option<Seq<char>> {
    let id = trim_spec(u.id@);
    if id.len() == 0 {
        Some("an event needs an id"@)
    } else if needs_quotes_spec(id) {
        Some("`"@ + id + "` cannot be an event id: use a namespace, a dot and a number"@)
    } else if !event_kind(trim_spec(u.kind@)) {
        Some("`"@ + u.kind@ + "` is not an event kind; use one of country_event, news_event, state_event, unit_leader_event, operative_leader_event"@)
    } else {
        None
    }
}

pub fn validate(update: &EventUpdate) -> (r: Result<(), EditError>)
    ensures
        match validate_spec(*update) {
            Some(m) => r matches Err(EditError::Message(t)) && t@ == m,
            None => r is Ok,
        },
{
    let id = trim(update.id.as_str());
    if id.as_str().is_empty() {
        let m = "an event needs an id".to_owned();
        proof {
            reveal_strlit("an event needs an id");
        }
        return Err(EditError::Message(m));
    }
    if needs_quotes(id.as_str()) {
        let mut m = "`".to_owned();
        m.push_str(id.as_str());
        m.push_str("` cannot be an event id: use a namespace, a dot and a number");
        proof {
            reveal_strlit("`");
            reveal_strlit("` cannot be an event id: use a namespace, a dot and a number");
        }
        return Err(EditError::Message(m));
    }
    let kind = trim(update.kind.as_str());
    if !is_event_kind(kind.as_str()) {
        let mut m = "`".to_owned();
        m.push_str(update.kind.as_str());
        m.push_str("` is not an event kind; use one of country_event, news_event, state_event, unit_leader_event, operative_leader_event");
        proof {
            reveal_strlit("`");
            reveal_strlit("` is not an event kind; use one of country_event, news_event, state_event, unit_leader_event, operative_leader_event");
        }
        return Err(EditError::Message(m));
    }
    Ok(())
}

// ---------------------------------------------------------------------------
// Rendering
// ---------------------------------------------------------------------------
//
// The renderers produce a block body with `\n` line breaks and no leading
// indentation; the formatter re-indents it wherever it lands.

/// A title or description that is a `{ text = ... }` block body rather than
/// a localisation key.
pub open spec fn scripted(value: Seq<char>) -> bool {
    let t = trim_spec(value);
    t.contains('{') || t.contains('=') || exists|k: int| 0 <= k < t.len() && crate::text::is_ws(#[trigger] t[k])
}

fn is_scripted(value: &str) -> (r: bool)
    ensures
        r == scripted(value@),
{
    let t = trim(value);
    let v = chars_of(t.as_str());
    let mut i: usize = 0;
    while i < v.len()
        invariant
            i <= v@.len(),
            v@ == t@,
            t@ == trim_spec(value@),
            forall|k: int| 0 <= k < i ==> v@[k] != '{' && v@[k] != '=' && !crate::text::is_ws(#[trigger] v@[k]),
        decreases v@.len() - i,
    {
        if v[i] == '{' || v[i] == '=' || crate::text::is_whitespace(v[i]) {
            proof {
                if v@[i as int] == '{' {
                    assert(t@.contains('{'));
                } else if v@[i as int] == '=' {
                    assert(t@.contains('='));
                } else {
                    assert(crate::text::is_ws(trim_spec(value@)[i as int]));
                }
            }
            return true;
        }
        i = i + 1;
    }
    proof {
        if t@.contains('{') {
            let k = choose|k: int| 0 <= k < t@.len() && t@[k] == '{';
            assert(v@[k] != '{');
        }
        if t@.contains('=') {
            let k = choose|k: int| 0 <= k < t@.len() && t@[k] == '=';
            assert(v@[k] != '=');
        }
    }
    false
}

/// A key as written, or a scripted value as a block laid out at `indent`.
pub open spec fn render_text_spec(value: Seq<char>, indent: Seq<char>, newline: Seq<char>) -> Option<Seq<char>> {
    if scripted(value) {
        crate::script::fmt_block(value, indent, newline)
    } else {
        Some(value)
    }
}

fn render_text(value: &str, indent: &str, newline: &str) -> (r: Option<String>)
    ensures
        opt_text(r) == render_text_spec(value@, indent@, newline@),
{
    if is_scripted(value) {
        try_format_block(value, indent, newline)
    } else {
        Some(value.to_owned())
    }
}

/// `key = value`, quoted when it has to be; nothing for a blank value.
pub open spec fn scalar_lines(key: Seq<char>, value: Seq<char>) -> Seq<Seq<char>> {
    let t = trim_spec(value);
    if t.len() == 0 {
        Seq::empty()
    } else {
        seq![key + " = "@ + crate::paradox::edit::raw_spec(t)]
    }
}

fn push_raw_scalar(lines: &mut Vec<String>, key: &str, value: &str)
    ensures
        views(final(lines)@) == views(old(lines)@) + scalar_lines(key@, value@),
{
    let ghost before = views(lines@);
    let trimmed = trim(value);
    if trimmed.as_str().is_empty() {
        assert(views(lines@) =~= before + scalar_lines(key@, value@));
        return;
    }
    let raw = if needs_quotes(trimmed.as_str()) {
        quote(trimmed.as_str())
    } else {
        trimmed.as_str().to_owned()
    };
    let mut line = key.to_owned();
    line.push_str(" = ");
    line.push_str(raw.as_str());
    lines.push(line);
    proof {
        reveal_strlit(" = ");
    }
    assert(views(lines@) =~= before + scalar_lines(key@, value@));
}

/// The body of a new option block: its name, then its effects dedented.
pub open spec fn option_lines(o: EventOption) -> Option<Seq<Seq<char>>> {
    let body = trim_spec(o.body@);
    if body.len() == 0 {
        Some(scalar_lines("name"@, o.name@))
    } else if crate::paradox::edit::dedent_fits(encode_utf8(body)) {
        Some(scalar_lines("name"@, o.name@) + crate::paradox::edit::dedent_spec(encode_utf8(body)))
    } else {
        None
    }
}

pub open spec fn render_option_spec(o: EventOption) -> Option<Seq<char>> {
    match option_lines(o) {
        Some(ls) => Some(join(ls, "\n"@)),
        None => None,
    }
}

fn render_option(option: &EventOption) -> (r: Option<String>)
    ensures
        opt_text(r) == render_option_spec(*option),
{
    let mut lines: Vec<String> = Vec::new();
    push_raw_scalar(&mut lines, "name", option.name.as_str());
    let ghost named = views(lines@);
    let body = trim(option.body.as_str());
    if !body.as_str().is_empty() {
        let dedented = match crate::paradox::edit::try_dedent(body.as_str()) {
            Some(ls) => ls,
            None => {
                return None;
            },
        };
        let mut i: usize = 0;
        while i < dedented.len()
            invariant
                i <= dedented@.len(),
                views(lines@) == named + views(dedented@).take(i as int),
            decreases dedented@.len() - i,
        {
            let ghost was = views(lines@);
            let line = dedented[i].as_str().to_owned();
            lines.push(line);
            assert(views(lines@) =~= was.push(views(dedented@)[i as int]));
            assert(views(dedented@).take(i + 1) =~= views(dedented@).take(i as int).push(views(dedented@)[i as int]));
            assert(views(lines@) =~= named + views(dedented@).take(i + 1));
            i = i + 1;
        }
        assert(views(dedented@).take(dedented@.len() as int) =~= views(dedented@));
        assert(views(dedented@) =~= crate::paradox::edit::dedent_spec(encode_utf8(body@)));
    } else {
        assert(views(lines@) =~= named);
    }
    Some(join_strings(&lines, "\n"))
}

/// One `key = text` line per non-blank value.
pub open spec fn text_lines(key: Seq<char>, values: Seq<Seq<char>>) -> Option<Seq<Seq<char>>>
    decreases values.len(),
{
    if values.len() == 0 {
        Some(Seq::empty())
    } else {
        let v = values.last();
        match text_lines(key, values.drop_last()) {
            Some(ls) => if trim_spec(v).len() == 0 {
                Some(ls)
            } else {
                match render_text_spec(trim_spec(v), Seq::empty(), "\n"@) {
                    Some(t) => Some(ls.push(key + " = "@ + t)),
                    None => None,
                }
            },
            None => None,
        }
    }
}

/// A blank line, then `key = { body }` with its braces on lines of their
/// own, for a non-blank body.
pub open spec fn section_lines(key: Seq<char>, value: Seq<char>) -> Option<Seq<Seq<char>>> {
    if trim_spec(value).len() == 0 {
        Some(Seq::empty())
    } else {
        match crate::script::fmt_lines(value, Seq::empty(), "\n"@) {
            Some(t) => Some(seq![Seq::empty(), key + " = "@ + t]),
            None => None,
        }
    }
}

/// A blank line and an option block for each option.
pub open spec fn options_lines(os: Seq<EventOption>) -> Option<Seq<Seq<char>>>
    decreases os.len(),
{
    if os.len() == 0 {
        Some(Seq::empty())
    } else {
        match (options_lines(os.drop_last()), render_option_spec(os.last())) {
            (Some(ls), Some(body)) => match crate::script::fmt_lines(body, Seq::empty(), "\n"@) {
                Some(t) => Some(ls + seq![Seq::empty(), "option = "@ + t]),
                None => None,
            },
            _ => None,
        }
    }
}

pub open spec fn flags_part(u: EventUpdate) -> Seq<Seq<char>> {
    scalar_lines("picture"@, u.picture@) + scalar_lines("fire_only_once"@, u.fire_only_once@)
        + scalar_lines("is_triggered_only"@, u.is_triggered_only@) + scalar_lines("hidden"@, u.hidden@)
        + scalar_lines("major"@, u.major@) + scalar_lines("timeout_days"@, u.timeout_days@)
}

/// The lines of a new event block.
pub open spec fn event_lines(u: EventUpdate) -> Option<Seq<Seq<char>>> {
    crate::script::both(
        crate::script::both(
            crate::script::both(
                crate::script::both(
                    crate::script::both(
                        Some(scalar_lines("id"@, u.id@)),
                        text_lines("title"@, views(u.titles@)),
                    ),
                    text_lines("desc"@, views(u.descs@)),
                ),
                Some(flags_part(u)),
            ),
            crate::script::both(
                crate::script::both(
                    section_lines("trigger"@, u.trigger@),
                    section_lines("mean_time_to_happen"@, u.mean_time_to_happen@),
                ),
                section_lines("immediate"@, u.immediate@),
            ),
        ),
        options_lines(u.options@),
    )
}

pub open spec fn render_event_spec(u: EventUpdate) -> Option<Seq<char>> {
    match event_lines(u) {
        Some(ls) => Some(join(ls, "\n"@)),
        None => None,
    }
}

fn push_texts(lines: &mut Vec<String>, key: &str, values: &Vec<String>) -> (ok: bool)
    ensures
        ok <==> text_lines(key@, views(values@)) is Some,
        ok ==> views(final(lines)@) == views(old(lines)@) + text_lines(key@, views(values@))->0,
{
    let ghost before = views(lines@);
    let mut i: usize = 0;
    assert(views(values@).take(0) =~= Seq::<Seq<char>>::empty());
    assert(views(lines@) =~= before + Seq::<Seq<char>>::empty());
    while i < values.len()
        invariant
            i <= values@.len(),
            text_lines(key@, views(values@).take(i as int)) is Some,
            views(lines@) == before + text_lines(key@, views(values@).take(i as int))->0,
        decreases values@.len() - i,
    {
        proof {
            assert(views(values@).take(i + 1).drop_last() =~= views(values@).take(i as int));
            assert(views(values@).take(i + 1).last() == values@[i as int]@);
            reveal_strlit("");
            reveal_strlit("\n");
            assert(""@ =~= Seq::<char>::empty());
        }
        let value = trim(values[i].as_str());
        if !value.as_str().is_empty() {
            proof {
                crate::text::lemma_trim_idempotent(values@[i as int]@);
            }
            match render_text(value.as_str(), "", "\n") {
                Some(text) => {
                    let ghost was = views(lines@);
                    let mut line = key.to_owned();
                    line.push_str(" = ");
                    line.push_str(text.as_str());
                    lines.push(line);
                    proof {
                        reveal_strlit(" = ");
                    }
                    assert(views(lines@) =~= was.push(line@));
                },
                None => {
                    proof {
                        lemma_text_lines_none(key@, views(values@), i as int);
                    }
                    return false;
                },
            }
        }
        i = i + 1;
    }
    assert(views(values@).take(values@.len() as int) =~= views(values@));
    true
}

proof fn lemma_text_lines_none(key: Seq<char>, values: Seq<Seq<char>>, i: int)
    requires
        0 <= i < values.len(),
        trim_spec(values[i]).len() != 0,
        render_text_spec(trim_spec(values[i]), Seq::empty(), "\n"@) is None,
    ensures
        text_lines(key, values) is None,
    decreases values.len(),
{
    if i < values.len() - 1 {
        assert(values.drop_last()[i] == values[i]);
        lemma_text_lines_none(key, values.drop_last(), i);
    }
}

fn push_section(lines: &mut Vec<String>, key: &str, value: &str) -> (ok: bool)
    ensures
        ok <==> section_lines(key@, value@) is Some,
        ok ==> views(final(lines)@) == views(old(lines)@) + section_lines(key@, value@)->0,
{
    let ghost before = views(lines@);
    let trimmed = trim(value);
    if trimmed.as_str().is_empty() {
        assert(views(lines@) =~= before + Seq::<Seq<char>>::empty());
        return true;
    }
    proof {
        reveal_strlit("");
        reveal_strlit("\n");
        assert(""@ =~= Seq::<char>::empty());
    }
    match format_lines(value, "", "\n") {
        Some(block) => {
            lines.push(String::new());
            let mut line = key.to_owned();
            line.push_str(" = ");
            line.push_str(block.as_str());
            lines.push(line);
            proof {
                reveal_strlit(" = ");
            }
            assert(views(lines@) =~= before + seq![Seq::<char>::empty(), line@]);
            true
        },
        None => false,
    }
}

fn push_options(lines: &mut Vec<String>, options: &Vec<EventOption>) -> (ok: bool)
    ensures
        ok <==> options_lines(options@) is Some,
        ok ==> views(final(lines)@) == views(old(lines)@) + options_lines(options@)->0,
{
    let ghost before = views(lines@);
    let mut i: usize = 0;
    assert(options@.take(0) =~= Seq::<EventOption>::empty());
    assert(views(lines@) =~= before + Seq::<Seq<char>>::empty());
    while i < options.len()
        invariant
            i <= options@.len(),
            options_lines(options@.take(i as int)) is Some,
            views(lines@) == before + options_lines(options@.take(i as int))->0,
        decreases options@.len() - i,
    {
        proof {
            assert(options@.take(i + 1).drop_last() =~= options@.take(i as int));
            assert(options@.take(i + 1).last() == options@[i as int]);
            reveal_strlit("");
            reveal_strlit("\n");
            assert(""@ =~= Seq::<char>::empty());
        }
        let body = match render_option(&options[i]) {
            Some(b) => b,
            None => {
                proof {
                    lemma_options_lines_none(options@, i as int);
                }
                return false;
            },
        };
        match format_lines(body.as_str(), "", "\n") {
            Some(block) => {
                let ghost was = views(lines@);
                lines.push(String::new());
                let mut line = "option = ".to_owned();
                line.push_str(block.as_str());
                lines.push(line);
                proof {
                    reveal_strlit("option = ");
                }
                assert(views(lines@) =~= was + seq![Seq::<char>::empty(), line@]);
            },
            None => {
                proof {
                    lemma_options_lines_none(options@, i as int);
                }
                return false;
            },
        }
        i = i + 1;
    }
    assert(options@.take(options@.len() as int) =~= options@);
    true
}

proof fn lemma_options_lines_none(os: Seq<EventOption>, i: int)
    requires
        0 <= i < os.len(),
        match render_option_spec(os[i]) {
            Some(body) => crate::script::fmt_lines(body, Seq::empty(), "\n"@) is None,
            None => true,
        },
    ensures
        options_lines(os) is None,
    decreases os.len(),
{
    if i < os.len() - 1 {
        assert(os.drop_last()[i] == os[i]);
        lemma_options_lines_none(os.drop_last(), i);
    }
}

fn push_flags(lines: &mut Vec<String>, u: &EventUpdate)
    ensures
        views(final(lines)@) == views(old(lines)@) + flags_part(*u),
{
    let ghost before = views(lines@);
    push_raw_scalar(lines, "picture", u.picture.as_str());
    push_raw_scalar(lines, "fire_only_once", u.fire_only_once.as_str());
    push_raw_scalar(lines, "is_triggered_only", u.is_triggered_only.as_str());
    push_raw_scalar(lines, "hidden", u.hidden.as_str());
    push_raw_scalar(lines, "major", u.major.as_str());
    push_raw_scalar(lines, "timeout_days", u.timeout_days.as_str());
    assert(views(lines@) =~= before + flags_part(*u));
}

fn push_sections(lines: &mut Vec<String>, u: &EventUpdate) -> (ok: bool)
    ensures
        ok <==> crate::script::both(crate::script::both(section_lines("trigger"@, u.trigger@), section_lines("mean_time_to_happen"@, u.mean_time_to_happen@)), section_lines("immediate"@, u.immediate@)) is Some,
        ok ==> views(final(lines)@) == views(old(lines)@) + crate::script::both(crate::script::both(section_lines("trigger"@, u.trigger@), section_lines("mean_time_to_happen"@, u.mean_time_to_happen@)), section_lines("immediate"@, u.immediate@))->0,
{
    let ghost before = views(lines@);
    if !push_section(lines, "trigger", u.trigger.as_str()) {
        return false;
    }
    if !push_section(lines, "mean_time_to_happen", u.mean_time_to_happen.as_str()) {
        return false;
    }
    if !push_section(lines, "immediate", u.immediate.as_str()) {
        return false;
    }
    assert(views(lines@) =~= before + crate::script::both(crate::script::both(section_lines("trigger"@, u.trigger@), section_lines("mean_time_to_happen"@, u.mean_time_to_happen@)), section_lines("immediate"@, u.immediate@))->0);
    true
}

/// The body of a new event block.
pub fn render_event(event: &EventUpdate) -> (r: Option<String>)
    ensures
        opt_text(r) == render_event_spec(*event),
{
    let mut lines: Vec<String> = Vec::new();
    push_raw_scalar(&mut lines, "id", event.id.as_str());
    if !push_texts(&mut lines, "title", &event.titles) {
        return None;
    }
    if !push_texts(&mut lines, "desc", &event.descs) {
        return None;
    }
    push_flags(&mut lines, event);
    if !push_sections(&mut lines, event) {
        return None;
    }
    if !push_options(&mut lines, &event.options) {
        return None;
    }
    assert(views(lines@) =~= event_lines(*event)->0);
    Some(join_strings(&lines, "\n"))
}

// ---------------------------------------------------------------------------
// Editing in place
// ---------------------------------------------------------------------------

/// The non-blank values, trimmed, in order.
fn wanted_texts(values: &Vec<String>) -> (r: Vec<String>)
    ensures
        views(r@) == kept_values(views(values@)),
{
    let mut r: Vec<String> = Vec::new();
    let mut i: usize = 0;
    while i < values.len()
        invariant
            i <= values@.len(),
            views(r@) == kept_values(views(values@).take(i as int)),
        decreases values@.len() - i,
    {
        let t = trim(values[i].as_str());
        proof {
            lemma_trimmed_kept(values@, i as int, t@);
        }
        if !t.as_str().is_empty() {
            r.push(t);
        }
        proof {
            assert(views(r@) =~= kept_values(views(values@).take(i as int + 1)));
        }
        i = i + 1;
    }
    proof {
        assert(views(values@).take(values@.len() as int) =~= views(values@));
    }
    r
}

/// An entry set to `w`: left alone when its body already reads `w`, else
/// its value rewritten; `None` where `w` cannot be laid out.
pub open spec fn text_rewrite(b: Seq<u8>, pair: Pair, w: Seq<char>) -> Option<ChangeView> {
    if body_fits(b, pair.value) && block_body_spec(b, pair.value) == w {
        Some(ChangeView::Nothing)
    } else {
        match render_text_spec(w, indent_spec(b, pair.span.start as int), newline_spec(b)) {
            Some(t) => Some(ChangeView::Replace(value_span(pair.value), t)),
            None => None,
        }
    }
}

/// Each wanted text past the first `n`, added as `key = text`; `None`
/// where it cannot be laid out.
pub open spec fn text_additions(
    b: Seq<u8>,
    block: Block,
    key: Seq<char>,
    n: nat,
    wanted: Seq<Seq<char>>,
) -> Seq<Option<ChangeView>> {
    Seq::new(
        beyond(wanted.len(), n),
        |k: int|
            match render_text_spec(wanted[n + k], child_indent_spec(b, block), newline_spec(b)) {
                Some(t) => Some(ChangeView::Add(assignment(key, t))),
                None => None,
            },
    )
}

/// The attempts `set_texts` makes on a block whose entries under `key` are
/// `pairs`: rewrites by position, then removals, then additions.
#[verifier::opaque]
pub open spec fn text_attempts(
    b: Seq<u8>,
    block: Block,
    pairs: Seq<Pair>,
    key: Seq<char>,
    wanted: Seq<Seq<char>>,
) -> Seq<Option<ChangeView>> {
    Seq::new(shorter(wanted.len(), pairs.len()), |i: int| text_rewrite(b, pairs[i], wanted[i])) + sure(
        extra_removals(b, pairs, wanted.len()),
    ) + text_additions(b, block, key, pairs.len(), wanted)
}

pub(crate) proof fn lemma_text_attempt(
    b: Seq<u8>,
    block: Block,
    pairs: Seq<Pair>,
    key: Seq<char>,
    w: Seq<Seq<char>>,
    at: int,
)
    ensures
        text_attempts(b, block, pairs, key, w).len() == shorter(w.len(), pairs.len()) + extra_removals(
            b,
            pairs,
            w.len(),
        ).len() + beyond(w.len(), pairs.len()),
        0 <= at < text_attempts(b, block, pairs, key, w).len() ==> text_attempts(b, block, pairs, key, w)[at]
            == (if at < shorter(w.len(), pairs.len()) {
            text_rewrite(b, pairs[at], w[at])
        } else if at < shorter(w.len(), pairs.len()) + extra_removals(b, pairs, w.len()).len() {
            Some(extra_removals(b, pairs, w.len())[at - shorter(w.len(), pairs.len())])
        } else {
            text_additions(b, block, key, pairs.len(), w)[at - shorter(w.len(), pairs.len())
                - extra_removals(b, pairs, w.len()).len()]
        }),
{
    reveal(text_attempts);
}

/// Writes a repeated key holding either a localisation key or a block, by
/// position: entries already saying the same are left alone, extra ones
/// are dropped, new ones appended. `false` where a block cannot be laid out.
#[verifier::rlimit(40)]
fn set_texts(editor: &mut BlockEditor, key: &str, values: &Vec<String>) -> (ok: bool)
    requires
        old(editor).wf(),
    ensures
        kept_target(*old(editor), *final(editor)),
        ok == all_some(
            text_attempts(
                old(editor).source_bytes(),
                old(editor).edited_block(),
                pairs_with(old(editor).edited_block().items@, key@),
                key@,
                kept_values(views(values@)),
            ),
        ) is Some,
        ok ==> made(
            *old(editor),
            *final(editor),
            all_some(
                text_attempts(
                    old(editor).source_bytes(),
                    old(editor).edited_block(),
                    pairs_with(old(editor).edited_block().items@, key@),
                    key@,
                    kept_values(views(values@)),
                ),
            )->0,
        ),
{
    let ghost e0 = *editor;
    let source = editor.source();
    let block = editor.block();
    let newline = detect_newline(source);
    let wanted = wanted_texts(values);
    let existing = block.find_all(key);
    let ghost b = bytes_of(source);
    let ghost pairs = pairs_with(block.items@, key@);
    let ghost w = views(wanted@);
    let ghost all = text_attempts(b, *block, pairs, key@, w);
    let ghost n = shorter(w.len(), pairs.len());
    let ghost extra = extra_removals(b, pairs, w.len());
    let ghost mut done: Seq<ChangeView> = Seq::empty();
    proof {
        editor.lemma_block_fits();
        crate::script::lemma_find_all_derefs(existing@, block.items@, key@);
        lemma_items_fit(bytes_of(source), block.items@, key@);
        lemma_made_none(*editor);
        lemma_text_attempt(b, *block, pairs, key@, w, 0);
        assert(all.take(0) =~= Seq::<Option<ChangeView>>::empty());
    }
    let mut i: usize = 0;
    while i < wanted.len() && i < existing.len()
        invariant
            e0 == *old(editor),
            b == e0.source_bytes(),
            *block == e0.edited_block(),
            editor.source_bytes() == bytes_of(source),
            bytes_of(source) == b,
            newline@ == newline_spec(b),
            derefs(existing@) == pairs,
            pairs_fit(b, pairs),
            w == views(wanted@),
            w == kept_values(views(values@)),
            pairs == pairs_with(e0.edited_block().items@, key@),
            all == text_attempts(b, *block, pairs, key@, w),
            n == shorter(w.len(), pairs.len()),
            i <= n,
            all_some(all.take(i as int)) == Some(done),
            made(e0, *editor, done),
        decreases wanted@.len() - i,
    {
        let pair = existing[i];
        let ghost e1 = *editor;
        proof {
            assert(derefs(existing@)[i as int] == *pair);
            assert(item_fits(b, Item::Pair(pairs[i as int])));
            lemma_text_attempt(b, *block, pairs, key@, w, i as int);
            assert(all.take(i as int + 1) =~= all.take(i as int).push(all[i as int]));
            lemma_all_some_push(all.take(i as int), all[i as int]);
        }
        let same = match try_block_body(source, &pair.value) {
            Some(body) => str_eq(body.as_str(), wanted[i].as_str()),
            None => false,
        };
        if !same {
            let indent = indent_at(source, pair.span.start);
            match render_text(wanted[i].as_str(), indent.as_str(), newline) {
                Some(text) => {
                    let edit = TextEdit::new(pair.value.span(), text);
                    proof {
                        assert(seq![edit][0] == edit);
                        assert(item_fits(b, Item::Pair(*pair)));
                        assert(edits_fit(b, seq![edit]));
                    }
                    if !edit_fits(source, &edit) {
                        return false;
                    }
                    editor.edit(edit);
                },
                None => {
                    proof {
                        assert(all =~= all.take(i as int).push(None) + all.skip(i as int + 1));
                        lemma_all_some_fails(all.take(i as int), all.skip(i as int + 1));
                    }
                    return false;
                },
            }
        }
        proof {
            lemma_made_push(e0, e1, *editor, done, all[i as int]->0);
            done = done.push(all[i as int]->0);
        }
        i = i + 1;
    }
    let mut k: usize = wanted.len();
    while k < existing.len()
        invariant
            e0 == *old(editor),
            b == e0.source_bytes(),
            editor.source_bytes() == bytes_of(source),
            bytes_of(source) == b,
            derefs(existing@) == pairs,
            pairs_fit(b, pairs),
            w == views(wanted@),
            w == kept_values(views(values@)),
            pairs == pairs_with(e0.edited_block().items@, key@),
            all == text_attempts(b, *block, pairs, key@, w),
            n == shorter(w.len(), pairs.len()),
            extra == extra_removals(b, pairs, w.len()),
            w.len() <= k,
            k <= pairs.len() || k == w.len(),
            all_some(all.take(n + k - w.len())) == Some(done),
            made(e0, *editor, done),
        decreases existing@.len() - k,
    {
        let ghost e1 = *editor;
        let ghost at = n + k - w.len();
        proof {
            assert(derefs(existing@)[k as int] == *existing@[k as int]);
            assert(item_fits(b, Item::Pair(pairs[k as int])));
            lemma_text_attempt(b, *block, pairs, key@, w, at);
            assert(all.take(at + 1) =~= all.take(at).push(all[at]));
            lemma_all_some_push(all.take(at), all[at]);
        }
        editor.remove(existing[k]);
        proof {
            lemma_made_push(e0, e1, *editor, done, extra[k - w.len()]);
            done = done.push(extra[k - w.len()]);
        }
        k = k + 1;
    }
    let indent = child_indent(source, block);
    let mut j: usize = existing.len();
    while j < wanted.len()
        invariant
            e0 == *old(editor),
            b == e0.source_bytes(),
            *block == e0.edited_block(),
            bytes_of(source) == b,
            newline@ == newline_spec(b),
            indent@ == child_indent_spec(b, *block),
            w == views(wanted@),
            w == kept_values(views(values@)),
            pairs == pairs_with(e0.edited_block().items@, key@),
            pairs.len() == existing@.len(),
            all == text_attempts(b, *block, pairs, key@, w),
            n == shorter(w.len(), pairs.len()),
            extra == extra_removals(b, pairs, w.len()),
            pairs.len() <= j,
            j <= w.len() || j == pairs.len(),
            all_some(all.take(n + extra.len() + j - pairs.len())) == Some(done),
            made(e0, *editor, done),
        decreases wanted@.len() - j,
    {
        let ghost e1 = *editor;
        let ghost at = n + extra.len() + j - pairs.len();
        proof {
            lemma_text_attempt(b, *block, pairs, key@, w, at);
            assert(all.take(at + 1) =~= all.take(at).push(all[at]));
            lemma_all_some_push(all.take(at), all[at]);
        }
        match render_text(wanted[j].as_str(), indent.as_str(), newline) {
            Some(text) => {
                let mut line = key.to_owned();
                line.push_str(" = ");
                line.push_str(text.as_str());
                editor.add_line(line);
                proof {
                    reveal_strlit(" = ");
                    assert(line@ =~= assignment(key@, text@));
                    lemma_made_push(e0, e1, *editor, done, all[at]->0);
                    done = done.push(all[at]->0);
                }
            },
            None => {
                proof {
                    assert(all[at] is None);
                    assert(all =~= all.take(at).push(None) + all.skip(at + 1));
                    lemma_all_some_fails(all.take(at), all.skip(at + 1));
                }
                return false;
            },
        }
        j = j + 1;
    }
    proof {
        lemma_text_attempt(b, *block, pairs, key@, w, 0);
        assert(all.take(all.len() as int) =~= all);
    }
    true
}

/// An option's own edits when only its name is set: the inner editor's
/// edits, finished.
pub open spec fn renamed(b: Seq<u8>, inner: Block, o: EventOption) -> Seq<(Span, Seq<char>)> {
    finished(
        b,
        inner,
        record(Seq::empty(), Seq::empty(), scalar_change_spec(b, inner, "name"@, o.name@)),
    )
}

/// An option written out again at `span`, laid out from the line at `at`.
pub open spec fn option_written(b: Seq<u8>, at: int, span: Span, o: EventOption) -> Option<Seq<ChangeView>> {
    match render_option_spec(o) {
        Some(body) => match fmt_lines(body, indent_spec(b, at), newline_spec(b)) {
            Some(t) => Some(seq![ChangeView::Replace(span, t)]),
            None => None,
        },
        None => None,
    }
}

/// What happens to an option already there: when its effects did not
/// change, only its name is set; otherwise it is written out again.
pub open spec fn option_rewrite(b: Seq<u8>, pair: Pair, o: EventOption) -> Option<Seq<ChangeView>> {
    match pair.value {
        Value::Block(inner) => if body_without_spec(b, inner, pairs_with(inner.items@, "name"@))
            == trim_spec(o.body@) {
            if views_fit(b, renamed(b, inner, o)) {
                Some(handed_on(renamed(b, inner, o)))
            } else {
                None
            }
        } else {
            option_written(b, pair.span.start as int, value_span(pair.value), o)
        },
        Value::Scalar(_) => option_written(b, pair.span.start as int, value_span(pair.value), o),
    }
}

/// A new option, added as `option = { ... }`.
pub open spec fn option_addition(b: Seq<u8>, block: Block, o: EventOption) -> Option<Seq<ChangeView>> {
    match render_option_spec(o) {
        Some(body) => match fmt_lines(body, child_indent_spec(b, block), newline_spec(b)) {
            Some(t) => Some(seq![ChangeView::Add("option = "@ + t)]),
            None => None,
        },
        None => None,
    }
}

/// The runs of changes `set_options` makes on a block whose options are
/// `pairs`: rewrites by position, then removals, then additions.
#[verifier::opaque]
pub open spec fn option_attempts(
    b: Seq<u8>,
    block: Block,
    pairs: Seq<Pair>,
    options: Seq<EventOption>,
) -> Seq<Option<Seq<ChangeView>>> {
    let extra = extra_removals(b, pairs, options.len());
    Seq::new(shorter(options.len(), pairs.len()), |i: int| option_rewrite(b, pairs[i], options[i]))
        + Seq::new(extra.len(), |k: int| Some(seq![extra[k]])) + Seq::new(
        beyond(options.len(), pairs.len()),
        |k: int| option_addition(b, block, options[pairs.len() + k]),
    )
}

pub(crate) proof fn lemma_option_attempt(b: Seq<u8>, block: Block, pairs: Seq<Pair>, options: Seq<EventOption>, at: int)
    ensures
        option_attempts(b, block, pairs, options).len() == shorter(options.len(), pairs.len())
            + extra_removals(b, pairs, options.len()).len() + beyond(options.len(), pairs.len()),
        0 <= at < option_attempts(b, block, pairs, options).len() ==> option_attempts(
            b,
            block,
            pairs,
            options,
        )[at] == (if at < shorter(options.len(), pairs.len()) {
            option_rewrite(b, pairs[at], options[at])
        } else if at < shorter(options.len(), pairs.len()) + extra_removals(b, pairs, options.len()).len() {
            Some(seq![extra_removals(b, pairs, options.len())[at - shorter(options.len(), pairs.len())]])
        } else {
            option_addition(
                b,
                block,
                options[pairs.len() + at - shorter(options.len(), pairs.len()) - extra_removals(
                    b,
                    pairs,
                    options.len(),
                ).len()],
            )
        }),
{
    reveal(option_attempts);
}

/// Writes the options by position. An option whose effects did not change
/// has only its name set, so comments in it survive; one whose effects
/// changed is written out again from the text the form holds.
#[verifier::rlimit(40)]
fn set_options(editor: &mut BlockEditor, options: &Vec<EventOption>) -> (ok: bool)
    requires
        old(editor).wf(),
    ensures
        kept_target(*old(editor), *final(editor)),
        ok == all_runs(
            option_attempts(
                old(editor).source_bytes(),
                old(editor).edited_block(),
                pairs_with(old(editor).edited_block().items@, "option"@),
                options@,
            ),
        ) is Some,
        ok ==> made(
            *old(editor),
            *final(editor),
            all_runs(
                option_attempts(
                    old(editor).source_bytes(),
                    old(editor).edited_block(),
                    pairs_with(old(editor).edited_block().items@, "option"@),
                    options@,
                ),
            )->0,
        ),
{
    let ghost e0 = *editor;
    let source = editor.source();
    let block = editor.block();
    let newline = detect_newline(source);
    let existing = block.find_all("option");
    let ghost b = bytes_of(source);
    let ghost pairs = pairs_with(block.items@, "option"@);
    let ghost all = option_attempts(b, *block, pairs, options@);
    let ghost n = shorter(options@.len(), pairs.len());
    let ghost extra = extra_removals(b, pairs, options@.len());
    let ghost mut done: Seq<ChangeView> = Seq::empty();
    proof {
        editor.lemma_block_fits();
        crate::script::lemma_find_all_derefs(existing@, block.items@, "option"@);
        lemma_items_fit(bytes_of(source), block.items@, "option"@);
        lemma_made_none(*editor);
        lemma_option_attempt(b, *block, pairs, options@, 0);
        assert(all.take(0) =~= Seq::<Option<Seq<ChangeView>>>::empty());
    }
    let mut i: usize = 0;
    while i < options.len() && i < existing.len()
        invariant
            e0 == *old(editor),
            b == e0.source_bytes(),
            *block == e0.edited_block(),
            editor.source_bytes() == bytes_of(source),
            bytes_of(source) == b,
            newline@ == newline_spec(b),
            derefs(existing@) == pairs,
            pairs == pairs_with(e0.edited_block().items@, "option"@),
            pairs_fit(b, pairs),
            all == option_attempts(b, *block, pairs, options@),
            n == shorter(options@.len(), pairs.len()),
            i <= n,
            all_runs(all.take(i as int)) == Some(done),
            made(e0, *editor, done),
        decreases options@.len() - i,
    {
        let pair = existing[i];
        let ghost e1 = *editor;
        proof {
            assert(derefs(existing@)[i as int] == *pair);
            assert(item_fits(b, Item::Pair(pairs[i as int])));
            lemma_option_attempt(b, *block, pairs, options@, i as int);
            assert(all.take(i as int + 1) =~= all.take(i as int).push(all[i as int]));
            lemma_all_runs_push(all.take(i as int), all[i as int]);
        }
        let option = &options[i];
        let indent = indent_at(source, pair.span.start);
        let kept = match &pair.value {
            Value::Block(inner_block) => {
                proof {
                    crate::script::lemma_block_items_fit(bytes_of(source), *inner_block);
                    lemma_items_fit(bytes_of(source), inner_block.items@, "name"@);
                }
                let names = inner_block.find_all("name");
                proof {
                    crate::script::lemma_find_all_derefs(names@, inner_block.items@, "name"@);
                }
                let rest = body_without(source, inner_block, &names);
                let wanted = trim(option.body.as_str());
                if str_eq(rest.as_str(), wanted.as_str()) {
                    let mut inner = BlockEditor::new(source, inner_block);
                    inner.set_scalar("name", option.name.as_str());
                    if !hand_on(editor, inner) {
                        proof {
                            assert(all =~= all.take(i as int).push(None) + all.skip(i as int + 1));
                            lemma_all_runs_fails(all.take(i as int), all.skip(i as int + 1));
                        }
                        return false;
                    }
                    proof {
                        lemma_made_then(e0, e1, *editor, done, all[i as int]->0);
                    }
                    true
                } else {
                    false
                }
            },
            _ => false,
        };
        if !kept {
            let body = match render_option(option) {
                Some(b) => b,
                None => {
                    proof {
                        assert(all =~= all.take(i as int).push(None) + all.skip(i as int + 1));
                        lemma_all_runs_fails(all.take(i as int), all.skip(i as int + 1));
                    }
                    return false;
                },
            };
            match format_lines(body.as_str(), indent.as_str(), newline) {
                Some(text) => {
                    let edit = TextEdit::new(pair.value.span(), text);
                    proof {
                        assert(seq![edit][0] == edit);
                        assert(item_fits(b, Item::Pair(*pair)));
                        assert(edits_fit(b, seq![edit]));
                    }
                    if !edit_fits(source, &edit) {
                        return false;
                    }
                    editor.edit(edit);
                    proof {
                        lemma_made_one(e1, *editor, ChangeView::Replace(edit.span, edit.replacement@));
                        lemma_made_then(e0, e1, *editor, done, all[i as int]->0);
                    }
                },
                None => {
                    proof {
                        assert(all =~= all.take(i as int).push(None) + all.skip(i as int + 1));
                        lemma_all_runs_fails(all.take(i as int), all.skip(i as int + 1));
                    }
                    return false;
                },
            }
        }
        proof {
            done = done + all[i as int]->0;
        }
        i = i + 1;
    }
    let mut k: usize = options.len();
    while k < existing.len()
        invariant
            e0 == *old(editor),
            b == e0.source_bytes(),
            editor.source_bytes() == bytes_of(source),
            bytes_of(source) == b,
            derefs(existing@) == pairs,
            pairs_fit(b, pairs),
            all == option_attempts(b, *block, pairs, options@),
            n == shorter(options@.len(), pairs.len()),
            extra == extra_removals(b, pairs, options@.len()),
            options@.len() <= k,
            k <= pairs.len() || k == options@.len(),
            all_runs(all.take(n + k - options@.len())) == Some(done),
            made(e0, *editor, done),
        decreases existing@.len() - k,
    {
        let ghost e1 = *editor;
        let ghost at = n + k - options@.len();
        proof {
            assert(derefs(existing@)[k as int] == *existing@[k as int]);
            assert(item_fits(b, Item::Pair(pairs[k as int])));
            lemma_option_attempt(b, *block, pairs, options@, at);
            assert(all.take(at + 1) =~= all.take(at).push(all[at]));
            lemma_all_runs_push(all.take(at), all[at]);
        }
        editor.remove(existing[k]);
        proof {
            lemma_made_one(e1, *editor, extra[k - options@.len()]);
            lemma_made_then(e0, e1, *editor, done, seq![extra[k - options@.len()]]);
            done = done + seq![extra[k - options@.len()]];
        }
        k = k + 1;
    }
    let indent = child_indent(source, block);
    let mut j: usize = existing.len();
    while j < options.len()
        invariant
            e0 == *old(editor),
            b == e0.source_bytes(),
            *block == e0.edited_block(),
            bytes_of(source) == b,
            newline@ == newline_spec(b),
            indent@ == child_indent_spec(b, *block),
            pairs == pairs_with(e0.edited_block().items@, "option"@),
            pairs.len() == existing@.len(),
            all == option_attempts(b, *block, pairs, options@),
            n == shorter(options@.len(), pairs.len()),
            extra == extra_removals(b, pairs, options@.len()),
            pairs.len() <= j,
            j <= options@.len() || j == pairs.len(),
            all_runs(all.take(n + extra.len() + j - pairs.len())) == Some(done),
            made(e0, *editor, done),
        decreases options@.len() - j,
    {
        let ghost e1 = *editor;
        let ghost at = n + extra.len() + j - pairs.len();
        proof {
            lemma_option_attempt(b, *block, pairs, options@, at);
            assert(all.take(at + 1) =~= all.take(at).push(all[at]));
            lemma_all_runs_push(all.take(at), all[at]);
        }
        let body = match render_option(&options[j]) {
            Some(b) => b,
            None => {
                proof {
                    assert(all[at] is None);
                    assert(all =~= all.take(at).push(None) + all.skip(at + 1));
                    lemma_all_runs_fails(all.take(at), all.skip(at + 1));
                }
                return false;
            },
        };
        match format_lines(body.as_str(), indent.as_str(), newline) {
            Some(text) => {
                let mut line = "option = ".to_owned();
                line.push_str(text.as_str());
                editor.add_line(line);
                proof {
                    lemma_made_one(e1, *editor, ChangeView::Add(line@));
                    lemma_made_then(e0, e1, *editor, done, all[at]->0);
                    done = done + all[at]->0;
                }
            },
            None => {
                proof {
                    assert(all[at] is None);
                    assert(all =~= all.take(at).push(None) + all.skip(at + 1));
                    lemma_all_runs_fails(all.take(at), all.skip(at + 1));
                }
                return false;
            },
        }
        j = j + 1;
    }
    proof {
        lemma_option_attempt(b, *block, pairs, options@, 0);
        assert(all.take(all.len() as int) =~= all);
    }
    true
}

/// The first event with `id`, if any.
pub open spec fn find_event_spec(items: Seq<Item>, id: Seq<char>) -> Option<Pair> {
    if events_with_id_spec(items, id).len() > 0 {
        Some(events_with_id_spec(items, id)[0])
    } else {
        None
    }
}

/// "an event with id `ID` already exists in this file".
pub open spec fn taken_message(id: Seq<char>) -> Seq<char> {
    "an event with id `"@ + id + "` already exists in this file"@
}

fn taken(id: &str) -> (m: String)
    ensures
        m@ == taken_message(id@),
{
    let mut m = "an event with id `".to_owned();
    m.push_str(id);
    m.push_str("` already exists in this file");
    proof {
        reveal_strlit("an event with id `");
        reveal_strlit("` already exists in this file");
    }
    m
}

/// Why `update_source` refuses an update of the event with `id`, before
/// any block is laid out.
pub open spec fn update_refusal(items: Seq<Item>, path: Seq<char>, id: Seq<char>, u: EventUpdate) -> Option<Seq<char>> {
    if lookup_refusal(items, id, path) is Some {
        lookup_refusal(items, id, path)
    } else if validate_spec(u) is Some {
        validate_spec(u)
    } else if trim_spec(u.id@) != id && find_event_spec(items, trim_spec(u.id@)) is Some {
        Some(taken_message(trim_spec(u.id@)))
    } else {
        None
    }
}

/// The plain flags of an event, each set as `set_scalar` does.
pub open spec fn event_scalars(b: Seq<u8>, block: Block, u: EventUpdate) -> Seq<ChangeView> {
    seq![
        scalar_change_spec(b, block, "picture"@, u.picture@),
        scalar_change_spec(b, block, "fire_only_once"@, u.fire_only_once@),
        scalar_change_spec(b, block, "is_triggered_only"@, u.is_triggered_only@),
        scalar_change_spec(b, block, "hidden"@, u.hidden@),
        scalar_change_spec(b, block, "major"@, u.major@),
        scalar_change_spec(b, block, "timeout_days"@, u.timeout_days@),
    ]
}

/// Every change `update_source` makes inside an event block, in order: id,
/// titles, descriptions, flags, the three script sections and the options.
/// `None` where one of them cannot be laid out.
pub open spec fn event_runs(b: Seq<u8>, block: Block, u: EventUpdate) -> Option<Seq<ChangeView>> {
    then_runs(
        then_runs(
            then_runs(
                then_runs(
                    then_runs(
                        Some(seq![scalar_change_spec(b, block, "id"@, trim_spec(u.id@))]),
                        all_some(
                            text_attempts(
                                b,
                                block,
                                pairs_with(block.items@, "title"@),
                                "title"@,
                                kept_values(views(u.titles@)),
                            ),
                        ),
                    ),
                    all_some(
                        text_attempts(b, block, pairs_with(block.items@, "desc"@), "desc"@, kept_values(views(u.descs@))),
                    ),
                ),
                Some(event_scalars(b, block, u)),
            ),
            then_runs(
                then_runs(
                    checked_block(b, block, "trigger"@, u.trigger@),
                    checked_block(b, block, "mean_time_to_happen"@, u.mean_time_to_happen@),
                ),
                checked_block(b, block, "immediate"@, u.immediate@),
            ),
        ),
        all_runs(option_attempts(b, block, pairs_with(block.items@, "option"@), u.options@)),
    )
}

/// The rewrite of an event's key when its kind changes; `None` where the
/// key's span would run past the end of the source.
pub open spec fn kind_views(b: Seq<u8>, p: Pair, kind: Seq<char>) -> Option<Seq<(Span, Seq<char>)>> {
    let length = encode_utf8(p.key@).len() as usize;
    if eq_ignore_ascii_case_spec(p.key@, kind) {
        Some(Seq::empty())
    } else if length > b.len() || p.span.start > b.len() - length {
        None
    } else {
        Some(seq![(Span { start: p.span.start, end: (p.span.start + length) as usize }, kind)])
    }
}

/// The edits `update_source` makes for the one event with `id`: the
/// rewrite of its key, then what its block's editor hands on.
pub open spec fn event_edits(b: Seq<u8>, items: Seq<Item>, id: Seq<char>, u: EventUpdate) -> Option<
    Seq<(Span, Seq<char>)>,
> {
    let p = events_with_id_spec(items, id)[0];
    match p.value {
        Value::Block(block) => match (kind_views(b, p, trim_spec(u.kind@)), handed(b, block, event_runs(b, block, u))) {
            (Some(k), Some(vs)) => Some(k + vs),
            _ => None,
        },
        Value::Scalar(_) => None,
    }
}

/// The edits made inside an event's block, as its editor hands them on.
#[verifier::rlimit(40)]
fn event_block_edits(source: &str, block: &Block, update: &EventUpdate) -> (r: Option<Vec<TextEdit>>)
    requires
        value_fits(bytes_of(source), Value::Block(*block)),
    ensures
        match handed(bytes_of(source), *block, event_runs(bytes_of(source), *block, *update)) {
            Some(vs) => r matches Some(es) && crate::paradox::edit::edit_views(es@) == vs,
            None => r is None,
        },
{
    let ghost b = bytes_of(source);
    let new_id = trim(update.id.as_str());
    let mut editor = BlockEditor::new(source, block);
    let ghost e0 = editor;
    proof {
        lemma_made_none(editor);
    }
    editor.set_scalar("id", new_id.as_str());
    let ghost done = seq![scalar_change_spec(b, *block, "id"@, trim_spec(update.id@))];
    proof {
        lemma_made_one(e0, editor, done[0]);
    }
    let ghost e1 = editor;
    if !set_texts(&mut editor, "title", &update.titles) {
        return None;
    }
    proof {
        let t = all_some(text_attempts(b, *block, pairs_with(block.items@, "title"@), "title"@, kept_values(views(update.titles@))))->0;
        lemma_made_then(e0, e1, editor, done, t);
    }
    let ghost done = done + all_some(text_attempts(b, *block, pairs_with(block.items@, "title"@), "title"@, kept_values(views(update.titles@))))->0;
    let ghost e2 = editor;
    if !set_texts(&mut editor, "desc", &update.descs) {
        return None;
    }
    proof {
        let t = all_some(text_attempts(b, *block, pairs_with(block.items@, "desc"@), "desc"@, kept_values(views(update.descs@))))->0;
        lemma_made_then(e0, e2, editor, done, t);
    }
    let ghost done = done + all_some(text_attempts(b, *block, pairs_with(block.items@, "desc"@), "desc"@, kept_values(views(update.descs@))))->0;
    let ghost e3 = editor;
    editor.set_scalar("picture", update.picture.as_str());
    editor.set_scalar("fire_only_once", update.fire_only_once.as_str());
    editor.set_scalar("is_triggered_only", update.is_triggered_only.as_str());
    editor.set_scalar("hidden", update.hidden.as_str());
    editor.set_scalar("major", update.major.as_str());
    editor.set_scalar("timeout_days", update.timeout_days.as_str());
    proof {
        let sc = event_scalars(b, *block, *update);
        assert(lists_of(editor) == record_all(lists_of(e3), sc)) by {
            reveal_with_fuel(record_all, 7);
            assert(sc.drop_last().drop_last().drop_last().drop_last().drop_last().drop_last() =~= Seq::<ChangeView>::empty());
        }
        lemma_made_then(e0, e3, editor, done, sc);
    }
    let ghost done = done + event_scalars(b, *block, *update);
    let ghost e4 = editor;
    if !set_block_checked(&mut editor, "trigger", update.trigger.as_str()) {
        return None;
    }
    let ghost e5 = editor;
    if !set_block_checked(&mut editor, "mean_time_to_happen", update.mean_time_to_happen.as_str()) {
        return None;
    }
    let ghost e6 = editor;
    if !set_block_checked(&mut editor, "immediate", update.immediate.as_str()) {
        return None;
    }
    proof {
        let c1 = seq![block_change_spec(b, *block, "trigger"@, update.trigger@)];
        let c2 = seq![block_change_spec(b, *block, "mean_time_to_happen"@, update.mean_time_to_happen@)];
        let c3 = seq![block_change_spec(b, *block, "immediate"@, update.immediate@)];
        lemma_made_then(e4, e5, e6, c1, c2);
        lemma_made_then(e4, e6, editor, c1 + c2, c3);
        lemma_made_then(e0, e4, editor, done, c1 + c2 + c3);
    }
    let ghost done = done + (seq![block_change_spec(b, *block, "trigger"@, update.trigger@)]
        + seq![block_change_spec(b, *block, "mean_time_to_happen"@, update.mean_time_to_happen@)]
        + seq![block_change_spec(b, *block, "immediate"@, update.immediate@)]);
    let ghost e7 = editor;
    if !set_options(&mut editor, &update.options) {
        return None;
    }
    proof {
        let o = all_runs(option_attempts(b, *block, pairs_with(block.items@, "option"@), update.options@))->0;
        lemma_made_then(e0, e7, editor, done, o);
        assert(event_runs(b, *block, *update) == Some(done + o));
    }
    Some(finish_editor(editor))
}

/// Rewrites one event in place, matched by its current id.
pub fn update_source(path: &str, source: &str, event_id: &str, update: &EventUpdate) -> (r: Result<String, EditError>)
    requires
        bytes_of(source).len() <= isize::MAX,
    ensures
        script_parse_spec(source) matches Parsed::Fail(m, o) ==> r matches Err(
            EditError::Script { path: p, source: e },
        ) && p@ == path@ && e.message@ == m && e.offset == o,
        script_parse_spec(source) is Read ==> exists|items: Seq<Item>|
            #[trigger] parsed_items(source, items) && match update_refusal(items, path@, event_id@, *update) {
                Some(m) => r matches Err(EditError::Message(t)) && t@ == m,
                None => saved_as(bytes_of(source), event_edits(bytes_of(source), items, event_id@, *update), r),
            },
{
    let document = match crate::paradox::parse(source) {
        Ok(document) => document,
        Err(e) => {
            return Err(EditError::Script { path: path.to_owned(), source: e });
        },
    };
    proof {
        assert(parsed_items(source, document.items@));
        lemma_events_with_id(bytes_of(source), document.items@, event_id@);
    }
    let pair = match find_the_event(&document, event_id, path) {
        Ok(pair) => pair,
        Err(e) => {
            return Err(e);
        },
    };
    let block = match &pair.value {
        Value::Block(block) => block,
        _ => {
            return Err(EditError::Message("the event is not a block".to_owned()));
        },
    };
    match validate(update) {
        Ok(()) => {},
        Err(e) => {
            return Err(e);
        },
    }
    let new_id = trim(update.id.as_str());
    if !str_eq(new_id.as_str(), event_id) {
        let others = events_with_id(&document, new_id.as_str());
        if others.len() > 0 {
            return Err(EditError::Message(taken(new_id.as_str())));
        }
    }
    let ghost b = bytes_of(source);
    let mut edits: Vec<TextEdit> = Vec::new();
    let kind = trim(update.kind.as_str());
    if !eq_ignore_ascii_case(pair.key.as_str(), kind.as_str()) {
        // The kind is the block's key, which sits at the very start of the pair.
        let length = pair.key.as_str().len();
        if length > source.len() || pair.span.start > source.len() - length {
            return Err(crate::script::layout_error());
        }
        let key = crate::paradox::Span::new(pair.span.start, pair.span.start + length);
        proof {
            assert(!eq_ignore_ascii_case_spec(pair.key@, kind@));
        }
        edits.push(TextEdit::new(key, kind));
    }
    proof {
        let k = kind_views(b, *pair, trim_spec(update.kind@));
        assert(k is Some);
        assert(k->0 =~= crate::paradox::edit::edit_views(edits@));
        crate::script::lemma_block_items_fit(b, *block);
    }
    let mut finished = match event_block_edits(source, block, update) {
        Some(es) => es,
        None => {
            return Err(crate::script::layout_error());
        },
    };
    let ghost front = edits@;
    let ghost tail = finished@;
    edits.append(&mut finished);
    proof {
        crate::script::lemma_edit_views_append(front, tail);
        assert(edits@ == front + tail);
    }
    save_edits(source, edits)
}

/// The text with one line appended at its end: after a line break when the
/// text does not end with one, and followed by a line break.
pub open spec fn appended(b: Seq<u8>, source: Seq<char>, line: Seq<char>) -> Seq<char> {
    let newline = crate::paradox::edit::newline_spec(b);
    let separator = if source.len() == 0 || source.last() == '\n' {
        Seq::empty()
    } else {
        newline
    };
    source + separator + line + newline
}

/// The line a new event is appended as: a blank line apart from what comes
/// before it (none in a blank file), then `kind = { ... }`.
pub open spec fn event_line(b: Seq<u8>, source: Seq<char>, kind: Seq<char>, body: Seq<char>) -> Seq<char> {
    let newline = crate::paradox::edit::newline_spec(b);
    let lead = if trim_spec(source).len() == 0 {
        Seq::empty()
    } else {
        newline
    };
    lead + kind + " = "@ + format_lines_spec(body, Seq::empty(), newline)
}

/// Appends an event at the end of the file.
pub fn add_source(path: &str, source: &str, event: &EventUpdate) -> (r: Result<String, EditError>)
    ensures
        validate_spec(*event) matches Some(m) ==> r matches Err(EditError::Message(t)) && t@ == m,
        validate_spec(*event) is None ==> {
            &&& script_parse_spec(source) matches Parsed::Fail(m, o) ==> r matches Err(
                EditError::Script { path: p, source: e },
            ) && p@ == path@ && e.message@ == m && e.offset == o
            &&& script_parse_spec(source) is Read ==> exists|items: Seq<Item>|
                #[trigger] parsed_items(source, items) && if find_event_spec(items, trim_spec(event.id@)) is Some {
                    r matches Err(EditError::Message(t)) && t@ == taken_message(trim_spec(event.id@))
                } else {
                    match render_event_spec(*event) {
                        None => r matches Err(EditError::Message(t)) && t@ == crate::script::layout_message(),
                        Some(body) => if crate::paradox::edit::layout_fits(body) {
                            r matches Ok(text) && text@ == appended(
                                bytes_of(source),
                                source@,
                                event_line(bytes_of(source), source@, trim_spec(event.kind@), body),
                            )
                        } else {
                            r matches Err(EditError::Message(t)) && t@ == crate::script::layout_message()
                        },
                    }
                }
        },
{
    match validate(event) {
        Ok(()) => {},
        Err(e) => {
            return Err(e);
        },
    }
    let document = match crate::paradox::parse(source) {
        Ok(document) => document,
        Err(e) => {
            return Err(EditError::Script { path: path.to_owned(), source: e });
        },
    };
    proof {
        assert(parsed_items(source, document.items@));
    }
    let id = trim(event.id.as_str());
    let others = events_with_id(&document, id.as_str());
    if others.len() > 0 {
        proof {
            assert(derefs(others@).len() == others@.len());
        }
        return Err(EditError::Message(taken(id.as_str())));
    }
    proof {
        assert(derefs(others@).len() == others@.len());
    }
    let body = match render_event(event) {
        Some(body) => body,
        None => {
            return Err(crate::script::layout_error());
        },
    };
    let newline = detect_newline(source);
    let text = match format_lines(body.as_str(), "", newline) {
        Some(t) => t,
        None => {
            proof {
                reveal_strlit("");
            }
            return Err(crate::script::layout_error());
        },
    };
    proof {
        reveal_strlit("");
        assert(""@ =~= Seq::<char>::empty());
    }
    let mut line = String::new();
    let blank = trim(source);
    if !blank.as_str().is_empty() {
        line.push_str(newline);
    }
    line.push_str(trim(event.kind.as_str()).as_str());
    line.push_str(" = ");
    line.push_str(text.as_str());
    proof {
        reveal_strlit(" = ");
    }
    assert(line@ =~= event_line(bytes_of(source), source@, trim_spec(event.kind@), body@));
    let chars = chars_of(source);
    let mut out = source.to_owned();
    if chars.len() > 0 && chars[chars.len() - 1] != '\n' {
        out.push_str(newline);
    }
    out.push_str(line.as_str());
    out.push_str(newline);
    assert(out@ =~= appended(bytes_of(source), source@, line@));
    Ok(out)
}

/// Where deleting an event starts: the blank line before it goes with it,
/// so two neighbours are not left three lines apart.
pub open spec fn deletion_start(b: Seq<u8>, start: int) -> int {
    if start > 0 {
        let previous = crate::paradox::edit::line_start_spec(b, start - 1);
        if trim_spec(text_at(b, previous, crate::paradox::edit::line_end_spec(b, previous))).len() == 0 {
            previous
        } else {
            start
        }
    } else {
        start
    }
}

/// Deletes the event with `id`, with its line and the blank line before it.
pub fn delete_source(path: &str, source: &str, event_id: &str) -> (r: Result<String, EditError>)
    ensures
        script_parse_spec(source) matches Parsed::Fail(m, o) ==> r matches Err(
            EditError::Script { path: p, source: e },
        ) && p@ == path@ && e.message@ == m && e.offset == o,
        script_parse_spec(source) is Read ==> exists|items: Seq<Item>|
            #[trigger] parsed_items(source, items) && match lookup_refusal(items, event_id@, path@) {
                Some(m) => r matches Err(EditError::Message(t)) && t@ == m,
                None => {
                    let b = bytes_of(source);
                    let span = removal_span(b, events_with_id_spec(items, event_id@)[0]);
                    r matches Ok(text) && text@ == text_at(b, 0, deletion_start(b, span.start as int)) + text_at(
                        b,
                        span.end as int,
                        b.len() as int,
                    )
                },
            },
{
    let document = match crate::paradox::parse(source) {
        Ok(document) => document,
        Err(e) => {
            return Err(EditError::Script { path: path.to_owned(), source: e });
        },
    };
    proof {
        assert(parsed_items(source, document.items@));
        lemma_events_with_id(bytes_of(source), document.items@, event_id@);
    }
    let pair = match find_the_event(&document, event_id, path) {
        Ok(pair) => pair,
        Err(e) => {
            return Err(e);
        },
    };
    let edits = crate::paradox::edit::remove_pair(source, pair);
    let span = edits[0].span;
    let ghost b = bytes_of(source);
    let mut start = span.start;
    if start > 0 {
        let previous = line_start(source, start - 1);
        proof {
            crate::paradox::edit::lemma_line_start(b, start - 1);
        }
        let end = line_end(source, previous);
        let line = crate::text::slice_between(source, previous, end);
        if trim(line).as_str().is_empty() {
            start = previous;
        }
    }
    assert(start == deletion_start(b, span.start as int));
    let edit = TextEdit::new(crate::paradox::Span::new(start, span.end), String::new());
    proof {
        assert(edits_fit(b, seq![edit]));
        crate::paradox::edit::law_single_edit_replaces_its_span(b, edit);
    }
    let all = vec![edit];
    assert(all@ =~= seq![edit]);
    proof {
        crate::paradox::edit::lemma_fitting_edits_apply(source, all@);
    }
    let text = apply_edits(source, all);
    assert(text@ =~= text_at(b, 0, start as int) + text_at(b, span.end as int, b.len() as int));
    Ok(text)
}

/// Law: each of the five kinds of event the game defines is read as an
/// event, in the file's own spelling or in any other case.
pub proof fn law_the_five_event_kinds_are_events(key: Seq<char>)
    ensures
        event_kind("country_event"@),
        event_kind("news_event"@),
        event_kind("state_event"@),
        event_kind("unit_leader_event"@),
        event_kind("operative_leader_event"@),
        eq_ignore_ascii_case_spec(key, "country_event"@) || eq_ignore_ascii_case_spec(key, "news_event"@)
            || eq_ignore_ascii_case_spec(key, "state_event"@) || eq_ignore_ascii_case_spec(
            key,
            "unit_leader_event"@,
        ) || eq_ignore_ascii_case_spec(key, "operative_leader_event"@) ==> event_kind(key),
{
    assert(eq_ignore_ascii_case_spec("country_event"@, "country_event"@));
    assert(eq_ignore_ascii_case_spec("news_event"@, "news_event"@));
    assert(eq_ignore_ascii_case_spec("state_event"@, "state_event"@));
    assert(eq_ignore_ascii_case_spec("unit_leader_event"@, "unit_leader_event"@));
    assert(eq_ignore_ascii_case_spec("operative_leader_event"@, "operative_leader_event"@));
}

} // verus!
