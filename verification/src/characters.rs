//! Characters: `common/characters/*.txt`, the people a country recruits as
//! leaders, advisors and commanders.
//!
//! A character is one block keyed by its id inside `characters = { }`. Its
//! roles are blocks of their own, and a character may carry several of a
//! kind: a leader for two ideologies, or an advisor in two slots. Each role
//! is edited in place and matched to the form by position, so the file's
//! order is the form's order.
use crate::error::EditError;
use crate::paradox::parser::{
    find_spec, block_spec, item_fits, pairs_of, pairs_with, value_fits, parse_spec as script_parse_spec,
    Parsed,
};
use crate::paradox::{line_number, Block, Document, Item, Items, Pair, Value};
use crate::script::{
    add_new_block, add_to_block, layout_error, layout_message, new_block_text,
    entries, entries_spec, find_entry, find_entry_spec, lemma_entries_are_blocks,
    lemma_entries_fit, lemma_found_entry_fits, parsed_items,
    format_lines_spec, kept_target, made, lemma_made_one, lemma_made_then, lemma_made_none,
    words_change, quoted_change, set_block_checked, set_quoted, set_words, both, block_lines, fmt_lines, opt_text, push_block, push_scalar, push_words, scalar_line,
    words_lines, format_lines, all_fit, block_pairs, block_values, blocks_among, blocks_fit, body_or_empty, derefs,
    lemma_block_values_fit, lemma_find_all_derefs, lemma_items_fit, lemma_pairs_derefs,
    pairs_fit, pairs_with_blocks, read_block, read_words, text_of, text_or_empty, words_spec,
    all_runs, beyond, extra_removals, finished, hand_on, handed_on, lemma_all_runs_fails,
    lemma_all_runs_push, record_all, shorter, views_fit, checked_block, finish_editor, handed,
    save_edits, saved_as, then_runs,
    };
use crate::paradox::edit::{
    indent_spec, child_indent_spec, format_block_spec, insert_lines, insertion_start, insertion_text,
    layout_fits, newline_spec, try_format_block, apply_edits_spec, edits_fit, edits_fit_all, apply_edits, child_indent, detect_newline, edit_fits, indent_at,
    law_single_edit_replaces_its_span, remove_pair, removal_span, BlockEditor, TextEdit,
    scalar_change_spec, block_change_spec, ChangeView, assignment, record,
};
use crate::paradox::Span;
use crate::paradox::parser::value_span;
use crate::paradox::lexer::{quote, quote_spec};
use crate::text::{
    boundary, bytes_of, chars_of, eq_ignore_ascii_case, eq_ignore_ascii_case_spec, is_whitespace, is_ws,
    join, join_strings, text_at, trim, trim_spec, views,
};
use vstd::prelude::*;
use vstd::utf8::encode_utf8;

verus! {

/// The six portrait pictures: a `large` and a `small` one for each of the
/// `civilian`, `army` and `navy` groups.
#[derive(Debug, Clone, Default, PartialEq)]
pub struct Portraits {
    pub civilian_large: String,
    pub civilian_small: String,
    pub army_large: String,
    pub army_small: String,
    pub navy_large: String,
    pub navy_small: String,
}

#[derive(Debug, Clone, Default, PartialEq)]
pub struct CountryLeader {
    pub ideology: String,
    pub traits: Vec<String>,
    /// A date such as `1965.1.1.1`, written quoted as the game's files do.
    pub expire: String,
    pub desc: String,
}

#[derive(Debug, Clone, Default, PartialEq)]
pub struct Advisor {
    pub slot: String,
    pub idea_token: String,
    pub ledger: String,
    pub cost: String,
    pub removal_cost: String,
    /// `yes`, `no`, or empty when the file does not say.
    pub can_be_fired: String,
    pub traits: Vec<String>,
    pub allowed: String,
    pub available: String,
    pub visible: String,
    pub ai_will_do: String,
}

#[derive(Debug, Clone, Default, PartialEq)]
pub struct Commander {
    /// `corps_commander`, `field_marshal` or `navy_leader`.
    pub kind: String,
    pub skill: String,
    pub attack_skill: String,
    pub defense_skill: String,
    /// Army only; a navy leader has `maneuvering_skill` instead.
    pub planning_skill: String,
    /// Army only; a navy leader has `coordination_skill` instead.
    pub logistics_skill: String,
    pub maneuvering_skill: String,
    pub coordination_skill: String,
    pub legacy_id: String,
    pub traits: Vec<String>,
}

#[derive(Debug, Clone, Default)]
pub struct Character {
    pub id: String,
    pub name: String,
    pub gender: String,
    pub portraits: Portraits,
    pub allowed_civil_war: String,
    pub leaders: Vec<CountryLeader>,
    pub advisors: Vec<Advisor>,
    pub commanders: Vec<Commander>,
    /// Defined through `instance` blocks, one per DLC set-up. The fields
    /// above come from the first of them; the form leaves such a character
    /// to the code view rather than guess which instance to change.
    pub has_instances: bool,
    pub line: usize,
}

#[derive(Debug, Clone)]
pub struct CharacterFile {
    pub path: String,
    pub characters: Vec<Character>,
    pub has_bom: bool,
    /// The bytes were not valid UTF-8 and were read as Windows-1252.
    pub is_legacy_encoding: bool,
    /// The text the characters were read from, for the code view.
    pub source: String,
}

/// The editable fields sent back when saving. Empty strings clear a field;
/// a role left out of its list is removed from the file.
#[derive(Debug, Clone, Default)]
pub struct CharacterUpdate {
    pub id: String,
    pub name: String,
    pub gender: String,
    pub portraits: Portraits,
    pub allowed_civil_war: String,
    pub leaders: Vec<CountryLeader>,
    pub advisors: Vec<Advisor>,
    pub commanders: Vec<Commander>,
}

// ---------------------------------------------------------------------------
// Reading
// ---------------------------------------------------------------------------

/// The military role a key names, spelled as the file's own lowercase form:
/// `to_lowercase` of a key that matches one of them ignoring ASCII case is
/// exactly that role's name.
pub open spec fn commander_kind(key: Seq<char>) -> Option<Seq<char>> {
    if eq_ignore_ascii_case_spec(key, "corps_commander"@) {
        Some("corps_commander"@)
    } else if eq_ignore_ascii_case_spec(key, "field_marshal"@) {
        Some("field_marshal"@)
    } else if eq_ignore_ascii_case_spec(key, "navy_leader"@) {
        Some("navy_leader"@)
    } else {
        None
    }
}

/// The commander roles among `pairs`, in file order: each role's kind and block.
pub open spec fn commander_roles(pairs: Seq<Pair>) -> Seq<(Seq<char>, Block)>
    decreases pairs.len(),
{
    if pairs.len() == 0 {
        Seq::empty()
    } else {
        let rest = commander_roles(pairs.drop_last());
        let p = pairs.last();
        match (commander_kind(p.key@), p.value) {
            (Some(kind), Value::Block(b)) => rest.push((kind, b)),
            _ => rest,
        }
    }
}

/// The block a character's fields are read from: its first `instance`
/// block when it has one, itself otherwise.
pub open spec fn body_block(block: Block) -> Block {
    match block_spec(block.items@, "instance"@) {
        Some(instance) => instance,
        None => block,
    }
}

/// `portraits = { group = { size = ... } }`, or empty.
pub open spec fn picture(body: Block, group: Seq<char>, size: Seq<char>) -> Seq<char> {
    match block_spec(body.items@, "portraits"@) {
        Some(pictures) => match block_spec(pictures.items@, group) {
            Some(g) => text_or_empty(g.items@, size),
            None => Seq::empty(),
        },
        None => Seq::empty(),
    }
}

pub open spec fn portraits_read(p: Portraits, body: Block) -> bool {
    &&& p.civilian_large@ == picture(body, "civilian"@, "large"@)
    &&& p.civilian_small@ == picture(body, "civilian"@, "small"@)
    &&& p.army_large@ == picture(body, "army"@, "large"@)
    &&& p.army_small@ == picture(body, "army"@, "small"@)
    &&& p.navy_large@ == picture(body, "navy"@, "large"@)
    &&& p.navy_small@ == picture(body, "navy"@, "small"@)
}

pub open spec fn leader_read(l: CountryLeader, block: Block) -> bool {
    let items = block.items@;
    &&& l.ideology@ == text_or_empty(items, "ideology"@)
    &&& views(l.traits@) == words_spec(items, "traits"@)
    &&& l.expire@ == text_or_empty(items, "expire"@)
    &&& l.desc@ == text_or_empty(items, "desc"@)
}

pub open spec fn advisor_read(b: Seq<u8>, a: Advisor, block: Block) -> bool {
    let items = block.items@;
    &&& a.slot@ == text_or_empty(items, "slot"@)
    &&& a.idea_token@ == text_or_empty(items, "idea_token"@)
    &&& a.ledger@ == text_or_empty(items, "ledger"@)
    &&& a.cost@ == text_or_empty(items, "cost"@)
    &&& a.removal_cost@ == text_or_empty(items, "removal_cost"@)
    &&& a.can_be_fired@ == text_or_empty(items, "can_be_fired"@)
    &&& views(a.traits@) == words_spec(items, "traits"@)
    &&& a.allowed@ == body_or_empty(b, items, "allowed"@)
    &&& a.available@ == body_or_empty(b, items, "available"@)
    &&& a.visible@ == body_or_empty(b, items, "visible"@)
    &&& a.ai_will_do@ == body_or_empty(b, items, "ai_will_do"@)
}

pub open spec fn commander_read(c: Commander, kind: Seq<char>, block: Block) -> bool {
    let items = block.items@;
    &&& c.kind@ == kind
    &&& c.skill@ == text_or_empty(items, "skill"@)
    &&& c.attack_skill@ == text_or_empty(items, "attack_skill"@)
    &&& c.defense_skill@ == text_or_empty(items, "defense_skill"@)
    &&& c.planning_skill@ == text_or_empty(items, "planning_skill"@)
    &&& c.logistics_skill@ == text_or_empty(items, "logistics_skill"@)
    &&& c.maneuvering_skill@ == text_or_empty(items, "maneuvering_skill"@)
    &&& c.coordination_skill@ == text_or_empty(items, "coordination_skill"@)
    &&& c.legacy_id@ == text_or_empty(items, "legacy_id"@)
    &&& views(c.traits@) == words_spec(items, "traits"@)
}

/// What `read_character` makes of the block keyed `id` that starts at
/// byte `start` of the source `b`.
pub open spec fn character_read(b: Seq<u8>, c: Character, id: Seq<char>, block: Block, start: int) -> bool {
    let body = body_block(block);
    let items = body.items@;
    let leaders = block_values(pairs_with(items, "country_leader"@));
    let advisors = block_values(pairs_with(items, "advisor"@));
    let roles = commander_roles(pairs_of(items));
    &&& c.id@ == id
    &&& c.name@ == text_or_empty(items, "name"@)
    &&& c.gender@ == text_or_empty(items, "gender"@)
    &&& portraits_read(c.portraits, body)
    &&& c.allowed_civil_war@ == body_or_empty(b, items, "allowed_civil_war"@)
    &&& c.leaders@.len() == leaders.len()
    &&& forall|k: int| 0 <= k < leaders.len() ==> leader_read(#[trigger] c.leaders@[k], leaders[k])
    &&& c.advisors@.len() == advisors.len()
    &&& forall|k: int|
        0 <= k < advisors.len() ==> advisor_read(b, #[trigger] c.advisors@[k], advisors[k])
    &&& c.commanders@.len() == roles.len()
    &&& forall|k: int|
        0 <= k < roles.len() ==> commander_read(#[trigger] c.commanders@[k], roles[k].0, roles[k].1)
    &&& c.has_instances == block_spec(block.items@, "instance"@) is Some
    &&& c.line == line_number(b, start)
}

/// Every `id = { }` pair inside the file's `characters` blocks, in file order.
pub open spec fn character_pairs_spec(items: Seq<Item>) -> Seq<Pair> {
    entries_spec(items, "characters"@)
}

fn leader_from(block: &Block) -> (l: CountryLeader)
    ensures
        leader_read(l, *block),
{
    CountryLeader {
        ideology: text_of(block, "ideology"),
        traits: read_words(block, "traits"),
        expire: text_of(block, "expire"),
        desc: text_of(block, "desc"),
    }
}

fn advisor_from(source: &str, block: &Block) -> (a: Advisor)
    requires
        value_fits(bytes_of(source), Value::Block(*block)),
    ensures
        advisor_read(bytes_of(source), a, *block),
{
    Advisor {
        slot: text_of(block, "slot"),
        idea_token: text_of(block, "idea_token"),
        ledger: text_of(block, "ledger"),
        cost: text_of(block, "cost"),
        removal_cost: text_of(block, "removal_cost"),
        can_be_fired: text_of(block, "can_be_fired"),
        traits: read_words(block, "traits"),
        allowed: read_block(source, block, "allowed"),
        available: read_block(source, block, "available"),
        visible: read_block(source, block, "visible"),
        ai_will_do: read_block(source, block, "ai_will_do"),
    }
}

fn commander_from(kind: &str, block: &Block) -> (c: Commander)
    ensures
        commander_read(c, kind@, *block),
{
    Commander {
        kind: kind.to_owned(),
        skill: text_of(block, "skill"),
        attack_skill: text_of(block, "attack_skill"),
        defense_skill: text_of(block, "defense_skill"),
        planning_skill: text_of(block, "planning_skill"),
        logistics_skill: text_of(block, "logistics_skill"),
        maneuvering_skill: text_of(block, "maneuvering_skill"),
        coordination_skill: text_of(block, "coordination_skill"),
        legacy_id: text_of(block, "legacy_id"),
        traits: read_words(block, "traits"),
    }
}

/// The role a key names, as `commander_kind` says.
fn kind_of(key: &str) -> (r: Option<&'static str>)
    ensures
        match commander_kind(key@) {
            Some(k) => r matches Some(s) && s@ == k,
            None => r is None,
        },
{
    if eq_ignore_ascii_case(key, "corps_commander") {
        Some("corps_commander")
    } else if eq_ignore_ascii_case(key, "field_marshal") {
        Some("field_marshal")
    } else if eq_ignore_ascii_case(key, "navy_leader") {
        Some("navy_leader")
    } else {
        None
    }
}

fn portrait_pair<'a>(pictures: Option<&'a Block>, group: &str) -> (r: (String, String))
    ensures
        r.0@ == (match pictures {
            Some(pb) => match block_spec(pb.items@, group@) {
                Some(g) => text_or_empty(g.items@, "large"@),
                None => Seq::empty(),
            },
            None => Seq::<char>::empty(),
        }),
        r.1@ == (match pictures {
            Some(pb) => match block_spec(pb.items@, group@) {
                Some(g) => text_or_empty(g.items@, "small"@),
                None => Seq::empty(),
            },
            None => Seq::<char>::empty(),
        }),
{
    match pictures {
        Some(block) => match block.block(group) {
            Some(g) => (text_of(g, "large"), text_of(g, "small")),
            None => (String::new(), String::new()),
        },
        None => (String::new(), String::new()),
    }
}

/// The character keyed `id` whose block starts at byte `start`.
pub fn read_character(source: &str, id: &str, block: &Block, start: usize) -> (c: Character)
    requires
        bytes_of(source).len() <= isize::MAX,
        value_fits(bytes_of(source), Value::Block(*block)),
        start >= bytes_of(source).len() || crate::text::boundary(bytes_of(source), start as int),
    ensures
        character_read(bytes_of(source), c, id@, *block, start as int),
{
    let ghost b = bytes_of(source);
    let instance = block.block("instance");
    proof {
        lemma_items_fit(b, block.items@, "instance"@);
    }
    let body: &Block = match instance {
        Some(i) => i,
        None => block,
    };
    let ghost items = body.items@;
    proof {
        lemma_items_fit(b, items, "country_leader"@);
        lemma_items_fit(b, items, "advisor"@);
    }

    let leader_pairs = body.find_all("country_leader");
    let leader_blocks = blocks_among(&leader_pairs);
    proof {
        lemma_find_all_derefs(leader_pairs@, items, "country_leader"@);
    }
    let mut leaders: Vec<CountryLeader> = Vec::new();
    let mut i: usize = 0;
    while i < leader_blocks.len()
        invariant
            i <= leader_blocks@.len(),
            derefs(leader_blocks@) == block_values(pairs_with(items, "country_leader"@)),
            leaders@.len() == i,
            forall|k: int| 0 <= k < i ==> leader_read(#[trigger] leaders@[k], *leader_blocks@[k]),
        decreases leader_blocks@.len() - i,
    {
        leaders.push(leader_from(leader_blocks[i]));
        i = i + 1;
    }
    assert forall|k: int| 0 <= k < leaders@.len() implies leader_read(
        #[trigger] leaders@[k],
        block_values(pairs_with(items, "country_leader"@))[k],
    ) by {
        assert(derefs(leader_blocks@)[k] == *leader_blocks@[k]);
    }

    let advisor_pairs = body.find_all("advisor");
    let advisor_blocks = blocks_among(&advisor_pairs);
    proof {
        lemma_find_all_derefs(advisor_pairs@, items, "advisor"@);
        lemma_block_values_fit(b, pairs_with(items, "advisor"@));
    }
    let mut advisors: Vec<Advisor> = Vec::new();
    let mut i: usize = 0;
    while i < advisor_blocks.len()
        invariant
            i <= advisor_blocks@.len(),
            b == bytes_of(source),
            derefs(advisor_blocks@) == block_values(pairs_with(items, "advisor"@)),
            blocks_fit(b, block_values(pairs_with(items, "advisor"@))),
            advisors@.len() == i,
            forall|k: int|
                0 <= k < i ==> advisor_read(b, #[trigger] advisors@[k], *advisor_blocks@[k]),
        decreases advisor_blocks@.len() - i,
    {
        proof {
            assert(derefs(advisor_blocks@)[i as int] == *advisor_blocks@[i as int]);
        }
        advisors.push(advisor_from(source, advisor_blocks[i]));
        i = i + 1;
    }
    assert forall|k: int| 0 <= k < advisors@.len() implies advisor_read(
        b,
        #[trigger] advisors@[k],
        block_values(pairs_with(items, "advisor"@))[k],
    ) by {
        assert(derefs(advisor_blocks@)[k] == *advisor_blocks@[k]);
    }

    // Kinds are read in the file's order rather than grouped, so the form
    // shows the roles the way the author listed them.
    let all_pairs = body.pairs();
    proof {
        lemma_pairs_derefs(all_pairs@, items);
    }
    let ghost roles = commander_roles(pairs_of(items));
    let mut commanders: Vec<Commander> = Vec::new();
    let mut i: usize = 0;
    while i < all_pairs.len()
        invariant
            i <= all_pairs@.len(),
            derefs(all_pairs@) == pairs_of(items),
            roles == commander_roles(pairs_of(items)),
            commanders@.len() == commander_roles(pairs_of(items).take(i as int)).len(),
            forall|k: int|
                0 <= k < commanders@.len() ==> commander_read(
                    #[trigger] commanders@[k],
                    commander_roles(pairs_of(items).take(i as int))[k].0,
                    commander_roles(pairs_of(items).take(i as int))[k].1,
                ),
        decreases all_pairs@.len() - i,
    {
        let ghost ps = pairs_of(items);
        proof {
            assert(ps.take(i + 1).drop_last() =~= ps.take(i as int));
            assert(ps.take(i + 1).last() == *all_pairs@[i as int]);
        }
        let pair = all_pairs[i];
        match (kind_of(pair.key.as_str()), &pair.value) {
            (Some(kind), Value::Block(role)) => {
                commanders.push(commander_from(kind, role));
            },
            _ => {},
        }
        i = i + 1;
    }
    proof {
        assert(pairs_of(items).take(pairs_of(items).len() as int) =~= pairs_of(items));
    }

    let pictures = body.block("portraits");
    let (civilian_large, civilian_small) = portrait_pair(pictures, "civilian");
    let (army_large, army_small) = portrait_pair(pictures, "army");
    let (navy_large, navy_small) = portrait_pair(pictures, "navy");
    let portraits = Portraits {
        civilian_large,
        civilian_small,
        army_large,
        army_small,
        navy_large,
        navy_small,
    };

    Character {
        id: id.to_owned(),
        name: text_of(body, "name"),
        gender: text_of(body, "gender"),
        portraits,
        allowed_civil_war: read_block(source, body, "allowed_civil_war"),
        leaders,
        advisors,
        commanders,
        has_instances: instance.is_some(),
        line: crate::paradox::line_of(source, start),
    }
}

/// Every `id = { }` pair inside the file's `characters` blocks, in file order.
pub fn character_pairs(document: &Document) -> (r: Vec<&Pair>)
    ensures
        derefs(r@) == character_pairs_spec(document.items@),
{
    entries(document, "characters")
}

/// "no character with id `ID` exists in PATH".
pub open spec fn no_character_message(id: Seq<char>, path: Seq<char>) -> Seq<char> {
    "no character with id `"@ + id + "` exists in "@ + path
}

fn no_character(id: &str, path: &str) -> (m: String)
    ensures
        m@ == no_character_message(id@, path@),
{
    let mut m = "no character with id `".to_owned();
    m.push_str(id);
    m.push_str("` exists in ");
    m.push_str(path);
    m
}

/// The first character pair keyed exactly `id`.
pub open spec fn find_character_spec(items: Seq<Item>, id: Seq<char>) -> Option<Pair> {
    find_entry_spec(items, "characters"@, id)
}

/// The character whose key is exactly `id`, if the file has one.
pub fn find_character<'a>(document: &'a Document, id: &str) -> (r: Option<&'a Pair>)
    ensures
        match find_character_spec(document.items@, id@) {
            Some(p) => r matches Some(q) && *q == p,
            None => r is None,
        },
{
    find_entry(document, "characters", id)
}

/// The character a search finds lies inside the source.
pub proof fn lemma_found_character_fits(b: Seq<u8>, items: Seq<Item>, id: Seq<char>)
    requires
        all_fit(b, items),
    ensures
        find_character_spec(items, id) matches Some(p) ==> item_fits(b, Item::Pair(p))
            && p.value is Block,
{
    lemma_found_entry_fits(b, items, "characters"@, id);
}

/// Every character of the file, read from the parsed items `items`.
pub open spec fn characters_read(b: Seq<u8>, cs: Seq<Character>, items: Seq<Item>) -> bool {
    let ps = character_pairs_spec(items);
    &&& cs.len() == ps.len()
    &&& forall|k: int|
        0 <= k < ps.len() ==> match (#[trigger] ps[k]).value {
            Value::Block(bl) => character_read(b, cs[k], ps[k].key@, bl, ps[k].span.start as int),
            _ => false,
        }
}

/// Every character of a parsed file.
pub fn read_characters(source: &str, document: &Document) -> (cs: Vec<Character>)
    requires
        bytes_of(source).len() <= isize::MAX,
        all_fit(bytes_of(source), document.items@),
    ensures
        characters_read(bytes_of(source), cs@, document.items@),
{
    let ghost b = bytes_of(source);
    let pairs = character_pairs(document);
    let ghost ps = character_pairs_spec(document.items@);
    proof {
        lemma_items_fit(b, document.items@, "characters"@);
        lemma_entries_fit(b, pairs_with(document.items@, "characters"@));
        lemma_entries_are_blocks(pairs_with(document.items@, "characters"@));
    }
    let mut cs: Vec<Character> = Vec::new();
    let mut i: usize = 0;
    while i < pairs.len()
        invariant
            i <= pairs@.len(),
            b == bytes_of(source),
            b.len() <= isize::MAX,
            derefs(pairs@) == ps,
            ps == character_pairs_spec(document.items@),
            pairs_fit(b, ps),
            forall|k: int| 0 <= k < ps.len() ==> (#[trigger] ps[k]).value is Block,
            cs@.len() == i,
            forall|k: int|
                0 <= k < i ==> match (#[trigger] ps[k]).value {
                    Value::Block(bl) => character_read(b, cs@[k], ps[k].key@, bl, ps[k].span.start as int),
                    _ => false,
                },
        decreases pairs@.len() - i,
    {
        let pair = pairs[i];
        proof {
            assert(derefs(pairs@)[i as int] == *pair);
            assert(item_fits(b, Item::Pair(ps[i as int])));
        }
        match &pair.value {
            Value::Block(block) => {
                cs.push(read_character(source, pair.key.as_str(), block, pair.span.start));
            },
            _ => {
                proof {
                    assert(ps[i as int].value is Block);
                }
            },
        }
        i = i + 1;
    }
    cs
}

/// Reads characters out of text the window holds, which need not be what is
/// on disk: the code view parses its buffer as the user types.
pub fn parse(path: &str, content: &str, has_bom: bool, is_legacy_encoding: bool) -> (r: Result<
    CharacterFile,
    EditError,
>)
    requires
        bytes_of(content).len() <= isize::MAX,
    ensures
        match script_parse_spec(content) {
            Parsed::Fail(m, o) => r matches Err(EditError::Script { path: p, source: e }) && p@
                == path@ && e.message@ == m && e.offset == o,
            Parsed::Read(..) => r is Ok,
        },
        r matches Ok(file) ==> {
            &&& file.path@ == crate::text::replace_char(path@, '\\', '/')
            &&& file.source@ == content@
            &&& file.has_bom == has_bom
            &&& file.is_legacy_encoding == is_legacy_encoding
            &&& exists|items: Seq<Item>|
                #[trigger] parsed_items(content, items) && characters_read(
                    bytes_of(content),
                    file.characters@,
                    items,
                )
        },
{
    let document = match crate::paradox::parse(content) {
        Ok(document) => document,
        Err(source) => {
            return Err(EditError::Script { path: path.to_owned(), source });
        },
    };
    let characters = read_characters(content, &document);
    proof {
        assert(parsed_items(content, document.items@));
    }
    Ok(
        CharacterFile {
            path: crate::text::replace_char_in(path, '\\', '/'),
            characters,
            has_bom,
            is_legacy_encoding,
            source: content.to_owned(),
        },
    )
}

/// Removes a character, with the line it owned when it owned one: the text
/// before and after its removal span is kept as it was.
pub fn delete_source(path: &str, source: &str, character_id: &str) -> (r: Result<String, EditError>)
    ensures
        script_parse_spec(source) matches Parsed::Fail(m, o) ==> r matches Err(
            EditError::Script { path: p, source: e },
        ) && p@ == path@ && e.message@ == m && e.offset == o,
        script_parse_spec(source) is Read ==> exists|items: Seq<Item>|
            #[trigger] parsed_items(source, items) && match find_character_spec(items, character_id@) {
                Some(p) => r matches Ok(text) && text@ == text_at(
                    bytes_of(source),
                    0,
                    removal_span(bytes_of(source), p).start as int,
                ) + text_at(
                    bytes_of(source),
                    removal_span(bytes_of(source), p).end as int,
                    bytes_of(source).len() as int,
                ),
                None => r matches Err(EditError::Message(m)) && m@ == no_character_message(
                    character_id@,
                    path@,
                ),
            },
{
    let document = match crate::paradox::parse(source) {
        Ok(document) => document,
        Err(e) => {
            return Err(EditError::Script { path: path.to_owned(), source: e });
        },
    };
    proof {
        assert(parsed_items(source, document.items@));
    }
    let pair = match find_character(&document, character_id) {
        Some(pair) => pair,
        None => {
            return Err(EditError::Message(no_character(character_id, path)));
        },
    };
    proof {
        lemma_found_character_fits(bytes_of(source), document.items@, character_id@);
    }
    let edits = remove_pair(source, pair);
    proof {
        assert(edits@ =~= seq![edits@[0]]);
        law_single_edit_replaces_its_span(bytes_of(source), edits@[0]);
    }
    proof {
        crate::paradox::edit::lemma_fitting_edits_apply(source, edits@);
    }
    let text = apply_edits(source, edits);
    proof {
        assert(parsed_items(source, document.items@));
    }
    Ok(text)
}

// ---------------------------------------------------------------------------
// Checking an update
// ---------------------------------------------------------------------------

/// A character a script can hold in an id: no whitespace and none of `{}="#`.
pub open spec fn id_char_ok(c: char) -> bool {
    !is_ws(c) && c != '{' && c != '}' && c != '=' && c != '"' && c != '#'
}

pub open spec fn id_ok(id: Seq<char>) -> bool {
    forall|k: int| 0 <= k < id.len() ==> id_char_ok(#[trigger] id[k])
}

/// The military roles, as the file spells them.
pub open spec fn known_kind(kind: Seq<char>) -> bool {
    kind == "corps_commander"@ || kind == "field_marshal"@ || kind == "navy_leader"@
}

/// The first commander from `i` on whose kind is not a military role.
pub open spec fn first_unknown_kind(cs: Seq<Commander>, i: int) -> Option<Seq<char>>
    decreases cs.len() - i,
{
    if i < 0 || i >= cs.len() {
        None
    } else if !known_kind(cs[i].kind@) {
        Some(cs[i].kind@)
    } else {
        first_unknown_kind(cs, i + 1)
    }
}

/// Why an update is refused before the file is looked at, if it is.
pub open spec fn validate_spec(u: CharacterUpdate) -> Option<Seq<char>> {
    let id = trim_spec(u.id@);
    if id.len() == 0 {
        Some("a character needs an id"@)
    } else if !id_ok(id) {
        Some("`"@ + id + "` cannot be a character id: use letters, digits and underscores"@)
    } else {
        match first_unknown_kind(u.commanders@, 0) {
            Some(kind) => Some(
                "`"@ + kind
                    + "` is not a commander role; use one of corps_commander, field_marshal, navy_leader"@,
            ),
            None => None,
        }
    }
}

fn is_known_kind(kind: &str) -> (r: bool)
    ensures
        r == known_kind(kind@),
{
    crate::text::str_eq(kind, "corps_commander") || crate::text::str_eq(kind, "field_marshal")
        || crate::text::str_eq(kind, "navy_leader")
}

/// Refuses an id the script cannot hold and a commander of no known kind.
pub fn validate(update: &CharacterUpdate) -> (r: Result<(), EditError>)
    ensures
        match validate_spec(*update) {
            Some(m) => r matches Err(EditError::Message(t)) && t@ == m,
            None => r is Ok,
        },
{
    let id = trim(update.id.as_str());
    let v = chars_of(id.as_str());
    if v.len() == 0 {
        return Err(EditError::Message("a character needs an id".to_owned()));
    }
    let mut k: usize = 0;
    while k < v.len()
        invariant
            k <= v@.len(),
            v@ == trim_spec(update.id@),
            id@ == trim_spec(update.id@),
            forall|j: int| 0 <= j < k ==> id_char_ok(#[trigger] v@[j]),
        decreases v@.len() - k,
    {
        let c = v[k];
        if is_whitespace(c) || c == '{' || c == '}' || c == '=' || c == '"' || c == '#' {
            let mut m = "`".to_owned();
            m.push_str(id.as_str());
            m.push_str("` cannot be a character id: use letters, digits and underscores");
            proof {
                assert(!id_char_ok(v@[k as int]));
                assert(!id_ok(trim_spec(update.id@)));
                assert(m@ =~= "`"@ + trim_spec(update.id@)
                    + "` cannot be a character id: use letters, digits and underscores"@);
            }
            return Err(EditError::Message(m));
        }
        k = k + 1;
    }
    assert(id_ok(trim_spec(update.id@)));
    let mut i: usize = 0;
    while i < update.commanders.len()
        invariant
            i <= update.commanders@.len(),
            trim_spec(update.id@).len() > 0,
            id_ok(trim_spec(update.id@)),
            first_unknown_kind(update.commanders@, 0) == first_unknown_kind(update.commanders@, i as int),
        decreases update.commanders@.len() - i,
    {
        if !is_known_kind(update.commanders[i].kind.as_str()) {
            let mut m = "`".to_owned();
            m.push_str(update.commanders[i].kind.as_str());
            m.push_str(
                "` is not a commander role; use one of corps_commander, field_marshal, navy_leader",
            );
            proof {
                assert(first_unknown_kind(update.commanders@, i as int) == Some(
                    update.commanders@[i as int].kind@,
                ));
                assert(m@ =~= "`"@ + update.commanders@[i as int].kind@
                    + "` is not a commander role; use one of corps_commander, field_marshal, navy_leader"@);
            }
            return Err(EditError::Message(m));
        }
        i = i + 1;
    }
    Ok(())
}

// ---------------------------------------------------------------------------
// Rendering new blocks
// ---------------------------------------------------------------------------
//
// The renderers produce a block body with `\n` line breaks and no leading
// indentation; the formatter re-indents it wherever it lands and swaps in
// the file's own newline. Each gives `None` only where a body handed to it
// cannot be laid out (its indentation mixes whitespace characters so that
// cutting it would split one).

/// The skill lines a role of this kind carries. A navy leader has no
/// planning or logistics, an army commander no maneuvering or coordination;
/// the other pair is left out.
pub open spec fn skill_lines(c: Commander) -> Seq<Seq<char>> {
    let navy = c.kind@ == "navy_leader"@;
    scalar_line("skill"@, c.skill@) + scalar_line("attack_skill"@, c.attack_skill@) + scalar_line(
        "defense_skill"@,
        c.defense_skill@,
    ) + scalar_line(
        "planning_skill"@,
        if navy {
            Seq::empty()
        } else {
            c.planning_skill@
        },
    ) + scalar_line(
        "logistics_skill"@,
        if navy {
            Seq::empty()
        } else {
            c.logistics_skill@
        },
    ) + scalar_line(
        "maneuvering_skill"@,
        if navy {
            c.maneuvering_skill@
        } else {
            Seq::empty()
        },
    ) + scalar_line(
        "coordination_skill"@,
        if navy {
            c.coordination_skill@
        } else {
            Seq::empty()
        },
    )
}

/// `expire = "date"`, nothing for a blank date.
pub open spec fn expire_lines(e: Seq<char>) -> Seq<Seq<char>> {
    if trim_spec(e).len() == 0 {
        Seq::empty()
    } else {
        seq!["expire = "@ + quote_spec(trim_spec(e))]
    }
}

pub open spec fn joined(lines: Option<Seq<Seq<char>>>) -> Option<Seq<char>> {
    match lines {
        Some(ls) => Some(join(ls, "\n"@)),
        None => None,
    }
}

#[verifier::opaque]
pub open spec fn render_leader_spec(l: CountryLeader) -> Option<Seq<char>> {
    joined(
        both(
            both(Some(scalar_line("ideology"@, l.ideology@)), words_lines("traits"@, views(l.traits@))),
            Some(expire_lines(l.expire@) + scalar_line("desc"@, l.desc@)),
        ),
    )
}

#[verifier::opaque]
pub open spec fn render_advisor_spec(a: Advisor) -> Option<Seq<char>> {
    let scalars = scalar_line("slot"@, a.slot@) + scalar_line("idea_token"@, a.idea_token@)
        + scalar_line("ledger"@, a.ledger@) + scalar_line("cost"@, a.cost@) + scalar_line(
        "removal_cost"@,
        a.removal_cost@,
    ) + scalar_line("can_be_fired"@, a.can_be_fired@);
    joined(
        both(
            both(
                both(
                    both(
                        both(Some(scalars), block_lines("allowed"@, a.allowed@)),
                        block_lines("available"@, a.available@),
                    ),
                    block_lines("visible"@, a.visible@),
                ),
                block_lines("ai_will_do"@, a.ai_will_do@),
            ),
            words_lines("traits"@, views(a.traits@)),
        ),
    )
}

#[verifier::opaque]
pub open spec fn render_commander_spec(c: Commander) -> Option<Seq<char>> {
    joined(
        both(
            Some(skill_lines(c) + scalar_line("legacy_id"@, c.legacy_id@)),
            words_lines("traits"@, views(c.traits@)),
        ),
    )
}

pub open spec fn portrait_group_spec(large: Seq<char>, small: Seq<char>) -> Seq<char> {
    join(scalar_line("large"@, large) + scalar_line("small"@, small), "\n"@)
}

/// `group = { large = .. small = .. }`, nothing for a group with no picture.
pub open spec fn portrait_lines(group: Seq<char>, large: Seq<char>, small: Seq<char>) -> Option<
    Seq<Seq<char>>,
> {
    let body = portrait_group_spec(large, small);
    if body.len() == 0 {
        Some(Seq::empty())
    } else {
        match fmt_lines(body, Seq::empty(), "\n"@) {
            Some(t) => Some(seq![group + " = "@ + t]),
            None => None,
        }
    }
}

pub open spec fn render_portraits_spec(p: Portraits) -> Option<Seq<char>> {
    joined(
        both(
            both(
                portrait_lines("civilian"@, p.civilian_large@, p.civilian_small@),
                portrait_lines("army"@, p.army_large@, p.army_small@),
            ),
            portrait_lines("navy"@, p.navy_large@, p.navy_small@),
        ),
    )
}

/// `key = { body }` with the braces on lines of their own.
#[verifier::opaque]
pub open spec fn role_lines(key: Seq<char>, body: Option<Seq<char>>) -> Option<Seq<Seq<char>>> {
    match body {
        Some(b) => match fmt_lines(b, Seq::empty(), "\n"@) {
            Some(t) => Some(seq![key + " = "@ + t]),
            None => None,
        },
        None => None,
    }
}

pub open spec fn leaders_lines(ls: Seq<CountryLeader>) -> Option<Seq<Seq<char>>>
    decreases ls.len(),
{
    if ls.len() == 0 {
        Some(Seq::empty())
    } else {
        both(
            leaders_lines(ls.drop_last()),
            role_lines("country_leader"@, render_leader_spec(ls.last())),
        )
    }
}

pub open spec fn advisors_lines(ls: Seq<Advisor>) -> Option<Seq<Seq<char>>>
    decreases ls.len(),
{
    if ls.len() == 0 {
        Some(Seq::empty())
    } else {
        both(advisors_lines(ls.drop_last()), role_lines("advisor"@, render_advisor_spec(ls.last())))
    }
}

pub open spec fn commanders_lines(ls: Seq<Commander>) -> Option<Seq<Seq<char>>>
    decreases ls.len(),
{
    if ls.len() == 0 {
        Some(Seq::empty())
    } else {
        both(
            commanders_lines(ls.drop_last()),
            role_lines(ls.last().kind@, render_commander_spec(ls.last())),
        )
    }
}

pub open spec fn portraits_block_lines(p: Portraits) -> Option<Seq<Seq<char>>> {
    match render_portraits_spec(p) {
        Some(body) => if body.len() == 0 {
            Some(Seq::empty())
        } else {
            match fmt_lines(body, Seq::empty(), "\n"@) {
                Some(t) => Some(seq!["portraits = "@ + t]),
                None => None,
            }
        },
        None => None,
    }
}

/// The body of a new character block.
pub open spec fn render_character_spec(u: CharacterUpdate) -> Option<Seq<char>> {
    joined(
        both(
            both(
                both(
                    both(
                        both(
                            Some(scalar_line("name"@, u.name@) + scalar_line("gender"@, u.gender@)),
                            portraits_block_lines(u.portraits),
                        ),
                        block_lines("allowed_civil_war"@, u.allowed_civil_war@),
                    ),
                    leaders_lines(u.leaders@),
                ),
                advisors_lines(u.advisors@),
            ),
            commanders_lines(u.commanders@),
        ),
    )
}

fn finish_lines(lines: &Vec<String>) -> (r: String)
    ensures
        r@ == join(views(lines@), "\n"@),
{
    join_strings(lines, "\n")
}

/// The body of a country leader role.
pub fn render_leader(leader: &CountryLeader) -> (r: Option<String>)
    ensures
        opt_text(r) == render_leader_spec(*leader),
{
    proof {
        reveal(render_leader_spec);
    }
    let mut lines: Vec<String> = Vec::new();
    push_scalar(&mut lines, "ideology", leader.ideology.as_str());
    if !push_words(&mut lines, "traits", &leader.traits) {
        return None;
    }
    let ghost before = views(lines@);
    let expire = trim(leader.expire.as_str());
    if !expire.as_str().is_empty() {
        let mut line = "expire = ".to_owned();
        line.push_str(quote(expire.as_str()).as_str());
        lines.push(line);
        assert(views(lines@) =~= before + expire_lines(leader.expire@));
    } else {
        assert(expire@.len() == 0);
        assert(views(lines@) =~= before + expire_lines(leader.expire@));
    }
    push_scalar(&mut lines, "desc", leader.desc.as_str());
    assert(views(lines@) =~= before + (expire_lines(leader.expire@) + scalar_line("desc"@, leader.desc@)));
    Some(finish_lines(&lines))
}

/// The body of an advisor role.
pub fn render_advisor(advisor: &Advisor) -> (r: Option<String>)
    ensures
        opt_text(r) == render_advisor_spec(*advisor),
{
    proof {
        reveal(render_advisor_spec);
    }
    let mut lines: Vec<String> = Vec::new();
    push_scalar(&mut lines, "slot", advisor.slot.as_str());
    push_scalar(&mut lines, "idea_token", advisor.idea_token.as_str());
    push_scalar(&mut lines, "ledger", advisor.ledger.as_str());
    push_scalar(&mut lines, "cost", advisor.cost.as_str());
    push_scalar(&mut lines, "removal_cost", advisor.removal_cost.as_str());
    push_scalar(&mut lines, "can_be_fired", advisor.can_be_fired.as_str());
    if !push_block(&mut lines, "allowed", advisor.allowed.as_str()) {
        return None;
    }
    if !push_block(&mut lines, "available", advisor.available.as_str()) {
        return None;
    }
    if !push_block(&mut lines, "visible", advisor.visible.as_str()) {
        return None;
    }
    if !push_block(&mut lines, "ai_will_do", advisor.ai_will_do.as_str()) {
        return None;
    }
    if !push_words(&mut lines, "traits", &advisor.traits) {
        return None;
    }
    Some(finish_lines(&lines))
}

/// The body of a commander role.
pub fn render_commander(commander: &Commander) -> (r: Option<String>)
    ensures
        opt_text(r) == render_commander_spec(*commander),
{
    proof {
        reveal(render_commander_spec);
    }
    let navy = crate::text::str_eq(commander.kind.as_str(), "navy_leader");
    let mut lines: Vec<String> = Vec::new();
    push_scalar(&mut lines, "skill", commander.skill.as_str());
    push_scalar(&mut lines, "attack_skill", commander.attack_skill.as_str());
    push_scalar(&mut lines, "defense_skill", commander.defense_skill.as_str());
    push_scalar(&mut lines, "planning_skill", if navy { "" } else { commander.planning_skill.as_str() });
    push_scalar(&mut lines, "logistics_skill", if navy { "" } else { commander.logistics_skill.as_str() });
    push_scalar(&mut lines, "maneuvering_skill", if navy { commander.maneuvering_skill.as_str() } else { "" });
    push_scalar(&mut lines, "coordination_skill", if navy { commander.coordination_skill.as_str() } else { "" });
    push_scalar(&mut lines, "legacy_id", commander.legacy_id.as_str());
    proof {
        reveal_strlit("");
        assert(""@ =~= Seq::<char>::empty());
    }
    if !push_words(&mut lines, "traits", &commander.traits) {
        return None;
    }
    Some(finish_lines(&lines))
}

fn render_portrait_group(large: &str, small: &str) -> (r: String)
    ensures
        r@ == portrait_group_spec(large@, small@),
{
    let mut lines: Vec<String> = Vec::new();
    push_scalar(&mut lines, "large", large);
    push_scalar(&mut lines, "small", small);
    finish_lines(&lines)
}

fn push_portrait_group(lines: &mut Vec<String>, group: &str, large: &str, small: &str) -> (ok: bool)
    ensures
        ok <==> portrait_lines(group@, large@, small@) is Some,
        ok ==> views(final(lines)@) == views(old(lines)@) + portrait_lines(group@, large@, small@)->0,
{
    let ghost before = views(lines@);
    let body = render_portrait_group(large, small);
    if body.as_str().is_empty() {
        assert(views(lines@) =~= before + Seq::<Seq<char>>::empty());
        return true;
    }
    match format_lines(body.as_str(), "", "\n") {
        Some(block) => {
            let mut line = group.to_owned();
            line.push_str(" = ");
            line.push_str(block.as_str());
            lines.push(line);
            proof {
                reveal_strlit("");
                assert(""@ =~= Seq::<char>::empty());
            }
            assert(views(lines@) =~= before + seq![line@]);
            true
        },
        None => {
            proof {
                reveal_strlit("");
            }
            false
        },
    }
}

/// The body of a `portraits` block.
pub fn render_portraits(portraits: &Portraits) -> (r: Option<String>)
    ensures
        opt_text(r) == render_portraits_spec(*portraits),
{
    let mut lines: Vec<String> = Vec::new();
    assert(views(lines@) =~= Seq::<Seq<char>>::empty());
    if !push_portrait_group(&mut lines, "civilian", portraits.civilian_large.as_str(), portraits.civilian_small.as_str()) {
        return None;
    }
    if !push_portrait_group(&mut lines, "army", portraits.army_large.as_str(), portraits.army_small.as_str()) {
        return None;
    }
    if !push_portrait_group(&mut lines, "navy", portraits.navy_large.as_str(), portraits.navy_small.as_str()) {
        return None;
    }
    Some(finish_lines(&lines))
}

/// Adds `key = { body }` with the braces on lines of their own.
fn push_role(lines: &mut Vec<String>, key: &str, body: Option<String>) -> (ok: bool)
    ensures
        ok <==> role_lines(key@, opt_text(body)) is Some,
        ok ==> views(final(lines)@) == views(old(lines)@) + role_lines(key@, opt_text(body))->0,
{
    proof {
        reveal(role_lines);
    }
    let ghost before = views(lines@);
    match body {
        Some(b) => match format_lines(b.as_str(), "", "\n") {
            Some(block) => {
                let mut line = key.to_owned();
                line.push_str(" = ");
                line.push_str(block.as_str());
                lines.push(line);
                proof {
                    reveal_strlit("");
                    assert(""@ =~= Seq::<char>::empty());
                }
                assert(views(lines@) =~= before + seq![line@]);
                true
            },
            None => {
                proof {
                    reveal_strlit("");
                }
                false
            },
        },
        None => false,
    }
}

proof fn lemma_leaders_none(ls: Seq<CountryLeader>, i: int)
    requires
        0 <= i <= ls.len(),
        leaders_lines(ls.take(i)) is None,
    ensures
        leaders_lines(ls) is None,
    decreases ls.len() - i,
{
    if i < ls.len() {
        assert(ls.take(i + 1).drop_last() =~= ls.take(i));
        lemma_leaders_none(ls, i + 1);
    } else {
        assert(ls.take(i) =~= ls);
    }
}

proof fn lemma_advisors_none(ls: Seq<Advisor>, i: int)
    requires
        0 <= i <= ls.len(),
        advisors_lines(ls.take(i)) is None,
    ensures
        advisors_lines(ls) is None,
    decreases ls.len() - i,
{
    if i < ls.len() {
        assert(ls.take(i + 1).drop_last() =~= ls.take(i));
        lemma_advisors_none(ls, i + 1);
    } else {
        assert(ls.take(i) =~= ls);
    }
}

proof fn lemma_commanders_none(ls: Seq<Commander>, i: int)
    requires
        0 <= i <= ls.len(),
        commanders_lines(ls.take(i)) is None,
    ensures
        commanders_lines(ls) is None,
    decreases ls.len() - i,
{
    if i < ls.len() {
        assert(ls.take(i + 1).drop_last() =~= ls.take(i));
        lemma_commanders_none(ls, i + 1);
    } else {
        assert(ls.take(i) =~= ls);
    }
}

fn push_leader_roles(lines: &mut Vec<String>, leaders: &Vec<CountryLeader>) -> (ok: bool)
    ensures
        ok <==> leaders_lines(leaders@) is Some,
        ok ==> views(final(lines)@) == views(old(lines)@) + leaders_lines(leaders@)->0,
{
    let ghost base = views(lines@);
    let mut i: usize = 0;
    while i < leaders.len()
        invariant
            i <= leaders@.len(),
            leaders_lines(leaders@.take(i as int)) is Some,
            views(lines@) == base + leaders_lines(leaders@.take(i as int))->0,
        decreases leaders@.len() - i,
    {
        proof {
            assert(leaders@.take(i + 1).drop_last() =~= leaders@.take(i as int));
        }
        let ghost prev = views(lines@);
        let body = render_leader(&leaders[i]);
        if !push_role(lines, "country_leader", body) {
            proof {
                lemma_leaders_none(leaders@, i + 1);
            }
            return false;
        }
        proof {
            assert(views(lines@) =~= base + leaders_lines(leaders@.take(i + 1))->0);
        }
        i = i + 1;
    }
    assert(leaders@.take(leaders@.len() as int) =~= leaders@);
    true
}

fn push_advisor_roles(lines: &mut Vec<String>, advisors: &Vec<Advisor>) -> (ok: bool)
    ensures
        ok <==> advisors_lines(advisors@) is Some,
        ok ==> views(final(lines)@) == views(old(lines)@) + advisors_lines(advisors@)->0,
{
    let ghost base = views(lines@);
    let mut i: usize = 0;
    while i < advisors.len()
        invariant
            i <= advisors@.len(),
            advisors_lines(advisors@.take(i as int)) is Some,
            views(lines@) == base + advisors_lines(advisors@.take(i as int))->0,
        decreases advisors@.len() - i,
    {
        proof {
            assert(advisors@.take(i + 1).drop_last() =~= advisors@.take(i as int));
        }
        let body = render_advisor(&advisors[i]);
        if !push_role(lines, "advisor", body) {
            proof {
                lemma_advisors_none(advisors@, i + 1);
            }
            return false;
        }
        proof {
            assert(views(lines@) =~= base + advisors_lines(advisors@.take(i + 1))->0);
        }
        i = i + 1;
    }
    assert(advisors@.take(advisors@.len() as int) =~= advisors@);
    true
}

fn push_commander_roles(lines: &mut Vec<String>, commanders: &Vec<Commander>) -> (ok: bool)
    ensures
        ok <==> commanders_lines(commanders@) is Some,
        ok ==> views(final(lines)@) == views(old(lines)@) + commanders_lines(commanders@)->0,
{
    let ghost base = views(lines@);
    let mut i: usize = 0;
    while i < commanders.len()
        invariant
            i <= commanders@.len(),
            commanders_lines(commanders@.take(i as int)) is Some,
            views(lines@) == base + commanders_lines(commanders@.take(i as int))->0,
        decreases commanders@.len() - i,
    {
        proof {
            assert(commanders@.take(i + 1).drop_last() =~= commanders@.take(i as int));
        }
        let body = render_commander(&commanders[i]);
        if !push_role(lines, commanders[i].kind.as_str(), body) {
            proof {
                lemma_commanders_none(commanders@, i + 1);
            }
            return false;
        }
        proof {
            assert(views(lines@) =~= base + commanders_lines(commanders@.take(i + 1))->0);
        }
        i = i + 1;
    }
    assert(commanders@.take(commanders@.len() as int) =~= commanders@);
    true
}

fn push_portraits(lines: &mut Vec<String>, portraits: &Portraits) -> (ok: bool)
    ensures
        ok <==> portraits_block_lines(*portraits) is Some,
        ok ==> views(final(lines)@) == views(old(lines)@) + portraits_block_lines(*portraits)->0,
{
    let ghost head = views(lines@);
    match render_portraits(portraits) {
        Some(body) => {
            if !body.as_str().is_empty() {
                match format_lines(body.as_str(), "", "\n") {
                    Some(block) => {
                        let mut line = "portraits = ".to_owned();
                        line.push_str(block.as_str());
                        lines.push(line);
                        proof {
                            reveal_strlit("");
                            assert(""@ =~= Seq::<char>::empty());
                        }
                        assert(views(lines@) =~= head + seq![line@]);
                        true
                    },
                    None => {
                        proof {
                            reveal_strlit("");
                        }
                        false
                    },
                }
            } else {
                assert(views(lines@) =~= head + Seq::<Seq<char>>::empty());
                true
            }
        },
        None => false,
    }
}

/// The body of a new character block.
pub fn render_character(character: &CharacterUpdate) -> (r: Option<String>)
    ensures
        opt_text(r) == render_character_spec(*character),
{
    let mut lines: Vec<String> = Vec::new();
    assert(views(lines@) =~= Seq::<Seq<char>>::empty());
    push_scalar(&mut lines, "name", character.name.as_str());
    push_scalar(&mut lines, "gender", character.gender.as_str());
    if !push_portraits(&mut lines, &character.portraits) {
        return None;
    }
    if !push_block(&mut lines, "allowed_civil_war", character.allowed_civil_war.as_str()) {
        return None;
    }
    if !push_leader_roles(&mut lines, &character.leaders) {
        return None;
    }
    if !push_advisor_roles(&mut lines, &character.advisors) {
        return None;
    }
    if !push_commander_roles(&mut lines, &character.commanders) {
        return None;
    }
    Some(finish_lines(&lines))
}

// ---------------------------------------------------------------------------
// Editing in place
// ---------------------------------------------------------------------------

/// What editing a leader role does to its block, in order; `None` when its
/// trait list cannot be laid out.
pub open spec fn leader_changes(b: Seq<u8>, block: Block, l: CountryLeader) -> Option<Seq<ChangeView>> {
    match words_change(b, block, "traits"@, views(l.traits@)) {
        Some(w) => Some(
            seq![
                scalar_change_spec(b, block, "ideology"@, l.ideology@),
                w,
                quoted_change(b, block, "expire"@, l.expire@),
                scalar_change_spec(b, block, "desc"@, l.desc@),
            ],
        ),
        None => None,
    }
}

/// What editing an advisor role does to its block, in order; `None` when a
/// list or a block cannot be laid out.
pub open spec fn advisor_changes(b: Seq<u8>, block: Block, a: Advisor) -> Option<Seq<ChangeView>> {
    match words_change(b, block, "traits"@, views(a.traits@)) {
        Some(w) => if layout_fits(a.allowed@) && layout_fits(a.available@) && layout_fits(
            a.visible@,
        ) && layout_fits(a.ai_will_do@) {
            Some(
                seq![
                    scalar_change_spec(b, block, "slot"@, a.slot@),
                    scalar_change_spec(b, block, "idea_token"@, a.idea_token@),
                    scalar_change_spec(b, block, "ledger"@, a.ledger@),
                    scalar_change_spec(b, block, "cost"@, a.cost@),
                    scalar_change_spec(b, block, "removal_cost"@, a.removal_cost@),
                    scalar_change_spec(b, block, "can_be_fired"@, a.can_be_fired@),
                    w,
                    block_change_spec(b, block, "allowed"@, a.allowed@),
                    block_change_spec(b, block, "available"@, a.available@),
                    block_change_spec(b, block, "visible"@, a.visible@),
                    block_change_spec(b, block, "ai_will_do"@, a.ai_will_do@),
                ],
            )
        } else {
            None
        },
        None => None,
    }
}

/// What editing a commander role does to its block, in order: a navy
/// leader keeps the naval skills and sheds the army ones, any other role
/// the reverse. `None` when its trait list cannot be laid out.
pub open spec fn commander_changes(b: Seq<u8>, block: Block, c: Commander) -> Option<Seq<ChangeView>> {
    let navy = c.kind@ == "navy_leader"@;
    match words_change(b, block, "traits"@, views(c.traits@)) {
        Some(w) => Some(
            seq![
                scalar_change_spec(b, block, "skill"@, c.skill@),
                scalar_change_spec(b, block, "attack_skill"@, c.attack_skill@),
                scalar_change_spec(b, block, "defense_skill"@, c.defense_skill@),
                scalar_change_spec(b, block, "planning_skill"@, if navy { ""@ } else { c.planning_skill@ }),
                scalar_change_spec(b, block, "logistics_skill"@, if navy { ""@ } else { c.logistics_skill@ }),
                scalar_change_spec(b, block, "maneuvering_skill"@, if navy { c.maneuvering_skill@ } else { ""@ }),
                scalar_change_spec(b, block, "coordination_skill"@, if navy { c.coordination_skill@ } else { ""@ }),
                scalar_change_spec(b, block, "legacy_id"@, c.legacy_id@),
                w,
            ],
        ),
        None => None,
    }
}

fn edit_leader(editor: &mut BlockEditor, leader: &CountryLeader) -> (ok: bool)
    requires
        old(editor).wf(),
    ensures
        kept_target(*old(editor), *final(editor)),
        ok == leader_changes(old(editor).source_bytes(), old(editor).edited_block(), *leader) is Some,
        ok ==> made(
            *old(editor),
            *final(editor),
            leader_changes(old(editor).source_bytes(), old(editor).edited_block(), *leader)->0,
        ),
{
    let ghost b = editor.source_bytes();
    let ghost blk = editor.edited_block();
    let ghost e0 = *editor;
    let ghost c0 = scalar_change_spec(b, blk, "ideology"@, leader.ideology@);
    editor.set_scalar("ideology", leader.ideology.as_str());
    let ghost e1 = *editor;
    proof {
        lemma_made_one(e0, e1, c0);
    }
    if !set_words(editor, "traits", &leader.traits) {
        return false;
    }
    let ghost e2 = *editor;
    let ghost w = words_change(b, blk, "traits"@, views(leader.traits@))->0;
    proof {
        lemma_made_then(e0, e1, e2, seq![c0], seq![w]);
    }
    set_quoted(editor, "expire", leader.expire.as_str());
    let ghost e3 = *editor;
    let ghost q = quoted_change(b, blk, "expire"@, leader.expire@);
    proof {
        lemma_made_then(e0, e2, e3, seq![c0] + seq![w], seq![q]);
    }
    let ghost c3 = scalar_change_spec(b, blk, "desc"@, leader.desc@);
    editor.set_scalar("desc", leader.desc.as_str());
    proof {
        lemma_made_one(e3, *editor, c3);
        lemma_made_then(e0, e3, *editor, seq![c0] + seq![w] + seq![q], seq![c3]);
        assert(seq![c0] + seq![w] + seq![q] + seq![c3] =~= seq![c0, w, q, c3]);
    }
    true
}

fn edit_advisor(editor: &mut BlockEditor, advisor: &Advisor) -> (ok: bool)
    requires
        old(editor).wf(),
    ensures
        kept_target(*old(editor), *final(editor)),
        ok == advisor_changes(old(editor).source_bytes(), old(editor).edited_block(), *advisor) is Some,
        ok ==> made(
            *old(editor),
            *final(editor),
            advisor_changes(old(editor).source_bytes(), old(editor).edited_block(), *advisor)->0,
        ),
{
    let ghost b = editor.source_bytes();
    let ghost blk = editor.edited_block();
    let ghost e0 = *editor;
    let ghost mut done: Seq<ChangeView> = Seq::empty();
    proof {
        lemma_made_none(e0);
    }
    let ghost c = scalar_change_spec(b, blk, "slot"@, advisor.slot@);
    let ghost before = *editor;
    editor.set_scalar("slot", advisor.slot.as_str());
    proof {
        lemma_made_one(before, *editor, c);
        lemma_made_then(e0, before, *editor, done, seq![c]);
        done = done + seq![c];
    }
    let ghost c = scalar_change_spec(b, blk, "idea_token"@, advisor.idea_token@);
    let ghost before = *editor;
    editor.set_scalar("idea_token", advisor.idea_token.as_str());
    proof {
        lemma_made_one(before, *editor, c);
        lemma_made_then(e0, before, *editor, done, seq![c]);
        done = done + seq![c];
    }
    let ghost c = scalar_change_spec(b, blk, "ledger"@, advisor.ledger@);
    let ghost before = *editor;
    editor.set_scalar("ledger", advisor.ledger.as_str());
    proof {
        lemma_made_one(before, *editor, c);
        lemma_made_then(e0, before, *editor, done, seq![c]);
        done = done + seq![c];
    }
    let ghost c = scalar_change_spec(b, blk, "cost"@, advisor.cost@);
    let ghost before = *editor;
    editor.set_scalar("cost", advisor.cost.as_str());
    proof {
        lemma_made_one(before, *editor, c);
        lemma_made_then(e0, before, *editor, done, seq![c]);
        done = done + seq![c];
    }
    let ghost c = scalar_change_spec(b, blk, "removal_cost"@, advisor.removal_cost@);
    let ghost before = *editor;
    editor.set_scalar("removal_cost", advisor.removal_cost.as_str());
    proof {
        lemma_made_one(before, *editor, c);
        lemma_made_then(e0, before, *editor, done, seq![c]);
        done = done + seq![c];
    }
    let ghost c = scalar_change_spec(b, blk, "can_be_fired"@, advisor.can_be_fired@);
    let ghost before = *editor;
    editor.set_scalar("can_be_fired", advisor.can_be_fired.as_str());
    proof {
        lemma_made_one(before, *editor, c);
        lemma_made_then(e0, before, *editor, done, seq![c]);
        done = done + seq![c];
    }
    let ghost before = *editor;
    if !set_words(editor, "traits", &advisor.traits) {
        return false;
    }
    proof {
        let w = words_change(b, blk, "traits"@, views(advisor.traits@))->0;
        lemma_made_then(e0, before, *editor, done, seq![w]);
        done = done + seq![w];
    }
    let ghost before = *editor;
    if !set_block_checked(editor, "allowed", advisor.allowed.as_str()) {
        return false;
    }
    proof {
        let c = block_change_spec(b, blk, "allowed"@, advisor.allowed@);
        lemma_made_then(e0, before, *editor, done, seq![c]);
        done = done + seq![c];
    }
    let ghost before = *editor;
    if !set_block_checked(editor, "available", advisor.available.as_str()) {
        return false;
    }
    proof {
        let c = block_change_spec(b, blk, "available"@, advisor.available@);
        lemma_made_then(e0, before, *editor, done, seq![c]);
        done = done + seq![c];
    }
    let ghost before = *editor;
    if !set_block_checked(editor, "visible", advisor.visible.as_str()) {
        return false;
    }
    proof {
        let c = block_change_spec(b, blk, "visible"@, advisor.visible@);
        lemma_made_then(e0, before, *editor, done, seq![c]);
        done = done + seq![c];
    }
    let ghost before = *editor;
    if !set_block_checked(editor, "ai_will_do", advisor.ai_will_do.as_str()) {
        return false;
    }
    proof {
        let c = block_change_spec(b, blk, "ai_will_do"@, advisor.ai_will_do@);
        lemma_made_then(e0, before, *editor, done, seq![c]);
        done = done + seq![c];
        assert(done =~= advisor_changes(b, blk, *advisor)->0);
    }
    true
}

/// The skill fields a role of this kind carries; the other pair is cleared
/// so a role that changed kind sheds them.
fn edit_commander(editor: &mut BlockEditor, commander: &Commander) -> (ok: bool)
    requires
        old(editor).wf(),
    ensures
        kept_target(*old(editor), *final(editor)),
        ok == commander_changes(old(editor).source_bytes(), old(editor).edited_block(), *commander) is Some,
        ok ==> made(
            *old(editor),
            *final(editor),
            commander_changes(old(editor).source_bytes(), old(editor).edited_block(), *commander)->0,
        ),
{
    let ghost b = editor.source_bytes();
    let ghost blk = editor.edited_block();
    let ghost e0 = *editor;
    let ghost mut done: Seq<ChangeView> = Seq::empty();
    proof {
        lemma_made_none(e0);
    }
    let navy = crate::text::str_eq(commander.kind.as_str(), "navy_leader");
    let planning = if navy { "" } else { commander.planning_skill.as_str() };
    let logistics = if navy { "" } else { commander.logistics_skill.as_str() };
    let maneuvering = if navy { commander.maneuvering_skill.as_str() } else { "" };
    let coordination = if navy { commander.coordination_skill.as_str() } else { "" };
    let ghost c = scalar_change_spec(b, blk, "skill"@, commander.skill@);
    let ghost before = *editor;
    editor.set_scalar("skill", commander.skill.as_str());
    proof {
        lemma_made_one(before, *editor, c);
        lemma_made_then(e0, before, *editor, done, seq![c]);
        done = done + seq![c];
    }
    let ghost c = scalar_change_spec(b, blk, "attack_skill"@, commander.attack_skill@);
    let ghost before = *editor;
    editor.set_scalar("attack_skill", commander.attack_skill.as_str());
    proof {
        lemma_made_one(before, *editor, c);
        lemma_made_then(e0, before, *editor, done, seq![c]);
        done = done + seq![c];
    }
    let ghost c = scalar_change_spec(b, blk, "defense_skill"@, commander.defense_skill@);
    let ghost before = *editor;
    editor.set_scalar("defense_skill", commander.defense_skill.as_str());
    proof {
        lemma_made_one(before, *editor, c);
        lemma_made_then(e0, before, *editor, done, seq![c]);
        done = done + seq![c];
    }
    let ghost c = scalar_change_spec(b, blk, "planning_skill"@, planning@);
    let ghost before = *editor;
    editor.set_scalar("planning_skill", planning);
    proof {
        lemma_made_one(before, *editor, c);
        lemma_made_then(e0, before, *editor, done, seq![c]);
        done = done + seq![c];
    }
    let ghost c = scalar_change_spec(b, blk, "logistics_skill"@, logistics@);
    let ghost before = *editor;
    editor.set_scalar("logistics_skill", logistics);
    proof {
        lemma_made_one(before, *editor, c);
        lemma_made_then(e0, before, *editor, done, seq![c]);
        done = done + seq![c];
    }
    let ghost c = scalar_change_spec(b, blk, "maneuvering_skill"@, maneuvering@);
    let ghost before = *editor;
    editor.set_scalar("maneuvering_skill", maneuvering);
    proof {
        lemma_made_one(before, *editor, c);
        lemma_made_then(e0, before, *editor, done, seq![c]);
        done = done + seq![c];
    }
    let ghost c = scalar_change_spec(b, blk, "coordination_skill"@, coordination@);
    let ghost before = *editor;
    editor.set_scalar("coordination_skill", coordination);
    proof {
        lemma_made_one(before, *editor, c);
        lemma_made_then(e0, before, *editor, done, seq![c]);
        done = done + seq![c];
    }
    let ghost c = scalar_change_spec(b, blk, "legacy_id"@, commander.legacy_id@);
    let ghost before = *editor;
    editor.set_scalar("legacy_id", commander.legacy_id.as_str());
    proof {
        lemma_made_one(before, *editor, c);
        lemma_made_then(e0, before, *editor, done, seq![c]);
        done = done + seq![c];
    }
    let ghost before = *editor;
    let ok = set_words(editor, "traits", &commander.traits);
    proof {
        if ok {
            let w = words_change(b, blk, "traits"@, views(commander.traits@))->0;
            lemma_made_then(e0, before, *editor, done, seq![w]);
            done = done + seq![w];
            assert(done =~= commander_changes(b, blk, *commander)->0);
        }
    }
    ok
}

/// Which of the three role renderers and editors a role list uses.
enum Roles<'r> {
    Leaders(&'r Vec<CountryLeader>),
    Advisors(&'r Vec<Advisor>),
    Commanders(&'r Vec<Commander>),
}

impl<'r> Roles<'r> {
    fn len(&self) -> (n: usize)
        ensures
            n == self.count(),
    {
        match self {
            Roles::Leaders(v) => v.len(),
            Roles::Advisors(v) => v.len(),
            Roles::Commanders(v) => v.len(),
        }
    }

    /// The role list as plain values.
    spec fn model(&self) -> RoleList {
        match self {
            Roles::Leaders(v) => RoleList::Leaders(v@),
            Roles::Advisors(v) => RoleList::Advisors(v@),
            Roles::Commanders(v) => RoleList::Commanders(v@),
        }
    }

    spec fn count(&self) -> nat {
        self.model().count()
    }

    spec fn rendered(&self, k: int) -> Option<Seq<char>> {
        self.model().rendered(k)
    }

    spec fn changes(&self, b: Seq<u8>, block: Block, k: int) -> Option<Seq<ChangeView>> {
        self.model().changes(b, block, k)
    }

    fn render(&self, k: usize) -> (r: Option<String>)
        requires
            k < self.count(),
        ensures
            opt_text(r) == self.rendered(k as int),
    {
        match self {
            Roles::Leaders(v) => render_leader(&v[k]),
            Roles::Advisors(v) => render_advisor(&v[k]),
            Roles::Commanders(v) => render_commander(&v[k]),
        }
    }

    fn edit(&self, k: usize, editor: &mut BlockEditor) -> (ok: bool)
        requires
            k < self.count(),
            old(editor).wf(),
        ensures
            kept_target(*old(editor), *final(editor)),
            ok == self.changes(old(editor).source_bytes(), old(editor).edited_block(), k as int) is Some,
            ok ==> made(
                *old(editor),
                *final(editor),
                self.changes(old(editor).source_bytes(), old(editor).edited_block(), k as int)->0,
            ),
    {
        match self {
            Roles::Leaders(v) => edit_leader(editor, &v[k]),
            Roles::Advisors(v) => edit_advisor(editor, &v[k]),
            Roles::Commanders(v) => edit_commander(editor, &v[k]),
        }
    }
}

/// A list of roles of one kind, as plain values.
pub enum RoleList {
    Leaders(Seq<CountryLeader>),
    Advisors(Seq<Advisor>),
    Commanders(Seq<Commander>),
}

impl RoleList {
    /// How many roles there are.
    pub open spec fn count(self) -> nat {
        match self {
            RoleList::Leaders(v) => v.len(),
            RoleList::Advisors(v) => v.len(),
            RoleList::Commanders(v) => v.len(),
        }
    }

    /// Role `k` written out as a block body.
    pub open spec fn rendered(self, k: int) -> Option<Seq<char>> {
        match self {
            RoleList::Leaders(v) => render_leader_spec(v[k]),
            RoleList::Advisors(v) => render_advisor_spec(v[k]),
            RoleList::Commanders(v) => render_commander_spec(v[k]),
        }
    }

    /// The changes that set role `k` field by field inside `block`.
    pub open spec fn changes(self, b: Seq<u8>, block: Block, k: int) -> Option<Seq<ChangeView>> {
        match self {
            RoleList::Leaders(v) => leader_changes(b, block, v[k]),
            RoleList::Advisors(v) => advisor_changes(b, block, v[k]),
            RoleList::Commanders(v) => commander_changes(b, block, v[k]),
        }
    }
}

impl RoleList {
    /// What happens to role `k` where a role entry is already there: set
    /// field by field inside its block, or written out again over a scalar.
    pub open spec fn rewrite(self, b: Seq<u8>, pair: Pair, k: int) -> Option<Seq<ChangeView>> {
        match pair.value {
            Value::Block(role) => match self.changes(b, role, k) {
                Some(cs) => {
                    let vs = finished(b, role, record_all((Seq::empty(), Seq::empty()), cs));
                    if views_fit(b, vs) {
                        Some(handed_on(vs))
                    } else {
                        None
                    }
                },
                None => None,
            },
            Value::Scalar(_) => match self.rendered(k) {
                Some(body) => match fmt_lines(body, indent_spec(b, pair.span.start as int), newline_spec(b)) {
                    Some(t) => Some(seq![ChangeView::Replace(value_span(pair.value), t)]),
                    None => None,
                },
                None => None,
            },
        }
    }

    /// Role `k` added as a new `key = { ... }` entry.
    pub open spec fn addition(self, b: Seq<u8>, block: Block, key: Seq<char>, k: int) -> Option<Seq<ChangeView>> {
        match self.rendered(k) {
            Some(body) => match fmt_lines(body, child_indent_spec(b, block), newline_spec(b)) {
                Some(t) => Some(seq![ChangeView::Add(assignment(key, t))]),
                None => None,
            },
            None => None,
        }
    }

    /// The runs of changes `set_roles` makes on a block whose role entries
    /// under `key` are `pairs`: rewrites by position, then removals, then
    /// additions.
    #[verifier::opaque]
    pub open spec fn attempts(self, b: Seq<u8>, block: Block, pairs: Seq<Pair>, key: Seq<char>) -> Seq<
        Option<Seq<ChangeView>>,
    > {
        let extra = extra_removals(b, pairs, self.count());
        Seq::new(shorter(self.count(), pairs.len()), |i: int| self.rewrite(b, pairs[i], i)) + Seq::new(
            extra.len(),
            |k: int| Some(seq![extra[k]]),
        ) + Seq::new(
            beyond(self.count(), pairs.len()),
            |k: int| self.addition(b, block, key, pairs.len() + k),
        )
    }

    pub proof fn lemma_attempt(self, b: Seq<u8>, block: Block, pairs: Seq<Pair>, key: Seq<char>, at: int)
        ensures
            self.attempts(b, block, pairs, key).len() == shorter(self.count(), pairs.len())
                + extra_removals(b, pairs, self.count()).len() + beyond(self.count(), pairs.len()),
            0 <= at < self.attempts(b, block, pairs, key).len() ==> self.attempts(b, block, pairs, key)[at]
                == (if at < shorter(self.count(), pairs.len()) {
                self.rewrite(b, pairs[at], at)
            } else if at < shorter(self.count(), pairs.len()) + extra_removals(b, pairs, self.count()).len() {
                Some(seq![extra_removals(b, pairs, self.count())[at - shorter(self.count(), pairs.len())]])
            } else {
                self.addition(
                    b,
                    block,
                    key,
                    pairs.len() + at - shorter(self.count(), pairs.len()) - extra_removals(
                        b,
                        pairs,
                        self.count(),
                    ).len(),
                )
            }),
    {
        reveal(RoleList::attempts);
    }
}

/// Writes a repeated role block, editing the blocks already there by
/// position, dropping the extra ones and appending the new ones.
#[verifier::rlimit(40)]
fn set_roles(editor: &mut BlockEditor, key: &str, wanted: &Roles) -> (ok: bool)
    requires
        old(editor).wf(),
    ensures
        kept_target(*old(editor), *final(editor)),
        ok == all_runs(
            wanted.model().attempts(
                old(editor).source_bytes(),
                old(editor).edited_block(),
                pairs_with(old(editor).edited_block().items@, key@),
                key@,
            ),
        ) is Some,
        ok ==> made(
            *old(editor),
            *final(editor),
            all_runs(
                wanted.model().attempts(
                    old(editor).source_bytes(),
                    old(editor).edited_block(),
                    pairs_with(old(editor).edited_block().items@, key@),
                    key@,
                ),
            )->0,
        ),
{
    let ghost e0 = *editor;
    let source = editor.source();
    let block = editor.block();
    let newline = detect_newline(source);
    proof {
        editor.lemma_block_fits();
        lemma_items_fit(bytes_of(source), block.items@, key@);
    }
    let existing = block.find_all(key);
    let ghost b = bytes_of(source);
    let ghost pairs = pairs_with(block.items@, key@);
    let ghost all = wanted.model().attempts(b, *block, pairs, key@);
    let ghost n = shorter(wanted.count(), pairs.len());
    let ghost extra = extra_removals(b, pairs, wanted.count());
    let ghost mut done: Seq<ChangeView> = Seq::empty();
    proof {
        lemma_find_all_derefs(existing@, block.items@, key@);
        lemma_made_none(*editor);
        wanted.model().lemma_attempt(b, *block, pairs, key@, 0);
        assert(all.take(0) =~= Seq::<Option<Seq<ChangeView>>>::empty());
    }
    let shared = if wanted.len() < existing.len() {
        wanted.len()
    } else {
        existing.len()
    };
    let mut k: usize = 0;
    while k < shared
        invariant
            e0 == *old(editor),
            b == e0.source_bytes(),
            *block == e0.edited_block(),
            bytes_of(source) == editor.source_bytes(),
            bytes_of(source) == b,
            newline@ == newline_spec(b),
            shared == n,
            n == shorter(wanted.count(), pairs.len()),
            shared <= existing@.len(),
            shared <= wanted.count(),
            derefs(existing@) == pairs,
            pairs == pairs_with(e0.edited_block().items@, key@),
            pairs_fit(b, pairs),
            all == wanted.model().attempts(b, *block, pairs, key@),
            k <= shared,
            all_runs(all.take(k as int)) == Some(done),
            made(e0, *editor, done),
        decreases shared - k,
    {
        let pair = existing[k];
        let ghost e1 = *editor;
        proof {
            assert(derefs(existing@)[k as int] == *pair);
            assert(item_fits(b, Item::Pair(pairs[k as int])));
            wanted.model().lemma_attempt(b, *block, pairs, key@, k as int);
            assert(all.take(k as int + 1) =~= all.take(k as int).push(all[k as int]));
            lemma_all_runs_push(all.take(k as int), all[k as int]);
        }
        match &pair.value {
            Value::Block(role) => {
                proof {
                    crate::script::lemma_block_items_fit(b, *role);
                }
                let mut inner = BlockEditor::new(source, role);
                let ghost i0 = inner;
                if !wanted.edit(k, &mut inner) {
                    proof {
                        assert(all =~= all.take(k as int).push(None) + all.skip(k as int + 1));
                        lemma_all_runs_fails(all.take(k as int), all.skip(k as int + 1));
                    }
                    return false;
                }
                if !hand_on(editor, inner) {
                    proof {
                        assert(all =~= all.take(k as int).push(None) + all.skip(k as int + 1));
                        lemma_all_runs_fails(all.take(k as int), all.skip(k as int + 1));
                    }
                    return false;
                }
                proof {
                    lemma_made_then(e0, e1, *editor, done, all[k as int]->0);
                }
            },
            _ => {
                let indent = indent_at(source, pair.span.start);
                let body = match wanted.render(k) {
                    Some(body) => body,
                    None => {
                        proof {
                            assert(all =~= all.take(k as int).push(None) + all.skip(k as int + 1));
                            lemma_all_runs_fails(all.take(k as int), all.skip(k as int + 1));
                        }
                        return false;
                    },
                };
                match format_lines(body.as_str(), indent.as_str(), newline) {
                    Some(text) => {
                        let edit = TextEdit::new(pair.value.span(), text);
                        proof {
                            assert(seq![edit][0] == edit);
                            assert(item_fits(b, Item::Pair(*pair)));
                            assert(edits_fit(b, seq![edit]));
                        }
                        if !edit_fits(source, &edit) {
                            return false;
                        }
                        editor.edit(edit);
                        proof {
                            lemma_made_one(e1, *editor, ChangeView::Replace(edit.span, edit.replacement@));
                            lemma_made_then(e0, e1, *editor, done, all[k as int]->0);
                        }
                    },
                    None => {
                        proof {
                            assert(all =~= all.take(k as int).push(None) + all.skip(k as int + 1));
                            lemma_all_runs_fails(all.take(k as int), all.skip(k as int + 1));
                        }
                        return false;
                    },
                }
            },
        }
        proof {
            done = done + all[k as int]->0;
        }
        k = k + 1;
    }
    let mut k: usize = shared;
    while k < existing.len()
        invariant
            e0 == *old(editor),
            b == e0.source_bytes(),
            bytes_of(source) == editor.source_bytes(),
            bytes_of(source) == b,
            shared == n,
            n == shorter(wanted.count(), pairs.len()),
            derefs(existing@) == pairs,
            pairs_fit(b, pairs),
            all == wanted.model().attempts(b, *block, pairs, key@),
            extra == extra_removals(b, pairs, wanted.count()),
            n <= k,
            k <= pairs.len(),
            all_runs(all.take(k as int)) == Some(done),
            made(e0, *editor, done),
        decreases existing@.len() - k,
    {
        let ghost e1 = *editor;
        proof {
            assert(derefs(existing@)[k as int] == *existing@[k as int]);
            assert(item_fits(b, Item::Pair(pairs[k as int])));
            wanted.model().lemma_attempt(b, *block, pairs, key@, k as int);
            assert(all.take(k as int + 1) =~= all.take(k as int).push(all[k as int]));
            lemma_all_runs_push(all.take(k as int), all[k as int]);
        }
        editor.remove(existing[k]);
        proof {
            lemma_made_one(e1, *editor, extra[k - wanted.count()]);
            lemma_made_then(e0, e1, *editor, done, seq![extra[k - wanted.count()]]);
            done = done + seq![extra[k - wanted.count()]];
        }
        k = k + 1;
    }
    let indent = child_indent(source, block);
    let mut k: usize = shared;
    while k < wanted.len()
        invariant
            e0 == *old(editor),
            b == e0.source_bytes(),
            *block == e0.edited_block(),
            bytes_of(source) == b,
            newline@ == newline_spec(b),
            indent@ == child_indent_spec(b, *block),
            shared == n,
            n == shorter(wanted.count(), pairs.len()),
            pairs == pairs_with(e0.edited_block().items@, key@),
            pairs.len() == existing@.len(),
            all == wanted.model().attempts(b, *block, pairs, key@),
            extra == extra_removals(b, pairs, wanted.count()),
            n <= k,
            k <= wanted.count(),
            all_runs(all.take(extra.len() + k)) == Some(done),
            made(e0, *editor, done),
        decreases wanted.count() - k,
    {
        let ghost e1 = *editor;
        let ghost at = extra.len() + k;
        proof {
            wanted.model().lemma_attempt(b, *block, pairs, key@, at);
            assert(all.take(at + 1) =~= all.take(at).push(all[at]));
            lemma_all_runs_push(all.take(at), all[at]);
        }
        let body = match wanted.render(k) {
            Some(body) => body,
            None => {
                proof {
                    assert(all[at] is None);
                    assert(all =~= all.take(at).push(None) + all.skip(at + 1));
                    lemma_all_runs_fails(all.take(at), all.skip(at + 1));
                }
                return false;
            },
        };
        match format_lines(body.as_str(), indent.as_str(), newline) {
            Some(text) => {
                let mut line = key.to_owned();
                line.push_str(" = ");
                line.push_str(text.as_str());
                editor.add_line(line);
                proof {
                    reveal_strlit(" = ");
                    assert(line@ =~= assignment(key@, text@));
                    lemma_made_one(e1, *editor, ChangeView::Add(line@));
                    lemma_made_then(e0, e1, *editor, done, all[at]->0);
                    done = done + all[at]->0;
                }
            },
            None => {
                proof {
                    assert(all[at] is None);
                    assert(all =~= all.take(at).push(None) + all.skip(at + 1));
                    lemma_all_runs_fails(all.take(at), all.skip(at + 1));
                }
                return false;
            },
        }
        k = k + 1;
    }
    proof {
        wanted.model().lemma_attempt(b, *block, pairs, key@, 0);
        assert(all.take(all.len() as int) =~= all);
    }
    true
}

/// Two commander roles with the same fields.
pub open spec fn same_commander(a: Commander, b: Commander) -> bool {
    &&& a.kind@ == b.kind@
    &&& a.skill@ == b.skill@
    &&& a.attack_skill@ == b.attack_skill@
    &&& a.defense_skill@ == b.defense_skill@
    &&& a.planning_skill@ == b.planning_skill@
    &&& a.logistics_skill@ == b.logistics_skill@
    &&& a.maneuvering_skill@ == b.maneuvering_skill@
    &&& a.coordination_skill@ == b.coordination_skill@
    &&& a.legacy_id@ == b.legacy_id@
    &&& views(a.traits@) == views(b.traits@)
}

/// The commander roles of one kind, in order.
pub open spec fn of_kind(cs: Seq<Commander>, kind: Seq<char>) -> Seq<Commander>
    decreases cs.len(),
{
    if cs.len() == 0 {
        Seq::empty()
    } else {
        let rest = of_kind(cs.drop_last(), kind);
        if cs.last().kind@ == kind {
            rest.push(cs.last())
        } else {
            rest
        }
    }
}

fn copy_words(v: &Vec<String>) -> (r: Vec<String>)
    ensures
        views(r@) == views(v@),
{
    let mut r: Vec<String> = Vec::new();
    let mut i: usize = 0;
    while i < v.len()
        invariant
            i <= v@.len(),
            views(r@) == views(v@).take(i as int),
        decreases v@.len() - i,
    {
        let ghost before = views(r@);
        let s = v[i].as_str().to_owned();
        r.push(s);
        assert(views(r@) =~= before.push(v@[i as int]@));
        assert(views(r@) =~= views(v@).take(i + 1));
        i = i + 1;
    }
    assert(views(v@).take(v@.len() as int) =~= views(v@));
    r
}

fn copy_commander(c: &Commander) -> (r: Commander)
    ensures
        same_commander(r, *c),
{
    Commander {
        kind: c.kind.as_str().to_owned(),
        skill: c.skill.as_str().to_owned(),
        attack_skill: c.attack_skill.as_str().to_owned(),
        defense_skill: c.defense_skill.as_str().to_owned(),
        planning_skill: c.planning_skill.as_str().to_owned(),
        logistics_skill: c.logistics_skill.as_str().to_owned(),
        maneuvering_skill: c.maneuvering_skill.as_str().to_owned(),
        coordination_skill: c.coordination_skill.as_str().to_owned(),
        legacy_id: c.legacy_id.as_str().to_owned(),
        traits: copy_words(&c.traits),
    }
}

/// The commanders of one kind, in order.
fn commanders_of_kind(commanders: &Vec<Commander>, kind: &str) -> (r: Vec<Commander>)
    ensures
        r.len() == of_kind(commanders@, kind@).len(),
        forall|i: int| 0 <= i < r.len() ==> same_commander(#[trigger] r@[i], of_kind(commanders@, kind@)[i]),
{
    let mut r: Vec<Commander> = Vec::new();
    let mut i: usize = 0;
    while i < commanders.len()
        invariant
            i <= commanders@.len(),
            r.len() == of_kind(commanders@.take(i as int), kind@).len(),
            forall|j: int| 0 <= j < r.len() ==> same_commander(#[trigger] r@[j], of_kind(commanders@.take(i as int), kind@)[j]),
        decreases commanders@.len() - i,
    {
        proof {
            assert(commanders@.take(i as int + 1).drop_last() =~= commanders@.take(i as int));
            assert(commanders@.take(i as int + 1).last() == commanders@[i as int]);
        }
        if crate::text::str_eq(commanders[i].kind.as_str(), kind) {
            let c = copy_commander(&commanders[i]);
            r.push(c);
        }
        i = i + 1;
    }
    proof {
        assert(commanders@.take(i as int) =~= commanders@);
    }
    r
}

/// The runs of changes made inside a `portraits` block: the civilian, army
/// and navy groups in turn.
pub open spec fn picture_changes(b: Seq<u8>, pb: Block, p: Portraits) -> Option<Seq<ChangeView>> {
    all_runs(
        seq![
            group_change(b, pb, "civilian"@, p.civilian_large@, p.civilian_small@),
            group_change(b, pb, "army"@, p.army_large@, p.army_small@),
            group_change(b, pb, "navy"@, p.navy_large@, p.navy_small@),
        ],
    )
}

/// What `set_portraits` does to a character block: the block removed when
/// every picture is blank, its groups set in place, written over a scalar,
/// or added. `None` where that cannot be done.
pub open spec fn portraits_change(b: Seq<u8>, block: Block, p: Portraits) -> Option<Seq<ChangeView>> {
    match find_spec(block.items@, "portraits"@) {
        None => if portraits_blank(p) {
            Some(Seq::empty())
        } else {
            match render_portraits_spec(p) {
                Some(body) => match fmt_lines(body, child_indent_spec(b, block), newline_spec(b)) {
                    Some(t) => Some(seq![ChangeView::Add("portraits = "@ + t)]),
                    None => None,
                },
                None => None,
            }
        },
        Some(pair) => if portraits_blank(p) {
            Some(seq![ChangeView::Remove(removal_span(b, pair))])
        } else {
            match pair.value {
                Value::Block(pb) => match picture_changes(b, pb, p) {
                    Some(cs) => {
                        let vs = finished(b, pb, record_all((Seq::empty(), Seq::empty()), cs));
                        if views_fit(b, vs) {
                            Some(handed_on(vs))
                        } else {
                            None
                        }
                    },
                    None => None,
                },
                Value::Scalar(_) => match render_portraits_spec(p) {
                    Some(body) => match fmt_lines(body, indent_spec(b, pair.span.start as int), newline_spec(b)) {
                        Some(t) => Some(seq![ChangeView::Replace(value_span(pair.value), t)]),
                        None => None,
                    },
                    None => None,
                },
            }
        },
    }
}

/// Sets the six portrait pictures, editing the groups that are there and
/// adding or dropping the ones that are not.
fn set_portraits(editor: &mut BlockEditor, portraits: &Portraits) -> (ok: bool)
    requires
        old(editor).wf(),
    ensures
        kept_target(*old(editor), *final(editor)),
        ok == portraits_change(old(editor).source_bytes(), old(editor).edited_block(), *portraits) is Some,
        ok ==> made(
            *old(editor),
            *final(editor),
            portraits_change(old(editor).source_bytes(), old(editor).edited_block(), *portraits)->0,
        ),
{
    let ghost e0 = *editor;
    let source = editor.source();
    let block = editor.block();
    let ghost b = bytes_of(source);
    let newline = detect_newline(source);
    proof {
        editor.lemma_block_fits();
        lemma_items_fit(bytes_of(source), block.items@, "portraits"@);
        lemma_made_none(*editor);
    }
    let empty = portraits_empty(portraits);
    let pair = match block.find("portraits") {
        Some(pair) => pair,
        None => {
            if !empty {
                let indent = child_indent(source, block);
                let body = match render_portraits(portraits) {
                    Some(body) => body,
                    None => {
                        return false;
                    },
                };
                match format_lines(body.as_str(), indent.as_str(), newline) {
                    Some(text) => {
                        let mut line = "portraits = ".to_owned();
                        line.push_str(text.as_str());
                        editor.add_line(line);
                        proof {
                            lemma_made_one(e0, *editor, ChangeView::Add(line@));
                        }
                    },
                    None => {
                        return false;
                    },
                }
            }
            return true;
        },
    };
    if empty {
        editor.remove(pair);
        proof {
            lemma_made_one(e0, *editor, ChangeView::Remove(removal_span(b, *pair)));
        }
        return true;
    }
    let pictures_block = match &pair.value {
        Value::Block(b) => b,
        _ => {
            let indent = indent_at(source, pair.span.start);
            let body = match render_portraits(portraits) {
                Some(body) => body,
                None => {
                    return false;
                },
            };
            match format_lines(body.as_str(), indent.as_str(), newline) {
                Some(text) => {
                    let edit = TextEdit::new(pair.value.span(), text);
                    proof {
                        assert(seq![edit][0] == edit);
                        assert(item_fits(b, Item::Pair(*pair)));
                        assert(edits_fit(b, seq![edit]));
                    }
                    if !edit_fits(source, &edit) {
                        return false;
                    }
                    editor.edit(edit);
                    proof {
                        lemma_made_one(e0, *editor, ChangeView::Replace(edit.span, edit.replacement@));
                    }
                    return true;
                },
                None => {
                    return false;
                },
            }
        },
    };
    proof {
        crate::script::lemma_block_items_fit(b, *pictures_block);
    }
    let mut pictures = BlockEditor::new(source, pictures_block);
    let ghost p0 = pictures;
    let ghost pb = *pictures_block;
    let ghost g1 = group_change(b, pb, "civilian"@, portraits.civilian_large@, portraits.civilian_small@);
    let ghost g2 = group_change(b, pb, "army"@, portraits.army_large@, portraits.army_small@);
    let ghost g3 = group_change(b, pb, "navy"@, portraits.navy_large@, portraits.navy_small@);
    proof {
        lemma_all_runs_push(Seq::empty(), g1);
        lemma_all_runs_push(seq![g1], g2);
        lemma_all_runs_push(seq![g1, g2], g3);
        assert(Seq::<Option<Seq<ChangeView>>>::empty().push(g1) =~= seq![g1]);
        assert(seq![g1].push(g2) =~= seq![g1, g2]);
        assert(seq![g1, g2].push(g3) =~= seq![g1, g2, g3]);
    }
    if !set_group(&mut pictures, "civilian", portraits.civilian_large.as_str(), portraits.civilian_small.as_str()) {
        return false;
    }
    let ghost p1 = pictures;
    if !set_group(&mut pictures, "army", portraits.army_large.as_str(), portraits.army_small.as_str()) {
        return false;
    }
    let ghost p2 = pictures;
    if !set_group(&mut pictures, "navy", portraits.navy_large.as_str(), portraits.navy_small.as_str()) {
        return false;
    }
    proof {
        assert(Seq::<ChangeView>::empty() + g1->0 =~= g1->0);
        lemma_made_then(p0, p1, p2, g1->0, g2->0);
        lemma_made_then(p0, p2, pictures, g1->0 + g2->0, g3->0);
    }
    hand_on(editor, pictures)
}

/// Every picture is blank.
pub open spec fn portraits_blank(p: Portraits) -> bool {
    trim_spec(p.civilian_large@).len() == 0 && trim_spec(p.civilian_small@).len() == 0
        && trim_spec(p.army_large@).len() == 0 && trim_spec(p.army_small@).len() == 0
        && trim_spec(p.navy_large@).len() == 0 && trim_spec(p.navy_small@).len() == 0
}

/// Whether every picture is blank.
fn portraits_empty(p: &Portraits) -> (r: bool)
    ensures
        r == portraits_blank(*p),
{
    trim(p.civilian_large.as_str()).as_str().is_empty() && trim(p.civilian_small.as_str()).as_str().is_empty()
        && trim(p.army_large.as_str()).as_str().is_empty() && trim(p.army_small.as_str()).as_str().is_empty()
        && trim(p.navy_large.as_str()).as_str().is_empty() && trim(p.navy_small.as_str()).as_str().is_empty()
}

/// The edits an editor of a portrait group hands on once both pictures
/// are set.
pub open spec fn picture_edits(b: Seq<u8>, gb: Block, large: Seq<char>, small: Seq<char>) -> Seq<
    (Span, Seq<char>),
> {
    let first = record(Seq::empty(), Seq::empty(), scalar_change_spec(b, gb, "large"@, large));
    finished(b, gb, record(first.0, first.1, scalar_change_spec(b, gb, "small"@, small)))
}

/// What `set_group` does to a `portraits` block: a group with a picture
/// set in place, written over a scalar or added; one with none removed.
/// `None` where that cannot be done.
pub open spec fn group_change(b: Seq<u8>, block: Block, group: Seq<char>, large: Seq<char>, small: Seq<char>) -> Option<
    Seq<ChangeView>,
> {
    let wanted = trim_spec(large).len() != 0 || trim_spec(small).len() != 0;
    match find_spec(block.items@, group) {
        Some(gp) => if !wanted {
            Some(seq![ChangeView::Remove(removal_span(b, gp))])
        } else {
            match gp.value {
                Value::Block(gb) => if views_fit(b, picture_edits(b, gb, large, small)) {
                    Some(handed_on(picture_edits(b, gb, large, small)))
                } else {
                    None
                },
                Value::Scalar(_) => match fmt_lines(
                    portrait_group_spec(large, small),
                    indent_spec(b, gp.span.start as int),
                    newline_spec(b),
                ) {
                    Some(t) => Some(seq![ChangeView::Replace(value_span(gp.value), t)]),
                    None => None,
                },
            }
        },
        None => if wanted {
            match fmt_lines(portrait_group_spec(large, small), child_indent_spec(b, block), newline_spec(b)) {
                Some(t) => Some(seq![ChangeView::Add(assignment(group, t))]),
                None => None,
            }
        } else {
            Some(Seq::empty())
        },
    }
}

/// One portrait group inside `portraits = { }`.
fn set_group(pictures: &mut BlockEditor, group: &str, large: &str, small: &str) -> (ok: bool)
    requires
        old(pictures).wf(),
    ensures
        kept_target(*old(pictures), *final(pictures)),
        ok == group_change(old(pictures).source_bytes(), old(pictures).edited_block(), group@, large@, small@) is Some,
        ok ==> made(
            *old(pictures),
            *final(pictures),
            group_change(old(pictures).source_bytes(), old(pictures).edited_block(), group@, large@, small@)->0,
        ),
{
    let ghost e0 = *pictures;
    let source = pictures.source();
    let block = pictures.block();
    let ghost b = bytes_of(source);
    let newline = detect_newline(source);
    proof {
        pictures.lemma_block_fits();
        lemma_items_fit(bytes_of(source), block.items@, group@);
        lemma_made_none(*pictures);
    }
    let wanted = !trim(large).as_str().is_empty() || !trim(small).as_str().is_empty();
    match block.find(group) {
        Some(group_pair) => match &group_pair.value {
            Value::Block(group_block) => {
                if wanted {
                    proof {
                        crate::script::lemma_block_items_fit(b, *group_block);
                    }
                    let mut picture = BlockEditor::new(source, group_block);
                    picture.set_scalar("large", large);
                    picture.set_scalar("small", small);
                    hand_on(pictures, picture)
                } else {
                    pictures.remove(group_pair);
                    proof {
                        lemma_made_one(e0, *pictures, ChangeView::Remove(removal_span(b, *group_pair)));
                    }
                    true
                }
            },
            _ => {
                if wanted {
                    let indent = indent_at(source, group_pair.span.start);
                    let body = render_portrait_group(large, small);
                    match format_lines(body.as_str(), indent.as_str(), newline) {
                        Some(text) => {
                            let edit = TextEdit::new(group_pair.value.span(), text);
                            proof {
                                assert(seq![edit][0] == edit);
                                assert(item_fits(b, Item::Pair(*group_pair)));
                                assert(edits_fit(b, seq![edit]));
                            }
                            if !edit_fits(source, &edit) {
                                return false;
                            }
                            pictures.edit(edit);
                            proof {
                                lemma_made_one(e0, *pictures, ChangeView::Replace(edit.span, edit.replacement@));
                            }
                            true
                        },
                        None => false,
                    }
                } else {
                    pictures.remove(group_pair);
                    proof {
                        lemma_made_one(e0, *pictures, ChangeView::Remove(removal_span(b, *group_pair)));
                    }
                    true
                }
            },
        },
        None => {
            if wanted {
                let indent = child_indent(source, block);
                let body = render_portrait_group(large, small);
                match format_lines(body.as_str(), indent.as_str(), newline) {
                    Some(text) => {
                        let mut line = group.to_owned();
                        line.push_str(" = ");
                        line.push_str(text.as_str());
                        pictures.add_line(line);
                        proof {
                            reveal_strlit(" = ");
                            assert(line@ =~= assignment(group@, text@));
                            lemma_made_one(e0, *pictures, ChangeView::Add(line@));
                        }
                        true
                    },
                    None => false,
                }
            } else {
                true
            }
        },
    }
}

/// "a character with id `ID` already exists in this file".
pub open spec fn taken_message(id: Seq<char>) -> Seq<char> {
    "a character with id `"@ + id + "` already exists in this file"@
}

/// The bytes a character's key covers: its id, at the start of its pair.
pub open spec fn key_span(p: Pair, id: Seq<char>) -> crate::paradox::Span {
    crate::paradox::Span {
        start: p.span.start,
        end: (p.span.start + encode_utf8(id).len()) as usize,
    }
}

/// Why `update_source` refuses an update of the character keyed `id` in a
/// file whose items are `items`, before any block is laid out.
pub open spec fn update_refusal(
    b: Seq<u8>,
    path: Seq<char>,
    items: Seq<Item>,
    id: Seq<char>,
    u: CharacterUpdate,
) -> Option<Seq<char>> {
    match find_character_spec(items, id) {
        None => Some(no_character_message(id, path)),
        Some(p) => match p.value {
            Value::Block(bl) => if block_spec(bl.items@, "instance"@) is Some {
                Some(
                    "`"@ + id + "` is defined through instance blocks; edit it in the code view"@,
                )
            } else if validate_spec(u) is Some {
                validate_spec(u)
            } else if trim_spec(u.id@) != id {
                if find_character_spec(items, trim_spec(u.id@)) is Some {
                    Some(taken_message(trim_spec(u.id@)))
                } else if crate::paradox::span_text(b, key_span(p, id)) != id {
                    Some(
                        "the id of `"@ + id + "` is written in a way that cannot be renamed"@,
                    )
                } else {
                    None
                }
            } else {
                None
            },
            _ => None,
        },
    }
}

/// Every change `update_source` makes inside a character block, in order:
/// name, gender, portraits, `allowed_civil_war`, then the roles kind by kind.
/// `None` where one of them cannot be laid out.
pub open spec fn character_runs(b: Seq<u8>, block: Block, u: CharacterUpdate) -> Option<Seq<ChangeView>> {
    let runs = Some(seq![scalar_change_spec(b, block, "name"@, u.name@)]);
    let runs = then_runs(runs, Some(seq![scalar_change_spec(b, block, "gender"@, u.gender@)]));
    let runs = then_runs(runs, portraits_change(b, block, u.portraits));
    let runs = then_runs(runs, checked_block(b, block, "allowed_civil_war"@, u.allowed_civil_war@));
    let runs = then_runs(runs, all_runs(RoleList::Leaders(u.leaders@).attempts(b, block, pairs_with(block.items@, "country_leader"@), "country_leader"@)));
    let runs = then_runs(runs, all_runs(RoleList::Advisors(u.advisors@).attempts(b, block, pairs_with(block.items@, "advisor"@), "advisor"@)));
    let runs = then_runs(runs, all_runs(RoleList::Commanders(of_kind(u.commanders@, "corps_commander"@)).attempts(b, block, pairs_with(block.items@, "corps_commander"@), "corps_commander"@)));
    let runs = then_runs(runs, all_runs(RoleList::Commanders(of_kind(u.commanders@, "field_marshal"@)).attempts(b, block, pairs_with(block.items@, "field_marshal"@), "field_marshal"@)));
    let runs = then_runs(runs, all_runs(RoleList::Commanders(of_kind(u.commanders@, "navy_leader"@)).attempts(b, block, pairs_with(block.items@, "navy_leader"@), "navy_leader"@)));
    runs
}

/// Two lists of commander roles that agree role by role.
pub open spec fn same_commanders(a: Seq<Commander>, c: Seq<Commander>) -> bool {
    &&& a.len() == c.len()
    &&& forall|i: int| 0 <= i < a.len() ==> #[trigger] same_commander(a[i], c[i])
}

proof fn lemma_same_commander(x: Commander, y: Commander)
    requires
        same_commander(x, y),
    ensures
        forall|b: Seq<u8>, block: Block| #[trigger] commander_changes(b, block, x) == commander_changes(b, block, y),
        render_commander_spec(x) == render_commander_spec(y),
{
    assert(skill_lines(x) == skill_lines(y));
    assert(skill_lines(x) + scalar_line("legacy_id"@, x.legacy_id@) == skill_lines(y) + scalar_line(
        "legacy_id"@,
        y.legacy_id@,
    ));
    assert(words_lines("traits"@, views(x.traits@)) == words_lines("traits"@, views(y.traits@)));
    reveal(render_commander_spec);
}

/// Commander roles that agree role by role are written the same way.
proof fn lemma_same_commanders(a: Seq<Commander>, c: Seq<Commander>, b: Seq<u8>, block: Block, pairs: Seq<Pair>, key: Seq<char>)
    requires
        same_commanders(a, c),
    ensures
        RoleList::Commanders(a).attempts(b, block, pairs, key) == RoleList::Commanders(c).attempts(b, block, pairs, key),
{
    reveal(RoleList::attempts);
    assert forall|i: int| 0 <= i < a.len() implies render_commander_spec(#[trigger] a[i]) == render_commander_spec(c[i]) by {
        lemma_same_commander(a[i], c[i]);
    }
    assert forall|i: int, role: Block| 0 <= i < a.len() implies #[trigger] commander_changes(b, role, a[i]) == commander_changes(b, role, c[i]) by {
        lemma_same_commander(a[i], c[i]);
    }
    let x = RoleList::Commanders(a).attempts(b, block, pairs, key);
    let y = RoleList::Commanders(c).attempts(b, block, pairs, key);
    assert(x =~= y);
}

/// The rename of a character's key, when its id changes.
pub open spec fn rename_views(p: Pair, id: Seq<char>, new_id: Seq<char>) -> Seq<(Span, Seq<char>)> {
    if new_id != id {
        seq![(key_span(p, id), new_id)]
    } else {
        Seq::empty()
    }
}

/// The edits `update_source` makes to the file for the character keyed
/// `id`: the rename of its key, then what its block's editor hands on.
pub open spec fn character_edits(b: Seq<u8>, items: Seq<Item>, id: Seq<char>, u: CharacterUpdate) -> Option<
    Seq<(Span, Seq<char>)>,
> {
    match find_character_spec(items, id) {
        Some(p) => match p.value {
            Value::Block(block) => match handed(b, block, character_runs(b, block, u)) {
                Some(vs) => Some(rename_views(p, id, trim_spec(u.id@)) + vs),
                None => None,
            },
            Value::Scalar(_) => None,
        },
        None => None,
    }
}

/// The edits made inside a character's block, as its editor hands them on.
#[verifier::rlimit(60)]
fn character_block_edits(source: &str, block: &Block, update: &CharacterUpdate) -> (r: Option<Vec<TextEdit>>)
    requires
        value_fits(bytes_of(source), Value::Block(*block)),
    ensures
        match handed(bytes_of(source), *block, character_runs(bytes_of(source), *block, *update)) {
            Some(vs) => r matches Some(es) && crate::paradox::edit::edit_views(es@) == vs,
            None => r is None,
        },
{
    let ghost b = bytes_of(source);
    let mut editor = BlockEditor::new(source, block);
    let ghost e0 = editor;
    let ghost mut done: Seq<ChangeView> = Seq::empty();
    proof {
        lemma_made_none(editor);
    }
    let ghost ep = editor;
    editor.set_scalar("name", update.name.as_str());
    proof {
        lemma_made_one(ep, editor, scalar_change_spec(b, *block, "name"@, (*update).name@));
        assert(made(e0, editor, seq![scalar_change_spec(b, *block, "name"@, (*update).name@)]));
        done = seq![scalar_change_spec(b, *block, "name"@, (*update).name@)];
    }
    let ghost ep = editor;
    editor.set_scalar("gender", update.gender.as_str());
    proof {
        lemma_made_one(ep, editor, scalar_change_spec(b, *block, "gender"@, (*update).gender@));
        lemma_made_then(e0, ep, editor, done, seq![scalar_change_spec(b, *block, "gender"@, (*update).gender@)]);
        done = done + seq![scalar_change_spec(b, *block, "gender"@, (*update).gender@)];
    }
    let ghost ep = editor;
    if !set_portraits(&mut editor, &update.portraits) {
        return None;
    }
    proof {
        
        lemma_made_then(e0, ep, editor, done, (portraits_change(b, *block, (*update).portraits))->0);
        done = done + (portraits_change(b, *block, (*update).portraits))->0;
    }
    let ghost ep = editor;
    if !set_block_checked(&mut editor, "allowed_civil_war", update.allowed_civil_war.as_str()) {
        return None;
    }
    proof {
        
        lemma_made_then(e0, ep, editor, done, seq![block_change_spec(b, *block, "allowed_civil_war"@, (*update).allowed_civil_war@)]);
        done = done + seq![block_change_spec(b, *block, "allowed_civil_war"@, (*update).allowed_civil_war@)];
    }
    let ghost ep = editor;
    if !set_roles(&mut editor, "country_leader", &Roles::Leaders(&update.leaders)) {
        return None;
    }
    proof {
        
        lemma_made_then(e0, ep, editor, done, (all_runs(RoleList::Leaders((*update).leaders@).attempts(b, *block, pairs_with(block.items@, "country_leader"@), "country_leader"@)))->0);
        done = done + (all_runs(RoleList::Leaders((*update).leaders@).attempts(b, *block, pairs_with(block.items@, "country_leader"@), "country_leader"@)))->0;
    }
    let ghost ep = editor;
    if !set_roles(&mut editor, "advisor", &Roles::Advisors(&update.advisors)) {
        return None;
    }
    proof {
        
        lemma_made_then(e0, ep, editor, done, (all_runs(RoleList::Advisors((*update).advisors@).attempts(b, *block, pairs_with(block.items@, "advisor"@), "advisor"@)))->0);
        done = done + (all_runs(RoleList::Advisors((*update).advisors@).attempts(b, *block, pairs_with(block.items@, "advisor"@), "advisor"@)))->0;
    }
    let corps = commanders_of_kind(&update.commanders, "corps_commander");
    proof {
        lemma_same_commanders(corps@, of_kind(update.commanders@, "corps_commander"@), b, *block, pairs_with(block.items@, "corps_commander"@), "corps_commander"@);
    }
    let ghost ep = editor;
    if !set_roles(&mut editor, "corps_commander", &Roles::Commanders(&corps)) {
        return None;
    }
    proof {
        
        lemma_made_then(e0, ep, editor, done, (all_runs(RoleList::Commanders(of_kind((*update).commanders@, "corps_commander"@)).attempts(b, *block, pairs_with(block.items@, "corps_commander"@), "corps_commander"@)))->0);
        done = done + (all_runs(RoleList::Commanders(of_kind((*update).commanders@, "corps_commander"@)).attempts(b, *block, pairs_with(block.items@, "corps_commander"@), "corps_commander"@)))->0;
    }
    let marshals = commanders_of_kind(&update.commanders, "field_marshal");
    proof {
        lemma_same_commanders(marshals@, of_kind(update.commanders@, "field_marshal"@), b, *block, pairs_with(block.items@, "field_marshal"@), "field_marshal"@);
    }
    let ghost ep = editor;
    if !set_roles(&mut editor, "field_marshal", &Roles::Commanders(&marshals)) {
        return None;
    }
    proof {
        
        lemma_made_then(e0, ep, editor, done, (all_runs(RoleList::Commanders(of_kind((*update).commanders@, "field_marshal"@)).attempts(b, *block, pairs_with(block.items@, "field_marshal"@), "field_marshal"@)))->0);
        done = done + (all_runs(RoleList::Commanders(of_kind((*update).commanders@, "field_marshal"@)).attempts(b, *block, pairs_with(block.items@, "field_marshal"@), "field_marshal"@)))->0;
    }
    let admirals = commanders_of_kind(&update.commanders, "navy_leader");
    proof {
        lemma_same_commanders(admirals@, of_kind(update.commanders@, "navy_leader"@), b, *block, pairs_with(block.items@, "navy_leader"@), "navy_leader"@);
    }
    let ghost ep = editor;
    if !set_roles(&mut editor, "navy_leader", &Roles::Commanders(&admirals)) {
        return None;
    }
    proof {
        
        lemma_made_then(e0, ep, editor, done, (all_runs(RoleList::Commanders(of_kind((*update).commanders@, "navy_leader"@)).attempts(b, *block, pairs_with(block.items@, "navy_leader"@), "navy_leader"@)))->0);
        done = done + (all_runs(RoleList::Commanders(of_kind((*update).commanders@, "navy_leader"@)).attempts(b, *block, pairs_with(block.items@, "navy_leader"@), "navy_leader"@)))->0;
    }
    proof {
        assert(character_runs(b, *block, (*update)) == Some(done));
    }
    Some(finish_editor(editor))
}

/// Rewrites one character in place, matched by its current id: its name,
/// gender, portraits, civil-war trigger and roles, each role block edited
/// by position, and its key when the id changed.
pub fn update_source(path: &str, source: &str, character_id: &str, update: &CharacterUpdate) -> (r:
    Result<String, EditError>)
    requires
        bytes_of(source).len() <= isize::MAX,
        bytes_of(character_id).len() <= isize::MAX,
    ensures
        script_parse_spec(source) matches Parsed::Fail(m, o) ==> r matches Err(
            EditError::Script { path: p, source: e },
        ) && p@ == path@ && e.message@ == m && e.offset == o,
        script_parse_spec(source) is Read ==> exists|items: Seq<Item>|
            #[trigger] parsed_items(source, items) && match update_refusal(
                bytes_of(source),
                path@,
                items,
                character_id@,
                *update,
            ) {
                Some(m) => r matches Err(EditError::Message(t)) && t@ == m,
                None => saved_as(bytes_of(source), character_edits(bytes_of(source), items, character_id@, *update), r),
            },
{
    let document = match crate::paradox::parse(source) {
        Ok(document) => document,
        Err(e) => {
            return Err(EditError::Script { path: path.to_owned(), source: e });
        },
    };
    let ghost items = document.items@;
    proof {
        assert(parsed_items(source, items));
        lemma_found_character_fits(bytes_of(source), items, character_id@);
    }
    let pair = match find_character(&document, character_id) {
        Some(pair) => pair,
        None => {
            return Err(EditError::Message(no_character(character_id, path)));
        },
    };
    let block = match &pair.value {
        Value::Block(block) => block,
        _ => {
            return Err(EditError::Message("the character is not a block".to_owned()));
        },
    };
    if block.block("instance").is_some() {
        let mut m = "`".to_owned();
        m.push_str(character_id);
        m.push_str("` is defined through instance blocks; edit it in the code view");
        return Err(EditError::Message(m));
    }
    match validate(update) {
        Ok(()) => {},
        Err(e) => {
            return Err(e);
        },
    }
    let new_id = trim(update.id.as_str());
    let mut edits: Vec<TextEdit> = Vec::new();
    if !crate::text::str_eq(new_id.as_str(), character_id) {
        if find_character(&document, new_id.as_str()).is_some() {
            let mut m = "a character with id `".to_owned();
            m.push_str(new_id.as_str());
            m.push_str("` already exists in this file");
            return Err(EditError::Message(m));
        }
        // The id is the block's key, which sits at the very start of the pair.
        let key = crate::paradox::Span::new(pair.span.start, pair.span.start + character_id.len());
        if !crate::text::str_eq(key.text(source), character_id) {
            let mut m = "the id of `".to_owned();
            m.push_str(character_id);
            m.push_str("` is written in a way that cannot be renamed");
            return Err(EditError::Message(m));
        }
        edits.push(TextEdit::new(key, new_id));
    }
    proof {
        assert(crate::paradox::edit::edit_views(edits@) =~= rename_views(*pair, character_id@, trim_spec(update.id@)));
        crate::script::lemma_block_items_fit(bytes_of(source), *block);
    }
    let mut finished = match character_block_edits(source, block, update) {
        Some(es) => es,
        None => {
            return Err(layout_error());
        },
    };
    let ghost front = edits@;
    let ghost tail = finished@;
    edits.append(&mut finished);
    proof {
        crate::script::lemma_edit_views_append(front, tail);
        assert(edits@ == front + tail);
    }
    save_edits(source, edits)
}

/// Appends a character to the file's `characters` block, creating the block
/// in a file that has none.
pub fn add_source(path: &str, source: &str, character: &CharacterUpdate) -> (r: Result<String, EditError>)
    ensures
        validate_spec(*character) matches Some(m) ==> r matches Err(EditError::Message(t)) && t@ == m,
        validate_spec(*character) is None ==> {
            &&& script_parse_spec(source) matches Parsed::Fail(m, o) ==> r matches Err(
                EditError::Script { path: p, source: e },
            ) && p@ == path@ && e.message@ == m && e.offset == o
            &&& script_parse_spec(source) is Read ==> exists|items: Seq<Item>|
                #[trigger] parsed_items(source, items) && if find_character_spec(
                    items,
                    trim_spec(character.id@),
                ) is Some {
                    r matches Err(EditError::Message(t)) && t@ == taken_message(trim_spec(character.id@))
                } else {
                    match render_character_spec(*character) {
                        None => r matches Err(EditError::Message(t)) && t@ == layout_message(),
                        Some(body) => match block_spec(items, "characters"@) {
                            Some(bl) => {
                                let line = trim_spec(character.id@) + " = "@ + format_lines_spec(
                                    body,
                                    child_indent_spec(bytes_of(source), bl),
                                    newline_spec(bytes_of(source)),
                                );
                                layout_fits(body) && boundary(bytes_of(source), insertion_start(bytes_of(source), bl))
                                    ==> (r matches Ok(text) && text@ == text_at(
                                    bytes_of(source),
                                    0,
                                    insertion_start(bytes_of(source), bl),
                                ) + newline_spec(bytes_of(source)) + child_indent_spec(bytes_of(source), bl) + line
                                    + newline_spec(bytes_of(source)) + indent_spec(bytes_of(source), bl.span.start as int) + text_at(
                                    bytes_of(source),
                                    bl.inner.end as int,
                                    bytes_of(source).len() as int,
                                ))
                            },
                            None => {
                                let line = trim_spec(character.id@) + " = "@ + format_lines_spec(
                                    body,
                                    Seq::empty(),
                                    "\n"@,
                                );
                                layout_fits(body) && layout_fits(line) ==> (r matches Ok(text)
                                    && text@ == new_block_text(bytes_of(source), source@, "characters"@, line))
                            },
                        },
                    }
                }
        },
{
    match validate(character) {
        Ok(()) => {},
        Err(e) => {
            return Err(e);
        },
    }
    let document = match crate::paradox::parse(source) {
        Ok(document) => document,
        Err(e) => {
            return Err(EditError::Script { path: path.to_owned(), source: e });
        },
    };
    proof {
        assert(parsed_items(source, document.items@));
        lemma_items_fit(bytes_of(source), document.items@, "characters"@);
    }
    let id = trim(character.id.as_str());
    if find_character(&document, id.as_str()).is_some() {
        let mut m = "a character with id `".to_owned();
        m.push_str(id.as_str());
        m.push_str("` already exists in this file");
        return Err(EditError::Message(m));
    }
    let body = match render_character(character) {
        Some(body) => body,
        None => {
            return Err(layout_error());
        },
    };
    match document.block("characters") {
        Some(block) => add_to_block(source, block, id.as_str(), body.as_str()),
        None => add_new_block(source, "characters", id.as_str(), body.as_str()),
    }
}

/// Law: the three military roles are read under their own names, in any
/// case, and are the roles a commander may have.
pub proof fn law_the_three_military_roles()
    ensures
        commander_kind("corps_commander"@) == Some("corps_commander"@),
        commander_kind("field_marshal"@) == Some("field_marshal"@),
        commander_kind("navy_leader"@) == Some("navy_leader"@),
        known_kind("corps_commander"@),
        known_kind("field_marshal"@),
        known_kind("navy_leader"@),
{
    reveal_strlit("corps_commander");
    reveal_strlit("field_marshal");
    reveal_strlit("navy_leader");
    assert(eq_ignore_ascii_case_spec("corps_commander"@, "corps_commander"@));
    assert(eq_ignore_ascii_case_spec("field_marshal"@, "field_marshal"@));
    assert(eq_ignore_ascii_case_spec("navy_leader"@, "navy_leader"@));
    assert("field_marshal"@.len() != "corps_commander"@.len());
    assert("navy_leader"@.len() != "corps_commander"@.len());
    assert("navy_leader"@.len() != "field_marshal"@.len());
}

} // verus!
