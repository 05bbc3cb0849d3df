//! National focus trees: reading `common/national_focus/*.txt` into an editable
//! shape and writing single focuses back without disturbing the rest of the file.
use crate::error::EditError;
use crate::paradox::edit::{
    apply_edits, apply_edits_spec, child_indent, detect_newline, edit_fits, edits_fit,
    edits_fit_all, indent_at, insert_lines, removal_span, try_format_block, BlockEditor, TextEdit,
    ChangeView, assignment, child_indent_spec, indent_spec, newline_spec, block_change_spec,
    scalar_change_spec,
};
use crate::paradox::parser::{
    item_fits, pairs_of, pairs_with, parse_spec as script_parse_spec, scalar_spec, scalar_text,
    value_fits, Parsed,
};
use crate::paradox::{line_number, Block, Document, Item, Items, Pair, Value};
use crate::script::{
    all_fit, block_pairs, block_values, blocks_among, body_or_empty, derefs, kept_target,
    lemma_items_fit, lemma_pairs_derefs, opt_text, pairs_fit, pairs_with_blocks, parsed_items,
    read_block, set_block_checked, text_of, text_or_empty, all_some, beyond, extra_removals,
    fmt_block, lemma_all_some_fails, lemma_all_some_push, lemma_made_none, lemma_made_push, made,
    shorter, sure, checked_block, finish_editor, handed, save_edits, saved_as, then_runs,
    lemma_made_one, lemma_made_then,
};
use crate::paradox::parser::value_span;
use crate::text::{
    boundary, bytes_of, eq_ignore_ascii_case, eq_ignore_ascii_case_spec, join, join_strings,
    lowercase, str_eq, text_at, to_lowercase, trim, trim_spec, views,
};
use vstd::prelude::*;

verus! {

#[derive(Debug, Clone, Default)]
pub struct Focus {
    pub id: String,
    pub icon: String,
    pub x: String,
    pub y: String,
    pub cost: String,
    pub relative_position_id: String,
    /// Each inner list is one `prerequisite = { focus = a focus = b }` block:
    /// any of them satisfies that prerequisite, all blocks must be satisfied.
    pub prerequisites: Vec<Vec<String>>,
    pub mutually_exclusive: Vec<String>,
    pub available: String,
    pub bypass: String,
    pub allow_branch: String,
    pub completion_reward: String,
    pub ai_will_do: String,
    /// Id of the enclosing `focus_tree`, empty for a `shared_focus`.
    pub tree_id: String,
    pub shared: bool,
    pub line: usize,
}

#[derive(Debug, Clone)]
pub struct FocusTree {
    pub id: String,
    pub country: String,
    pub default: bool,
    pub focus_count: usize,
    pub line: usize,
}

#[derive(Debug, Clone)]
pub struct FocusFile {
    pub path: String,
    pub trees: Vec<FocusTree>,
    pub focuses: Vec<Focus>,
    pub has_bom: bool,
    /// Read as Windows-1252 rather than UTF-8, and written back so.
    pub is_legacy_encoding: bool,
}

/// The editable fields sent back when saving. Empty strings clear a field.
#[derive(Debug, Clone, Default)]
pub struct FocusUpdate {
    pub id: String,
    pub icon: String,
    pub x: String,
    pub y: String,
    pub cost: String,
    pub relative_position_id: String,
    pub prerequisites: Vec<Vec<String>>,
    pub mutually_exclusive: Vec<String>,
    pub available: String,
    pub bypass: String,
    pub allow_branch: String,
    pub completion_reward: String,
    pub ai_will_do: String,
}

// ---------------------------------------------------------------------------
// Reading
// ---------------------------------------------------------------------------

/// The `focus = x` ids a reference block lists, in order.
pub open spec fn references_spec(items: Seq<Item>) -> Seq<Seq<char>> {
    crate::events::scalar_values(pairs_with(items, "focus"@))
}

/// The ids a reference block lists.
pub fn collect_focus_references(block: &Block) -> (r: Vec<String>)
    ensures
        views(r@) == references_spec(block.items@),
{
    let pairs = block.find_all("focus");
    proof {
        crate::script::lemma_find_all_derefs(pairs@, block.items@, "focus"@);
    }
    let ghost all = derefs(pairs@);
    let mut r: Vec<String> = Vec::new();
    let mut i: usize = 0;
    while i < pairs.len()
        invariant
            i <= pairs@.len(),
            all == derefs(pairs@),
            views(r@) == crate::events::scalar_values(all.take(i as int)),
        decreases pairs@.len() - i,
    {
        let ghost before = views(r@);
        proof {
            assert(all.take(i + 1).drop_last() =~= all.take(i as int));
            assert(all.take(i + 1).last() == *pairs@[i as int]);
        }
        if let Value::Scalar(scalar) = &pairs[i].value {
            r.push(scalar.value());
            assert(views(r@) =~= before.push(scalar_text(*scalar)));
        }
        i = i + 1;
    }
    assert(all.take(all.len() as int) =~= all);
    r
}

/// The non-empty reference groups of `blocks`, in order.
pub open spec fn groups_spec(blocks: Seq<Block>) -> Seq<Seq<Seq<char>>>
    decreases blocks.len(),
{
    if blocks.len() == 0 {
        Seq::empty()
    } else {
        let rest = groups_spec(blocks.drop_last());
        let group = references_spec(blocks.last().items@);
        if group.len() == 0 {
            rest
        } else {
            rest.push(group)
        }
    }
}

/// Every reference of `blocks`, in order.
pub open spec fn flat_references(blocks: Seq<Block>) -> Seq<Seq<char>>
    decreases blocks.len(),
{
    if blocks.len() == 0 {
        Seq::empty()
    } else {
        flat_references(blocks.drop_last()) + references_spec(blocks.last().items@)
    }
}

/// The views of a list of lists.
pub open spec fn nested_views(v: Seq<Vec<String>>) -> Seq<Seq<Seq<char>>> {
    Seq::new(v.len(), |k: int| views(v[k]@))
}

fn read_groups(block: &Block, key: &str) -> (r: Vec<Vec<String>>)
    ensures
        nested_views(r@) == groups_spec(block_values(pairs_with(block.items@, key@))),
{
    let pairs = block.find_all(key);
    proof {
        crate::script::lemma_find_all_derefs(pairs@, block.items@, key@);
    }
    let blocks = blocks_among(&pairs);
    let ghost all = derefs(blocks@);
    let mut r: Vec<Vec<String>> = Vec::new();
    let mut i: usize = 0;
    while i < blocks.len()
        invariant
            i <= blocks@.len(),
            all == derefs(blocks@),
            nested_views(r@) == groups_spec(all.take(i as int)),
        decreases blocks@.len() - i,
    {
        let ghost before = nested_views(r@);
        proof {
            assert(all.take(i + 1).drop_last() =~= all.take(i as int));
            assert(all.take(i + 1).last() == *blocks@[i as int]);
        }
        let group = collect_focus_references(blocks[i]);
        if group.len() > 0 {
            let ghost g = views(group@);
            r.push(group);
            assert(nested_views(r@) =~= before.push(g));
        } else {
            assert(views(group@).len() == 0);
        }
        i = i + 1;
    }
    assert(all.take(all.len() as int) =~= all);
    r
}

fn read_references(block: &Block, key: &str) -> (r: Vec<String>)
    ensures
        views(r@) == flat_references(block_values(pairs_with(block.items@, key@))),
{
    let pairs = block.find_all(key);
    proof {
        crate::script::lemma_find_all_derefs(pairs@, block.items@, key@);
    }
    let blocks = blocks_among(&pairs);
    let ghost all = derefs(blocks@);
    let mut r: Vec<String> = Vec::new();
    let mut i: usize = 0;
    while i < blocks.len()
        invariant
            i <= blocks@.len(),
            all == derefs(blocks@),
            views(r@) == flat_references(all.take(i as int)),
        decreases blocks@.len() - i,
    {
        let ghost before = views(r@);
        proof {
            assert(all.take(i + 1).drop_last() =~= all.take(i as int));
            assert(all.take(i + 1).last() == *blocks@[i as int]);
        }
        let group = collect_focus_references(blocks[i]);
        let mut j: usize = 0;
        while j < group.len()
            invariant
                j <= group@.len(),
                views(r@) == before + views(group@).take(j as int),
            decreases group@.len() - j,
        {
            let ghost was = views(r@);
            let id = group[j].as_str().to_owned();
            r.push(id);
            assert(views(r@) =~= was.push(views(group@)[j as int]));
            assert(views(group@).take(j + 1) =~= views(group@).take(j as int).push(views(group@)[j as int]));
            j = j + 1;
        }
        assert(views(group@).take(group@.len() as int) =~= views(group@));
        i = i + 1;
    }
    assert(all.take(all.len() as int) =~= all);
    r
}

/// What `read_focus` makes of a focus block.
pub open spec fn focus_read(b: Seq<u8>, f: Focus, block: Block, tree_id: Seq<char>, shared: bool, start: int) -> bool {
    let items = block.items@;
    &&& f.id@ == text_or_empty(items, "id"@)
    &&& f.icon@ == text_or_empty(items, "icon"@)
    &&& f.x@ == text_or_empty(items, "x"@)
    &&& f.y@ == text_or_empty(items, "y"@)
    &&& f.cost@ == text_or_empty(items, "cost"@)
    &&& f.relative_position_id@ == text_or_empty(items, "relative_position_id"@)
    &&& nested_views(f.prerequisites@) == groups_spec(block_values(pairs_with(items, "prerequisite"@)))
    &&& views(f.mutually_exclusive@) == flat_references(block_values(pairs_with(items, "mutually_exclusive"@)))
    &&& f.available@ == body_or_empty(b, items, "available"@)
    &&& f.bypass@ == body_or_empty(b, items, "bypass"@)
    &&& f.allow_branch@ == body_or_empty(b, items, "allow_branch"@)
    &&& f.completion_reward@ == body_or_empty(b, items, "completion_reward"@)
    &&& f.ai_will_do@ == body_or_empty(b, items, "ai_will_do"@)
    &&& f.tree_id@ == tree_id
    &&& f.shared == shared
    &&& f.line == line_number(b, start)
}

/// A focus block of the file's shape.
pub fn read_focus(source: &str, block: &Block, tree_id: &str, shared: bool, start: usize) -> (f: Focus)
    requires
        bytes_of(source).len() <= isize::MAX,
        value_fits(bytes_of(source), Value::Block(*block)),
        start >= bytes_of(source).len() || boundary(bytes_of(source), start as int),
    ensures
        focus_read(bytes_of(source), f, *block, tree_id@, shared, start as int),
{
    proof {
        crate::script::lemma_block_items_fit(bytes_of(source), *block);
    }
    Focus {
        id: text_of(block, "id"),
        icon: text_of(block, "icon"),
        x: text_of(block, "x"),
        y: text_of(block, "y"),
        cost: text_of(block, "cost"),
        relative_position_id: text_of(block, "relative_position_id"),
        prerequisites: read_groups(block, "prerequisite"),
        mutually_exclusive: read_references(block, "mutually_exclusive"),
        available: read_block(source, block, "available"),
        bypass: read_block(source, block, "bypass"),
        allow_branch: read_block(source, block, "allow_branch"),
        completion_reward: read_block(source, block, "completion_reward"),
        ai_will_do: read_block(source, block, "ai_will_do"),
        tree_id: tree_id.to_owned(),
        shared,
        line: crate::paradox::line_of(source, start),
    }
}

/// A key naming a focus tree.
pub open spec fn tree_key(key: Seq<char>) -> bool {
    lowercase(key) == "focus_tree"@
}

/// A key naming a focus outside any tree.
pub open spec fn shared_key(key: Seq<char>) -> bool {
    lowercase(key) == "shared_focus"@ || lowercase(key) == "focus"@
}

/// A focus of the file: its block, its tree's id, whether it is shared, and
/// where its pair starts.
pub struct FocusSource {
    pub block: Block,
    pub tree_id: Seq<char>,
    pub shared: bool,
    pub start: int,
}

/// The focuses of a tree, in order.
pub open spec fn tree_sources(tree: Block) -> Seq<FocusSource> {
    let ps = block_pairs(pairs_with(tree.items@, "focus"@));
    Seq::new(ps.len(), |k: int| FocusSource {
        block: ps[k].value->Block_0,
        tree_id: text_or_empty(tree.items@, "id"@),
        shared: false,
        start: ps[k].span.start as int,
    })
}

/// Every focus of the file, in file order: the focuses of each tree after
/// one another, and each shared focus where it stands.
pub open spec fn focus_sources(pairs: Seq<Pair>) -> Seq<FocusSource>
    decreases pairs.len(),
{
    if pairs.len() == 0 {
        Seq::empty()
    } else {
        let rest = focus_sources(pairs.drop_last());
        let p = pairs.last();
        match p.value {
            Value::Block(bl) => if tree_key(p.key@) {
                rest + tree_sources(bl)
            } else if shared_key(p.key@) {
                rest.push(FocusSource { block: bl, tree_id: Seq::empty(), shared: true, start: p.span.start as int })
            } else {
                rest
            },
            _ => rest,
        }
    }
}

/// The tree pairs of the file, in order.
pub open spec fn tree_pairs(pairs: Seq<Pair>) -> Seq<Pair>
    decreases pairs.len(),
{
    if pairs.len() == 0 {
        Seq::empty()
    } else {
        let rest = tree_pairs(pairs.drop_last());
        if pairs.last().value is Block && tree_key(pairs.last().key@) {
            rest.push(pairs.last())
        } else {
            rest
        }
    }
}

/// What a tree pair reads as.
pub open spec fn tree_read(b: Seq<u8>, t: FocusTree, p: Pair) -> bool {
    let items = p.value->Block_0.items@;
    &&& t.id@ == text_or_empty(items, "id"@)
    &&& t.country@ == body_or_empty(b, items, "country"@)
    &&& t.default == (scalar_spec(items, "default"@) matches Some(v) && eq_ignore_ascii_case_spec(v, "yes"@))
    &&& t.focus_count == pairs_with(items, "focus"@).len()
    &&& t.line == line_number(b, p.span.start as int)
}

/// The file's trees and focuses, read from the parsed items `items`.
pub open spec fn file_read(b: Seq<u8>, trees: Seq<FocusTree>, focuses: Seq<Focus>, items: Seq<Item>) -> bool {
    let tps = tree_pairs(pairs_of(items));
    let srcs = focus_sources(pairs_of(items));
    &&& trees.len() == tps.len()
    &&& forall|k: int| 0 <= k < tps.len() ==> tree_read(b, #[trigger] trees[k], tps[k])
    &&& focuses.len() == srcs.len()
    &&& forall|k: int| 0 <= k < srcs.len() ==> focus_read(b, #[trigger] focuses[k], srcs[k].block, srcs[k].tree_id, srcs[k].shared, srcs[k].start)
}

fn is_yes(value: Option<String>) -> (r: bool)
    ensures
        r == (opt_text(value) matches Some(v) && eq_ignore_ascii_case_spec(v, "yes"@)),
{
    match value {
        Some(v) => eq_ignore_ascii_case(v.as_str(), "yes"),
        None => false,
    }
}

/// Reads the trees and focuses out of a file's text.
pub fn read_file(source: &str, document: &Document) -> (r: (Vec<FocusTree>, Vec<Focus>))
    requires
        bytes_of(source).len() <= isize::MAX,
        all_fit(bytes_of(source), document.items@),
    ensures
        file_read(bytes_of(source), r.0@, r.1@, document.items@),
{
    let ghost b = bytes_of(source);
    let pairs = document.pairs();
    proof {
        lemma_pairs_derefs(pairs@, document.items@);
        lemma_items_fit(b, document.items@, Seq::empty());
    }
    let ghost all = derefs(pairs@);
    let mut trees: Vec<FocusTree> = Vec::new();
    let mut focuses: Vec<Focus> = Vec::new();
    let mut i: usize = 0;
    while i < pairs.len()
        invariant
            i <= pairs@.len(),
            b == bytes_of(source),
            b.len() <= isize::MAX,
            all == derefs(pairs@),
            all == pairs_of(document.items@),
            pairs_fit(b, all),
            trees@.len() == tree_pairs(all.take(i as int)).len(),
            forall|k: int| 0 <= k < trees@.len() ==> tree_read(b, #[trigger] trees@[k], tree_pairs(all.take(i as int))[k]),
            focuses@.len() == focus_sources(all.take(i as int)).len(),
            forall|k: int| 0 <= k < focuses@.len() ==> {
                let s = focus_sources(all.take(i as int))[k];
                focus_read(b, #[trigger] focuses@[k], s.block, s.tree_id, s.shared, s.start)
            },
        decreases pairs@.len() - i,
    {
        let pair = pairs[i];
        proof {
            assert(all.take(i + 1).drop_last() =~= all.take(i as int));
            assert(all.take(i + 1).last() == *pair);
            assert(derefs(pairs@)[i as int] == *pair);
            assert(item_fits(b, Item::Pair(all[i as int])));
        }
        let ghost trees_before = trees@;
        let ghost focuses_before = focuses@;
        let ghost srcs_before = focus_sources(all.take(i as int));
        if let Value::Block(block) = &pair.value {
            proof {
                crate::script::lemma_block_items_fit(b, *block);
                lemma_items_fit(b, block.items@, "focus"@);
                crate::script::lemma_block_values_fit(b, pairs_with(block.items@, "focus"@));
            }
            let key = to_lowercase(pair.key.as_str());
            if str_eq(key.as_str(), "focus_tree") {
                let tree_id = text_of(block, "id");
                let tree_focuses = block.find_all("focus");
                proof {
                    crate::script::lemma_find_all_derefs(tree_focuses@, block.items@, "focus"@);
                }
                trees.push(
                    FocusTree {
                        id: tree_id.as_str().to_owned(),
                        country: read_block(source, block, "country"),
                        default: is_yes(block.scalar("default")),
                        focus_count: tree_focuses.len(),
                        line: crate::paradox::line_of(source, pair.span.start),
                    },
                );
                assert(tree_pairs(all.take(i + 1)) == tree_pairs(all.take(i as int)).push(*pair));
                let with_blocks = pairs_with_blocks(&tree_focuses);
                let ghost ps = block_pairs(pairs_with(block.items@, "focus"@));
                proof {
                    crate::script::lemma_block_pairs_are_blocks(pairs_with(block.items@, "focus"@));
                }
                let ghost n = focuses@.len();
                let mut j: usize = 0;
                while j < with_blocks.len()
                    invariant
                        j <= with_blocks@.len(),
                        b == bytes_of(source),
                        b.len() <= isize::MAX,
                        derefs(with_blocks@) == ps,
                        ps == block_pairs(pairs_with(block.items@, "focus"@)),
                        pairs_fit(b, ps),
                        forall|k: int| 0 <= k < ps.len() ==> (#[trigger] ps[k]).value is Block,
                        tree_id@ == text_or_empty(block.items@, "id"@),
                        n == focuses_before.len(),
                        focuses@.len() == n + j,
                        forall|k: int| 0 <= k < n ==> focuses@[k] == #[trigger] focuses_before[k],
                        forall|k: int| 0 <= k < j ==> focus_read(b, #[trigger] focuses@[n + k], tree_sources(*block)[k].block, tree_sources(*block)[k].tree_id, false, tree_sources(*block)[k].start),
                    decreases with_blocks@.len() - j,
                {
                    let focus_pair = with_blocks[j];
                    proof {
                        assert(derefs(with_blocks@)[j as int] == *focus_pair);
                        assert(item_fits(b, Item::Pair(ps[j as int])));
                        assert(ps[j as int].value is Block);
                    }
                    if let Value::Block(focus_block) = &focus_pair.value {
                        focuses.push(read_focus(source, focus_block, tree_id.as_str(), false, focus_pair.span.start));
                    }
                    j = j + 1;
                }
                proof {
                    assert(j == tree_sources(*block).len());
                    assert(n == srcs_before.len());
                    let after = focus_sources(all.take(i + 1));
                    assert(after =~= srcs_before + tree_sources(*block));
                    assert forall|k: int| 0 <= k < focuses@.len() implies focus_read(
                        b,
                        #[trigger] focuses@[k],
                        after[k].block,
                        after[k].tree_id,
                        after[k].shared,
                        after[k].start,
                    ) by {
                        if k >= n {
                            let t = tree_sources(*block)[k - n];
                            assert(after[k] == t);
                            assert(focuses@[n + (k - n)] == focuses@[k]);
                            assert(focus_read(b, focuses@[n + (k - n)], t.block, t.tree_id, false, t.start));
                        } else {
                            let t = srcs_before[k];
                            assert(after[k] == t);
                            assert(focuses@[k] == focuses_before[k]);
                            assert(focus_read(b, focuses_before[k], t.block, t.tree_id, t.shared, t.start));
                        }
                    }
                }
            } else if str_eq(key.as_str(), "shared_focus") || str_eq(key.as_str(), "focus") {
                focuses.push(read_focus(source, block, "", true, pair.span.start));
                proof {
                    reveal_strlit("");
                    assert(""@ =~= Seq::<char>::empty());
                    assert(focus_sources(all.take(i + 1)) =~= srcs_before.push(FocusSource { block: *block, tree_id: Seq::empty(), shared: true, start: pair.span.start as int }));
                    assert forall|k: int| 0 <= k < focuses@.len() implies {
                        let s = focus_sources(all.take(i + 1))[k];
                        focus_read(b, #[trigger] focuses@[k], s.block, s.tree_id, s.shared, s.start)
                    } by {
                        if k < focuses_before.len() {
                            assert(focuses@[k] == focuses_before[k]);
                        }
                    }
                }
            }
        }
        i = i + 1;
    }
    assert(all.take(all.len() as int) =~= all);
    (trees, focuses)
}

/// Reads the focus trees out of a file's text.
pub fn parse(path: &str, content: &str, has_bom: bool, is_legacy_encoding: bool) -> (r: Result<
    FocusFile,
    EditError,
>)
    requires
        bytes_of(content).len() <= isize::MAX,
    ensures
        match script_parse_spec(content) {
            Parsed::Fail(m, o) => r matches Err(EditError::Script { path: p, source: e }) && p@
                == path@ && e.message@ == m && e.offset == o,
            Parsed::Read(..) => r is Ok,
        },
        r matches Ok(file) ==> {
            &&& file.path@ == crate::text::replace_char(path@, '\\', '/')
            &&& file.has_bom == has_bom
            &&& file.is_legacy_encoding == is_legacy_encoding
            &&& exists|items: Seq<Item>|
                #[trigger] parsed_items(content, items) && file_read(bytes_of(content), file.trees@, file.focuses@, items)
        },
{
    let document = match crate::paradox::parse(content) {
        Ok(document) => document,
        Err(source) => {
            return Err(EditError::Script { path: path.to_owned(), source });
        },
    };
    let (trees, focuses) = read_file(content, &document);
    proof {
        assert(parsed_items(content, document.items@));
    }
    Ok(
        FocusFile {
            path: crate::text::replace_char_in(path, '\\', '/'),
            trees,
            focuses,
            has_bom,
            is_legacy_encoding,
        },
    )
}

// ---------------------------------------------------------------------------
// Finding a focus
// ---------------------------------------------------------------------------

/// The first focus with `id` among `items`, looking into every block that is
/// not itself a focus (so into trees), in file order.
pub open spec fn focus_in_items(items: Seq<Item>, id: Seq<char>) -> Option<Pair>
    decreases items,
{
    if items.len() == 0 {
        None
    } else {
        match focus_in_items(items.drop_last(), id) {
            Some(p) => Some(p),
            None => focus_in_item(items.last(), id),
        }
    }
}

pub open spec fn focus_in_item(it: Item, id: Seq<char>) -> Option<Pair>
    decreases it,
{
    match it {
        Item::Pair(p) => match p.value {
            Value::Block(bl) => if shared_key(p.key@) {
                if scalar_spec(bl.items@, "id"@) == Some(id) {
                    Some(p)
                } else {
                    None
                }
            } else {
                focus_in_items(bl.items@, id)
            },
            _ => None,
        },
        _ => None,
    }
}

/// A focus a search finds lies inside the source and is a block.
proof fn lemma_found_focus(b: Seq<u8>, items: Seq<Item>, id: Seq<char>)
    requires
        all_fit(b, items),
    ensures
        focus_in_items(items, id) matches Some(p) ==> item_fits(b, Item::Pair(p)) && p.value is Block,
    decreases items,
{
    if items.len() > 0 {
        let d = items.drop_last();
        assert forall|k: int| 0 <= k < d.len() implies item_fits(b, #[trigger] d[k]) by {
            assert(d[k] == items[k]);
        }
        lemma_found_focus(b, d, id);
        if focus_in_items(d, id) is None {
            lemma_found_focus_item(b, items.last(), id);
        }
    }
}

proof fn lemma_found_focus_item(b: Seq<u8>, it: Item, id: Seq<char>)
    requires
        item_fits(b, it),
    ensures
        focus_in_item(it, id) matches Some(p) ==> item_fits(b, Item::Pair(p)) && p.value is Block,
    decreases it,
{
    if let Item::Pair(p) = it {
        if let Value::Block(bl) = p.value {
            if !shared_key(p.key@) {
                crate::script::lemma_block_items_fit(b, bl);
                lemma_found_focus(b, bl.items@, id);
            }
        }
    }
}

fn is_focus_key(key: &str) -> (r: bool)
    ensures
        r == shared_key(key@),
{
    let lowered = to_lowercase(key);
    str_eq(lowered.as_str(), "shared_focus") || str_eq(lowered.as_str(), "focus")
}

/// The focus with `id`, searching trees and shared focuses alike.
pub fn find_focus_pair<'a>(items: &'a Vec<Item>, id: &str) -> (r: Option<&'a Pair>)
    ensures
        match focus_in_items(items@, id@) {
            Some(p) => r matches Some(q) && *q == p,
            None => r is None,
        },
    decreases items@,
{
    let mut i: usize = 0;
    while i < items.len()
        invariant
            i <= items@.len(),
            focus_in_items(items@.take(i as int), id@) is None,
        decreases items@.len() - i,
    {
        proof {
            assert(items@.take(i + 1).drop_last() =~= items@.take(i as int));
            assert(items@.take(i + 1).last() == items@[i as int]);
        }
        if let Item::Pair(pair) = &items[i] {
            if let Value::Block(block) = &pair.value {
                if is_focus_key(pair.key.as_str()) {
                    let matches_id = match block.scalar("id") {
                        Some(current) => str_eq(current.as_str(), id),
                        None => false,
                    };
                    if matches_id {
                        proof {
                            assert(scalar_spec(block.items@, "id"@) == Some(id@));
                            assert(focus_in_item(items@[i as int], id@) == Some(*pair));
                            assert(focus_in_items(items@.take(i + 1), id@) == Some(*pair));
                            lemma_focus_prefix(items@, i + 1, id@);
                        }
                        return Some(pair);
                    }
                } else {
                    proof {
                        assert(decreases_to!(items@ => block.items@));
                    }
                    let found = find_focus_pair(&block.items, id);
                    if found.is_some() {
                        proof {
                            lemma_focus_prefix(items@, i + 1, id@);
                        }
                        return found;
                    }
                }
            }
        }
        i = i + 1;
    }
    proof {
        assert(items@.take(items@.len() as int) =~= items@);
    }
    None
}

/// A match in the first `i` items is the match of all of them.
proof fn lemma_focus_prefix(items: Seq<Item>, i: int, id: Seq<char>)
    requires
        0 <= i <= items.len(),
        focus_in_items(items.take(i), id) is Some,
    ensures
        focus_in_items(items, id) == focus_in_items(items.take(i), id),
    decreases items.len() - i,
{
    if i < items.len() {
        assert(items.take(i + 1).drop_last() =~= items.take(i));
        lemma_focus_prefix(items, i + 1, id);
    } else {
        assert(items.take(i) =~= items);
    }
}

// ---------------------------------------------------------------------------
// Rendering
// ---------------------------------------------------------------------------

/// The ids a form sends, trimmed, blanks dropped.
pub open spec fn normalise_ids_spec(ids: Seq<Seq<char>>) -> Seq<Seq<char>>
    decreases ids.len(),
{
    if ids.len() == 0 {
        Seq::empty()
    } else {
        let rest = normalise_ids_spec(ids.drop_last());
        let t = trim_spec(ids.last());
        if t.len() == 0 {
            rest
        } else {
            rest.push(t)
        }
    }
}

pub fn normalise_ids(ids: &Vec<String>) -> (r: Vec<String>)
    ensures
        views(r@) == normalise_ids_spec(views(ids@)),
{
    let mut r: Vec<String> = Vec::new();
    let mut i: usize = 0;
    while i < ids.len()
        invariant
            i <= ids@.len(),
            views(r@) == normalise_ids_spec(views(ids@).take(i as int)),
        decreases ids@.len() - i,
    {
        let ghost before = views(r@);
        proof {
            assert(views(ids@).take(i + 1).drop_last() =~= views(ids@).take(i as int));
            assert(views(ids@).take(i + 1).last() == ids@[i as int]@);
        }
        let t = trim(ids[i].as_str());
        if !t.as_str().is_empty() {
            let ghost tv = t@;
            r.push(t);
            assert(views(r@) =~= before.push(tv));
        }
        i = i + 1;
    }
    assert(views(ids@).take(ids@.len() as int) =~= views(ids@));
    r
}

/// `focus = a focus = b` for a reference block.
pub open spec fn references_text(ids: Seq<Seq<char>>) -> Seq<char> {
    join(Seq::new(ids.len(), |k: int| "focus = "@ + ids[k]), " "@)
}

fn render_references(ids: &Vec<String>) -> (r: String)
    ensures
        r@ == references_text(views(ids@)),
{
    let mut parts: Vec<String> = Vec::new();
    let mut i: usize = 0;
    while i < ids.len()
        invariant
            i <= ids@.len(),
            views(parts@) == Seq::new(ids@.len() as nat, |k: int| "focus = "@ + views(ids@)[k]).take(i as int),
        decreases ids@.len() - i,
    {
        let ghost before = views(parts@);
        let mut part = "focus = ".to_owned();
        part.push_str(ids[i].as_str());
        proof {
            reveal_strlit("focus = ");
        }
        parts.push(part);
        assert(views(parts@) =~= before.push("focus = "@ + ids@[i as int]@));
        assert(views(parts@) =~= Seq::new(ids@.len() as nat, |k: int| "focus = "@ + views(ids@)[k]).take(i + 1));
        i = i + 1;
    }
    assert(Seq::new(ids@.len() as nat, |k: int| "focus = "@ + views(ids@)[k]).take(ids@.len() as int)
        =~= Seq::new(ids@.len() as nat, |k: int| "focus = "@ + views(ids@)[k]));
    join_strings(&parts, " ")
}

/// `indent + key = value` for a non-blank value.
pub open spec fn indented_scalar(indent: Seq<char>, key: Seq<char>, value: Seq<char>) -> Seq<Seq<char>> {
    if trim_spec(value).len() == 0 {
        Seq::empty()
    } else {
        seq![indent + key + " = "@ + trim_spec(value)]
    }
}

/// `indent + key = { refs }` for each non-empty group.
pub open spec fn group_lines(indent: Seq<char>, newline: Seq<char>, key: Seq<char>, groups: Seq<Seq<Seq<char>>>) -> Option<Seq<Seq<char>>>
    decreases groups.len(),
{
    if groups.len() == 0 {
        Some(Seq::empty())
    } else {
        let ids = normalise_ids_spec(groups.last());
        match group_lines(indent, newline, key, groups.drop_last()) {
            Some(ls) => if ids.len() == 0 {
                Some(ls)
            } else {
                match crate::script::fmt_block(references_text(ids), indent, newline) {
                    Some(t) => Some(ls.push(indent + key + " = "@ + t)),
                    None => None,
                }
            },
            None => None,
        }
    }
}

/// `indent + key = { body }` for a non-blank body.
pub open spec fn indented_block(indent: Seq<char>, newline: Seq<char>, key: Seq<char>, value: Seq<char>) -> Option<Seq<Seq<char>>> {
    if trim_spec(value).len() == 0 {
        Some(Seq::empty())
    } else {
        match crate::script::fmt_block(value, indent, newline) {
            Some(t) => Some(seq![indent + key + " = "@ + t]),
            None => None,
        }
    }
}

pub open spec fn body_scalars(f: FocusUpdate, indent: Seq<char>) -> Seq<Seq<char>> {
    indented_scalar(indent, "id"@, f.id@) + indented_scalar(indent, "icon"@, f.icon@)
        + indented_scalar(indent, "x"@, f.x@) + indented_scalar(indent, "y"@, f.y@)
        + indented_scalar(indent, "relative_position_id"@, f.relative_position_id@)
        + indented_scalar(indent, "cost"@, f.cost@)
}

pub open spec fn body_blocks(f: FocusUpdate, indent: Seq<char>, newline: Seq<char>) -> Option<Seq<Seq<char>>> {
    crate::script::both(
        crate::script::both(
            crate::script::both(
                crate::script::both(
                    indented_block(indent, newline, "available"@, f.available@),
                    indented_block(indent, newline, "bypass"@, f.bypass@),
                ),
                indented_block(indent, newline, "allow_branch"@, f.allow_branch@),
            ),
            indented_block(indent, newline, "completion_reward"@, f.completion_reward@),
        ),
        indented_block(indent, newline, "ai_will_do"@, f.ai_will_do@),
    )
}

/// The lines of a new focus block, each already indented.
pub open spec fn focus_body_lines(f: FocusUpdate, indent: Seq<char>, newline: Seq<char>) -> Option<Seq<Seq<char>>> {
    crate::script::both(
        crate::script::both(
            crate::script::both(
                Some(body_scalars(f, indent)),
                group_lines(indent, newline, "prerequisite"@, nested_views(f.prerequisites@)),
            ),
            group_lines(indent, newline, "mutually_exclusive"@, seq![views(f.mutually_exclusive@)]),
        ),
        body_blocks(f, indent, newline),
    )
}

pub open spec fn render_focus_body_spec(f: FocusUpdate, indent: Seq<char>, newline: Seq<char>) -> Option<Seq<char>> {
    match focus_body_lines(f, indent, newline) {
        Some(ls) => Some(join(ls, newline)),
        None => None,
    }
}

fn push_indented_scalar(lines: &mut Vec<String>, indent: &str, key: &str, value: &str)
    ensures
        views(final(lines)@) == views(old(lines)@) + indented_scalar(indent@, key@, value@),
{
    let ghost before = views(lines@);
    let t = trim(value);
    if !t.as_str().is_empty() {
        let mut line = indent.to_owned();
        line.push_str(key);
        line.push_str(" = ");
        line.push_str(t.as_str());
        proof {
            reveal_strlit(" = ");
        }
        lines.push(line);
        assert(views(lines@) =~= before + indented_scalar(indent@, key@, value@));
    } else {
        assert(views(lines@) =~= before + indented_scalar(indent@, key@, value@));
    }
}

fn push_indented_block(lines: &mut Vec<String>, indent: &str, newline: &str, key: &str, value: &str) -> (ok: bool)
    ensures
        ok <==> indented_block(indent@, newline@, key@, value@) is Some,
        ok ==> views(final(lines)@) == views(old(lines)@) + indented_block(indent@, newline@, key@, value@)->0,
{
    let ghost before = views(lines@);
    let t = trim(value);
    if t.as_str().is_empty() {
        assert(views(lines@) =~= before + Seq::<Seq<char>>::empty());
        return true;
    }
    match try_format_block(value, indent, newline) {
        Some(text) => {
            let mut line = indent.to_owned();
            line.push_str(key);
            line.push_str(" = ");
            line.push_str(text.as_str());
            proof {
                reveal_strlit(" = ");
            }
            lines.push(line);
            assert(views(lines@) =~= before + seq![line@]);
            true
        },
        None => false,
    }
}

proof fn lemma_group_lines_none(indent: Seq<char>, newline: Seq<char>, key: Seq<char>, groups: Seq<Seq<Seq<char>>>, i: int)
    requires
        0 <= i < groups.len(),
        normalise_ids_spec(groups[i]).len() != 0,
        crate::script::fmt_block(references_text(normalise_ids_spec(groups[i])), indent, newline) is None,
    ensures
        group_lines(indent, newline, key, groups) is None,
    decreases groups.len(),
{
    if i < groups.len() - 1 {
        assert(groups.drop_last()[i] == groups[i]);
        lemma_group_lines_none(indent, newline, key, groups.drop_last(), i);
    }
}

fn push_groups(lines: &mut Vec<String>, indent: &str, newline: &str, key: &str, groups: &Vec<Vec<String>>) -> (ok: bool)
    ensures
        ok <==> group_lines(indent@, newline@, key@, nested_views(groups@)) is Some,
        ok ==> views(final(lines)@) == views(old(lines)@) + group_lines(indent@, newline@, key@, nested_views(groups@))->0,
{
    let ghost before = views(lines@);
    let ghost gs = nested_views(groups@);
    let mut i: usize = 0;
    assert(gs.take(0) =~= Seq::<Seq<Seq<char>>>::empty());
    assert(views(lines@) =~= before + Seq::<Seq<char>>::empty());
    while i < groups.len()
        invariant
            i <= groups@.len(),
            gs == nested_views(groups@),
            group_lines(indent@, newline@, key@, gs.take(i as int)) is Some,
            views(lines@) == before + group_lines(indent@, newline@, key@, gs.take(i as int))->0,
        decreases groups@.len() - i,
    {
        proof {
            assert(gs.take(i + 1).drop_last() =~= gs.take(i as int));
            assert(gs.take(i + 1).last() == views(groups@[i as int]@));
        }
        let ids = normalise_ids(&groups[i]);
        if ids.len() > 0 {
            let refs = render_references(&ids);
            match try_format_block(refs.as_str(), indent, newline) {
                Some(text) => {
                    let ghost was = views(lines@);
                    let mut line = indent.to_owned();
                    line.push_str(key);
                    line.push_str(" = ");
                    line.push_str(text.as_str());
                    proof {
                        reveal_strlit(" = ");
                    }
                    lines.push(line);
                    assert(views(lines@) =~= was.push(line@));
                },
                None => {
                    proof {
                        lemma_group_lines_none(indent@, newline@, key@, gs, i as int);
                    }
                    return false;
                },
            }
        } else {
            assert(views(ids@).len() == 0);
        }
        i = i + 1;
    }
    assert(gs.take(groups@.len() as int) =~= gs);
    true
}

fn push_body_blocks(lines: &mut Vec<String>, f: &FocusUpdate, indent: &str, newline: &str) -> (ok: bool)
    ensures
        ok <==> body_blocks(*f, indent@, newline@) is Some,
        ok ==> views(final(lines)@) == views(old(lines)@) + body_blocks(*f, indent@, newline@)->0,
{
    let ghost before = views(lines@);
    if !push_indented_block(lines, indent, newline, "available", f.available.as_str()) {
        return false;
    }
    if !push_indented_block(lines, indent, newline, "bypass", f.bypass.as_str()) {
        return false;
    }
    if !push_indented_block(lines, indent, newline, "allow_branch", f.allow_branch.as_str()) {
        return false;
    }
    if !push_indented_block(lines, indent, newline, "completion_reward", f.completion_reward.as_str()) {
        return false;
    }
    if !push_indented_block(lines, indent, newline, "ai_will_do", f.ai_will_do.as_str()) {
        return false;
    }
    assert(views(lines@) =~= before + body_blocks(*f, indent@, newline@)->0);
    true
}

/// A copy of a list of texts.
fn copy_strings(v: &Vec<String>) -> (r: Vec<String>)
    ensures
        views(r@) == views(v@),
{
    let mut r: Vec<String> = Vec::new();
    let mut i: usize = 0;
    while i < v.len()
        invariant
            i <= v@.len(),
            views(r@) == views(v@).take(i as int),
        decreases v@.len() - i,
    {
        let ghost before = views(r@);
        let s = v[i].as_str().to_owned();
        r.push(s);
        assert(views(r@) =~= before.push(v@[i as int]@));
        assert(views(r@) =~= views(v@).take(i + 1));
        i = i + 1;
    }
    assert(views(v@).take(v@.len() as int) =~= views(v@));
    r
}

/// The lines of a new focus block, indented by `indent`.
pub fn render_focus_body(focus: &FocusUpdate, indent: &str, newline: &str) -> (r: Option<String>)
    ensures
        opt_text(r) == render_focus_body_spec(*focus, indent@, newline@),
{
    let mut lines: Vec<String> = Vec::new();
    push_indented_scalar(&mut lines, indent, "id", focus.id.as_str());
    push_indented_scalar(&mut lines, indent, "icon", focus.icon.as_str());
    push_indented_scalar(&mut lines, indent, "x", focus.x.as_str());
    push_indented_scalar(&mut lines, indent, "y", focus.y.as_str());
    push_indented_scalar(&mut lines, indent, "relative_position_id", focus.relative_position_id.as_str());
    push_indented_scalar(&mut lines, indent, "cost", focus.cost.as_str());
    assert(views(lines@) =~= body_scalars(*focus, indent@));
    if !push_groups(&mut lines, indent, newline, "prerequisite", &focus.prerequisites) {
        return None;
    }
    let ghost after_groups = views(lines@);
    let exclusive = vec![copy_strings(&focus.mutually_exclusive)];
    assert(nested_views(exclusive@) =~= seq![views(focus.mutually_exclusive@)]);
    if !push_groups(&mut lines, indent, newline, "mutually_exclusive", &exclusive) {
        return None;
    }
    if !push_body_blocks(&mut lines, focus, indent, newline) {
        return None;
    }
    assert(views(lines@) =~= focus_body_lines(*focus, indent@, newline@)->0);
    Some(join_strings(&lines, newline))
}

// ---------------------------------------------------------------------------
// Editing in place
// ---------------------------------------------------------------------------

/// Each group's ids normalised, the groups left empty dropped.
pub open spec fn kept_groups(groups: Seq<Seq<Seq<char>>>) -> Seq<Seq<Seq<char>>>
    decreases groups.len(),
{
    if groups.len() == 0 {
        Seq::empty()
    } else {
        let ids = normalise_ids_spec(groups.last());
        kept_groups(groups.drop_last()) + if ids.len() == 0 {
            Seq::empty()
        } else {
            seq![ids]
        }
    }
}

proof fn lemma_group_kept(groups: Seq<Vec<String>>, g: int, ids: Seq<Seq<char>>)
    requires
        0 <= g < groups.len(),
        ids == normalise_ids_spec(views(groups[g]@)),
    ensures
        kept_groups(nested_views(groups).take(g + 1)) == kept_groups(nested_views(groups).take(g)) + if ids.len()
            == 0 {
            Seq::<Seq<Seq<char>>>::empty()
        } else {
            seq![ids]
        },
{
    assert(nested_views(groups).take(g + 1).drop_last() =~= nested_views(groups).take(g));
}

/// A group entry set to `ids`: left alone when it already lists exactly
/// them, else its value rewritten; `None` where it cannot be laid out.
pub open spec fn group_rewrite(b: Seq<u8>, pair: Pair, ids: Seq<Seq<char>>) -> Option<ChangeView> {
    if (pair.value matches Value::Block(current) && references_spec(current.items@) == ids) {
        Some(ChangeView::Nothing)
    } else {
        match fmt_block(references_text(ids), indent_spec(b, pair.span.start as int), newline_spec(b)) {
            Some(t) => Some(ChangeView::Replace(value_span(pair.value), t)),
            None => None,
        }
    }
}

/// Each wanted group past the first `n`, added as `key = { ... }`.
pub open spec fn group_additions(
    b: Seq<u8>,
    block: Block,
    key: Seq<char>,
    n: nat,
    wanted: Seq<Seq<Seq<char>>>,
) -> Seq<Option<ChangeView>> {
    Seq::new(
        beyond(wanted.len(), n),
        |k: int|
            match fmt_block(references_text(wanted[n + k]), child_indent_spec(b, block), newline_spec(b)) {
                Some(t) => Some(ChangeView::Add(assignment(key, t))),
                None => None,
            },
    )
}

/// The attempts `set_reference_groups` makes on a block whose entries
/// under `key` are `pairs`: rewrites by position, then removals, then
/// additions.
#[verifier::opaque]
pub open spec fn group_attempts(
    b: Seq<u8>,
    block: Block,
    pairs: Seq<Pair>,
    key: Seq<char>,
    wanted: Seq<Seq<Seq<char>>>,
) -> Seq<Option<ChangeView>> {
    Seq::new(shorter(wanted.len(), pairs.len()), |i: int| group_rewrite(b, pairs[i], wanted[i])) + sure(
        extra_removals(b, pairs, wanted.len()),
    ) + group_additions(b, block, key, pairs.len(), wanted)
}

pub(crate) proof fn lemma_group_attempt(
    b: Seq<u8>,
    block: Block,
    pairs: Seq<Pair>,
    key: Seq<char>,
    w: Seq<Seq<Seq<char>>>,
    at: int,
)
    ensures
        group_attempts(b, block, pairs, key, w).len() == shorter(w.len(), pairs.len()) + extra_removals(
            b,
            pairs,
            w.len(),
        ).len() + beyond(w.len(), pairs.len()),
        0 <= at < group_attempts(b, block, pairs, key, w).len() ==> group_attempts(b, block, pairs, key, w)[at]
            == (if at < shorter(w.len(), pairs.len()) {
            group_rewrite(b, pairs[at], w[at])
        } else if at < shorter(w.len(), pairs.len()) + extra_removals(b, pairs, w.len()).len() {
            Some(extra_removals(b, pairs, w.len())[at - shorter(w.len(), pairs.len())])
        } else {
            group_additions(b, block, key, pairs.len(), w)[at - shorter(w.len(), pairs.len())
                - extra_removals(b, pairs, w.len()).len()]
        }),
{
    reveal(group_attempts);
}

/// Writes a repeated `key = { focus = ... }` field, reusing the blocks that are
/// already there so untouched groups keep their formatting. `false` where a
/// group cannot be laid out.
#[verifier::rlimit(40)]
fn set_reference_groups(editor: &mut BlockEditor, key: &str, groups: &Vec<Vec<String>>) -> (ok: bool)
    requires
        old(editor).wf(),
    ensures
        kept_target(*old(editor), *final(editor)),
        ok == all_some(
            group_attempts(
                old(editor).source_bytes(),
                old(editor).edited_block(),
                pairs_with(old(editor).edited_block().items@, key@),
                key@,
                kept_groups(nested_views(groups@)),
            ),
        ) is Some,
        ok ==> made(
            *old(editor),
            *final(editor),
            all_some(
                group_attempts(
                    old(editor).source_bytes(),
                    old(editor).edited_block(),
                    pairs_with(old(editor).edited_block().items@, key@),
                    key@,
                    kept_groups(nested_views(groups@)),
                ),
            )->0,
        ),
{
    let ghost e0 = *editor;
    let source = editor.source();
    let block = editor.block();
    let newline = detect_newline(source);
    let mut wanted: Vec<Vec<String>> = Vec::new();
    let mut g: usize = 0;
    while g < groups.len()
        invariant
            g <= groups@.len(),
            nested_views(wanted@) == kept_groups(nested_views(groups@).take(g as int)),
        decreases groups@.len() - g,
    {
        let ids = normalise_ids(&groups[g]);
        proof {
            lemma_group_kept(groups@, g as int, views(ids@));
        }
        if ids.len() > 0 {
            wanted.push(ids);
        }
        proof {
            assert(nested_views(wanted@) =~= kept_groups(nested_views(groups@).take(g as int + 1)));
        }
        g = g + 1;
    }
    proof {
        assert(nested_views(groups@).take(groups@.len() as int) =~= nested_views(groups@));
    }
    let existing = block.find_all(key);
    let ghost b = bytes_of(source);
    let ghost pairs = pairs_with(block.items@, key@);
    let ghost w = nested_views(wanted@);
    let ghost all = group_attempts(b, *block, pairs, key@, w);
    let ghost n = shorter(w.len(), pairs.len());
    let ghost extra = extra_removals(b, pairs, w.len());
    let ghost mut done: Seq<ChangeView> = Seq::empty();
    proof {
        editor.lemma_block_fits();
        crate::script::lemma_find_all_derefs(existing@, block.items@, key@);
        lemma_items_fit(bytes_of(source), block.items@, key@);
        lemma_made_none(*editor);
        lemma_group_attempt(b, *block, pairs, key@, w, 0);
        assert(all.take(0) =~= Seq::<Option<ChangeView>>::empty());
    }
    let mut i: usize = 0;
    while i < wanted.len() && i < existing.len()
        invariant
            e0 == *old(editor),
            b == e0.source_bytes(),
            *block == e0.edited_block(),
            editor.source_bytes() == bytes_of(source),
            bytes_of(source) == b,
            newline@ == newline_spec(b),
            derefs(existing@) == pairs,
            pairs_fit(b, pairs),
            w == nested_views(wanted@),
            w == kept_groups(nested_views(groups@)),
            pairs == pairs_with(e0.edited_block().items@, key@),
            all == group_attempts(b, *block, pairs, key@, w),
            n == shorter(w.len(), pairs.len()),
            i <= n,
            all_some(all.take(i as int)) == Some(done),
            made(e0, *editor, done),
        decreases wanted@.len() - i,
    {
        let pair = existing[i];
        let ghost e1 = *editor;
        proof {
            assert(derefs(existing@)[i as int] == *pair);
            assert(item_fits(b, Item::Pair(pairs[i as int])));
            lemma_group_attempt(b, *block, pairs, key@, w, i as int);
            assert(all.take(i as int + 1) =~= all.take(i as int).push(all[i as int]));
            lemma_all_some_push(all.take(i as int), all[i as int]);
        }
        // A block already listing exactly these focuses is left alone, so its
        // comments and spacing survive an edit to some unrelated field.
        let unchanged = match &pair.value {
            Value::Block(current) => {
                let have = collect_focus_references(current);
                crate::script::same_texts(&have, &wanted[i])
            },
            _ => false,
        };
        if !unchanged {
            let indent = indent_at(source, pair.span.start);
            let refs = render_references(&wanted[i]);
            match try_format_block(refs.as_str(), indent.as_str(), newline) {
                Some(text) => {
                    let edit = TextEdit::new(pair.value.span(), text);
                    proof {
                        assert(seq![edit][0] == edit);
                        assert(item_fits(b, Item::Pair(*pair)));
                        assert(edits_fit(b, seq![edit]));
                    }
                    if !edit_fits(source, &edit) {
                        return false;
                    }
                    editor.edit(edit);
                },
                None => {
                    proof {
                        assert(all =~= all.take(i as int).push(None) + all.skip(i as int + 1));
                        lemma_all_some_fails(all.take(i as int), all.skip(i as int + 1));
                    }
                    return false;
                },
            }
        }
        proof {
            lemma_made_push(e0, e1, *editor, done, all[i as int]->0);
            done = done.push(all[i as int]->0);
        }
        i = i + 1;
    }
    let mut k: usize = wanted.len();
    while k < existing.len()
        invariant
            e0 == *old(editor),
            b == e0.source_bytes(),
            *block == e0.edited_block(),
            editor.source_bytes() == bytes_of(source),
            bytes_of(source) == b,
            derefs(existing@) == pairs,
            pairs_fit(b, pairs),
            w == nested_views(wanted@),
            all == group_attempts(b, *block, pairs, key@, w),
            n == shorter(w.len(), pairs.len()),
            extra == extra_removals(b, pairs, w.len()),
            w.len() <= k,
            k <= pairs.len() || k == w.len(),
            all_some(all.take(n + k - w.len())) == Some(done),
            made(e0, *editor, done),
        decreases existing@.len() - k,
    {
        let ghost e1 = *editor;
        let ghost at = n + k - w.len();
        proof {
            assert(derefs(existing@)[k as int] == *existing@[k as int]);
            assert(item_fits(b, Item::Pair(pairs[k as int])));
            lemma_group_attempt(b, *block, pairs, key@, w, at);
            assert(all.take(at + 1) =~= all.take(at).push(all[at]));
            lemma_all_some_push(all.take(at), all[at]);
        }
        editor.remove(existing[k]);
        proof {
            lemma_made_push(e0, e1, *editor, done, extra[k - w.len()]);
            done = done.push(extra[k - w.len()]);
        }
        k = k + 1;
    }
    if wanted.len() > existing.len() {
        let indent = child_indent(source, block);
        let mut j: usize = existing.len();
        while j < wanted.len()
            invariant
                e0 == *old(editor),
                b == e0.source_bytes(),
                *block == e0.edited_block(),
                bytes_of(source) == b,
                newline@ == newline_spec(b),
                indent@ == child_indent_spec(b, *block),
                w == nested_views(wanted@),
                w == kept_groups(nested_views(groups@)),
                pairs == pairs_with(e0.edited_block().items@, key@),
                pairs.len() == existing@.len(),
                all == group_attempts(b, *block, pairs, key@, w),
                n == shorter(w.len(), pairs.len()),
                extra == extra_removals(b, pairs, w.len()),
                pairs.len() <= j,
                j <= w.len(),
                all_some(all.take(n + extra.len() + j - pairs.len())) == Some(done),
                made(e0, *editor, done),
            decreases wanted@.len() - j,
        {
            let ghost e1 = *editor;
            let ghost at = n + extra.len() + j - pairs.len();
            proof {
                lemma_group_attempt(b, *block, pairs, key@, w, at);
                assert(all.take(at + 1) =~= all.take(at).push(all[at]));
                lemma_all_some_push(all.take(at), all[at]);
            }
            let refs = render_references(&wanted[j]);
            match try_format_block(refs.as_str(), indent.as_str(), newline) {
                Some(text) => {
                    let mut line = key.to_owned();
                    line.push_str(" = ");
                    line.push_str(text.as_str());
                    editor.add_line(line);
                    proof {
                        reveal_strlit(" = ");
                        assert(line@ =~= assignment(key@, text@));
                        lemma_made_push(e0, e1, *editor, done, all[at]->0);
                        done = done.push(all[at]->0);
                    }
                },
                None => {
                    proof {
                        assert(all[at] is None);
                        assert(all =~= all.take(at).push(None) + all.skip(at + 1));
                        lemma_all_some_fails(all.take(at), all.skip(at + 1));
                    }
                    return false;
                },
            }
            j = j + 1;
        }
    }
    proof {
        lemma_group_attempt(b, *block, pairs, key@, w, 0);
        assert(all.take(all.len() as int) =~= all);
    }
    true
}

/// "no focus with id `ID` exists in PATH".
pub open spec fn no_focus_message(id: Seq<char>, path: Seq<char>) -> Seq<char> {
    "no focus with id `"@ + id + "` exists in "@ + path
}

fn no_focus(id: &str, path: &str) -> (m: String)
    ensures
        m@ == no_focus_message(id@, path@),
{
    let mut m = "no focus with id `".to_owned();
    m.push_str(id);
    m.push_str("` exists in ");
    m.push_str(path);
    proof {
        reveal_strlit("no focus with id `");
        reveal_strlit("` exists in ");
    }
    m
}

/// "a focus with id `ID` already exists in this file".
pub open spec fn taken_message(id: Seq<char>) -> Seq<char> {
    "a focus with id `"@ + id + "` already exists in this file"@
}

fn taken(id: &str) -> (m: String)
    ensures
        m@ == taken_message(id@),
{
    let mut m = "a focus with id `".to_owned();
    m.push_str(id);
    m.push_str("` already exists in this file");
    proof {
        reveal_strlit("a focus with id `");
        reveal_strlit("` already exists in this file");
    }
    m
}

/// Why `update_source` refuses an update of the focus with `id`, before any
/// block is laid out. The id is editable, and both refusals guard the
/// file: an empty id drops the `id` assignment the game requires, and a
/// duplicate makes every later lookup land on whichever focus comes first.
pub open spec fn update_refusal(items: Seq<Item>, path: Seq<char>, id: Seq<char>, u: FocusUpdate) -> Option<Seq<char>> {
    let new_id = trim_spec(u.id@);
    if focus_in_items(items, id) is None {
        Some(no_focus_message(id, path))
    } else if new_id.len() == 0 {
        Some("a focus needs an id"@)
    } else if new_id != id && focus_in_items(items, new_id) is Some {
        Some(taken_message(new_id))
    } else {
        None
    }
}

/// Every change `update_source` makes inside a focus block, in order: the
/// plain fields, the script blocks, the prerequisites and the mutually
/// exclusive focuses. `None` where one of them cannot be laid out.
pub open spec fn focus_runs(b: Seq<u8>, block: Block, u: FocusUpdate) -> Option<Seq<ChangeView>> {
    let runs = Some(seq![scalar_change_spec(b, block, "id"@, u.id@)]);
    let runs = then_runs(runs, Some(seq![scalar_change_spec(b, block, "icon"@, u.icon@)]));
    let runs = then_runs(runs, Some(seq![scalar_change_spec(b, block, "x"@, u.x@)]));
    let runs = then_runs(runs, Some(seq![scalar_change_spec(b, block, "y"@, u.y@)]));
    let runs = then_runs(runs, Some(seq![scalar_change_spec(b, block, "cost"@, u.cost@)]));
    let runs = then_runs(runs, Some(seq![scalar_change_spec(b, block, "relative_position_id"@, u.relative_position_id@)]));
    let runs = then_runs(runs, checked_block(b, block, "available"@, u.available@));
    let runs = then_runs(runs, checked_block(b, block, "bypass"@, u.bypass@));
    let runs = then_runs(runs, checked_block(b, block, "allow_branch"@, u.allow_branch@));
    let runs = then_runs(runs, checked_block(b, block, "completion_reward"@, u.completion_reward@));
    let runs = then_runs(runs, checked_block(b, block, "ai_will_do"@, u.ai_will_do@));
    let runs = then_runs(runs, all_some(group_attempts(b, block, pairs_with(block.items@, "prerequisite"@), "prerequisite"@, kept_groups(nested_views(u.prerequisites@)))));
    let runs = then_runs(runs, all_some(group_attempts(b, block, pairs_with(block.items@, "mutually_exclusive"@), "mutually_exclusive"@, kept_groups(exclusive_of(u.mutually_exclusive@)))));
    runs
}

/// The mutually exclusive focuses as the one group they make, none when
/// there are none.
pub open spec fn exclusive_of(ids: Seq<String>) -> Seq<Seq<Seq<char>>> {
    if ids.len() == 0 {
        Seq::empty()
    } else {
        seq![views(ids)]
    }
}

/// The edits `update_source` makes for the focus with `id`: what its
/// block's editor hands on.
pub open spec fn focus_edits(b: Seq<u8>, items: Seq<Item>, id: Seq<char>, u: FocusUpdate) -> Option<
    Seq<(crate::paradox::Span, Seq<char>)>,
> {
    match focus_in_items(items, id) {
        Some(p) => match p.value {
            Value::Block(block) => handed(b, block, focus_runs(b, block, u)),
            Value::Scalar(_) => None,
        },
        None => None,
    }
}

/// The edits made inside a focus's block, as its editor hands them on.
#[verifier::rlimit(60)]
fn focus_block_edits(source: &str, block: &Block, update: &FocusUpdate) -> (r: Option<Vec<TextEdit>>)
    requires
        value_fits(bytes_of(source), Value::Block(*block)),
    ensures
        match handed(bytes_of(source), *block, focus_runs(bytes_of(source), *block, *update)) {
            Some(vs) => r matches Some(es) && crate::paradox::edit::edit_views(es@) == vs,
            None => r is None,
        },
{
    let ghost b = bytes_of(source);
    let mut editor = BlockEditor::new(source, block);
    let ghost e0 = editor;
    let ghost mut done: Seq<ChangeView> = Seq::empty();
    proof {
        lemma_made_none(editor);
    }
    let ghost ep = editor;
    editor.set_scalar("id", update.id.as_str());
    proof {
        lemma_made_one(ep, editor, scalar_change_spec(b, *block, "id"@, (*update).id@));
        assert(made(e0, editor, seq![scalar_change_spec(b, *block, "id"@, (*update).id@)]));
        done = seq![scalar_change_spec(b, *block, "id"@, (*update).id@)];
    }
    let ghost ep = editor;
    editor.set_scalar("icon", update.icon.as_str());
    proof {
        lemma_made_one(ep, editor, scalar_change_spec(b, *block, "icon"@, (*update).icon@));
        lemma_made_then(e0, ep, editor, done, seq![scalar_change_spec(b, *block, "icon"@, (*update).icon@)]);
        done = done + seq![scalar_change_spec(b, *block, "icon"@, (*update).icon@)];
    }
    let ghost ep = editor;
    editor.set_scalar("x", update.x.as_str());
    proof {
        lemma_made_one(ep, editor, scalar_change_spec(b, *block, "x"@, (*update).x@));
        lemma_made_then(e0, ep, editor, done, seq![scalar_change_spec(b, *block, "x"@, (*update).x@)]);
        done = done + seq![scalar_change_spec(b, *block, "x"@, (*update).x@)];
    }
    let ghost ep = editor;
    editor.set_scalar("y", update.y.as_str());
    proof {
        lemma_made_one(ep, editor, scalar_change_spec(b, *block, "y"@, (*update).y@));
        lemma_made_then(e0, ep, editor, done, seq![scalar_change_spec(b, *block, "y"@, (*update).y@)]);
        done = done + seq![scalar_change_spec(b, *block, "y"@, (*update).y@)];
    }
    let ghost ep = editor;
    editor.set_scalar("cost", update.cost.as_str());
    proof {
        lemma_made_one(ep, editor, scalar_change_spec(b, *block, "cost"@, (*update).cost@));
        lemma_made_then(e0, ep, editor, done, seq![scalar_change_spec(b, *block, "cost"@, (*update).cost@)]);
        done = done + seq![scalar_change_spec(b, *block, "cost"@, (*update).cost@)];
    }
    let ghost ep = editor;
    editor.set_scalar("relative_position_id", update.relative_position_id.as_str());
    proof {
        lemma_made_one(ep, editor, scalar_change_spec(b, *block, "relative_position_id"@, (*update).relative_position_id@));
        lemma_made_then(e0, ep, editor, done, seq![scalar_change_spec(b, *block, "relative_position_id"@, (*update).relative_position_id@)]);
        done = done + seq![scalar_change_spec(b, *block, "relative_position_id"@, (*update).relative_position_id@)];
    }
    let ghost ep = editor;
    if !set_block_checked(&mut editor, "available", update.available.as_str()) {
        return None;
    }
    proof {
        
        lemma_made_then(e0, ep, editor, done, seq![block_change_spec(b, *block, "available"@, (*update).available@)]);
        done = done + seq![block_change_spec(b, *block, "available"@, (*update).available@)];
    }
    let ghost ep = editor;
    if !set_block_checked(&mut editor, "bypass", update.bypass.as_str()) {
        return None;
    }
    proof {
        
        lemma_made_then(e0, ep, editor, done, seq![block_change_spec(b, *block, "bypass"@, (*update).bypass@)]);
        done = done + seq![block_change_spec(b, *block, "bypass"@, (*update).bypass@)];
    }
    let ghost ep = editor;
    if !set_block_checked(&mut editor, "allow_branch", update.allow_branch.as_str()) {
        return None;
    }
    proof {
        
        lemma_made_then(e0, ep, editor, done, seq![block_change_spec(b, *block, "allow_branch"@, (*update).allow_branch@)]);
        done = done + seq![block_change_spec(b, *block, "allow_branch"@, (*update).allow_branch@)];
    }
    let ghost ep = editor;
    if !set_block_checked(&mut editor, "completion_reward", update.completion_reward.as_str()) {
        return None;
    }
    proof {
        
        lemma_made_then(e0, ep, editor, done, seq![block_change_spec(b, *block, "completion_reward"@, (*update).completion_reward@)]);
        done = done + seq![block_change_spec(b, *block, "completion_reward"@, (*update).completion_reward@)];
    }
    let ghost ep = editor;
    if !set_block_checked(&mut editor, "ai_will_do", update.ai_will_do.as_str()) {
        return None;
    }
    proof {
        
        lemma_made_then(e0, ep, editor, done, seq![block_change_spec(b, *block, "ai_will_do"@, (*update).ai_will_do@)]);
        done = done + seq![block_change_spec(b, *block, "ai_will_do"@, (*update).ai_will_do@)];
    }
    let ghost ep = editor;
    if !set_reference_groups(&mut editor, "prerequisite", &update.prerequisites) {
        return None;
    }
    proof {
        
        lemma_made_then(e0, ep, editor, done, (all_some(group_attempts(b, *block, pairs_with(block.items@, "prerequisite"@), "prerequisite"@, kept_groups(nested_views((*update).prerequisites@)))))->0);
        done = done + (all_some(group_attempts(b, *block, pairs_with(block.items@, "prerequisite"@), "prerequisite"@, kept_groups(nested_views((*update).prerequisites@)))))->0;
    }
    let exclusive_groups: Vec<Vec<String>> = if update.mutually_exclusive.len() == 0 {
        Vec::new()
    } else {
        vec![copy_strings(&update.mutually_exclusive)]
    };
    proof {
        assert(nested_views(exclusive_groups@) =~= exclusive_of(update.mutually_exclusive@));
    }
    let ghost ep = editor;
    if !set_reference_groups(&mut editor, "mutually_exclusive", &exclusive_groups) {
        return None;
    }
    proof {
        
        lemma_made_then(e0, ep, editor, done, (all_some(group_attempts(b, *block, pairs_with(block.items@, "mutually_exclusive"@), "mutually_exclusive"@, kept_groups(exclusive_of((*update).mutually_exclusive@)))))->0);
        done = done + (all_some(group_attempts(b, *block, pairs_with(block.items@, "mutually_exclusive"@), "mutually_exclusive"@, kept_groups(exclusive_of((*update).mutually_exclusive@)))))->0;
    }
    proof {
        assert(focus_runs(b, *block, (*update)) == Some(done));
    }
    Some(finish_editor(editor))
}

/// Rewrites one focus in place, matched by its current id.
pub fn update_source(path: &str, source: &str, focus_id: &str, update: &FocusUpdate) -> (r: Result<String, EditError>)
    requires
        bytes_of(source).len() <= isize::MAX,
    ensures
        script_parse_spec(source) matches Parsed::Fail(m, o) ==> r matches Err(
            EditError::Script { path: p, source: e },
        ) && p@ == path@ && e.message@ == m && e.offset == o,
        script_parse_spec(source) is Read ==> exists|items: Seq<Item>|
            #[trigger] parsed_items(source, items) && match update_refusal(items, path@, focus_id@, *update) {
                Some(m) => r matches Err(EditError::Message(t)) && t@ == m,
                None => saved_as(bytes_of(source), focus_edits(bytes_of(source), items, focus_id@, *update), r),
            },
{
    let document = match crate::paradox::parse(source) {
        Ok(document) => document,
        Err(e) => {
            return Err(EditError::Script { path: path.to_owned(), source: e });
        },
    };
    proof {
        assert(parsed_items(source, document.items@));
        lemma_found_focus(bytes_of(source), document.items@, focus_id@);
    }
    let pair = match find_focus_pair(&document.items, focus_id) {
        Some(pair) => pair,
        None => {
            return Err(EditError::Message(no_focus(focus_id, path)));
        },
    };
    let focus = match &pair.value {
        Value::Block(block) => block,
        _ => {
            return Err(EditError::Message(no_focus(focus_id, path)));
        },
    };
    let new_id = trim(update.id.as_str());
    if new_id.as_str().is_empty() {
        let m = "a focus needs an id".to_owned();
        proof {
            reveal_strlit("a focus needs an id");
        }
        return Err(EditError::Message(m));
    }
    if !str_eq(new_id.as_str(), focus_id) && find_focus_pair(&document.items, new_id.as_str()).is_some() {
        return Err(EditError::Message(taken(new_id.as_str())));
    }
    proof {
        crate::script::lemma_block_items_fit(bytes_of(source), *focus);
    }
    let edits = match focus_block_edits(source, focus, update) {
        Some(es) => es,
        None => {
            return Err(crate::script::layout_error());
        },
    };
    save_edits(source, edits)
}

/// Deletes the focus with `id`, with its line when it owns one.
pub fn delete_source(path: &str, source: &str, focus_id: &str) -> (r: Result<String, EditError>)
    ensures
        script_parse_spec(source) matches Parsed::Fail(m, o) ==> r matches Err(
            EditError::Script { path: p, source: e },
        ) && p@ == path@ && e.message@ == m && e.offset == o,
        script_parse_spec(source) is Read ==> exists|items: Seq<Item>|
            #[trigger] parsed_items(source, items) && match focus_in_items(items, focus_id@) {
                Some(p) => r matches Ok(text) && text@ == text_at(
                    bytes_of(source),
                    0,
                    removal_span(bytes_of(source), p).start as int,
                ) + text_at(
                    bytes_of(source),
                    removal_span(bytes_of(source), p).end as int,
                    bytes_of(source).len() as int,
                ),
                None => r matches Err(EditError::Message(m)) && m@ == no_focus_message(focus_id@, path@),
            },
{
    let document = match crate::paradox::parse(source) {
        Ok(document) => document,
        Err(e) => {
            return Err(EditError::Script { path: path.to_owned(), source: e });
        },
    };
    proof {
        assert(parsed_items(source, document.items@));
        lemma_found_focus(bytes_of(source), document.items@, focus_id@);
    }
    let pair = match find_focus_pair(&document.items, focus_id) {
        Some(pair) => pair,
        None => {
            return Err(EditError::Message(no_focus(focus_id, path)));
        },
    };
    let edits = crate::paradox::edit::remove_pair(source, pair);
    proof {
        assert(edits@ =~= seq![edits@[0]]);
        crate::paradox::edit::law_single_edit_replaces_its_span(bytes_of(source), edits@[0]);
    }
    proof {
        crate::paradox::edit::lemma_fitting_edits_apply(source, edits@);
    }
    Ok(apply_edits(source, edits))
}

/// The tree a new focus goes into: the first with the id asked for, or else
/// the first tree of the file.
pub open spec fn chosen_tree(items: Seq<Item>, tree_id: Seq<char>) -> Option<Pair> {
    tree_named(pairs_with(items, "focus_tree"@), tree_id, 0)
}

/// The first of `trees` from `i` on whose block has the id `tree_id`, or
/// else the first of them all.
pub open spec fn tree_named(trees: Seq<Pair>, tree_id: Seq<char>, i: int) -> Option<Pair>
    decreases trees.len() - i,
{
    if i < 0 || i >= trees.len() {
        if trees.len() > 0 {
            Some(trees[0])
        } else {
            None
        }
    } else if trees[i].value matches Value::Block(bl) && scalar_spec(bl.items@, "id"@) == Some(tree_id) {
        Some(trees[i])
    } else {
        tree_named(trees, tree_id, i + 1)
    }
}

/// The line a new focus is inserted as inside its tree: `focus = {`, the
/// body, and the closing brace at the tree's children's indentation.
pub open spec fn focus_line(b: Seq<u8>, tree: Block, body: Seq<char>) -> Seq<char> {
    let newline = crate::paradox::edit::newline_spec(b);
    "focus = {"@ + newline + body + newline + crate::paradox::edit::child_indent_spec(b, tree) + "}"@
}

proof fn lemma_tree_named_fits(b: Seq<u8>, trees: Seq<Pair>, tree_id: Seq<char>, i: int)
    requires
        pairs_fit(b, trees),
        0 <= i,
    ensures
        tree_named(trees, tree_id, i) matches Some(p) ==> item_fits(b, Item::Pair(p)),
    decreases trees.len() - i,
{
    if i < trees.len() {
        lemma_tree_named_fits(b, trees, tree_id, i + 1);
    }
}

/// Appends a new focus to `tree_id`, or to the first tree in the file when
/// no tree has that id.
#[verifier::rlimit(40)]
pub fn add_source(path: &str, source: &str, tree_id: &str, focus: &FocusUpdate) -> (r: Result<String, EditError>)
    requires
        bytes_of(source).len() <= isize::MAX,
    ensures
        trim_spec(focus.id@).len() == 0 ==> (r matches Err(EditError::Message(t)) && t@ == "a new focus needs an id"@),
        trim_spec(focus.id@).len() != 0 ==> {
            &&& script_parse_spec(source) matches Parsed::Fail(m, o) ==> r matches Err(
                EditError::Script { path: p, source: e },
            ) && p@ == path@ && e.message@ == m && e.offset == o
            &&& script_parse_spec(source) is Read ==> exists|items: Seq<Item>|
                #[trigger] parsed_items(source, items) && if focus_in_items(items, focus.id@) is Some {
                    r matches Err(EditError::Message(t)) && t@ == taken_message(focus.id@)
                } else {
                    match chosen_tree(items, tree_id@) {
                        None => r matches Err(EditError::Message(t)) && t@ == path@ + " has no focus_tree to add a focus to"@,
                        Some(tree) => match tree.value {
                            Value::Block(bl) => {
                                let b = bytes_of(source);
                                let indent = crate::paradox::edit::child_indent_spec(b, bl);
                                match render_focus_body_spec(*focus, indent + seq!['\t'], crate::paradox::edit::newline_spec(b)) {
                                    None => r matches Err(EditError::Message(t)) && t@ == crate::script::layout_message(),
                                    Some(body) => {
                                        let ins = crate::paradox::edit::insertion_start(b, bl);
                                        &&& r is Ok || (r matches Err(EditError::Message(t)) && t@ == crate::script::layout_message())
                                        &&& boundary(b, ins) ==> (r matches Ok(text) && text@ == text_at(b, 0, ins)
                                            + crate::paradox::edit::newline_spec(b) + indent + focus_line(b, bl, body)
                                            + crate::paradox::edit::newline_spec(b) + crate::paradox::edit::indent_spec(b, bl.span.start as int)
                                            + text_at(b, bl.inner.end as int, b.len() as int))
                                    },
                                }
                            },
                            _ => r matches Err(EditError::Message(t)) && t@ == "focus_tree is not a block"@,
                        },
                    }
                }
        },
{
    let id = trim(focus.id.as_str());
    if id.as_str().is_empty() {
        let m = "a new focus needs an id".to_owned();
        proof {
            reveal_strlit("a new focus needs an id");
        }
        return Err(EditError::Message(m));
    }
    let document = match crate::paradox::parse(source) {
        Ok(document) => document,
        Err(e) => {
            return Err(EditError::Script { path: path.to_owned(), source: e });
        },
    };
    proof {
        assert(parsed_items(source, document.items@));
        lemma_items_fit(bytes_of(source), document.items@, "focus_tree"@);
        lemma_tree_named_fits(bytes_of(source), pairs_with(document.items@, "focus_tree"@), tree_id@, 0);
    }
    if find_focus_pair(&document.items, focus.id.as_str()).is_some() {
        return Err(EditError::Message(taken(focus.id.as_str())));
    }
    let chosen = match choose_tree(&document, tree_id) {
        Some(tree) => tree,
        None => {
            let mut m = path.to_owned();
            m.push_str(" has no focus_tree to add a focus to");
            proof {
                reveal_strlit(" has no focus_tree to add a focus to");
            }
            return Err(EditError::Message(m));
        },
    };
    let tree_block = match &chosen.value {
        Value::Block(block) => block,
        _ => {
            let m = "focus_tree is not a block".to_owned();
            proof {
                reveal_strlit("focus_tree is not a block");
            }
            return Err(EditError::Message(m));
        },
    };
    let indent = child_indent(source, tree_block);
    let newline = detect_newline(source);
    let mut inner = indent.as_str().to_owned();
    inner.push('\t');
    assert(inner@ =~= crate::paradox::edit::child_indent_spec(bytes_of(source), *tree_block) + seq!['\t']);
    assert(*chosen == chosen_tree(document.items@, tree_id@)->0);
    let body = match render_focus_body(focus, inner.as_str(), newline) {
        Some(body) => body,
        None => {
            return Err(crate::script::layout_error());
        },
    };
    insert_focus(source, tree_block, body.as_str())
}

/// The tree a new focus goes into, as `chosen_tree` says.
fn choose_tree<'a>(document: &'a Document, tree_id: &str) -> (r: Option<&'a Pair>)
    ensures
        match chosen_tree(document.items@, tree_id@) {
            Some(p) => r matches Some(q) && *q == p,
            None => r is None,
        },
{
    let trees = document.find_all("focus_tree");
    proof {
        crate::script::lemma_find_all_derefs(trees@, document.items@, "focus_tree"@);
    }
    let ghost ts = pairs_with(document.items@, "focus_tree"@);
    if trees.len() == 0 {
        return None;
    }
    let mut i: usize = 0;
    while i < trees.len()
        invariant
            i <= trees@.len(),
            trees@.len() > 0,
            derefs(trees@) == ts,
            ts == pairs_with(document.items@, "focus_tree"@),
            tree_named(ts, tree_id@, 0) == tree_named(ts, tree_id@, i as int),
        decreases trees@.len() - i,
    {
        proof {
            assert(derefs(trees@)[i as int] == *trees@[i as int]);
        }
        let named = match &trees[i].value {
            Value::Block(block) => match block.scalar("id") {
                Some(current) => str_eq(current.as_str(), tree_id),
                None => false,
            },
            _ => false,
        };
        if named {
            return Some(trees[i]);
        }
        i = i + 1;
    }
    proof {
        assert(derefs(trees@)[0] == *trees@[0]);
    }
    Some(trees[0])
}

/// Inserts `focus = { body }` as the last entry of a tree.
fn insert_focus(source: &str, tree_block: &Block, body: &str) -> (r: Result<String, EditError>)
    requires
        value_fits(bytes_of(source), Value::Block(*tree_block)),
    ensures
        ({
            let b = bytes_of(source);
            let ins = crate::paradox::edit::insertion_start(b, *tree_block);
            &&& r is Ok || (r matches Err(EditError::Message(t)) && t@ == crate::script::layout_message())
            &&& boundary(b, ins) ==> (r matches Ok(text) && text@ == text_at(b, 0, ins)
                + crate::paradox::edit::newline_spec(b) + crate::paradox::edit::child_indent_spec(b, *tree_block)
                + focus_line(b, *tree_block, body@) + crate::paradox::edit::newline_spec(b)
                + crate::paradox::edit::indent_spec(b, tree_block.span.start as int)
                + text_at(b, tree_block.inner.end as int, b.len() as int))
        }),
{
    let indent = child_indent(source, tree_block);
    let newline = detect_newline(source);
    let mut line = "focus = {".to_owned();
    line.push_str(newline);
    line.push_str(body);
    line.push_str(newline);
    line.push_str(indent.as_str());
    line.push('}');
    proof {
        reveal_strlit("focus = {");
        reveal_strlit("}");
        assert(line@ =~= focus_line(bytes_of(source), *tree_block, body@));
    }
    let lines = vec![line];
    let edit = insert_lines(source, tree_block, lines.as_slice());
    proof {
        assert(lines@ =~= seq![line]);
        assert(lines@.drop_last() =~= Seq::<String>::empty());
        crate::paradox::edit::lemma_insertion_start(bytes_of(source), *tree_block);
    }
    let edits = vec![edit];
    if !edits_fit_all(source, &edits) {
        proof {
            assert(edits@ =~= seq![edit]);
        }
        return Err(crate::script::layout_error());
    }
    proof {
        let b = bytes_of(source);
        assert(edits@ =~= seq![edit]);
        crate::paradox::edit::law_single_edit_replaces_its_span(b, edit);
        assert(crate::paradox::edit::lines_body(lines@.drop_last(), crate::paradox::edit::newline_spec(b), crate::paradox::edit::child_indent_spec(b, *tree_block))
            =~= Seq::<char>::empty());
        assert(lines@.last() == line);
        assert(crate::paradox::edit::lines_body(lines@, crate::paradox::edit::newline_spec(b), crate::paradox::edit::child_indent_spec(b, *tree_block))
            =~= crate::paradox::edit::newline_spec(b) + crate::paradox::edit::child_indent_spec(b, *tree_block) + line@);
    }
    proof {
        crate::paradox::edit::lemma_fitting_edits_apply(source, edits@);
    }
    Ok(apply_edits(source, edits))
}

} // verus!
