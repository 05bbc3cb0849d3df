//! Reading the values a form shows out of parsed script blocks: a scalar or
//! nothing, a bare word list, a nested block's body, the blocks among a
//! list of pairs. Shared by every editor of a game file.
use crate::error::EditError;
use crate::paradox::edit::{
    apply_edits, edits_fit_all, insert_lines, law_single_edit_replaces_its_span, indent_spec,
    child_indent_spec, insertion_start, newline_spec,
    child_indent, detect_newline, edit_fits, fits_layout, indent_at, BlockEditor, TextEdit,
    block_body_spec, body_fits, dedent_spec, format_block_spec, indent_lines, layout_fits,
    try_block_body, try_dedent, try_format_block, removal_span, remove_pair, tidy_body_spec,
    tidy_fits, try_tidy_body, record, ChangeView, holds_scalar, block_change_spec, edits_fit,
    edit_views, apply_edits_spec,
};
use crate::paradox::Span;
use crate::paradox::parser::value_span;
use crate::paradox::lexer::quote_spec;
use crate::paradox::parser::{
    find_spec, item_fits, lemma_pairs_of_in, lemma_pairs_with_in, pairs_of, pairs_with,
    scalar_spec, scalar_text, value_fits, block_spec,
};
use crate::paradox::{Block, Document, Item, Items, Pair, Value};
use crate::paradox::parser::{parse_spec as script_parse_spec, Parsed};
use crate::paradox::lexer::quote;
use crate::text::{
    text_at, boundary, slice_between,
    bytes_of, chars_of, is_whitespace, is_ws, join, join_strings, string_of, trim, trim_spec,
    views,
};
use vstd::prelude::*;
use vstd::utf8::encode_utf8;

verus! {

/// A scalar or, when there is none, the empty text.
pub open spec fn or_empty(v: Option<Seq<char>>) -> Seq<char> {
    match v {
        Some(s) => s,
        None => Seq::empty(),
    }
}

/// The text of an optional string.
pub open spec fn opt_text(v: Option<String>) -> Option<Seq<char>> {
    match v {
        Some(s) => Some(s@),
        None => None,
    }
}

/// What `scalar(key).unwrap_or_default()` gives.
pub open spec fn text_or_empty(items: Seq<Item>, key: Seq<char>) -> Seq<char> {
    or_empty(scalar_spec(items, key))
}

/// The bare scalar values among `items`: `traits = { a b }`.
pub open spec fn bare_scalars(items: Seq<Item>) -> Seq<Seq<char>>
    decreases items.len(),
{
    if items.len() == 0 {
        Seq::empty()
    } else {
        let rest = bare_scalars(items.drop_last());
        match items.last() {
            Item::Value(Value::Scalar(s)) => rest.push(scalar_text(s)),
            _ => rest,
        }
    }
}

/// The bare words of the list under `key`, none when there is no such block.
pub open spec fn words_spec(items: Seq<Item>, key: Seq<char>) -> Seq<Seq<char>> {
    match block_spec(items, key) {
        Some(b) => bare_scalars(b.items@),
        None => Seq::empty(),
    }
}

/// The body of the first pair under `key` as a plain editor shows it; empty
/// when there is none, or when its indentation cannot be cut on character
/// boundaries.
pub open spec fn body_or_empty(b: Seq<u8>, items: Seq<Item>, key: Seq<char>) -> Seq<char> {
    match find_spec(items, key) {
        Some(p) => if body_fits(b, p.value) {
            block_body_spec(b, p.value)
        } else {
            Seq::empty()
        },
        None => Seq::empty(),
    }
}

/// The blocks that `pairs` assign, in order.
pub open spec fn block_values(pairs: Seq<Pair>) -> Seq<Block>
    decreases pairs.len(),
{
    if pairs.len() == 0 {
        Seq::empty()
    } else {
        let rest = block_values(pairs.drop_last());
        match pairs.last().value {
            Value::Block(b) => rest.push(b),
            _ => rest,
        }
    }
}

/// The pairs among `pairs` that assign a block, in order.
pub open spec fn block_pairs(pairs: Seq<Pair>) -> Seq<Pair>
    decreases pairs.len(),
{
    if pairs.len() == 0 {
        Seq::empty()
    } else {
        let rest = block_pairs(pairs.drop_last());
        match pairs.last().value {
            Value::Block(_) => rest.push(pairs.last()),
            _ => rest,
        }
    }
}

/// The values pointed to by a list of references.
pub open spec fn derefs<T>(v: Seq<&T>) -> Seq<T> {
    Seq::new(v.len(), |k: int| *v[k])
}

/// Every item of a list lies inside the source.
pub open spec fn all_fit(b: Seq<u8>, items: Seq<Item>) -> bool {
    forall|k: int| 0 <= k < items.len() ==> item_fits(b, #[trigger] items[k])
}

/// Every pair of a list lies inside the source.
pub open spec fn pairs_fit(b: Seq<u8>, pairs: Seq<Pair>) -> bool {
    forall|k: int| 0 <= k < pairs.len() ==> item_fits(b, Item::Pair(#[trigger] pairs[k]))
}

/// Every block of a list lies inside the source.
pub open spec fn blocks_fit(b: Seq<u8>, blocks: Seq<Block>) -> bool {
    forall|k: int| 0 <= k < blocks.len() ==> value_fits(b, Value::Block(#[trigger] blocks[k]))
}

/// The pairs found in a list of items that fits lie inside the source too.
pub proof fn lemma_items_fit(b: Seq<u8>, items: Seq<Item>, key: Seq<char>)
    requires
        all_fit(b, items),
    ensures
        pairs_fit(b, pairs_with(items, key)),
        pairs_fit(b, pairs_of(items)),
        find_spec(items, key) matches Some(p) ==> item_fits(b, Item::Pair(p)),
        block_spec(items, key) matches Some(bl) ==> value_fits(b, Value::Block(bl)),
{
    lemma_pairs_with_in(items, key);
    lemma_pairs_of_in(items);
    assert forall|j: int| 0 <= j < pairs_with(items, key).len() implies item_fits(
        b,
        Item::Pair(#[trigger] pairs_with(items, key)[j]),
    ) by {
        let k = choose|k: int|
            0 <= k < items.len() && items[k] == Item::Pair(pairs_with(items, key)[j]);
        assert(item_fits(b, items[k]));
    }
    assert forall|j: int| 0 <= j < pairs_of(items).len() implies item_fits(
        b,
        Item::Pair(#[trigger] pairs_of(items)[j]),
    ) by {
        let k = choose|k: int| 0 <= k < items.len() && items[k] == Item::Pair(pairs_of(items)[j]);
        assert(item_fits(b, items[k]));
    }
    if pairs_with(items, key).len() > 0 {
        assert(item_fits(b, Item::Pair(pairs_with(items, key)[0])));
    }
}

/// The blocks assigned by pairs that fit lie inside the source.
pub proof fn lemma_block_values_fit(b: Seq<u8>, pairs: Seq<Pair>)
    requires
        pairs_fit(b, pairs),
    ensures
        blocks_fit(b, block_values(pairs)),
        pairs_fit(b, block_pairs(pairs)),
    decreases pairs.len(),
{
    if pairs.len() > 0 {
        let d = pairs.drop_last();
        assert forall|k: int| 0 <= k < d.len() implies item_fits(b, Item::Pair(#[trigger] d[k])) by {
            assert(d[k] == pairs[k]);
        }
        lemma_block_values_fit(b, d);
        assert(item_fits(b, Item::Pair(pairs.last())));
        let vs = block_values(pairs);
        let ps = block_pairs(pairs);
        assert forall|k: int| 0 <= k < vs.len() implies value_fits(b, Value::Block(#[trigger] vs[k])) by {
            if k < block_values(d).len() {
                assert(vs[k] == block_values(d)[k]);
            }
        }
        assert forall|k: int| 0 <= k < ps.len() implies item_fits(b, Item::Pair(#[trigger] ps[k])) by {
            if k < block_pairs(d).len() {
                assert(ps[k] == block_pairs(d)[k]);
            }
        }
    }
}

/// A block that fits holds items that fit.
pub proof fn lemma_block_items_fit(b: Seq<u8>, block: Block)
    requires
        value_fits(b, Value::Block(block)),
    ensures
        all_fit(b, block.items@),
{
}

/// `scalar(key).unwrap_or_default()`.
pub fn text_of<T: Items>(t: &T, key: &str) -> (r: String)
    ensures
        r@ == text_or_empty(t.item_list(), key@),
{
    match t.scalar(key) {
        Some(s) => s,
        None => String::new(),
    }
}

/// The bare scalar values of a block, in order.
pub fn words_of(block: &Block) -> (r: Vec<String>)
    ensures
        views(r@) == bare_scalars(block.items@),
{
    let mut r: Vec<String> = Vec::new();
    let mut i: usize = 0;
    while i < block.items.len()
        invariant
            i <= block.items@.len(),
            views(r@) == bare_scalars(block.items@.take(i as int)),
        decreases block.items@.len() - i,
    {
        let ghost before = views(r@);
        proof {
            assert(block.items@.take(i + 1).drop_last() =~= block.items@.take(i as int));
        }
        match &block.items[i] {
            Item::Value(Value::Scalar(scalar)) => {
                r.push(scalar.value());
                assert(views(r@) =~= before.push(scalar_text(*scalar)));
            },
            _ => {},
        }
        i = i + 1;
    }
    assert(block.items@.take(block.items@.len() as int) =~= block.items@);
    r
}

/// The bare words of a list such as `traits = { a b }`.
pub fn read_words<T: Items>(t: &T, key: &str) -> (r: Vec<String>)
    ensures
        views(r@) == words_spec(t.item_list(), key@),
{
    match t.block(key) {
        Some(block) => words_of(block),
        None => {
            let r: Vec<String> = Vec::new();
            assert(views(r@) =~= Seq::<Seq<char>>::empty());
            r
        },
    }
}

/// The body of a nested block such as `allowed = { ... }`, for a plain
/// editor; empty when there is none.
pub fn read_block<T: Items>(source: &str, t: &T, key: &str) -> (r: String)
    requires
        all_fit(bytes_of(source), t.item_list()),
    ensures
        r@ == body_or_empty(bytes_of(source), t.item_list(), key@),
{
    proof {
        lemma_items_fit(bytes_of(source), t.item_list(), key@);
    }
    match t.find(key) {
        Some(pair) => match try_block_body(source, &pair.value) {
            Some(body) => body,
            None => String::new(),
        },
        None => String::new(),
    }
}

/// The blocks among the values of `pairs`, in order.
pub fn blocks_among<'a>(pairs: &Vec<&'a Pair>) -> (r: Vec<&'a Block>)
    ensures
        derefs(r@) == block_values(derefs(pairs@)),
{
    let ghost all = derefs(pairs@);
    let mut r: Vec<&'a Block> = Vec::new();
    let mut i: usize = 0;
    while i < pairs.len()
        invariant
            i <= pairs@.len(),
            all == derefs(pairs@),
            derefs(r@) == block_values(all.take(i as int)),
        decreases pairs@.len() - i,
    {
        let ghost before = derefs(r@);
        proof {
            assert(all.take(i + 1).drop_last() =~= all.take(i as int));
            assert(all.take(i + 1).last() == *pairs@[i as int]);
        }
        match &pairs[i].value {
            Value::Block(block) => {
                r.push(block);
                assert(derefs(r@) =~= before.push(*block));
            },
            _ => {},
        }
        i = i + 1;
    }
    assert(all.take(all.len() as int) =~= all);
    r
}

/// The pairs among `pairs` that assign a block, in order.
pub fn pairs_with_blocks<'a>(pairs: &Vec<&'a Pair>) -> (r: Vec<&'a Pair>)
    ensures
        derefs(r@) == block_pairs(derefs(pairs@)),
{
    let ghost all = derefs(pairs@);
    let mut r: Vec<&'a Pair> = Vec::new();
    let mut i: usize = 0;
    while i < pairs.len()
        invariant
            i <= pairs@.len(),
            all == derefs(pairs@),
            derefs(r@) == block_pairs(all.take(i as int)),
        decreases pairs@.len() - i,
    {
        let ghost before = derefs(r@);
        proof {
            assert(all.take(i + 1).drop_last() =~= all.take(i as int));
            assert(all.take(i + 1).last() == *pairs@[i as int]);
        }
        match &pairs[i].value {
            Value::Block(_) => {
                r.push(pairs[i]);
                assert(derefs(r@) =~= before.push(*pairs@[i as int]));
            },
            _ => {},
        }
        i = i + 1;
    }
    assert(all.take(all.len() as int) =~= all);
    r
}

/// The pairs `find_all` returns, as values.
pub proof fn lemma_find_all_derefs(r: Seq<&Pair>, items: Seq<Item>, key: Seq<char>)
    requires
        r.len() == pairs_with(items, key).len(),
        forall|k: int| 0 <= k < r.len() ==> *#[trigger] r[k] == pairs_with(items, key)[k],
    ensures
        derefs(r) == pairs_with(items, key),
{
    assert(derefs(r) =~= pairs_with(items, key));
}

/// The pairs `pairs` returns, as values.
pub proof fn lemma_pairs_derefs(r: Seq<&Pair>, items: Seq<Item>)
    requires
        r.len() == pairs_of(items).len(),
        forall|k: int| 0 <= k < r.len() ==> *#[trigger] r[k] == pairs_of(items)[k],
    ensures
        derefs(r) == pairs_of(items),
{
    assert(derefs(r) =~= pairs_of(items));
}

// ---------------------------------------------------------------------------
// Writing values back
// ---------------------------------------------------------------------------

/// `key = value` with the value trimmed, or no line when the value is blank.
pub open spec fn scalar_line(key: Seq<char>, value: Seq<char>) -> Seq<Seq<char>> {
    if trim_spec(value).len() == 0 {
        Seq::empty()
    } else {
        seq![key + " = "@ + trim_spec(value)]
    }
}

/// The words of `s`: the runs of non-whitespace characters, as
/// `str::split_whitespace` gives them, from position `i` with `cur` read so far.
pub open spec fn words_from(s: Seq<char>, i: int, cur: Seq<char>) -> Seq<Seq<char>>
    decreases s.len() - i,
{
    if i < 0 || i >= s.len() {
        if cur.len() > 0 {
            seq![cur]
        } else {
            Seq::empty()
        }
    } else if is_ws(s[i]) {
        (if cur.len() > 0 {
            seq![cur]
        } else {
            Seq::empty()
        }) + words_from(s, i + 1, Seq::empty())
    } else {
        words_from(s, i + 1, cur.push(s[i]))
    }
}

/// Every value's words, in order.
pub open spec fn normalise_words_spec(values: Seq<Seq<char>>) -> Seq<Seq<char>>
    decreases values.len(),
{
    if values.len() == 0 {
        Seq::empty()
    } else {
        normalise_words_spec(values.drop_last()) + words_from(values.last(), 0, Seq::empty())
    }
}

/// Short lists stay on one line; long ones get a word per line.
pub open spec fn render_words_spec(words: Seq<Seq<char>>) -> Seq<char> {
    let joined = join(words, " "@);
    if encode_utf8(joined).len() <= 60 {
        joined
    } else {
        join(words, "\n"@)
    }
}

/// `format_block`, where the content can be laid out.
pub open spec fn fmt_block(content: Seq<char>, indent: Seq<char>, newline: Seq<char>) -> Option<Seq<char>> {
    if layout_fits(content) {
        Some(format_block_spec(content, indent, newline))
    } else {
        None
    }
}

/// A block with its braces on lines of their own however short the body.
pub open spec fn format_lines_spec(content: Seq<char>, indent: Seq<char>, newline: Seq<char>) -> Seq<char> {
    seq!['{'] + newline + join(
        indent_lines(dedent_spec(encode_utf8(trim_spec(content))), indent + seq!['\t']),
        newline,
    ) + newline + indent + seq!['}']
}

/// `format_lines`, where the content can be laid out.
pub open spec fn fmt_lines(content: Seq<char>, indent: Seq<char>, newline: Seq<char>) -> Option<Seq<char>> {
    if layout_fits(content) {
        Some(format_lines_spec(content, indent, newline))
    } else {
        None
    }
}

/// `key = { words }`, nothing when there are no words.
pub open spec fn words_lines(key: Seq<char>, values: Seq<Seq<char>>) -> Option<Seq<Seq<char>>> {
    let words = normalise_words_spec(values);
    if words.len() == 0 {
        Some(Seq::empty())
    } else {
        match fmt_block(render_words_spec(words), Seq::empty(), "\n"@) {
            Some(t) => Some(seq![key + " = "@ + t]),
            None => None,
        }
    }
}

/// `key = { body }` for a non-blank body, laid out by `format_block`.
pub open spec fn block_lines(key: Seq<char>, value: Seq<char>) -> Option<Seq<Seq<char>>> {
    if trim_spec(value).len() == 0 {
        Some(Seq::empty())
    } else {
        match fmt_block(value, Seq::empty(), "\n"@) {
            Some(t) => Some(seq![key + " = "@ + t]),
            None => None,
        }
    }
}

/// Both parts present, concatenated.
pub open spec fn both(a: Option<Seq<Seq<char>>>, b: Option<Seq<Seq<char>>>) -> Option<Seq<Seq<char>>> {
    match (a, b) {
        (Some(x), Some(y)) => Some(x + y),
        _ => None,
    }
}

/// Adds `key = value` to `lines` when the value is not blank.
pub fn push_scalar(lines: &mut Vec<String>, key: &str, value: &str)
    ensures
        views(final(lines)@) == views(old(lines)@) + scalar_line(key@, value@),
{
    let trimmed = trim(value);
    let ghost before = views(lines@);
    if !trimmed.as_str().is_empty() {
        let mut line = key.to_owned();
        line.push_str(" = ");
        line.push_str(trimmed.as_str());
        lines.push(line);
        assert(views(lines@) =~= before + scalar_line(key@, value@));
    } else {
        assert(trimmed@.len() == 0);
        assert(views(lines@) =~= before + scalar_line(key@, value@));
    }
}

/// The words of one text.
pub fn split_words(s: &str) -> (r: Vec<String>)
    ensures
        views(r@) == words_from(s@, 0, Seq::empty()),
{
    let v = chars_of(s);
    let mut r: Vec<String> = Vec::new();
    let mut cur: Vec<char> = Vec::new();
    let mut i: usize = 0;
    while i < v.len()
        invariant
            v@ == s@,
            i <= v@.len(),
            views(r@) + words_from(v@, i as int, cur@) == words_from(v@, 0, Seq::empty()),
        decreases v@.len() - i,
    {
        let ghost before = views(r@);
        let ghost c0 = cur@;
        if is_whitespace(v[i]) {
            if cur.len() > 0 {
                r.push(string_of(&cur));
            }
            cur = Vec::new();
            proof {
                if c0.len() > 0 {
                    assert(views(r@) =~= before + seq![c0]);
                } else {
                    assert(views(r@) =~= before);
                }
                assert(views(r@) + words_from(v@, i + 1, Seq::empty()) =~= before + ((if c0.len()
                    > 0 {
                    seq![c0]
                } else {
                    Seq::empty()
                }) + words_from(v@, i + 1, Seq::empty())));
                assert(cur@ =~= Seq::<char>::empty());
            }
        } else {
            cur.push(v[i]);
        }
        i = i + 1;
    }
    let ghost before = views(r@);
    if cur.len() > 0 {
        r.push(string_of(&cur));
        assert(views(r@) =~= before + seq![cur@]);
    } else {
        assert(views(r@) =~= before + Seq::<Seq<char>>::empty());
    }
    r
}

/// The words of every value, in order.
pub fn normalise_words(values: &Vec<String>) -> (r: Vec<String>)
    ensures
        views(r@) == normalise_words_spec(views(values@)),
{
    let ghost all = views(values@);
    let mut r: Vec<String> = Vec::new();
    let mut i: usize = 0;
    while i < values.len()
        invariant
            i <= values@.len(),
            all == views(values@),
            views(r@) == normalise_words_spec(all.take(i as int)),
        decreases values@.len() - i,
    {
        let words = split_words(values[i].as_str());
        let ghost before = views(r@);
        let mut j: usize = 0;
        while j < words.len()
            invariant
                j <= words@.len(),
                views(r@) == before + views(words@).take(j as int),
            decreases words@.len() - j,
        {
            let w = words[j].as_str().to_owned();
            assert(w@ == views(words@)[j as int]);
            let ghost prev = r@;
            r.push(w);
            assert(r@ == prev.push(w));
            assert(views(r@) =~= views(prev).push(w@));
            assert(views(words@).take(j + 1) =~= views(words@).take(j as int).push(w@));
            j = j + 1;
            assert(views(r@) =~= before + views(words@).take(j as int));
        }
        proof {
            assert(views(words@).take(words@.len() as int) =~= views(words@));
            assert(all.take(i + 1).drop_last() =~= all.take(i as int));
            assert(all.take(i + 1).last() == values@[i as int]@);
        }
        i = i + 1;
    }
    assert(all.take(all.len() as int) =~= all);
    r
}

/// Short lists stay on one line; long ones get a word per line.
pub fn render_words(words: &Vec<String>) -> (r: String)
    ensures
        r@ == render_words_spec(views(words@)),
{
    let joined = join_strings(words, " ");
    if joined.as_str().as_bytes().len() <= 60 {
        joined
    } else {
        join_strings(words, "\n")
    }
}

/// A block with its braces on lines of their own however short the body,
/// which is how every character, role and portrait block in the game's own
/// files is laid out. `format_block` would fold a one-field role onto one
/// line.
pub fn format_lines(content: &str, indent: &str, newline: &str) -> (r: Option<String>)
    ensures
        r is Some <==> layout_fits(content@),
        r matches Some(t) ==> t@ == format_lines_spec(content@, indent@, newline@),
{
    let trimmed = trim(content);
    let text = trimmed.as_str();
    proof {
        crate::text::lemma_str_valid(text);
    }
    let lines = match try_dedent(text) {
        Some(lines) => lines,
        None => {
            return None;
        },
    };
    let ghost ls = dedent_spec(encode_utf8(trimmed@));
    let mut inner = indent.to_owned();
    inner.push('\t');
    assert(inner@ =~= indent@ + seq!['\t']);
    let mut body: Vec<String> = Vec::new();
    let mut i: usize = 0;
    while i < lines.len()
        invariant
            i <= lines@.len(),
            lines@.len() == ls.len(),
            forall|k: int| 0 <= k < lines@.len() ==> #[trigger] lines@[k]@ == ls[k],
            body@.len() == i,
            forall|k: int| 0 <= k < i ==> #[trigger] body@[k]@ == indent_lines(ls, inner@)[k],
        decreases lines@.len() - i,
    {
        if lines[i].as_str().is_empty() {
            body.push(String::new());
        } else {
            let mut l = inner.clone();
            l.push_str(lines[i].as_str());
            body.push(l);
        }
        i = i + 1;
    }
    assert(views(body@) =~= indent_lines(ls, inner@));
    let joined = join_strings(&body, newline);
    let mut out = String::new();
    out.push('{');
    out.push_str(newline);
    out.push_str(joined.as_str());
    out.push_str(newline);
    out.push_str(indent);
    out.push('}');
    assert(out@ =~= format_lines_spec(content@, indent@, newline@));
    Some(out)
}

/// `key = { words }` for a word list, nothing when it holds no words.
pub fn push_words(lines: &mut Vec<String>, key: &str, values: &Vec<String>) -> (ok: bool)
    ensures
        ok <==> words_lines(key@, views(values@)) is Some,
        ok ==> views(final(lines)@) == views(old(lines)@) + words_lines(key@, views(values@))->0,
{
    let words = normalise_words(values);
    let ghost before = views(lines@);
    if words.len() == 0 {
        assert(views(lines@) =~= before + Seq::<Seq<char>>::empty());
        return true;
    }
    let rendered = render_words(&words);
    match try_format_block(rendered.as_str(), "", "\n") {
        Some(block) => {
            let mut line = key.to_owned();
            line.push_str(" = ");
            line.push_str(block.as_str());
            lines.push(line);
            proof {
                reveal_strlit("");
                assert(""@ =~= Seq::<char>::empty());
            }
            assert(views(lines@) =~= before + seq![line@]);
            true
        },
        None => {
            proof {
                reveal_strlit("");
            }
            false
        },
    }
}

/// `key = { body }` for a non-blank body.
pub fn push_block(lines: &mut Vec<String>, key: &str, value: &str) -> (ok: bool)
    ensures
        ok <==> block_lines(key@, value@) is Some,
        ok ==> views(final(lines)@) == views(old(lines)@) + block_lines(key@, value@)->0,
{
    let ghost before = views(lines@);
    let trimmed = trim(value);
    if trimmed.as_str().is_empty() {
        assert(trimmed@.len() == 0);
        assert(views(lines@) =~= before + Seq::<Seq<char>>::empty());
        return true;
    }
    match try_format_block(value, "", "\n") {
        Some(block) => {
            let mut line = key.to_owned();
            line.push_str(" = ");
            line.push_str(block.as_str());
            lines.push(line);
            proof {
                reveal_strlit("");
                assert(""@ =~= Seq::<char>::empty());
            }
            assert(views(lines@) =~= before + seq![line@]);
            true
        },
        None => {
            proof {
                reveal_strlit("");
            }
            false
        },
    }
}

// ---------------------------------------------------------------------------
// Editing values in place
// ---------------------------------------------------------------------------

/// The editor still edits the same block of the same source, and every edit
/// it holds still fits.
pub open spec fn kept_target(before: BlockEditor, after: BlockEditor) -> bool {
    &&& after.wf()
    &&& after.source_bytes() == before.source_bytes()
    &&& after.edited_block() == before.edited_block()
}

/// The edits and the queued lines an editor holds.
pub open spec fn lists_of(e: BlockEditor) -> (Seq<(Span, Seq<char>)>, Seq<Seq<char>>) {
    (e.edit_list(), e.addition_list())
}

/// The lists after recording each change in turn.
pub open spec fn record_all(
    lists: (Seq<(Span, Seq<char>)>, Seq<Seq<char>>),
    changes: Seq<ChangeView>,
) -> (Seq<(Span, Seq<char>)>, Seq<Seq<char>>)
    decreases changes.len(),
{
    if changes.len() == 0 {
        lists
    } else {
        let before = record_all(lists, changes.drop_last());
        record(before.0, before.1, changes.last())
    }
}

/// `after` is `before` with `changes` recorded, in order.
pub open spec fn made(before: BlockEditor, after: BlockEditor, changes: Seq<ChangeView>) -> bool {
    &&& kept_target(before, after)
    &&& lists_of(after) == record_all(lists_of(before), changes)
}

/// Recording one change more.
pub proof fn lemma_record_push(
    lists: (Seq<(Span, Seq<char>)>, Seq<Seq<char>>),
    changes: Seq<ChangeView>,
    c: ChangeView,
)
    ensures
        record_all(lists, changes.push(c)) == ({
            let before = record_all(lists, changes);
            record(before.0, before.1, c)
        }),
{
    assert(changes.push(c).drop_last() =~= changes);
}

/// Recording two runs of changes one after the other.
pub proof fn lemma_record_concat(
    lists: (Seq<(Span, Seq<char>)>, Seq<Seq<char>>),
    first: Seq<ChangeView>,
    second: Seq<ChangeView>,
)
    ensures
        record_all(lists, first + second) == record_all(record_all(lists, first), second),
    decreases second.len(),
{
    if second.len() == 0 {
        assert(first + second =~= first);
    } else {
        lemma_record_concat(lists, first, second.drop_last());
        assert((first + second).drop_last() =~= first + second.drop_last());
    }
}

/// An editor changed by one recorded change.
pub proof fn lemma_made_one(before: BlockEditor, after: BlockEditor, c: ChangeView)
    requires
        kept_target(before, after),
        lists_of(after) == record(lists_of(before).0, lists_of(before).1, c),
    ensures
        made(before, after, seq![c]),
{
    reveal_with_fuel(record_all, 2);
    assert(seq![c].drop_last() =~= Seq::<ChangeView>::empty());
}

/// Changes made one after the other.
pub proof fn lemma_made_then(
    e0: BlockEditor,
    e1: BlockEditor,
    e2: BlockEditor,
    first: Seq<ChangeView>,
    second: Seq<ChangeView>,
)
    requires
        made(e0, e1, first),
        made(e1, e2, second),
    ensures
        made(e0, e2, first + second),
{
    lemma_record_concat(lists_of(e0), first, second);
}

/// One change more.
pub proof fn lemma_made_push(
    e0: BlockEditor,
    e1: BlockEditor,
    e2: BlockEditor,
    done: Seq<ChangeView>,
    c: ChangeView,
)
    requires
        made(e0, e1, done),
        kept_target(e1, e2),
        lists_of(e2) == record(lists_of(e1).0, lists_of(e1).1, c),
    ensures
        made(e0, e2, done.push(c)),
{
    lemma_made_one(e1, e2, c);
    lemma_made_then(e0, e1, e2, done, seq![c]);
    assert(done + seq![c] =~= done.push(c));
}

/// No change at all.
pub proof fn lemma_made_none(e: BlockEditor)
    requires
        e.wf(),
    ensures
        made(e, e, Seq::empty()),
{
}

/// Each edit as the change that rewrites its span.
pub open spec fn replacements(edits: Seq<TextEdit>) -> Seq<ChangeView>
    decreases edits.len(),
{
    if edits.len() == 0 {
        Seq::empty()
    } else {
        replacements(edits.drop_last()).push(
            ChangeView::Replace(edits.last().span, edits.last().replacement@),
        )
    }
}

/// Hands edits made inside a nested block to the editor of the enclosing
/// one; `false`, with the rest left out, at an edit that does not fit.
pub fn merge_edits(editor: &mut BlockEditor, edits: Vec<TextEdit>) -> (ok: bool)
    requires
        old(editor).wf(),
    ensures
        kept_target(*old(editor), *final(editor)),
        ok == edits_fit(old(editor).source_bytes(), edits@),
        ok ==> made(*old(editor), *final(editor), replacements(edits@)),
{
    let ghost b = editor.source_bytes();
    let ghost start = lists_of(*editor);
    let mut k: usize = 0;
    while k < edits.len()
        invariant
            kept_target(*old(editor), *editor),
            b == old(editor).source_bytes(),
            start == lists_of(*old(editor)),
            k <= edits.len(),
            edits_fit(b, edits@.take(k as int)),
            lists_of(*editor) == record_all(start, replacements(edits@.take(k as int))),
        decreases edits@.len() - k,
    {
        let source = editor.source();
        if !edit_fits(source, &edits[k]) {
            proof {
                assert(seq![edits@[k as int]][0] == edits@[k as int]);
            }
            return false;
        }
        let edit = TextEdit::new(edits[k].span, edits[k].replacement.clone());
        proof {
            assert(seq![edits@[k as int]][0] == edits@[k as int]);
        }
        if !edit_fits(source, &edit) {
            return false;
        }
        let ghost before = lists_of(*editor);
        editor.edit(edit);
        proof {
            let t = edits@.take(k as int + 1);
            assert(t.drop_last() =~= edits@.take(k as int));
            assert(t.last() == edits@[k as int]);
            assert(edit.replacement@ == edits@[k as int].replacement@);
            assert(record_all(start, replacements(t)) == record(
                record_all(start, replacements(edits@.take(k as int))).0,
                record_all(start, replacements(edits@.take(k as int))).1,
                ChangeView::Replace(edit.span, edit.replacement@),
            )) by {
                lemma_record_push(start, replacements(edits@.take(k as int)), ChangeView::Replace(edit.span, edit.replacement@));
            }
            assert forall|j: int| 0 <= j < t.len() implies #[trigger] t[j].span.start <= t[j].span.end
                <= b.len() && boundary(b, t[j].span.start as int) && boundary(b, t[j].span.end as int) by {
                if j < k {
                    assert(t[j] == edits@.take(k as int)[j]);
                } else {
                    assert(seq![edit][0] == edit);
                }
            }
        }
        k = k + 1;
    }
    proof {
        assert(edits@.take(k as int) =~= edits@);
    }
    true
}

/// The queued lines as the text inserted before the closing brace.
pub open spec fn queued_text(lines: Seq<Seq<char>>, newline: Seq<char>, indent: Seq<char>) -> Seq<char>
    decreases lines.len(),
{
    if lines.len() == 0 {
        Seq::empty()
    } else {
        queued_text(lines.drop_last(), newline, indent) + newline + indent + lines.last()
    }
}

proof fn lemma_queued_text(lines: Seq<String>, newline: Seq<char>, indent: Seq<char>)
    ensures
        crate::paradox::edit::lines_body(lines, newline, indent) == queued_text(views(lines), newline, indent),
    decreases lines.len(),
{
    if lines.len() > 0 {
        lemma_queued_text(lines.drop_last(), newline, indent);
        assert(views(lines.drop_last()) =~= views(lines).drop_last());
    }
}

/// The edits an editor of `block` hands on when it finishes, given the
/// edits and queued lines it holds: the edits, then the queued lines
/// inserted as one edit before the closing brace (a removal that reaches
/// into the text that insertion replaces folded into it).
pub open spec fn finished(
    b: Seq<u8>,
    block: Block,
    lists: (Seq<(Span, Seq<char>)>, Seq<Seq<char>>),
) -> Seq<(Span, Seq<char>)> {
    if lists.1.len() > 0 {
        let settled = crate::paradox::edit::settle(b, block, lists.0, insertion_start(b, block));
        settled.0.push(
            (
                Span { start: settled.1 as usize, end: block.inner.end },
                queued_text(lists.1, newline_spec(b), child_indent_spec(b, block)) + newline_spec(b)
                    + indent_spec(b, block.span.start as int),
            ),
        )
    } else {
        lists.0
    }
}

/// Every span lies in `b` on character boundaries.
pub open spec fn views_fit(b: Seq<u8>, vs: Seq<(Span, Seq<char>)>) -> bool {
    forall|k: int|
        0 <= k < vs.len() ==> #[trigger] vs[k].0.start <= vs[k].0.end <= b.len() && boundary(
            b,
            vs[k].0.start as int,
        ) && boundary(b, vs[k].0.end as int)
}

/// Each edit handed on, as the change that rewrites its span.
pub open spec fn handed_on(vs: Seq<(Span, Seq<char>)>) -> Seq<ChangeView>
    decreases vs.len(),
{
    if vs.len() == 0 {
        Seq::empty()
    } else {
        handed_on(vs.drop_last()).push(ChangeView::Replace(vs.last().0, vs.last().1))
    }
}

proof fn lemma_handed_on(edits: Seq<TextEdit>)
    ensures
        replacements(edits) == handed_on(crate::paradox::edit::edit_views(edits)),
    decreases edits.len(),
{
    if edits.len() > 0 {
        lemma_handed_on(edits.drop_last());
        assert(crate::paradox::edit::edit_views(edits.drop_last()) =~= crate::paradox::edit::edit_views(
            edits,
        ).drop_last());
    }
}

/// Finishes `inner`, an editor of a block nested in the one `editor` edits,
/// and hands its edits on to `editor`; `false` at an edit that does not fit.
pub fn hand_on(editor: &mut BlockEditor, inner: BlockEditor) -> (ok: bool)
    requires
        old(editor).wf(),
        inner.wf(),
        inner.source_bytes() == old(editor).source_bytes(),
    ensures
        kept_target(*old(editor), *final(editor)),
        ok == views_fit(
            old(editor).source_bytes(),
            finished(inner.source_bytes(), inner.edited_block(), lists_of(inner)),
        ),
        ok ==> made(
            *old(editor),
            *final(editor),
            handed_on(finished(inner.source_bytes(), inner.edited_block(), lists_of(inner))),
        ),
{
    proof {
        lemma_queued_text(inner.queued_lines(), newline_spec(inner.source_bytes()), child_indent_spec(inner.source_bytes(), inner.edited_block()));
        inner.lemma_queued();
    }
    let edits = inner.finish();
    proof {
        lemma_handed_on(edits@);
        let vs = crate::paradox::edit::edit_views(edits@);
        assert(edits_fit(editor.source_bytes(), edits@) == views_fit(editor.source_bytes(), vs)) by {
            if edits_fit(editor.source_bytes(), edits@) {
                assert forall|k: int| 0 <= k < vs.len() implies #[trigger] vs[k].0.start <= vs[k].0.end
                    <= editor.source_bytes().len() && boundary(editor.source_bytes(), vs[k].0.start as int)
                    && boundary(editor.source_bytes(), vs[k].0.end as int) by {
                    assert(vs[k].0 == edits@[k].span);
                }
            }
            if views_fit(editor.source_bytes(), vs) {
                assert forall|k: int| 0 <= k < edits@.len() implies #[trigger] edits@[k].span.start
                    <= edits@[k].span.end <= editor.source_bytes().len() && boundary(
                    editor.source_bytes(),
                    edits@[k].span.start as int,
                ) && boundary(editor.source_bytes(), edits@[k].span.end as int) by {
                    assert(vs[k].0 == edits@[k].span);
                }
            }
        }
    }
    merge_edits(editor, edits)
}

/// Each value trimmed, the blank ones dropped.
pub open spec fn kept_values(values: Seq<Seq<char>>) -> Seq<Seq<char>>
    decreases values.len(),
{
    if values.len() == 0 {
        Seq::empty()
    } else {
        let t = trim_spec(values.last());
        kept_values(values.drop_last()) + if t.len() == 0 {
            Seq::empty()
        } else {
            seq![t]
        }
    }
}

pub proof fn lemma_trimmed_kept(values: Seq<String>, v: int, t: Seq<char>)
    requires
        0 <= v < values.len(),
        t == trim_spec(values[v]@),
    ensures
        kept_values(views(values).take(v + 1)) == kept_values(views(values).take(v)) + if t.len() == 0 {
            Seq::<Seq<char>>::empty()
        } else {
            seq![t]
        },
{
    assert(views(values).take(v + 1).drop_last() =~= views(values).take(v));
}

/// The smaller of two lengths.
pub open spec fn shorter(a: nat, b: nat) -> nat {
    if a < b {
        a
    } else {
        b
    }
}

/// How far `n` falls short of `len`.
pub open spec fn beyond(len: nat, n: nat) -> nat {
    if n < len {
        (len - n) as nat
    } else {
        0
    }
}

/// The entries past the first `n`, removed.
pub open spec fn extra_removals(b: Seq<u8>, pairs: Seq<Pair>, n: nat) -> Seq<ChangeView> {
    Seq::new(beyond(pairs.len(), n), |k: int| ChangeView::Remove(removal_span(b, pairs[n + k])))
}


/// The changes, when every one of them can be made.
pub open spec fn all_some(cs: Seq<Option<ChangeView>>) -> Option<Seq<ChangeView>>
    decreases cs.len(),
{
    if cs.len() == 0 {
        Some(Seq::empty())
    } else {
        match (all_some(cs.drop_last()), cs.last()) {
            (Some(done), Some(c)) => Some(done.push(c)),
            _ => None,
        }
    }
}

/// One attempt more.
pub proof fn lemma_all_some_push(cs: Seq<Option<ChangeView>>, c: Option<ChangeView>)
    ensures
        all_some(cs.push(c)) == (match (all_some(cs), c) {
            (Some(done), Some(c)) => Some(done.push(c)),
            _ => None,
        }),
{
    assert(cs.push(c).drop_last() =~= cs);
}

/// A run of attempts that all succeed starts with one that does.
pub proof fn lemma_all_some_prefix(a: Seq<Option<ChangeView>>, b: Seq<Option<ChangeView>>)
    requires
        all_some(a + b) is Some,
    ensures
        all_some(a) is Some,
    decreases b.len(),
{
    if b.len() > 0 {
        assert((a + b).drop_last() =~= a + b.drop_last());
        lemma_all_some_prefix(a, b.drop_last());
    } else {
        assert(a + b =~= a);
    }
}

/// A failed attempt fails the run it stands in.
pub proof fn lemma_all_some_fails(pre: Seq<Option<ChangeView>>, rest: Seq<Option<ChangeView>>)
    ensures
        all_some(pre.push(None) + rest) is None,
{
    if all_some(pre.push(None) + rest) is Some {
        lemma_all_some_prefix(pre.push(None), rest);
        assert(pre.push(None).drop_last() =~= pre);
    }
}

/// Changes that cannot fail, as attempts.
pub open spec fn sure(cs: Seq<ChangeView>) -> Seq<Option<ChangeView>> {
    Seq::new(cs.len(), |k: int| Some(cs[k]))
}

/// The runs of changes one after the other, when every one of them can be
/// made.
pub open spec fn all_runs(rs: Seq<Option<Seq<ChangeView>>>) -> Option<Seq<ChangeView>>
    decreases rs.len(),
{
    if rs.len() == 0 {
        Some(Seq::empty())
    } else {
        match (all_runs(rs.drop_last()), rs.last()) {
            (Some(done), Some(r)) => Some(done + r),
            _ => None,
        }
    }
}

/// One run more.
pub proof fn lemma_all_runs_push(rs: Seq<Option<Seq<ChangeView>>>, r: Option<Seq<ChangeView>>)
    ensures
        all_runs(rs.push(r)) == (match (all_runs(rs), r) {
            (Some(done), Some(r)) => Some(done + r),
            _ => None,
        }),
{
    assert(rs.push(r).drop_last() =~= rs);
}

/// Runs that can all be made start with runs that can.
pub proof fn lemma_all_runs_prefix(a: Seq<Option<Seq<ChangeView>>>, b: Seq<Option<Seq<ChangeView>>>)
    requires
        all_runs(a + b) is Some,
    ensures
        all_runs(a) is Some,
    decreases b.len(),
{
    if b.len() > 0 {
        assert((a + b).drop_last() =~= a + b.drop_last());
        lemma_all_runs_prefix(a, b.drop_last());
    } else {
        assert(a + b =~= a);
    }
}

/// A run that cannot be made fails all of them.
pub proof fn lemma_all_runs_fails(pre: Seq<Option<Seq<ChangeView>>>, rest: Seq<Option<Seq<ChangeView>>>)
    ensures
        all_runs(pre.push(None) + rest) is None,
{
    if all_runs(pre.push(None) + rest) is Some {
        lemma_all_runs_prefix(pre.push(None), rest);
        assert(pre.push(None).drop_last() =~= pre);
    }
}

/// What `set_words` does to a block: the list of `key` set to the words of
/// `values`, trimmed and without the blank ones. `None` when the list cannot
/// be laid out.
pub open spec fn words_change(b: Seq<u8>, block: Block, key: Seq<char>, values: Seq<Seq<char>>) -> Option<
    ChangeView,
> {
    let wanted = normalise_words_spec(values);
    let rendered = render_words_spec(wanted);
    let newline = newline_spec(b);
    match find_spec(block.items@, key) {
        None => if wanted.len() == 0 {
            Some(ChangeView::Nothing)
        } else if layout_fits(rendered) {
            Some(
                ChangeView::Add(
                    key + " = "@ + format_block_spec(rendered, child_indent_spec(b, block), newline),
                ),
            )
        } else {
            None
        },
        Some(pair) => if (pair.value matches Value::Block(current) && bare_scalars(current.items@)
            == wanted) {
            Some(ChangeView::Nothing)
        } else if layout_fits(rendered) {
            Some(
                ChangeView::Replace(
                    value_span(pair.value),
                    format_block_spec(rendered, indent_spec(b, pair.span.start as int), newline),
                ),
            )
        } else {
            None
        },
    }
}

/// Sets a bare word list such as `traits = { a b }`. A list already
/// holding exactly these words is left alone, whatever its layout; a
/// cleared list stays as `{ }` rather than vanishing. `false` where the
/// list cannot be laid out.
pub fn set_words(editor: &mut BlockEditor, key: &str, values: &Vec<String>) -> (ok: bool)
    requires
        old(editor).wf(),
    ensures
        kept_target(*old(editor), *final(editor)),
        ok == words_change(old(editor).source_bytes(), old(editor).edited_block(), key@, views(values@)) is Some,
        ok ==> made(
            *old(editor),
            *final(editor),
            seq![words_change(old(editor).source_bytes(), old(editor).edited_block(), key@, views(values@))->0],
        ),
{
    let ghost start = lists_of(*editor);
    let wanted = normalise_words(values);
    let source = editor.source();
    let newline = detect_newline(source);
    let block = editor.block();
    proof {
        editor.lemma_block_fits();
        lemma_items_fit(bytes_of(source), block.items@, key@);
        reveal_with_fuel(record_all, 2);
        assert(seq![ChangeView::Nothing].drop_last() =~= Seq::<ChangeView>::empty());
        assert(newline@ == newline_spec(bytes_of(source)));
    }
    match block.find(key) {
        None => {
            if wanted.len() > 0 {
                let indent = child_indent(source, block);
                let rendered = render_words(&wanted);
                match try_format_block(rendered.as_str(), indent.as_str(), newline) {
                    Some(list) => {
                        let mut line = key.to_owned();
                        line.push_str(" = ");
                        line.push_str(list.as_str());
                        editor.add_line(line);
                        proof {
                            let c = words_change(bytes_of(source), *block, key@, views(values@))->0;
                            assert(c == ChangeView::Add(line@));
                            assert(seq![c].drop_last() =~= Seq::<ChangeView>::empty());
                        }
                    },
                    None => {
                        return false;
                    },
                }
            }
            true
        },
        Some(pair) => {
            if let Value::Block(current) = &pair.value {
                let have = words_of(current);
                if same_texts(&have, &wanted) {
                    return true;
                }
            }
            let indent = indent_at(source, pair.span.start);
            let rendered = render_words(&wanted);
            match try_format_block(rendered.as_str(), indent.as_str(), newline) {
                Some(list) => {
                    let edit = TextEdit::new(pair.value.span(), list);
                    if !edit_fits(source, &edit) {
                        return false;
                    }
                    editor.edit(edit);
                    proof {
                        let c = words_change(bytes_of(source), *block, key@, views(values@))->0;
                        assert(c == ChangeView::Replace(edit.span, edit.replacement@));
                        assert(seq![c].drop_last() =~= Seq::<ChangeView>::empty());
                    }
                    true
                },
                None => false,
            }
        },
    }
}

/// Whether two lists hold the same texts.
pub fn same_texts(a: &Vec<String>, b: &Vec<String>) -> (r: bool)
    ensures
        r == (views(a@) == views(b@)),
{
    if a.len() != b.len() {
        proof {
            assert(views(a@).len() != views(b@).len());
        }
        return false;
    }
    let mut k: usize = 0;
    while k < a.len()
        invariant
            a@.len() == b@.len(),
            k <= a@.len(),
            forall|j: int| 0 <= j < k ==> a@[j]@ == #[trigger] b@[j]@,
        decreases a@.len() - k,
    {
        if !crate::text::str_eq(a[k].as_str(), b[k].as_str()) {
            proof {
                assert(views(a@)[k as int] != views(b@)[k as int]);
            }
            return false;
        }
        k = k + 1;
    }
    assert(views(a@) =~= views(b@));
    true
}

/// What `set_quoted` does to a block: `key` removed when the value is
/// blank, rewritten quoted when it reads otherwise, added quoted when
/// missing.
pub open spec fn quoted_change(b: Seq<u8>, block: Block, key: Seq<char>, value: Seq<char>) -> ChangeView {
    let t = trim_spec(value);
    match find_spec(block.items@, key) {
        Some(pair) => if t.len() == 0 {
            ChangeView::Remove(removal_span(b, pair))
        } else if holds_scalar(pair.value, t) {
            ChangeView::Nothing
        } else {
            ChangeView::Replace(value_span(pair.value), quote_spec(t))
        },
        None => if t.len() == 0 {
            ChangeView::Nothing
        } else {
            ChangeView::Add(key + " = "@ + quote_spec(t))
        },
    }
}

/// Sets a value the game's own files always quote, such as an `expire`
/// date: removed when blank, rewritten only when it changed, added when
/// missing.
pub fn set_quoted(editor: &mut BlockEditor, key: &str, value: &str)
    requires
        old(editor).wf(),
    ensures
        made(
            *old(editor),
            *final(editor),
            seq![quoted_change(old(editor).source_bytes(), old(editor).edited_block(), key@, value@)],
        ),
{
    let trimmed = trim(value);
    let source = editor.source();
    let block = editor.block();
    proof {
        editor.lemma_block_fits();
        lemma_items_fit(bytes_of(source), block.items@, key@);
        reveal_with_fuel(record_all, 2);
        let c = quoted_change(bytes_of(source), *block, key@, value@);
        assert(seq![c].drop_last() =~= Seq::<ChangeView>::empty());
    }
    match block.find(key) {
        Some(pair) => {
            if trimmed.as_str().is_empty() {
                editor.remove(pair);
            } else {
                let same = match &pair.value {
                    Value::Scalar(scalar) => crate::text::str_eq(scalar.value().as_str(), trimmed.as_str()),
                    Value::Block(_) => false,
                };
                if !same {
                    let edit = TextEdit::new(pair.value.span(), quote(trimmed.as_str()));
                    proof {
                        assert(item_fits(bytes_of(source), Item::Pair(*pair)));
                        assert(seq![edit][0] == edit);
                    }
                    if edit_fits(source, &edit) {
                        editor.edit(edit);
                    }
                }
            }
        },
        None => {
            if !trimmed.as_str().is_empty() {
                let mut line = key.to_owned();
                line.push_str(" = ");
                line.push_str(quote(trimmed.as_str()).as_str());
                editor.add_line(line);
            }
        },
    }
}

/// `set_block`, or `false` where the body cannot be laid out.
pub fn set_block_checked(editor: &mut BlockEditor, key: &str, content: &str) -> (ok: bool)
    requires
        old(editor).wf(),
    ensures
        kept_target(*old(editor), *final(editor)),
        ok == layout_fits(content@),
        ok ==> made(
            *old(editor),
            *final(editor),
            seq![block_change_spec(old(editor).source_bytes(), old(editor).edited_block(), key@, content@)],
        ),
        !ok ==> *final(editor) == *old(editor),
{
    if !fits_layout(content) {
        return false;
    }
    proof {
        reveal_with_fuel(record_all, 2);
        let c = block_change_spec(editor.source_bytes(), editor.edited_block(), key@, content@);
        assert(seq![c].drop_last() =~= Seq::<ChangeView>::empty());
    }
    editor.set_block(key, content);
    true
}

/// What `set_block_if_absent` does: nothing where `key` already holds a
/// block or the body is blank, otherwise what `set_block_checked` does.
pub open spec fn absent_block(b: Seq<u8>, block: Block, key: Seq<char>, body: Seq<char>) -> Option<Seq<ChangeView>> {
    if block_spec(block.items@, key) is None && body.len() != 0 {
        checked_block(b, block, key, body)
    } else {
        Some(Seq::empty())
    }
}

/// Writes `key = { body }` where the block has no such block yet and the
/// body is not blank; `false` where the body cannot be laid out.
pub fn set_block_if_absent(editor: &mut BlockEditor, key: &str, body: &str) -> (ok: bool)
    requires
        old(editor).wf(),
    ensures
        kept_target(*old(editor), *final(editor)),
        ok == absent_block(old(editor).source_bytes(), old(editor).edited_block(), key@, body@) is Some,
        ok ==> made(
            *old(editor),
            *final(editor),
            absent_block(old(editor).source_bytes(), old(editor).edited_block(), key@, body@)->0,
        ),
{
    let block = editor.block();
    proof {
        lemma_made_none(*editor);
    }
    if block.block(key).is_none() && !body.is_empty() {
        set_block_checked(editor, key, body)
    } else {
        true
    }
}

// ---------------------------------------------------------------------------
// The entries of a file
// ---------------------------------------------------------------------------

/// Every block-valued pair inside the blocks that `pairs` assign, in order:
/// the entries of a file such as `characters = { id = { } id = { } }`.
pub open spec fn entries_in(pairs: Seq<Pair>) -> Seq<Pair>
    decreases pairs.len(),
{
    if pairs.len() == 0 {
        Seq::empty()
    } else {
        let rest = entries_in(pairs.drop_last());
        match pairs.last().value {
            Value::Block(b) => rest + block_pairs(pairs_of(b.items@)),
            _ => rest,
        }
    }
}

/// Every `id = { }` pair inside the file's `key` blocks, in file order.
pub open spec fn entries_spec(items: Seq<Item>, key: Seq<char>) -> Seq<Pair> {
    entries_in(pairs_with(items, key))
}

/// The fits of every entry follow from the document's.
pub proof fn lemma_entries_fit(b: Seq<u8>, pairs: Seq<Pair>)
    requires
        pairs_fit(b, pairs),
    ensures
        pairs_fit(b, entries_in(pairs)),
    decreases pairs.len(),
{
    if pairs.len() > 0 {
        let d = pairs.drop_last();
        assert forall|k: int| 0 <= k < d.len() implies item_fits(b, Item::Pair(#[trigger] d[k])) by {
            assert(d[k] == pairs[k]);
        }
        lemma_entries_fit(b, d);
        let last = pairs.last();
        assert(item_fits(b, Item::Pair(last)));
        match last.value {
            Value::Block(bl) => {
                lemma_items_fit(b, bl.items@, Seq::empty());
                lemma_block_values_fit(b, pairs_of(bl.items@));
                let rest = entries_in(d);
                let extra = block_pairs(pairs_of(bl.items@));
                assert forall|k: int| 0 <= k < rest.len() + extra.len() implies item_fits(
                    b,
                    Item::Pair(#[trigger] (rest + extra)[k]),
                ) by {
                    if k < rest.len() {
                        assert((rest + extra)[k] == rest[k]);
                    } else {
                        assert((rest + extra)[k] == extra[k - rest.len()]);
                    }
                }
            },
            _ => {},
        }
    }
}

/// Every pair of `block_pairs` assigns a block.
pub proof fn lemma_block_pairs_are_blocks(pairs: Seq<Pair>)
    ensures
        forall|k: int| 0 <= k < block_pairs(pairs).len() ==> (#[trigger] block_pairs(pairs)[k]).value is Block,
    decreases pairs.len(),
{
    if pairs.len() > 0 {
        lemma_block_pairs_are_blocks(pairs.drop_last());
    }
}

pub proof fn lemma_entries_are_blocks(pairs: Seq<Pair>)
    ensures
        forall|k: int| 0 <= k < entries_in(pairs).len() ==> (#[trigger] entries_in(pairs)[k]).value is Block,
    decreases pairs.len(),
{
    if pairs.len() > 0 {
        let d = pairs.drop_last();
        lemma_entries_are_blocks(d);
        match pairs.last().value {
            Value::Block(bl) => {
                lemma_block_pairs_are_blocks(pairs_of(bl.items@));
                let rest = entries_in(d);
                let extra = block_pairs(pairs_of(bl.items@));
                assert forall|k: int| 0 <= k < rest.len() + extra.len() implies (#[trigger] (rest
                    + extra)[k]).value is Block by {
                    if k < rest.len() {
                        assert((rest + extra)[k] == rest[k]);
                    } else {
                        assert((rest + extra)[k] == extra[k - rest.len()]);
                    }
                }
            },
            _ => {},
        }
    }
}

/// Every `id = { }` pair inside the file's `key` blocks, in file order.
pub fn entries<'a>(document: &'a Document, key: &str) -> (r: Vec<&'a Pair>)
    ensures
        derefs(r@) == entries_spec(document.items@, key@),
{
    let outer = document.find_all(key);
    proof {
        lemma_find_all_derefs(outer@, document.items@, key@);
    }
    let ghost all = derefs(outer@);
    let mut r: Vec<&Pair> = Vec::new();
    let mut i: usize = 0;
    while i < outer.len()
        invariant
            i <= outer@.len(),
            all == derefs(outer@),
            derefs(r@) == entries_in(all.take(i as int)),
        decreases outer@.len() - i,
    {
        proof {
            assert(all.take(i + 1).drop_last() =~= all.take(i as int));
            assert(all.take(i + 1).last() == *outer@[i as int]);
        }
        match &outer[i].value {
            Value::Block(block) => {
                let inner = block.pairs();
                proof {
                    lemma_pairs_derefs(inner@, block.items@);
                }
                let chosen = pairs_with_blocks(&inner);
                let ghost before = derefs(r@);
                let ghost n = r@.len();
                let mut j: usize = 0;
                while j < chosen.len()
                    invariant
                        j <= chosen@.len(),
                        before.len() == n,
                        r@.len() == n + j,
                        forall|k: int| 0 <= k < n ==> *r@[k] == #[trigger] before[k],
                        forall|k: int| 0 <= k < j ==> *r@[n + k] == *#[trigger] chosen@[k],
                    decreases chosen@.len() - j,
                {
                    r.push(chosen[j]);
                    j = j + 1;
                }
                assert(derefs(r@) =~= before + derefs(chosen@)) by {
                    assert forall|k: int| 0 <= k < r@.len() implies derefs(r@)[k] == (before
                        + derefs(chosen@))[k] by {
                        if k >= n {
                            assert(*r@[n + (k - n)] == *chosen@[k - n]);
                        } else {
                            assert(*r@[k] == before[k]);
                        }
                    }
                }
            },
            _ => {},
        }
        i = i + 1;
    }
    assert(all.take(all.len() as int) =~= all);
    r
}

/// The source parses, to items whose view is `items`'.
pub open spec fn parsed_items(source: &str, items: Seq<Item>) -> bool {
    script_parse_spec(source) matches Parsed::Read(parsed, _, _)
        && crate::paradox::parser::items_view(items) == parsed
        && all_fit(bytes_of(source), items)
}

/// The first of `pairs` from position `i` on keyed exactly `id`.
pub open spec fn first_keyed(pairs: Seq<Pair>, id: Seq<char>, i: int) -> Option<Pair>
    decreases pairs.len() - i,
{
    if i < 0 || i >= pairs.len() {
        None
    } else if pairs[i].key@ == id {
        Some(pairs[i])
    } else {
        first_keyed(pairs, id, i + 1)
    }
}

/// The first entry of the file's `key` blocks keyed exactly `id`.
pub open spec fn find_entry_spec(items: Seq<Item>, key: Seq<char>, id: Seq<char>) -> Option<Pair> {
    first_keyed(entries_spec(items, key), id, 0)
}

pub proof fn lemma_first_keyed_in(pairs: Seq<Pair>, id: Seq<char>, i: int)
    requires
        0 <= i,
    ensures
        first_keyed(pairs, id, i) matches Some(p) ==> exists|k: int| 0 <= k < pairs.len() && p == #[trigger] pairs[k],
    decreases pairs.len() - i,
{
    if i < pairs.len() && pairs[i].key@ != id {
        lemma_first_keyed_in(pairs, id, i + 1);
    }
}

/// The entry of the file's `key` blocks keyed exactly `id`, if any.
pub fn find_entry<'a>(document: &'a Document, key: &str, id: &str) -> (r: Option<&'a Pair>)
    ensures
        match find_entry_spec(document.items@, key@, id@) {
            Some(p) => r matches Some(q) && *q == p,
            None => r is None,
        },
{
    let pairs = entries(document, key);
    let ghost ps = entries_spec(document.items@, key@);
    let mut i: usize = 0;
    while i < pairs.len()
        invariant
            i <= pairs@.len(),
            derefs(pairs@) == ps,
            ps == entries_spec(document.items@, key@),
            first_keyed(ps, id@, 0) == first_keyed(ps, id@, i as int),
        decreases pairs@.len() - i,
    {
        proof {
            assert(derefs(pairs@)[i as int] == *pairs@[i as int]);
        }
        if crate::text::str_eq(pairs[i].key.as_str(), id) {
            assert(ps[i as int].key@ == id@);
            assert(first_keyed(ps, id@, i as int) == Some(ps[i as int]));
            return Some(pairs[i]);
        }
        i = i + 1;
    }
    None
}

/// The entry a search finds lies inside the source.
pub proof fn lemma_found_entry_fits(b: Seq<u8>, items: Seq<Item>, key: Seq<char>, id: Seq<char>)
    requires
        all_fit(b, items),
    ensures
        find_entry_spec(items, key, id) matches Some(p) ==> item_fits(b, Item::Pair(p))
            && p.value is Block,
{
    lemma_items_fit(b, items, key);
    lemma_entries_fit(b, pairs_with(items, key));
    lemma_entries_are_blocks(pairs_with(items, key));
    let ps = entries_spec(items, key);
    lemma_first_keyed_in(ps, id, 0);
    if let Some(p) = find_entry_spec(items, key, id) {
        let k = choose|k: int| 0 <= k < ps.len() && p == #[trigger] ps[k];
        assert(item_fits(b, Item::Pair(ps[k])));
    }
}

/// The pairs among `pairs` that assign a scalar, in order.
pub open spec fn scalar_pairs(pairs: Seq<Pair>) -> Seq<Pair>
    decreases pairs.len(),
{
    if pairs.len() == 0 {
        Seq::empty()
    } else {
        let rest = scalar_pairs(pairs.drop_last());
        match pairs.last().value {
            Value::Scalar(_) => rest.push(pairs.last()),
            _ => rest,
        }
    }
}

/// The pairs among `pairs` that assign a scalar, in order.
pub fn pairs_with_scalars<'a>(pairs: &Vec<&'a Pair>) -> (r: Vec<&'a Pair>)
    ensures
        derefs(r@) == scalar_pairs(derefs(pairs@)),
{
    let ghost all = derefs(pairs@);
    let mut r: Vec<&'a Pair> = Vec::new();
    let mut i: usize = 0;
    while i < pairs.len()
        invariant
            i <= pairs@.len(),
            all == derefs(pairs@),
            derefs(r@) == scalar_pairs(all.take(i as int)),
        decreases pairs@.len() - i,
    {
        let ghost before = derefs(r@);
        proof {
            assert(all.take(i + 1).drop_last() =~= all.take(i as int));
            assert(all.take(i + 1).last() == *pairs@[i as int]);
        }
        match &pairs[i].value {
            Value::Scalar(_) => {
                r.push(pairs[i]);
                assert(derefs(r@) =~= before.push(*pairs@[i as int]));
            },
            _ => {},
        }
        i = i + 1;
    }
    assert(all.take(all.len() as int) =~= all);
    r
}

/// Every pair of `block_pairs` assigns a block, and every one of
/// `scalar_pairs` a scalar.
pub proof fn lemma_pair_kinds(pairs: Seq<Pair>)
    ensures
        forall|k: int| 0 <= k < block_pairs(pairs).len() ==> (#[trigger] block_pairs(pairs)[k]).value is Block,
        forall|k: int| 0 <= k < scalar_pairs(pairs).len() ==> (#[trigger] scalar_pairs(pairs)[k]).value is Scalar,
    decreases pairs.len(),
{
    if pairs.len() > 0 {
        lemma_pair_kinds(pairs.drop_last());
    }
}

/// The words of a text joined by single spaces: `split_whitespace` then
/// `join(" ")`.
pub open spec fn single_spaced(s: Seq<char>) -> Seq<char> {
    join(words_from(s, 0, Seq::empty()), " "@)
}

/// `split_whitespace` then `join(" ")`.
pub fn single_space(s: &str) -> (r: String)
    ensures
        r@ == single_spaced(s@),
{
    let words = split_words(s);
    join_strings(&words, " ")
}

/// Whether a scalar under `key` says `yes`, ignoring ASCII case.
pub open spec fn says_yes(items: Seq<Item>, key: Seq<char>) -> bool {
    scalar_spec(items, key) matches Some(v) && crate::text::eq_ignore_ascii_case_spec(v, "yes"@)
}

pub fn is_yes<T: Items>(t: &T, key: &str) -> (r: bool)
    ensures
        r == says_yes(t.item_list(), key@),
{
    match t.scalar(key) {
        Some(v) => crate::text::eq_ignore_ascii_case(v.as_str(), "yes"),
        None => false,
    }
}

// ---------------------------------------------------------------------------
// Adding an entry
// ---------------------------------------------------------------------------

/// Why a script was refused because a block could not be laid out.
pub open spec fn layout_message() -> Seq<char> {
    "a block could not be laid out: its indentation mixes whitespace characters"@
}

pub fn layout_error() -> (e: EditError)
    ensures
        e matches EditError::Message(m) && m@ == layout_message(),
{
    EditError::Message(
        "a block could not be laid out: its indentation mixes whitespace characters".to_owned(),
    )
}

/// Two runs of changes one after the other, when both can be made.
pub open spec fn then_runs(a: Option<Seq<ChangeView>>, b: Option<Seq<ChangeView>>) -> Option<Seq<ChangeView>> {
    match (a, b) {
        (Some(x), Some(y)) => Some(x + y),
        _ => None,
    }
}

/// What `set_block_checked` does, as a run that can fail.
pub open spec fn checked_block(b: Seq<u8>, block: Block, key: Seq<char>, content: Seq<char>) -> Option<
    Seq<ChangeView>,
> {
    if layout_fits(content) {
        Some(seq![block_change_spec(b, block, key, content)])
    } else {
        None
    }
}

/// The edits an editor of `block`, fresh when made, hands on once the
/// changes are recorded; `None` where they cannot all be made.
pub open spec fn handed(b: Seq<u8>, block: Block, cs: Option<Seq<ChangeView>>) -> Option<
    Seq<(Span, Seq<char>)>,
> {
    match cs {
        Some(cs) => Some(finished(b, block, record_all((Seq::empty(), Seq::empty()), cs))),
        None => None,
    }
}

/// Finishes an editor: the edits it hands on, as `finished` describes them.
pub fn finish_editor(editor: BlockEditor) -> (edits: Vec<TextEdit>)
    requires
        editor.wf(),
    ensures
        edit_views(edits@) == finished(editor.source_bytes(), editor.edited_block(), lists_of(editor)),
{
    proof {
        lemma_queued_text(editor.queued_lines(), newline_spec(editor.source_bytes()), child_indent_spec(editor.source_bytes(), editor.edited_block()));
        editor.lemma_queued();
    }
    editor.finish()
}

/// `r` is the source with exactly the edits `vs` made, when they can all be
/// made and each fits the source; the layout error otherwise.
pub open spec fn saved_as(b: Seq<u8>, vs: Option<Seq<(Span, Seq<char>)>>, r: Result<String, EditError>) -> bool {
    if vs is Some && views_fit(b, vs->0) {
        r matches Ok(text) && exists|es: Seq<TextEdit>|
            edit_views(es) == vs->0 && #[trigger] apply_edits_spec(b, es) == text@
    } else {
        r matches Err(EditError::Message(t)) && t@ == layout_message()
    }
}

/// Law: a fresh editor asked only to remove `pair` hands on exactly the one
/// edit `remove_pair` makes: the pair's removal span, emptied.
pub proof fn law_a_lone_removal_is_remove_pair(b: Seq<u8>, block: Block, pair: Pair)
    ensures
        finished(b, block, record(Seq::empty(), Seq::empty(), ChangeView::Remove(removal_span(b, pair))))
            == seq![(removal_span(b, pair), Seq::<char>::empty())],
{
    assert(Seq::<(Span, Seq<char>)>::empty().push((removal_span(b, pair), Seq::<char>::empty())) =~= seq![
        (removal_span(b, pair), Seq::<char>::empty()),
    ]);
}

/// Law: two lines queued one after the other on a fresh editor become one
/// insertion before the block's closing brace, in the order they were
/// queued: the edit `insert_lines` makes of them.
pub proof fn law_queued_lines_become_one_insertion(b: Seq<u8>, block: Block, first: String, second: String)
    ensures
        ({
            let once = record(Seq::empty(), Seq::empty(), ChangeView::Add(first@));
            finished(b, block, record(once.0, once.1, ChangeView::Add(second@)))
        }) == seq![
            (
                Span { start: insertion_start(b, block) as usize, end: block.inner.end },
                crate::paradox::edit::insertion_text(b, block, seq![first, second]),
            ),
        ],
{
    let lines = seq![first, second];
    assert(crate::paradox::edit::first_overlap(Seq::empty(), insertion_start(b, block), block.inner.end as int, 0) == 0);
    lemma_queued_text(lines, newline_spec(b), child_indent_spec(b, block));
    assert(views(lines) =~= seq![first@, second@]);
    assert(Seq::<Seq<char>>::empty().push(first@).push(second@) =~= seq![first@, second@]);
}

/// Changes that are all `Nothing` record nothing.
proof fn lemma_nothing_records_nothing(cs: Seq<ChangeView>)
    requires
        forall|i: int| 0 <= i < cs.len() ==> cs[i] == ChangeView::Nothing,
    ensures
        record_all((Seq::empty(), Seq::empty()), cs) == (
            Seq::<(Span, Seq<char>)>::empty(),
            Seq::<Seq<char>>::empty(),
        ),
    decreases cs.len(),
{
    if cs.len() > 0 {
        lemma_nothing_records_nothing(cs.drop_last());
    }
}

/// Changes that are all `Nothing` hand on no edits.
pub proof fn lemma_nothing_hands_on_nothing(b: Seq<u8>, block: Block, cs: Seq<ChangeView>)
    requires
        forall|i: int| 0 <= i < cs.len() ==> cs[i] == ChangeView::Nothing,
    ensures
        handed(b, block, Some(cs)) == Some(Seq::<(Span, Seq<char>)>::empty()),
{
    lemma_nothing_records_nothing(cs);
}

/// Law: a save whose every change is `Nothing` hands on no edits, and then
/// gives the source back byte for byte.
pub proof fn law_nothing_changed_keeps_the_file(source: &str, block: Block, cs: Seq<ChangeView>, r: Result<String, EditError>)
    requires
        forall|i: int| 0 <= i < cs.len() ==> cs[i] == ChangeView::Nothing,
        saved_as(bytes_of(source), handed(bytes_of(source), block, Some(cs)), r),
    ensures
        handed(bytes_of(source), block, Some(cs)) == Some(Seq::<(Span, Seq<char>)>::empty()),
        r matches Ok(text) && text@ == source@,
{
    lemma_nothing_records_nothing(cs);
    let b = bytes_of(source);
    assert(views_fit(b, Seq::<(Span, Seq<char>)>::empty()));
    let es = choose|es: Seq<TextEdit>| edit_views(es) == Seq::<(Span, Seq<char>)>::empty()
        && #[trigger] apply_edits_spec(b, es) == r->Ok_0@;
    assert(es.len() == edit_views(es).len());
    assert(es =~= Seq::<TextEdit>::empty());
    crate::paradox::edit::law_no_edits_keep_the_source(source);
}

/// Edits fit exactly when their spans do.
pub proof fn lemma_views_fit(b: Seq<u8>, es: Seq<TextEdit>)
    ensures
        edits_fit(b, es) == views_fit(b, edit_views(es)),
{
    let vs = edit_views(es);
    if edits_fit(b, es) {
        assert forall|k: int| 0 <= k < vs.len() implies #[trigger] vs[k].0.start <= vs[k].0.end <= b.len()
            && boundary(b, vs[k].0.start as int) && boundary(b, vs[k].0.end as int) by {
            assert(vs[k].0 == es[k].span);
        }
    }
    if views_fit(b, vs) {
        assert forall|k: int| 0 <= k < es.len() implies #[trigger] es[k].span.start <= es[k].span.end
            <= b.len() && boundary(b, es[k].span.start as int) && boundary(b, es[k].span.end as int) by {
            assert(vs[k].0 == es[k].span);
        }
    }
}

/// The views of edits appended one list after another.
pub proof fn lemma_edit_views_append(a: Seq<TextEdit>, c: Seq<TextEdit>)
    ensures
        edit_views(a + c) == edit_views(a) + edit_views(c),
{
    assert(edit_views(a + c) =~= edit_views(a) + edit_views(c));
}

/// Applies the edits, or gives the layout error where one of them does not
/// fit the source.
pub fn save_edits(source: &str, edits: Vec<TextEdit>) -> (r: Result<String, EditError>)
    ensures
        saved_as(bytes_of(source), Some(crate::paradox::edit::edit_views(edits@)), r),
{
    proof {
        lemma_views_fit(bytes_of(source), edits@);
    }
    if !edits_fit_all(source, &edits) {
        return Err(layout_error());
    }
    let ghost es = edits@;
    proof {
        crate::paradox::edit::lemma_fitting_edits_apply(source, edits@);
    }
    let text = apply_edits(source, edits);
    proof {
        assert(apply_edits_spec(bytes_of(source), es) == text@);
    }
    Ok(text)
}

/// The text of a file that had no `key` block once one holding `body` is
/// added: the block, then the file's newline, after a newline when the file
/// does not end with one.
pub open spec fn new_block_text(b: Seq<u8>, source: Seq<char>, key: Seq<char>, body: Seq<char>) -> Seq<char> {
    let newline = newline_spec(b);
    let separator = if source.len() == 0 || source.last() == '\n' {
        Seq::empty()
    } else {
        newline
    };
    source + separator + key + " = "@ + format_block_spec(body, Seq::empty(), newline) + newline
}

/// Inserts `id = { body }` as the last entry of a block.
pub fn add_to_block(source: &str, block: &Block, id: &str, body: &str) -> (r: Result<String, EditError>)
    requires
        value_fits(bytes_of(source), Value::Block(*block)),
    ensures
        r is Ok || (r matches Err(EditError::Message(t)) && t@ == layout_message()),
        ({
            let b = bytes_of(source);
            let line = id@ + " = "@ + format_lines_spec(body@, child_indent_spec(b, *block), newline_spec(b));
            layout_fits(body@) && boundary(b, insertion_start(b, *block)) ==> (r matches Ok(text)
                && text@ == text_at(b, 0, insertion_start(b, *block)) + newline_spec(b)
                + child_indent_spec(b, *block) + line + newline_spec(b) + indent_spec(
                b,
                block.span.start as int,
            ) + text_at(b, block.inner.end as int, b.len() as int))
        }),
{
    let newline = detect_newline(source);
    let indent = child_indent(source, block);
    let text = match format_lines(body, indent.as_str(), newline) {
        Some(text) => text,
        None => {
            return Err(layout_error());
        },
    };
    let mut line = id.to_owned();
    line.push_str(" = ");
    line.push_str(text.as_str());
    let lines = vec![line];
    let edit = insert_lines(source, block, lines.as_slice());
    proof {
        assert(lines@ =~= seq![line]);
        assert(lines@.drop_last() =~= Seq::<String>::empty());
        crate::paradox::edit::lemma_insertion_start(bytes_of(source), *block);
    }
    let edits = vec![edit];
    if !edits_fit_all(source, &edits) {
        proof {
            assert(edits@ =~= seq![edit]);
        }
        return Err(layout_error());
    }
    proof {
        let b = bytes_of(source);
        assert(edits@ =~= seq![edit]);
        law_single_edit_replaces_its_span(b, edit);
        assert(line@ =~= id@ + " = "@ + format_lines_spec(body@, child_indent_spec(b, *block), newline_spec(b)));
        assert(lines@.drop_last() =~= Seq::<String>::empty());
        assert(crate::paradox::edit::lines_body(lines@.drop_last(), newline_spec(b), child_indent_spec(b, *block))
            =~= Seq::<char>::empty());
        assert(lines@.last() == line);
        assert(crate::paradox::edit::lines_body(lines@, newline_spec(b), child_indent_spec(b, *block))
            =~= newline_spec(b) + child_indent_spec(b, *block) + line@);
    }
    proof {
        crate::paradox::edit::lemma_fitting_edits_apply(source, edits@);
    }
    Ok(apply_edits(source, edits))
}

/// A new `key = { id = { body } }` block at the end of the file.
pub fn add_new_block(source: &str, key: &str, id: &str, body: &str) -> (r: Result<String, EditError>)
    ensures
        r is Ok || (r matches Err(EditError::Message(t)) && t@ == layout_message()),
        ({
            let line = id@ + " = "@ + format_lines_spec(body@, Seq::empty(), "\n"@);
            layout_fits(body@) && layout_fits(line) ==> (r matches Ok(text) && text@ == new_block_text(
                bytes_of(source),
                source@,
                key@,
                line,
            ))
        }),
{
    let newline = detect_newline(source);
    // The new block is rendered flush left like every other body, then
    // indented where it lands.
    let text = match format_lines(body, "", "\n") {
        Some(text) => text,
        None => {
            return Err(layout_error());
        },
    };
    proof {
        reveal_strlit("");
        assert(""@ =~= Seq::<char>::empty());
    }
    let mut line = id.to_owned();
    line.push_str(" = ");
    line.push_str(text.as_str());
    let block_text = match try_format_block(line.as_str(), "", newline) {
        Some(t) => t,
        None => {
            return Err(layout_error());
        },
    };
    let chars = chars_of(source);
    let mut out = source.to_owned();
    if chars.len() > 0 && chars[chars.len() - 1] != '\n' {
        out.push_str(newline);
    }
    out.push_str(key);
    out.push_str(" = ");
    out.push_str(block_text.as_str());
    out.push_str(newline);
    Ok(out)
}

// ---------------------------------------------------------------------------
// A body without some of its assignments
// ---------------------------------------------------------------------------

/// The stretches `remove_pair` would delete for each of `cut`.
pub open spec fn cut_spans(b: Seq<u8>, cut: Seq<Pair>) -> Seq<crate::paradox::Span> {
    Seq::new(cut.len(), |k: int| removal_span(b, cut[k]))
}

/// The text from `start` with the stretches `spans` left out, as far as the
/// last of them, and where the text goes on from there.
pub open spec fn cut_fold(b: Seq<u8>, spans: Seq<crate::paradox::Span>, start: int) -> (Seq<char>, int)
    decreases spans.len(),
{
    if spans.len() == 0 {
        (Seq::empty(), start)
    } else {
        let (t, at) = cut_fold(b, spans.drop_last(), start);
        let s = spans.last();
        (
            if s.start > at {
                t + text_at(b, at, s.start as int)
            } else {
                t
            },
            if s.end > at {
                s.end as int
            } else {
                at
            },
        )
    }
}

/// The inside of `block` with the assignments `cut` (each with its line,
/// where it owns one) left out.
pub open spec fn kept_text(b: Seq<u8>, block: Block, cut: Seq<Pair>) -> Seq<char> {
    let (t, at) = cut_fold(b, cut_spans(b, cut), block.inner.start as int);
    if at < block.inner.end {
        t + text_at(b, at, block.inner.end as int)
    } else {
        t
    }
}

/// What a block holds besides the assignments `cut`, as a plain editor
/// shows it; empty where its indentation cannot be cut on character
/// boundaries.
pub open spec fn body_without_spec(b: Seq<u8>, block: Block, cut: Seq<Pair>) -> Seq<char> {
    let t = kept_text(b, block, cut);
    if tidy_fits(t) {
        tidy_body_spec(t)
    } else {
        Seq::empty()
    }
}

/// The body of `block` with the assignments `cut` taken out, dedented: what
/// a block holds besides the fields a form edits.
pub fn body_without(source: &str, block: &Block, cut: &Vec<&Pair>) -> (r: String)
    requires
        value_fits(bytes_of(source), Value::Block(*block)),
        pairs_fit(bytes_of(source), derefs(cut@)),
    ensures
        r@ == body_without_spec(bytes_of(source), *block, derefs(cut@)),
{
    let ghost b = bytes_of(source);
    let ghost all = derefs(cut@);
    let mut kept = String::new();
    let mut at = block.inner.start;
    let mut i: usize = 0;
    assert(cut_spans(b, all.take(0)) =~= Seq::<crate::paradox::Span>::empty());
    while i < cut.len()
        invariant
            i <= cut@.len(),
            b == bytes_of(source),
            all == derefs(cut@),
            pairs_fit(b, all),
            at <= b.len(),
            boundary(b, at as int),
            (kept@, at as int) == cut_fold(b, cut_spans(b, all.take(i as int)), block.inner.start as int),
        decreases cut@.len() - i,
    {
        proof {
            assert(all[i as int] == *cut@[i as int]);
            assert(item_fits(b, Item::Pair(all[i as int])));
        }
        let edits = remove_pair(source, cut[i]);
        let span = edits[0].span;
        proof {
            assert(edits@[0].span == edits@[0].span);
            assert(cut_spans(b, all.take(i + 1)) =~= cut_spans(b, all.take(i as int)).push(
                removal_span(b, all[i as int]),
            ));
            assert(cut_spans(b, all.take(i + 1)).drop_last() =~= cut_spans(b, all.take(i as int)));
        }
        if span.start > at {
            let piece = slice_between(source, at, span.start);
            kept.push_str(piece);
        }
        if span.end > at {
            at = span.end;
        }
        i = i + 1;
    }
    proof {
        assert(all.take(all.len() as int) =~= all);
    }
    if at < block.inner.end {
        let piece = slice_between(source, at, block.inner.end);
        kept.push_str(piece);
    }
    match try_tidy_body(kept.as_str()) {
        Some(t) => t,
        None => String::new(),
    }
}

} // verus!
