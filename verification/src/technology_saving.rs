//! Saving a technology exactly as it was read: read out of a block written
//! the way `update_source` writes one, a technology saved unchanged leaves
//! the file byte for byte as it was.
use crate::error::EditError;
use crate::ideology_saving::{
    body_as_saved, lemma_body_read, lemma_empty_runs, lemma_plain_field, lemma_trim_empty,
    plain_field,
};
use crate::paradox::edit::{scalar_change_spec, ChangeView};
use crate::paradox::lexer::needs_quotes_spec;
use crate::paradox::parser::{block_spec, find_spec, pairs_with};
use crate::paradox::{Block, Item, Pair, Span, Value};
use crate::script::{
    all_runs, bare_scalars, block_values, checked_block, finished, handed_on,
    law_nothing_changed_keeps_the_file, lemma_nothing_hands_on_nothing, normalise_words_spec,
    quoted_change, record_all, saved_as, text_or_empty, then_runs, words_from, words_spec,
};
use crate::technologies::{
    costed, find_technology_spec, first_leading, first_named, folder_attempts, folder_blocks,
    folder_changes, folder_edits, folder_read, kept_by, leads_spec, lemma_folder_attempt,
    lemma_path_attempt, list_change, marked, named_by, names_spec, path_attempts, path_blocks,
    path_read, position_placed, rename_views, technology_edits, technology_read, technology_runs,
    update_refusal, validate_spec, TechFolder, TechPath, Technology, TechnologyUpdate,
};
use crate::text::{bytes_of, is_ws, trim_spec, views};
use vstd::prelude::*;

verus! {

/// A run of changes that can be made and changes nothing.
pub open spec fn nothing_run(r: Option<Seq<ChangeView>>) -> bool {
    r matches Some(cs) && forall|i: int| 0 <= i < cs.len() ==> cs[i] == ChangeView::Nothing
}

pub(crate) proof fn lemma_then_nothing(a: Option<Seq<ChangeView>>, c: Option<Seq<ChangeView>>)
    requires
        nothing_run(a),
        nothing_run(c),
    ensures
        nothing_run(then_runs(a, c)),
{
    let x = a->0;
    let y = c->0;
    assert forall|i: int| 0 <= i < (x + y).len() implies (x + y)[i] == ChangeView::Nothing by {
        if i >= x.len() {
            assert((x + y)[i] == y[i - x.len()]);
        }
    }
}

/// One word: not empty, no whitespace in it.
pub open spec fn one_word(w: Seq<char>) -> bool {
    w.len() > 0 && forall|i: int| 0 <= i < w.len() ==> !is_ws(#[trigger] w[i])
}

/// A word list as it is saved: absent, or a block of single words.
pub open spec fn words_as_saved(items: Seq<Item>, key: Seq<char>) -> bool {
    match find_spec(items, key) {
        None => true,
        Some(p) => p.value matches Value::Block(c) && forall|k: int|
            0 <= k < bare_scalars(c.items@).len() ==> one_word(#[trigger] bare_scalars(c.items@)[k]),
    }
}

/// A quoted field as it is saved: absent, or a plain field that says
/// something.
pub open spec fn quoted_as_saved(items: Seq<Item>, key: Seq<char>) -> bool {
    plain_field(items, key) && (find_spec(items, key) is Some ==> text_or_empty(items, key).len() > 0)
}

/// The folder a folder entry names.
pub open spec fn folder_name(p: Pair) -> Seq<char> {
    match p.value {
        Value::Block(fb) => text_or_empty(fb.items@, "name"@),
        Value::Scalar(_) => Seq::empty(),
    }
}

/// Where a path entry leads.
pub open spec fn path_target(p: Pair) -> Seq<char> {
    match p.value {
        Value::Block(pb) => text_or_empty(pb.items@, "leads_to_tech"@),
        Value::Scalar(_) => Seq::empty(),
    }
}

/// A position block as it is saved: its coordinates plain fields.
pub open spec fn position_as_saved(fb: Block) -> bool {
    match block_spec(fb.items@, "position"@) {
        Some(pos) => plain_field(pos.items@, "x"@) && plain_field(pos.items@, "y"@),
        None => false,
    }
}

/// A folder entry as it is saved: a block naming its folder in a plain,
/// non-empty field, with a position.
pub open spec fn folder_as_saved(p: Pair) -> bool {
    match p.value {
        Value::Block(fb) => {
            &&& find_spec(fb.items@, "name"@) is Some
            &&& plain_field(fb.items@, "name"@)
            &&& text_or_empty(fb.items@, "name"@).len() > 0
            &&& position_as_saved(fb)
        },
        Value::Scalar(_) => false,
    }
}

/// A path entry as it is saved: a block whose target and cost are plain
/// fields.
pub open spec fn path_as_saved(p: Pair) -> bool {
    match p.value {
        Value::Block(pb) => plain_field(pb.items@, "leads_to_tech"@) && plain_field(
            pb.items@,
            "research_cost_coeff"@,
        ),
        Value::Scalar(_) => false,
    }
}

/// The folder entries as they are saved: each as above, no two naming the
/// same folder.
pub open spec fn folders_as_saved(items: Seq<Item>) -> bool {
    let ps = pairs_with(items, "folder"@);
    &&& forall|k: int| 0 <= k < ps.len() ==> folder_as_saved(#[trigger] ps[k])
    &&& forall|j: int, k: int| 0 <= j < k < ps.len() ==> folder_name(#[trigger] ps[j]) != folder_name(#[trigger] ps[k])
}

/// The path entries as they are saved: each as above, no two leading to
/// the same technology.
pub open spec fn paths_as_saved(items: Seq<Item>) -> bool {
    let ps = pairs_with(items, "path"@);
    &&& forall|k: int| 0 <= k < ps.len() ==> path_as_saved(#[trigger] ps[k])
    &&& forall|j: int, k: int| 0 <= j < k < ps.len() ==> path_target(#[trigger] ps[j]) != path_target(#[trigger] ps[k])
}

/// A technology block written the way `update_source` saves one: every
/// field it edits either absent or in the form it writes.
pub open spec fn technology_as_saved(b: Seq<u8>, block: Block) -> bool {
    let items = block.items@;
    &&& plain_field(items, "research_cost"@)
    &&& plain_field(items, "start_year"@)
    &&& plain_field(items, "doctrine"@)
    &&& quoted_as_saved(items, "doctrine_name"@)
    &&& plain_field(items, "xp_research_type"@)
    &&& plain_field(items, "xp_research_cost"@)
    &&& plain_field(items, "xp_research_bonus"@)
    &&& folders_as_saved(items)
    &&& paths_as_saved(items)
    &&& words_as_saved(items, "categories"@)
    &&& words_as_saved(items, "xor"@)
    &&& words_as_saved(items, "sub_technologies"@)
    &&& words_as_saved(items, "enable_equipments"@)
    &&& words_as_saved(items, "enable_equipment_modules"@)
    &&& words_as_saved(items, "enable_subunits"@)
    &&& body_as_saved(b, items, "allow"@)
    &&& body_as_saved(b, items, "allow_branch"@)
    &&& body_as_saved(b, items, "on_research_complete"@)
    &&& body_as_saved(b, items, "ai_will_do"@)
    &&& body_as_saved(b, items, "ai_research_weights"@)
}

/// Every field of an update copied from a technology as read.
pub open spec fn copied_from(u: TechnologyUpdate, t: Technology) -> bool {
    &&& u.id@ == t.id@
    &&& u.research_cost@ == t.research_cost@
    &&& u.start_year@ == t.start_year@
    &&& u.doctrine@ == t.doctrine@
    &&& u.doctrine_name@ == t.doctrine_name@
    &&& u.xp_research_type@ == t.xp_research_type@
    &&& u.xp_research_cost@ == t.xp_research_cost@
    &&& u.xp_research_bonus@ == t.xp_research_bonus@
    &&& u.folders@ == t.folders@
    &&& u.paths@ == t.paths@
    &&& u.categories@ == t.categories@
    &&& u.xor@ == t.xor@
    &&& u.sub_technologies@ == t.sub_technologies@
    &&& u.enable_equipments@ == t.enable_equipments@
    &&& u.enable_equipment_modules@ == t.enable_equipment_modules@
    &&& u.enable_subunits@ == t.enable_subunits@
    &&& u.allow@ == t.allow@
    &&& u.allow_branch@ == t.allow_branch@
    &&& u.on_research_complete@ == t.on_research_complete@
    &&& u.ai_will_do@ == t.ai_will_do@
    &&& u.ai_research_weights@ == t.ai_research_weights@
}

/// Pairs that all assign blocks give one block each, in order.
pub(crate) proof fn lemma_block_values_all(ps: Seq<Pair>)
    requires
        forall|k: int| 0 <= k < ps.len() ==> (#[trigger] ps[k]).value is Block,
    ensures
        block_values(ps).len() == ps.len(),
        forall|k: int| 0 <= k < ps.len() ==> #[trigger] block_values(ps)[k] == ps[k].value->Block_0,
    decreases ps.len(),
{
    if ps.len() > 0 {
        assert forall|k: int| 0 <= k < ps.drop_last().len() implies (#[trigger] ps.drop_last()[k]).value is Block by {
            assert(ps.drop_last()[k] == ps[k]);
        }
        lemma_block_values_all(ps.drop_last());
        assert(ps[ps.len() - 1].value is Block);
        assert forall|k: int| 0 <= k < ps.len() implies #[trigger] block_values(ps)[k] == ps[k].value->Block_0 by {
            if k < ps.len() - 1 {
                assert(ps.drop_last()[k] == ps[k]);
            }
        }
    }
}

/// A single word splits into itself.
proof fn lemma_word_rest(s: Seq<char>, i: int)
    requires
        one_word(s),
        0 <= i <= s.len(),
    ensures
        words_from(s, i, s.take(i)) == seq![s],
    decreases s.len() - i,
{
    if i == s.len() {
        assert(s.take(i) =~= s);
    } else {
        assert(!is_ws(s[i]));
        assert(s.take(i).push(s[i]) =~= s.take(i + 1));
        lemma_word_rest(s, i + 1);
    }
}

/// Single words are their own word list.
pub(crate) proof fn lemma_normalise_keep(ns: Seq<Seq<char>>)
    requires
        forall|k: int| 0 <= k < ns.len() ==> one_word(#[trigger] ns[k]),
    ensures
        normalise_words_spec(ns) == ns,
    decreases ns.len(),
{
    if ns.len() > 0 {
        assert forall|k: int| 0 <= k < ns.drop_last().len() implies one_word(#[trigger] ns.drop_last()[k]) by {
            assert(ns.drop_last()[k] == ns[k]);
        }
        lemma_normalise_keep(ns.drop_last());
        let w = ns[ns.len() - 1];
        assert(one_word(w));
        lemma_word_rest(w, 0);
        assert(w.take(0) =~= Seq::<char>::empty());
        assert(ns.drop_last() + seq![w] =~= ns);
    }
}

/// A word list set to the words read changes nothing.
proof fn lemma_list_read(b: Seq<u8>, block: Block, key: Seq<char>)
    requires
        words_as_saved(block.items@, key),
    ensures
        nothing_run(list_change(b, block, key, words_spec(block.items@, key))),
{
    match find_spec(block.items@, key) {
        None => {
            assert(normalise_words_spec(Seq::<Seq<char>>::empty()) =~= Seq::<Seq<char>>::empty());
        },
        Some(p) => {
            let c = p.value->Block_0;
            lemma_normalise_keep(bare_scalars(c.items@));
        },
    }
}

/// The first entry from `from` on naming `name` is the one at `k`.
proof fn lemma_first_named(ps: Seq<Pair>, name: Seq<char>, k: int, from: int)
    requires
        0 <= from <= k < ps.len(),
        forall|j: int| from <= j < k ==> !names_spec(#[trigger] ps[j], name),
        names_spec(ps[k], name),
    ensures
        first_named(ps, name, from) == Some(ps[k]),
    decreases k - from,
{
    if from < k {
        assert(!names_spec(ps[from], name));
        lemma_first_named(ps, name, k, from + 1);
    }
}

/// The first entry from `from` on leading to `target` is the one at `k`.
proof fn lemma_first_leading(ps: Seq<Pair>, target: Seq<char>, k: int, from: int)
    requires
        0 <= from <= k < ps.len(),
        forall|j: int| from <= j < k ==> !leads_spec(#[trigger] ps[j], target),
        leads_spec(ps[k], target),
    ensures
        first_leading(ps, target, from) == Some(ps[k]),
    decreases k - from,
{
    if from < k {
        assert(!leads_spec(ps[from], target));
        lemma_first_leading(ps, target, k, from + 1);
    }
}

/// A plain field reads back with no outer whitespace.
pub(crate) proof fn lemma_plain_trimmed(items: Seq<Item>, key: Seq<char>)
    requires
        plain_field(items, key),
    ensures
        trim_spec(text_or_empty(items, key)) == text_or_empty(items, key),
{
    lemma_trim_empty();
}

/// A quoted field set to what reading it gives changes nothing.
pub(crate) proof fn lemma_quoted_read(b: Seq<u8>, block: Block, key: Seq<char>)
    requires
        quoted_as_saved(block.items@, key),
    ensures
        quoted_change(b, block, key, text_or_empty(block.items@, key)) == ChangeView::Nothing,
{
    lemma_trim_empty();
}

/// The folders set to those read change nothing, and each has a name.
#[verifier::rlimit(40)]
proof fn lemma_folders_read(b: Seq<u8>, block: Block, folders: Seq<TechFolder>)
    requires
        folders_as_saved(block.items@),
        folders.len() == folder_blocks(block.items@).len(),
        forall|k: int| 0 <= k < folders.len() ==> folder_read(#[trigger] folders[k], folder_blocks(block.items@)[k]),
    ensures
        all_runs(folder_attempts(b, block, pairs_with(block.items@, "folder"@), folders)) == Some(
            Seq::<ChangeView>::empty(),
        ),
        forall|k: int| 0 <= k < folders.len() ==> trim_spec(#[trigger] folders[k].name@).len() > 0,
{
    let ps = pairs_with(block.items@, "folder"@);
    assert forall|k: int| 0 <= k < ps.len() implies (#[trigger] ps[k]).value is Block by {
        assert(folder_as_saved(ps[k]));
    }
    lemma_block_values_all(ps);
    assert forall|k: int| 0 <= k < folders.len() implies #[trigger] trim_spec(folders[k].name@) == folder_name(ps[k])
        && folder_name(ps[k]).len() > 0 && names_spec(ps[k], folder_name(ps[k])) by {
        assert(folder_read(folders[k], folder_blocks(block.items@)[k]));
        assert(block_values(ps)[k] == ps[k].value->Block_0);
        assert(folder_as_saved(ps[k]));
        lemma_plain_trimmed(ps[k].value->Block_0.items@, "name"@);
    }
    let rs = folder_attempts(b, block, ps, folders);
    assert forall|at: int| 0 <= at < rs.len() implies #[trigger] rs[at] == Some(Seq::<ChangeView>::empty()) by {
        lemma_folder_attempt(b, block, ps, folders, at);
        if at < folders.len() {
            let f = folders[at];
            let fb = ps[at].value->Block_0;
            let name = folder_name(ps[at]);
            assert(trim_spec(f.name@) == name);
            assert forall|j: int| 0 <= j < at implies !names_spec(#[trigger] ps[j], name) by {
                assert(folder_name(ps[j]) != folder_name(ps[at]));
                assert(folder_as_saved(ps[j]));
            }
            lemma_first_named(ps, name, at, 0);
            assert(folder_as_saved(ps[at]));
            let pos = block_spec(fb.items@, "position"@)->0;
            assert(folder_read(f, folder_blocks(block.items@)[at]));
            assert(block_values(ps)[at] == fb);
            lemma_plain_field(b, pos, "x"@);
            lemma_plain_field(b, pos, "y"@);
            assert(position_placed(b, pos, f) =~= Seq::<(Span, Seq<char>)>::empty());
            assert(handed_on(Seq::<(Span, Seq<char>)>::empty()) =~= Seq::<ChangeView>::empty());
            assert(folder_changes(b, fb, f) == Some(Seq::<ChangeView>::empty()));
            assert(finished(b, fb, record_all((Seq::empty(), Seq::empty()), Seq::<ChangeView>::empty()))
                =~= Seq::<(Span, Seq<char>)>::empty());
            assert(folder_edits(b, fb, f) == Some(Seq::<(Span, Seq<char>)>::empty()));
        } else {
            let j = at - folders.len();
            assert(named_by(ps[j], folders, j));
        }
    }
    lemma_folder_attempt(b, block, ps, folders, 0);
    lemma_empty_runs(rs);
}

/// The paths set to those read change nothing.
#[verifier::rlimit(40)]
proof fn lemma_paths_read(b: Seq<u8>, block: Block, paths: Seq<TechPath>)
    requires
        paths_as_saved(block.items@),
        paths.len() == path_blocks(block.items@).len(),
        forall|k: int| 0 <= k < paths.len() ==> path_read(#[trigger] paths[k], path_blocks(block.items@)[k]),
    ensures
        all_runs(path_attempts(b, block, pairs_with(block.items@, "path"@), paths)) == Some(
            Seq::<ChangeView>::empty(),
        ),
{
    let ps = pairs_with(block.items@, "path"@);
    assert forall|k: int| 0 <= k < ps.len() implies (#[trigger] ps[k]).value is Block by {
        assert(path_as_saved(ps[k]));
    }
    lemma_block_values_all(ps);
    assert forall|k: int| 0 <= k < paths.len() implies #[trigger] trim_spec(paths[k].leads_to_tech@) == path_target(ps[k])
        && leads_spec(ps[k], path_target(ps[k])) by {
        assert(path_read(paths[k], path_blocks(block.items@)[k]));
        assert(block_values(ps)[k] == ps[k].value->Block_0);
        assert(path_as_saved(ps[k]));
        lemma_plain_trimmed(ps[k].value->Block_0.items@, "leads_to_tech"@);
    }
    let rs = path_attempts(b, block, ps, paths);
    assert forall|at: int| 0 <= at < rs.len() implies #[trigger] rs[at] == Some(Seq::<ChangeView>::empty()) by {
        lemma_path_attempt(b, block, ps, paths, at);
        if at < paths.len() {
            let p = paths[at];
            let pb = ps[at].value->Block_0;
            let target = path_target(ps[at]);
            assert(trim_spec(p.leads_to_tech@) == target);
            assert forall|j: int| 0 <= j < at implies !leads_spec(#[trigger] ps[j], target) by {
                assert(path_target(ps[j]) != path_target(ps[at]));
                assert(path_as_saved(ps[j]));
            }
            lemma_first_leading(ps, target, at, 0);
            assert(path_as_saved(ps[at]));
            assert(path_read(p, path_blocks(block.items@)[at]));
            assert(block_values(ps)[at] == pb);
            lemma_plain_field(b, pb, "research_cost_coeff"@);
            assert(costed(b, pb, p) =~= Seq::<(Span, Seq<char>)>::empty());
            assert(handed_on(Seq::<(Span, Seq<char>)>::empty()) =~= Seq::<ChangeView>::empty());
        } else {
            let j = at - paths.len();
            assert(kept_by(ps[j], paths, j));
        }
    }
    lemma_path_attempt(b, block, ps, paths, 0);
    lemma_empty_runs(rs);
}

/// An update copied from a technology read out of a block written as it is
/// saved changes nothing inside that block.
#[verifier::rlimit(60)]
proof fn lemma_read_changes_nothing(b: Seq<u8>, block: Block, id: Seq<char>, start: int, t: Technology, u: TechnologyUpdate)
    requires
        technology_read(b, t, id, block, start),
        copied_from(u, t),
        technology_as_saved(b, block),
    ensures
        nothing_run(technology_runs(b, block, u)),
        forall|k: int| 0 <= k < u.folders@.len() ==> trim_spec(#[trigger] u.folders@[k].name@).len() > 0,
{
    let items = block.items@;
    lemma_plain_field(b, block, "research_cost"@);
    lemma_plain_field(b, block, "start_year"@);
    lemma_plain_field(b, block, "doctrine"@);
    lemma_quoted_read(b, block, "doctrine_name"@);
    lemma_plain_field(b, block, "xp_research_type"@);
    lemma_plain_field(b, block, "xp_research_cost"@);
    lemma_plain_field(b, block, "xp_research_bonus"@);
    lemma_folders_read(b, block, u.folders@);
    lemma_paths_read(b, block, u.paths@);
    lemma_list_read(b, block, "categories"@);
    lemma_list_read(b, block, "xor"@);
    lemma_list_read(b, block, "sub_technologies"@);
    lemma_list_read(b, block, "enable_equipments"@);
    lemma_list_read(b, block, "enable_equipment_modules"@);
    lemma_list_read(b, block, "enable_subunits"@);
    lemma_body_read(b, block, "allow"@);
    lemma_body_read(b, block, "allow_branch"@);
    lemma_body_read(b, block, "on_research_complete"@);
    lemma_body_read(b, block, "ai_will_do"@);
    lemma_body_read(b, block, "ai_research_weights"@);
    let r0 = Some(seq![scalar_change_spec(b, block, "research_cost"@, u.research_cost@)]);
    assert(nothing_run(r0));
    let x1 = Some(seq![scalar_change_spec(b, block, "start_year"@, u.start_year@)]);
    lemma_then_nothing(r0, x1);
    let r1 = then_runs(r0, x1);
    let x2 = Some(seq![scalar_change_spec(b, block, "doctrine"@, u.doctrine@)]);
    lemma_then_nothing(r1, x2);
    let r2 = then_runs(r1, x2);
    let x3 = Some(seq![quoted_change(b, block, "doctrine_name"@, u.doctrine_name@)]);
    lemma_then_nothing(r2, x3);
    let r3 = then_runs(r2, x3);
    let x4 = Some(seq![scalar_change_spec(b, block, "xp_research_type"@, u.xp_research_type@)]);
    lemma_then_nothing(r3, x4);
    let r4 = then_runs(r3, x4);
    let x5 = Some(seq![scalar_change_spec(b, block, "xp_research_cost"@, u.xp_research_cost@)]);
    lemma_then_nothing(r4, x5);
    let r5 = then_runs(r4, x5);
    let x6 = Some(seq![scalar_change_spec(b, block, "xp_research_bonus"@, u.xp_research_bonus@)]);
    lemma_then_nothing(r5, x6);
    let r6 = then_runs(r5, x6);
    let x7 = all_runs(folder_attempts(b, block, pairs_with(block.items@, "folder"@), u.folders@));
    lemma_then_nothing(r6, x7);
    let r7 = then_runs(r6, x7);
    let x8 = all_runs(path_attempts(b, block, pairs_with(block.items@, "path"@), u.paths@));
    lemma_then_nothing(r7, x8);
    let r8 = then_runs(r7, x8);
    let x9 = list_change(b, block, "categories"@, views(u.categories@));
    lemma_then_nothing(r8, x9);
    let r9 = then_runs(r8, x9);
    let x10 = list_change(b, block, "xor"@, views(u.xor@));
    lemma_then_nothing(r9, x10);
    let r10 = then_runs(r9, x10);
    let x11 = list_change(b, block, "sub_technologies"@, views(u.sub_technologies@));
    lemma_then_nothing(r10, x11);
    let r11 = then_runs(r10, x11);
    let x12 = list_change(b, block, "enable_equipments"@, views(u.enable_equipments@));
    lemma_then_nothing(r11, x12);
    let r12 = then_runs(r11, x12);
    let x13 = list_change(b, block, "enable_equipment_modules"@, views(u.enable_equipment_modules@));
    lemma_then_nothing(r12, x13);
    let r13 = then_runs(r12, x13);
    let x14 = list_change(b, block, "enable_subunits"@, views(u.enable_subunits@));
    lemma_then_nothing(r13, x14);
    let r14 = then_runs(r13, x14);
    let x15 = checked_block(b, block, "allow"@, u.allow@);
    lemma_then_nothing(r14, x15);
    let r15 = then_runs(r14, x15);
    let x16 = checked_block(b, block, "allow_branch"@, u.allow_branch@);
    lemma_then_nothing(r15, x16);
    let r16 = then_runs(r15, x16);
    let x17 = checked_block(b, block, "on_research_complete"@, u.on_research_complete@);
    lemma_then_nothing(r16, x17);
    let r17 = then_runs(r16, x17);
    let x18 = checked_block(b, block, "ai_will_do"@, u.ai_will_do@);
    lemma_then_nothing(r17, x18);
    let r18 = then_runs(r17, x18);
    let x19 = checked_block(b, block, "ai_research_weights"@, u.ai_research_weights@);
    lemma_then_nothing(r18, x19);
    let r19 = then_runs(r18, x19);
    assert(technology_runs(b, block, u) == r19);
}

/// Law: saving a technology exactly as it was read changes no byte of the
/// file, wherever its block is written the way `update_source` writes one
/// and its id is one the editor accepts. The update is not refused, and the
/// text it saves is the source.
pub proof fn law_saving_a_technology_as_read_keeps_the_file(
    source: &str,
    path: Seq<char>,
    items: Seq<Item>,
    id: Seq<char>,
    p: Pair,
    block: Block,
    start: int,
    t: Technology,
    u: TechnologyUpdate,
    r: Result<String, EditError>,
)
    requires
        find_technology_spec(items, id) == Some(p),
        p.value == Value::Block(block),
        trim_spec(id) == id,
        id.len() > 0,
        !marked(id),
        !needs_quotes_spec(id),
        technology_as_saved(bytes_of(source), block),
        technology_read(bytes_of(source), t, id, block, start),
        copied_from(u, t),
    ensures
        update_refusal(bytes_of(source), path, items, id, u) is None,
        saved_as(bytes_of(source), technology_edits(bytes_of(source), items, id, u), r) ==> (r matches Ok(
            text,
        ) && text@ == source@),
{
    let b = bytes_of(source);
    lemma_read_changes_nothing(b, block, id, start, t, u);
    assert(validate_spec(u) is None);
    if saved_as(b, technology_edits(b, items, id, u), r) {
        let cs = technology_runs(b, block, u)->0;
        lemma_nothing_hands_on_nothing(b, block, cs);
        assert(rename_views(p, id, trim_spec(u.id@)) + Seq::<(Span, Seq<char>)>::empty()
            =~= Seq::<(Span, Seq<char>)>::empty());
        law_nothing_changed_keeps_the_file(source, block, cs, r);
    }
}

} // verus!
