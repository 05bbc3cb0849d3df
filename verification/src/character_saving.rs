//! Saving a character exactly as it was read: read out of a block written
//! the way `update_source` writes one, a character saved unchanged leaves
//! the file byte for byte as it was.
use crate::characters::{
    advisor_changes, advisor_read, body_block, character_edits, character_read, character_runs,
    commander_changes, commander_kind, commander_read, commander_roles, find_character_spec,
    first_unknown_kind, group_change, id_ok, known_kind, leader_changes, leader_read, of_kind,
    picture, picture_changes, picture_edits, portraits_blank, portraits_change, rename_views,
    update_refusal, validate_spec, Advisor, Character, CharacterUpdate, Commander, CountryLeader,
    RoleList,
};
use crate::error::EditError;
use crate::ideology_saving::{
    body_as_saved, lemma_body_read, lemma_empty_runs, lemma_plain_field, lemma_trim_empty,
    plain_field,
};
use crate::paradox::edit::{block_change_spec, layout_fits, scalar_change_spec, ChangeView};
use crate::paradox::parser::{block_spec, find_spec, pairs_of, pairs_with};
use crate::paradox::{Block, Item, Pair, Span, Value};
use crate::script::{
    all_runs, beyond, block_values, checked_block, finished, handed_on,
    law_nothing_changed_keeps_the_file, lemma_nothing_hands_on_nothing, normalise_words_spec,
    record_all, saved_as, text_or_empty, then_runs, words_change, words_spec,
};
use crate::technology_saving::{
    lemma_block_values_all, lemma_normalise_keep, lemma_quoted_read, lemma_then_nothing,
    nothing_run, quoted_as_saved, words_as_saved,
};
use crate::text::{bytes_of, eq_ignore_ascii_case_spec, trim_spec};
use vstd::prelude::*;

verus! {

/// A country leader role as it is saved.
pub open spec fn leader_as_saved(rb: Block) -> bool {
    let items = rb.items@;
    &&& plain_field(items, "ideology"@)
    &&& words_as_saved(items, "traits"@)
    &&& quoted_as_saved(items, "expire"@)
    &&& plain_field(items, "desc"@)
}

/// An advisor role as it is saved.
pub open spec fn advisor_as_saved(b: Seq<u8>, rb: Block) -> bool {
    let items = rb.items@;
    &&& plain_field(items, "slot"@)
    &&& plain_field(items, "idea_token"@)
    &&& plain_field(items, "ledger"@)
    &&& plain_field(items, "cost"@)
    &&& plain_field(items, "removal_cost"@)
    &&& plain_field(items, "can_be_fired"@)
    &&& words_as_saved(items, "traits"@)
    &&& body_as_saved(b, items, "allowed"@)
    &&& body_as_saved(b, items, "available"@)
    &&& body_as_saved(b, items, "visible"@)
    &&& body_as_saved(b, items, "ai_will_do"@)
}

/// A commander role of `kind` as it is saved: a navy leader with only the
/// naval skills, any other with only the army ones.
pub open spec fn commander_as_saved(rb: Block, kind: Seq<char>) -> bool {
    let items = rb.items@;
    let navy = kind == "navy_leader"@;
    &&& plain_field(items, "skill"@)
    &&& plain_field(items, "attack_skill"@)
    &&& plain_field(items, "defense_skill"@)
    &&& if navy {
        find_spec(items, "planning_skill"@) is None && find_spec(items, "logistics_skill"@) is None
            && plain_field(items, "maneuvering_skill"@) && plain_field(items, "coordination_skill"@)
    } else {
        find_spec(items, "maneuvering_skill"@) is None && find_spec(items, "coordination_skill"@) is None
            && plain_field(items, "planning_skill"@) && plain_field(items, "logistics_skill"@)
    }
    &&& plain_field(items, "legacy_id"@)
    &&& words_as_saved(items, "traits"@)
}

/// The role entries under `key`, each a block.
pub open spec fn roles_are_blocks(items: Seq<Item>, key: Seq<char>) -> bool {
    forall|k: int| 0 <= k < pairs_with(items, key).len() ==> (#[trigger] pairs_with(items, key)[k]).value is Block
}

/// The commander roles of `kind` as they are saved.
pub open spec fn commanders_as_saved(items: Seq<Item>, kind: Seq<char>) -> bool {
    &&& roles_are_blocks(items, kind)
    &&& forall|k: int| 0 <= k < pairs_with(items, kind).len() ==> commander_as_saved(
        (#[trigger] pairs_with(items, kind)[k]).value->Block_0,
        kind,
    )
}

/// A portrait group as it is saved: absent, or a block with at least one
/// picture, each a plain field.
pub open spec fn group_as_saved(pb: Block, group: Seq<char>) -> bool {
    match find_spec(pb.items@, group) {
        None => true,
        Some(gp) => gp.value matches Value::Block(gb) && plain_field(gb.items@, "large"@) && plain_field(
            gb.items@,
            "small"@,
        ) && (text_or_empty(gb.items@, "large"@).len() > 0 || text_or_empty(gb.items@, "small"@).len() > 0),
    }
}

/// The portraits as they are saved: absent, or a block with at least one
/// group, each as above.
pub open spec fn portraits_as_saved(items: Seq<Item>) -> bool {
    match find_spec(items, "portraits"@) {
        None => true,
        Some(pair) => pair.value matches Value::Block(pb) && group_as_saved(pb, "civilian"@) && group_as_saved(
            pb,
            "army"@,
        ) && group_as_saved(pb, "navy"@) && (find_spec(pb.items@, "civilian"@) is Some || find_spec(
            pb.items@,
            "army"@,
        ) is Some || find_spec(pb.items@, "navy"@) is Some),
    }
}

/// A character block written the way `update_source` saves one: no
/// instance blocks, and every field it edits either absent or in the form
/// it writes.
pub open spec fn character_as_saved(b: Seq<u8>, block: Block) -> bool {
    let items = block.items@;
    &&& block_spec(items, "instance"@) is None
    &&& plain_field(items, "name"@)
    &&& plain_field(items, "gender"@)
    &&& portraits_as_saved(items)
    &&& body_as_saved(b, items, "allowed_civil_war"@)
    &&& roles_are_blocks(items, "country_leader"@)
    &&& forall|k: int| 0 <= k < pairs_with(items, "country_leader"@).len() ==> leader_as_saved(
        (#[trigger] pairs_with(items, "country_leader"@)[k]).value->Block_0,
    )
    &&& roles_are_blocks(items, "advisor"@)
    &&& forall|k: int| 0 <= k < pairs_with(items, "advisor"@).len() ==> advisor_as_saved(
        b,
        (#[trigger] pairs_with(items, "advisor"@)[k]).value->Block_0,
    )
    &&& commanders_as_saved(items, "corps_commander"@)
    &&& commanders_as_saved(items, "field_marshal"@)
    &&& commanders_as_saved(items, "navy_leader"@)
}

/// Every field of an update copied from a character as read.
pub open spec fn copied_from(u: CharacterUpdate, c: Character) -> bool {
    &&& u.id@ == c.id@
    &&& u.name@ == c.name@
    &&& u.gender@ == c.gender@
    &&& u.portraits == c.portraits
    &&& u.allowed_civil_war@ == c.allowed_civil_war@
    &&& u.leaders@ == c.leaders@
    &&& u.advisors@ == c.advisors@
    &&& u.commanders@ == c.commanders@
}

/// The blocks of the roles of `kind`, in order.
pub open spec fn role_blocks(rs: Seq<(Seq<char>, Block)>, kind: Seq<char>) -> Seq<Block>
    decreases rs.len(),
{
    if rs.len() == 0 {
        Seq::empty()
    } else if rs.last().0 == kind {
        role_blocks(rs.drop_last(), kind).push(rs.last().1)
    } else {
        role_blocks(rs.drop_last(), kind)
    }
}

/// The military roles, as the file spells them.
pub open spec fn military(kind: Seq<char>) -> bool {
    kind == "corps_commander"@ || kind == "field_marshal"@ || kind == "navy_leader"@
}

/// The roles of one kind, read in file order, are the blocks of the
/// entries under that key.
proof fn lemma_role_blocks(items: Seq<Item>, kind: Seq<char>)
    requires
        military(kind),
        roles_are_blocks(items, "corps_commander"@),
        roles_are_blocks(items, "field_marshal"@),
        roles_are_blocks(items, "navy_leader"@),
    ensures
        role_blocks(commander_roles(pairs_of(items)), kind) == block_values(pairs_with(items, kind)),
    decreases items.len(),
{
    reveal_strlit("corps_commander");
    reveal_strlit("field_marshal");
    reveal_strlit("navy_leader");
    if items.len() > 0 {
        let pre = items.drop_last();
        assert forall|kk: Seq<char>| #![trigger pairs_with(pre, kk)] military(kk) && roles_are_blocks(items, kk)
            implies roles_are_blocks(pre, kk) by {
            assert forall|k: int| 0 <= k < pairs_with(pre, kk).len() implies (#[trigger] pairs_with(pre, kk)[k]).value is Block by {
                assert(pairs_with(items, kk)[k] == pairs_with(pre, kk)[k]);
            }
        }
        assert(roles_are_blocks(pre, "corps_commander"@));
        assert(roles_are_blocks(pre, "field_marshal"@));
        assert(roles_are_blocks(pre, "navy_leader"@));
        lemma_role_blocks(pre, kind);
        match items.last() {
            Item::Pair(p) => {
                let ps = pairs_of(pre);
                assert(pairs_of(items) == ps.push(p));
                assert(ps.push(p).drop_last() =~= ps);
                let rs = commander_roles(ps);
                let pw = pairs_with(pre, kind);
                match commander_kind(p.key@) {
                    Some(kk) => {
                        assert(eq_ignore_ascii_case_spec(p.key@, kk));
                        assert(pairs_with(items, kk) == pairs_with(pre, kk).push(p));
                        assert(pairs_with(items, kk)[pairs_with(pre, kk).len() as int] == p);
                        assert(p.value is Block);
                        let bl = p.value->Block_0;
                        assert(commander_roles(ps.push(p)) == rs.push((kk, bl)));
                        assert(rs.push((kk, bl)).drop_last() =~= rs);
                        if kk != kind {
                            assert(kk.len() != kind.len());
                            assert(!eq_ignore_ascii_case_spec(p.key@, kind));
                            assert(pairs_with(items, kind) == pw);
                            assert(role_blocks(rs.push((kk, bl)), kind) == role_blocks(rs, kind));
                        } else {
                            assert(pairs_with(items, kind) == pw.push(p));
                            assert(pw.push(p).drop_last() =~= pw);
                            assert(block_values(pw.push(p)) == block_values(pw).push(bl));
                            assert(role_blocks(rs.push((kk, bl)), kind) == role_blocks(rs, kind).push(bl));
                        }
                    },
                    None => {
                        assert(!eq_ignore_ascii_case_spec(p.key@, kind));
                        assert(pairs_with(items, kind) == pw);
                        assert(commander_roles(ps.push(p)) == rs);
                    },
                }
            },
            Item::Value(_) => {},
        }
    }
}

/// The commanders of one kind, read in file order, are read from the
/// blocks of that kind's roles.
proof fn lemma_of_kind(cs: Seq<Commander>, rs: Seq<(Seq<char>, Block)>, kind: Seq<char>)
    requires
        cs.len() == rs.len(),
        forall|k: int| 0 <= k < rs.len() ==> commander_read(#[trigger] cs[k], rs[k].0, rs[k].1),
    ensures
        of_kind(cs, kind).len() == role_blocks(rs, kind).len(),
        forall|j: int| 0 <= j < of_kind(cs, kind).len() ==> commander_read(
            #[trigger] of_kind(cs, kind)[j],
            kind,
            role_blocks(rs, kind)[j],
        ),
    decreases rs.len(),
{
    if rs.len() > 0 {
        assert forall|k: int| 0 <= k < rs.drop_last().len() implies commander_read(
            #[trigger] cs.drop_last()[k],
            rs.drop_last()[k].0,
            rs.drop_last()[k].1,
        ) by {
            assert(cs.drop_last()[k] == cs[k]);
            assert(rs.drop_last()[k] == rs[k]);
        }
        lemma_of_kind(cs.drop_last(), rs.drop_last(), kind);
        assert(commander_read(cs[cs.len() - 1], rs[rs.len() - 1].0, rs[rs.len() - 1].1));
    }
}

/// The kinds commander roles are read as are the military roles.
proof fn lemma_roles_known(ps: Seq<Pair>)
    ensures
        forall|k: int| 0 <= k < commander_roles(ps).len() ==> known_kind(#[trigger] commander_roles(ps)[k].0),
    decreases ps.len(),
{
    if ps.len() > 0 {
        lemma_roles_known(ps.drop_last());
        let rest = commander_roles(ps.drop_last());
        assert forall|k: int| 0 <= k < commander_roles(ps).len() implies known_kind(
            #[trigger] commander_roles(ps)[k].0,
        ) by {
            if k < rest.len() {
                assert(commander_roles(ps)[k] == rest[k]);
            }
        }
    }
}

/// Commanders of known kinds pass validation.
proof fn lemma_no_unknown_kind(cs: Seq<Commander>, i: int)
    requires
        forall|k: int| 0 <= k < cs.len() ==> known_kind(#[trigger] cs[k].kind@),
    ensures
        first_unknown_kind(cs, i) is None,
    decreases cs.len() - i,
{
    if 0 <= i < cs.len() {
        assert(known_kind(cs[i].kind@));
        lemma_no_unknown_kind(cs, i + 1);
    }
}

/// A word list set to the words read changes nothing.
proof fn lemma_words_read(b: Seq<u8>, block: Block, key: Seq<char>)
    requires
        words_as_saved(block.items@, key),
    ensures
        words_change(b, block, key, words_spec(block.items@, key)) == Some(ChangeView::Nothing),
{
    match find_spec(block.items@, key) {
        None => {
            assert(normalise_words_spec(Seq::<Seq<char>>::empty()) =~= Seq::<Seq<char>>::empty());
        },
        Some(p) => {
            let c = p.value->Block_0;
            lemma_normalise_keep(crate::script::bare_scalars(c.items@));
        },
    }
}

/// The edits an editor hands on once it has made only `Nothing` changes.
proof fn lemma_finished_nothing(b: Seq<u8>, rb: Block, cs: Seq<ChangeView>)
    requires
        forall|i: int| 0 <= i < cs.len() ==> cs[i] == ChangeView::Nothing,
    ensures
        finished(b, rb, record_all((Seq::empty(), Seq::empty()), cs)) == Seq::<(Span, Seq<char>)>::empty(),
        handed_on(Seq::<(Span, Seq<char>)>::empty()) == Seq::<ChangeView>::empty(),
{
    lemma_nothing_hands_on_nothing(b, rb, cs);
    assert(handed_on(Seq::<(Span, Seq<char>)>::empty()) =~= Seq::<ChangeView>::empty());
}

/// A leader role set as read changes nothing.
proof fn lemma_leader_read(b: Seq<u8>, rb: Block, l: CountryLeader)
    requires
        leader_as_saved(rb),
        leader_read(l, rb),
    ensures
        nothing_run(leader_changes(b, rb, l)),
{
    lemma_plain_field(b, rb, "ideology"@);
    lemma_words_read(b, rb, "traits"@);
    lemma_quoted_read(b, rb, "expire"@);
    lemma_plain_field(b, rb, "desc"@);
}

/// An advisor role set as read changes nothing.
#[verifier::rlimit(80)]
#[verifier::spinoff_prover]
proof fn lemma_advisor_read(b: Seq<u8>, rb: Block, a: Advisor)
    requires
        advisor_as_saved(b, rb),
        advisor_read(b, a, rb),
    ensures
        nothing_run(advisor_changes(b, rb, a)),
{
    lemma_plain_field(b, rb, "slot"@);
    lemma_plain_field(b, rb, "idea_token"@);
    lemma_plain_field(b, rb, "ledger"@);
    lemma_plain_field(b, rb, "cost"@);
    lemma_plain_field(b, rb, "removal_cost"@);
    lemma_plain_field(b, rb, "can_be_fired"@);
    lemma_words_read(b, rb, "traits"@);
    lemma_body_nothing(b, rb, "allowed"@);
    lemma_body_nothing(b, rb, "available"@);
    lemma_body_nothing(b, rb, "visible"@);
    lemma_body_nothing(b, rb, "ai_will_do"@);
    let cs = advisor_changes(b, rb, a)->0;
    assert(cs.len() == 11);
}

/// A block field set to the body read can be laid out and changes nothing.
proof fn lemma_body_nothing(b: Seq<u8>, rb: Block, key: Seq<char>)
    requires
        body_as_saved(b, rb.items@, key),
    ensures
        layout_fits(crate::script::body_or_empty(b, rb.items@, key)),
        block_change_spec(b, rb, key, crate::script::body_or_empty(b, rb.items@, key)) == ChangeView::Nothing,
{
    lemma_body_read(b, rb, key);
    let content = crate::script::body_or_empty(b, rb.items@, key);
    assert(seq![block_change_spec(b, rb, key, content)][0] == block_change_spec(b, rb, key, content));
    assert(seq![ChangeView::Nothing][0] == ChangeView::Nothing);
}

/// A commander role set as read changes nothing.
proof fn lemma_commander_read(b: Seq<u8>, rb: Block, c: Commander, kind: Seq<char>)
    requires
        commander_as_saved(rb, kind),
        commander_read(c, kind, rb),
    ensures
        nothing_run(commander_changes(b, rb, c)),
{
    reveal_strlit("");
    lemma_trim_empty();
    lemma_plain_field(b, rb, "skill"@);
    lemma_plain_field(b, rb, "attack_skill"@);
    lemma_plain_field(b, rb, "defense_skill"@);
    if kind == "navy_leader"@ {
        lemma_plain_field(b, rb, "maneuvering_skill"@);
        lemma_plain_field(b, rb, "coordination_skill"@);
    } else {
        lemma_plain_field(b, rb, "planning_skill"@);
        lemma_plain_field(b, rb, "logistics_skill"@);
    }
    lemma_plain_field(b, rb, "legacy_id"@);
    lemma_words_read(b, rb, "traits"@);
}

/// Role entries all set as read change nothing: each rewrite of a block
/// that changes nothing hands on nothing.
proof fn lemma_roles_read(b: Seq<u8>, block: Block, roles: RoleList, key: Seq<char>)
    requires
        roles_are_blocks(block.items@, key),
        roles.count() == pairs_with(block.items@, key).len(),
        forall|k: int| 0 <= k < roles.count() ==> nothing_run(
            #[trigger] roles.changes(b, pairs_with(block.items@, key)[k].value->Block_0, k),
        ),
    ensures
        nothing_run(all_runs(roles.attempts(b, block, pairs_with(block.items@, key), key))),
{
    let ps = pairs_with(block.items@, key);
    let rs = roles.attempts(b, block, ps, key);
    roles.lemma_attempt(b, block, ps, key, 0);
    assert(beyond(ps.len(), roles.count()) == 0);
    assert(beyond(roles.count(), ps.len()) == 0);
    assert forall|at: int| 0 <= at < rs.len() implies #[trigger] rs[at] == Some(Seq::<ChangeView>::empty()) by {
        roles.lemma_attempt(b, block, ps, key, at);
        assert(ps[at].value is Block);
        let rb = ps[at].value->Block_0;
        assert(nothing_run(roles.changes(b, rb, at)));
        lemma_finished_nothing(b, rb, roles.changes(b, rb, at)->0);
    }
    lemma_empty_runs(rs);
}

/// A portrait group set to the pictures read changes nothing.
proof fn lemma_group_read(b: Seq<u8>, pb: Block, group: Seq<char>, large: Seq<char>, small: Seq<char>)
    requires
        group_as_saved(pb, group),
        large == (match block_spec(pb.items@, group) {
            Some(g) => text_or_empty(g.items@, "large"@),
            None => Seq::empty(),
        }),
        small == (match block_spec(pb.items@, group) {
            Some(g) => text_or_empty(g.items@, "small"@),
            None => Seq::empty(),
        }),
    ensures
        group_change(b, pb, group, large, small) == Some(Seq::<ChangeView>::empty()),
        find_spec(pb.items@, group) is Some ==> trim_spec(large).len() != 0 || trim_spec(small).len() != 0,
{
    lemma_trim_empty();
    match find_spec(pb.items@, group) {
        None => {},
        Some(gp) => {
            let gb = gp.value->Block_0;
            lemma_plain_field(b, gb, "large"@);
            lemma_plain_field(b, gb, "small"@);
            crate::technology_saving::lemma_plain_trimmed(gb.items@, "large"@);
            crate::technology_saving::lemma_plain_trimmed(gb.items@, "small"@);
            assert(picture_edits(b, gb, large, small) =~= Seq::<(Span, Seq<char>)>::empty());
            assert(handed_on(Seq::<(Span, Seq<char>)>::empty()) =~= Seq::<ChangeView>::empty());
        },
    }
}

/// The portraits set to those read change nothing.
proof fn lemma_portraits_read(b: Seq<u8>, block: Block, c: Character)
    requires
        portraits_as_saved(block.items@),
        block_spec(block.items@, "instance"@) is None,
        crate::characters::portraits_read(c.portraits, body_block(block)),
    ensures
        nothing_run(portraits_change(b, block, c.portraits)),
{
    let p = c.portraits;
    lemma_trim_empty();
    match find_spec(block.items@, "portraits"@) {
        None => {
            assert(portraits_blank(p));
        },
        Some(pair) => {
            let pb = pair.value->Block_0;
            lemma_group_read(b, pb, "civilian"@, p.civilian_large@, p.civilian_small@);
            lemma_group_read(b, pb, "army"@, p.army_large@, p.army_small@);
            lemma_group_read(b, pb, "navy"@, p.navy_large@, p.navy_small@);
            assert(!portraits_blank(p));
            let rs = seq![
                group_change(b, pb, "civilian"@, p.civilian_large@, p.civilian_small@),
                group_change(b, pb, "army"@, p.army_large@, p.army_small@),
                group_change(b, pb, "navy"@, p.navy_large@, p.navy_small@),
            ];
            lemma_empty_runs(rs);
            assert(picture_changes(b, pb, p) == Some(Seq::<ChangeView>::empty()));
            assert(finished(b, pb, record_all((Seq::empty(), Seq::empty()), Seq::<ChangeView>::empty()))
                =~= Seq::<(Span, Seq<char>)>::empty());
            assert(handed_on(Seq::<(Span, Seq<char>)>::empty()) =~= Seq::<ChangeView>::empty());
        },
    }
}

/// The commanders of one kind set as read change nothing.
proof fn lemma_commanders_read(b: Seq<u8>, block: Block, c: Character, kind: Seq<char>)
    requires
        military(kind),
        commanders_as_saved(block.items@, kind),
        roles_are_blocks(block.items@, "corps_commander"@),
        roles_are_blocks(block.items@, "field_marshal"@),
        roles_are_blocks(block.items@, "navy_leader"@),
        c.commanders@.len() == commander_roles(pairs_of(block.items@)).len(),
        forall|k: int| 0 <= k < commander_roles(pairs_of(block.items@)).len() ==> commander_read(
            #[trigger] c.commanders@[k],
            commander_roles(pairs_of(block.items@))[k].0,
            commander_roles(pairs_of(block.items@))[k].1,
        ),
    ensures
        nothing_run(
            all_runs(
                RoleList::Commanders(of_kind(c.commanders@, kind)).attempts(
                    b,
                    block,
                    pairs_with(block.items@, kind),
                    kind,
                ),
            ),
        ),
{
    let items = block.items@;
    let ps = pairs_with(items, kind);
    lemma_role_blocks(items, kind);
    lemma_of_kind(c.commanders@, commander_roles(pairs_of(items)), kind);
    lemma_block_values_all(ps);
    let v = of_kind(c.commanders@, kind);
    let roles = RoleList::Commanders(v);
    assert forall|k: int| 0 <= k < roles.count() implies nothing_run(
        #[trigger] roles.changes(b, ps[k].value->Block_0, k),
    ) by {
        assert(commander_read(v[k], kind, block_values(ps)[k]));
        assert(commander_as_saved(ps[k].value->Block_0, kind));
        lemma_commander_read(b, ps[k].value->Block_0, v[k], kind);
    }
    lemma_roles_read(b, block, roles, kind);
}

/// An update copied from a character read out of a block written as it is
/// saved changes nothing inside that block.
#[verifier::rlimit(80)]
proof fn lemma_read_changes_nothing(b: Seq<u8>, block: Block, id: Seq<char>, start: int, c: Character, u: CharacterUpdate)
    requires
        character_read(b, c, id, block, start),
        copied_from(u, c),
        character_as_saved(b, block),
    ensures
        nothing_run(character_runs(b, block, u)),
        first_unknown_kind(u.commanders@, 0) is None,
{
    let items = block.items@;
    assert(body_block(block) == block);
    lemma_plain_field(b, block, "name"@);
    lemma_plain_field(b, block, "gender"@);
    lemma_portraits_read(b, block, c);
    lemma_body_read(b, block, "allowed_civil_war"@);
    let lps = pairs_with(items, "country_leader"@);
    lemma_block_values_all(lps);
    let leaders = RoleList::Leaders(u.leaders@);
    assert forall|k: int| 0 <= k < leaders.count() implies nothing_run(
        #[trigger] leaders.changes(b, lps[k].value->Block_0, k),
    ) by {
        assert(leader_read(c.leaders@[k], block_values(lps)[k]));
        assert(leader_as_saved(lps[k].value->Block_0));
        lemma_leader_read(b, lps[k].value->Block_0, u.leaders@[k]);
    }
    lemma_roles_read(b, block, leaders, "country_leader"@);
    let aps = pairs_with(items, "advisor"@);
    lemma_block_values_all(aps);
    let advisors = RoleList::Advisors(u.advisors@);
    assert forall|k: int| 0 <= k < advisors.count() implies nothing_run(
        #[trigger] advisors.changes(b, aps[k].value->Block_0, k),
    ) by {
        assert(advisor_read(b, c.advisors@[k], block_values(aps)[k]));
        assert(advisor_as_saved(b, aps[k].value->Block_0));
        lemma_advisor_read(b, aps[k].value->Block_0, u.advisors@[k]);
    }
    lemma_roles_read(b, block, advisors, "advisor"@);
    reveal_strlit("corps_commander");
    reveal_strlit("field_marshal");
    reveal_strlit("navy_leader");
    lemma_commanders_read(b, block, c, "corps_commander"@);
    lemma_commanders_read(b, block, c, "field_marshal"@);
    lemma_commanders_read(b, block, c, "navy_leader"@);
    lemma_roles_known(pairs_of(items));
    assert forall|k: int| 0 <= k < u.commanders@.len() implies known_kind(#[trigger] u.commanders@[k].kind@) by {
        assert(commander_read(c.commanders@[k], commander_roles(pairs_of(items))[k].0, commander_roles(pairs_of(items))[k].1));
        assert(known_kind(commander_roles(pairs_of(items))[k].0));
    }
    lemma_no_unknown_kind(u.commanders@, 0);
    let r0 = Some(seq![scalar_change_spec(b, block, "name"@, u.name@)]);
    assert(nothing_run(r0));
    let x1 = Some(seq![scalar_change_spec(b, block, "gender"@, u.gender@)]);
    assert(nothing_run(x1));
    lemma_then_nothing(r0, x1);
    let r1 = then_runs(r0, x1);
    let x2 = portraits_change(b, block, u.portraits);
    assert(nothing_run(x2));
    lemma_then_nothing(r1, x2);
    let r2 = then_runs(r1, x2);
    let x3 = checked_block(b, block, "allowed_civil_war"@, u.allowed_civil_war@);
    assert(nothing_run(x3));
    lemma_then_nothing(r2, x3);
    let r3 = then_runs(r2, x3);
    let x4 = all_runs(RoleList::Leaders(u.leaders@).attempts(b, block, pairs_with(block.items@, "country_leader"@), "country_leader"@));
    assert(nothing_run(x4));
    lemma_then_nothing(r3, x4);
    let r4 = then_runs(r3, x4);
    let x5 = all_runs(RoleList::Advisors(u.advisors@).attempts(b, block, pairs_with(block.items@, "advisor"@), "advisor"@));
    assert(nothing_run(x5));
    lemma_then_nothing(r4, x5);
    let r5 = then_runs(r4, x5);
    let x6 = all_runs(RoleList::Commanders(of_kind(u.commanders@, "corps_commander"@)).attempts(b, block, pairs_with(block.items@, "corps_commander"@), "corps_commander"@));
    assert(nothing_run(x6));
    lemma_then_nothing(r5, x6);
    let r6 = then_runs(r5, x6);
    let x7 = all_runs(RoleList::Commanders(of_kind(u.commanders@, "field_marshal"@)).attempts(b, block, pairs_with(block.items@, "field_marshal"@), "field_marshal"@));
    assert(nothing_run(x7));
    lemma_then_nothing(r6, x7);
    let r7 = then_runs(r6, x7);
    let x8 = all_runs(RoleList::Commanders(of_kind(u.commanders@, "navy_leader"@)).attempts(b, block, pairs_with(block.items@, "navy_leader"@), "navy_leader"@));
    assert(nothing_run(x8));
    lemma_then_nothing(r7, x8);
    let r8 = then_runs(r7, x8);
    assert(character_runs(b, block, u) == r8);
}

/// Law: saving a character exactly as it was read changes no byte of the
/// file, wherever its block is written the way `update_source` writes one
/// and its id is one the editor accepts. The update is not refused, and the
/// text it saves is the source.
pub proof fn law_saving_a_character_as_read_keeps_the_file(
    source: &str,
    path: Seq<char>,
    items: Seq<Item>,
    id: Seq<char>,
    p: Pair,
    block: Block,
    start: int,
    c: Character,
    u: CharacterUpdate,
    r: Result<String, EditError>,
)
    requires
        find_character_spec(items, id) == Some(p),
        p.value == Value::Block(block),
        trim_spec(id) == id,
        id.len() > 0,
        id_ok(id),
        character_as_saved(bytes_of(source), block),
        character_read(bytes_of(source), c, id, block, start),
        copied_from(u, c),
    ensures
        update_refusal(bytes_of(source), path, items, id, u) is None,
        saved_as(bytes_of(source), character_edits(bytes_of(source), items, id, u), r) ==> (r matches Ok(
            text,
        ) && text@ == source@),
{
    let b = bytes_of(source);
    lemma_read_changes_nothing(b, block, id, start, c, u);
    assert(validate_spec(u) is None);
    if saved_as(b, character_edits(b, items, id, u), r) {
        let cs = character_runs(b, block, u)->0;
        lemma_nothing_hands_on_nothing(b, block, cs);
        assert(rename_views(p, id, trim_spec(u.id@)) + Seq::<(Span, Seq<char>)>::empty()
            =~= Seq::<(Span, Seq<char>)>::empty());
        law_nothing_changed_keeps_the_file(source, block, cs, r);
    }
}

} // verus!
