//! Sprite lookup: the `GFX_...` name a script uses, resolved to a picture.
//!
//! A focus names its icon but never says where the art is. The sprite is
//! defined in `interface/*.gfx`, which points at a `.dds` or `.tga` somewhere
//! under `gfx/`. Two overrides are in play and they are not the same one:
//!
//! - A mod inherits every sprite the game defines and may redefine any of
//!   them, so the game's `.gfx` files are read first and the mod's land on top.
//! - The texture is then looked for in the mod before the game, whichever
//!   folder defined the sprite, because dropping a file at the same relative
//!   path is how art is usually replaced.
use crate::map::{decimal_spec, parse_decimal};
use crate::paradox::parser::scalar_spec;
use crate::paradox::{Block, Document, Item, Items, Value};
use crate::text::{
    replace_char, replace_char_in, to_uppercase, trim, trim_spec, trim_start_char,
    trim_start_matches_char, uppercase,
};
use vstd::prelude::*;

verus! {

/// Icons are drawn small, so the art is downscaled before it crosses the
/// bridge. Anything wanting it at full size has the texture path.
pub const ICON_MAX_DIMENSION: u32 = 128;

/// How far into a `.gfx` file to look for definitions. They sit one level
/// down, inside `spriteTypes = { ... }`.
pub const MAX_DEPTH: usize = 3;

#[derive(Debug, Clone)]
pub struct SpriteIcon {
    pub name: String,
    /// PNG data URL, or none when the sprite or its texture was not found.
    pub url: Option<String>,
    /// The texture behind it, empty when nothing resolved it.
    pub path: String,
}

/// One hit from [`SpriteIndex::search`].
#[derive(Debug, Clone)]
pub struct SpriteMatch {
    pub name: String,
    /// Texture path as written in the definition, relative to a mod or game
    /// folder; not checked against the disk.
    pub texture: String,
    pub frames: u32,
}

/// A sprite definition, under the key scripts find it by.
#[derive(Debug, Clone)]
pub struct Sprite {
    /// The upper cased, trimmed name, which scripts spell freely.
    pub key: String,
    /// The name as the `.gfx` file spells it, for showing to people.
    pub name: String,
    /// Texture path as written, relative to a mod or game folder.
    pub texture: String,
    /// `noOfFrames`: one strip holds the same icon in several states.
    pub frames: u32,
}

/// A sprite as plain values.
pub struct SpriteView {
    pub name: Seq<char>,
    pub texture: Seq<char>,
    pub frames: u32,
}

pub open spec fn sprite_view(s: Sprite) -> SpriteView {
    SpriteView { name: s.name@, texture: s.texture@, frames: s.frames }
}

/// The key a sprite name is found by, however a script spells it.
pub open spec fn sprite_key(name: Seq<char>) -> Seq<char> {
    uppercase(trim_spec(name))
}

/// The sprites of a list, by key.
pub open spec fn sprite_map(s: Seq<Sprite>) -> Map<Seq<char>, SpriteView> {
    Map::new(
        |k: Seq<char>| exists|i: int| 0 <= i < s.len() && #[trigger] s[i].key@ == k,
        |k: Seq<char>| sprite_view(s[choose|i: int| 0 <= i < s.len() && #[trigger] s[i].key@ == k]),
    )
}

/// No key appears twice.
pub open spec fn distinct_keys(s: Seq<Sprite>) -> bool {
    forall|i: int, j: int| 0 <= i < j < s.len() ==> #[trigger] s[i].key@ != #[trigger] s[j].key@
}

/// Every sprite definition the mod plays with, by key.
pub struct SpriteIndex {
    sprites: Vec<Sprite>,
}

impl View for SpriteIndex {
    type V = Map<Seq<char>, SpriteView>;

    closed spec fn view(&self) -> Map<Seq<char>, SpriteView> {
        sprite_map(self.sprites@)
    }
}

proof fn lemma_map_at(s: Seq<Sprite>, i: int)
    requires
        distinct_keys(s),
        0 <= i < s.len(),
    ensures
        sprite_map(s).contains_key(s[i].key@),
        sprite_map(s)[s[i].key@] == sprite_view(s[i]),
{
    let k = s[i].key@;
    assert(s[i].key@ == k);
    let j = choose|j: int| 0 <= j < s.len() && #[trigger] s[j].key@ == k;
    assert(j == i) by {
        if j < i {
            assert(s[j].key@ != s[i].key@);
        } else if j > i {
            assert(s[i].key@ != s[j].key@);
        }
    }
}

proof fn lemma_map_len(s: Seq<Sprite>)
    requires
        distinct_keys(s),
    ensures
        sprite_map(s).dom().finite(),
        sprite_map(s).dom().len() == s.len(),
    decreases s.len(),
{
    if s.len() == 0 {
        assert(sprite_map(s).dom() =~= Set::<Seq<char>>::empty());
    } else {
        let d = s.drop_last();
        assert(distinct_keys(d)) by {
            assert forall|i: int, j: int| 0 <= i < j < d.len() implies #[trigger] d[i].key@
                != #[trigger] d[j].key@ by {
                assert(d[i] == s[i] && d[j] == s[j]);
            }
        }
        lemma_map_len(d);
        let last = s.last().key@;
        assert forall|k: Seq<char>| #[trigger] sprite_map(s).dom().contains(k) <==> sprite_map(
            d,
        ).dom().insert(last).contains(k) by {
            if sprite_map(s).dom().contains(k) {
                let i = choose|i: int| 0 <= i < s.len() && #[trigger] s[i].key@ == k;
                if i < d.len() {
                    assert(d[i].key@ == k);
                }
            }
            if sprite_map(d).dom().contains(k) {
                let i = choose|i: int| 0 <= i < d.len() && #[trigger] d[i].key@ == k;
                assert(s[i].key@ == k);
            }
            if k == last {
                assert(s[s.len() - 1].key@ == k);
            }
        }
        assert(sprite_map(s).dom() =~= sprite_map(d).dom().insert(last));
        assert(!sprite_map(d).dom().contains(last)) by {
            if sprite_map(d).dom().contains(last) {
                let i = choose|i: int| 0 <= i < d.len() && #[trigger] d[i].key@ == last;
                assert(s[i].key@ == s[s.len() - 1].key@);
            }
        }
    }
}

impl SpriteIndex {
    #[verifier::type_invariant]
    spec fn keys_are_distinct(&self) -> bool {
        distinct_keys(self.sprites@)
    }

    /// An index with nothing in it.
    pub fn new() -> (r: Self)
        ensures
            r@ == Map::<Seq<char>, SpriteView>::empty(),
    {
        let r = SpriteIndex { sprites: Vec::new() };
        assert(r@ =~= Map::<Seq<char>, SpriteView>::empty());
        r
    }

    /// How many sprites are defined.
    pub fn len(&self) -> (r: usize)
        ensures
            r == self@.dom().len(),
    {
        proof {
            use_type_invariant(self);
            lemma_map_len(self.sprites@);
        }
        self.sprites.len()
    }

    /// Defines, or redefines, the sprite under `sprite.key`.
    pub fn insert(&mut self, sprite: Sprite)
        ensures
            final(self)@ == old(self)@.insert(sprite.key@, sprite_view(sprite)),
    {
        proof {
            use_type_invariant(&*self);
        }
        let ghost before = self.sprites@;
        let mut i: usize = 0;
        while i < self.sprites.len()
            invariant
                self.sprites@ == before,
                before == old(self).sprites@,
                distinct_keys(before),
                i <= before.len(),
                forall|j: int| 0 <= j < i ==> #[trigger] before[j].key@ != sprite.key@,
            decreases before.len() - i,
        {
            if crate::text::str_eq(self.sprites[i].key.as_str(), sprite.key.as_str()) {
                let ghost key = sprite.key@;
                let ghost v = sprite_view(sprite);
                let mut sprites = Vec::new();
                std::mem::swap(&mut sprites, &mut self.sprites);
                sprites.set(i, sprite);
                let ghost after = sprites@;
                proof {
                    assert(after == before.update(i as int, after[i as int]));
                    assert(distinct_keys(after)) by {
                        assert forall|a: int, b: int| 0 <= a < b < after.len() implies #[trigger] after[a].key@
                            != #[trigger] after[b].key@ by {
                            if a != i && b != i {
                                assert(after[a] == before[a] && after[b] == before[b]);
                            } else if a == i {
                                assert(after[b] == before[b]);
                                assert(before[i as int].key@ != before[b].key@);
                            } else {
                                assert(after[a] == before[a]);
                                assert(before[a].key@ != before[i as int].key@);
                            }
                        }
                    }
                    assert(sprite_map(after) =~= sprite_map(before).insert(key, v)) by {
                        assert forall|k: Seq<char>| #[trigger] sprite_map(after).contains_key(k)
                            <==> sprite_map(before).insert(key, v).contains_key(k) by {
                            if sprite_map(after).contains_key(k) {
                                let j = choose|j: int| 0 <= j < after.len() && #[trigger] after[j].key@ == k;
                                if j != i {
                                    assert(before[j].key@ == k);
                                }
                            }
                            if sprite_map(before).contains_key(k) {
                                let j = choose|j: int| 0 <= j < before.len() && #[trigger] before[j].key@ == k;
                                if j != i {
                                    assert(after[j].key@ == k);
                                } else {
                                    assert(after[i as int].key@ == k);
                                }
                            }
                            if k == key {
                                assert(after[i as int].key@ == k);
                            }
                        }
                        assert forall|k: Seq<char>| #[trigger] sprite_map(after).contains_key(k)
                            implies sprite_map(after)[k] == sprite_map(before).insert(key, v)[k] by {
                            let j = choose|j: int| 0 <= j < after.len() && #[trigger] after[j].key@ == k;
                            lemma_map_at(after, j);
                            if j != i {
                                assert(before[j] == after[j]);
                                lemma_map_at(before, j);
                            }
                        }
                    }
                }
                self.sprites = sprites;
                return;
            }
            i = i + 1;
        }
        let ghost key = sprite.key@;
        let ghost v = sprite_view(sprite);
        let mut sprites = Vec::new();
        std::mem::swap(&mut sprites, &mut self.sprites);
        sprites.push(sprite);
        let ghost after = sprites@;
        proof {
            assert(after == before.push(after.last()));
            assert(distinct_keys(after)) by {
                assert forall|a: int, b: int| 0 <= a < b < after.len() implies #[trigger] after[a].key@
                    != #[trigger] after[b].key@ by {
                    assert(after[a] == before[a]);
                    if b < before.len() {
                        assert(after[b] == before[b]);
                    }
                }
            }
            assert(sprite_map(after) =~= sprite_map(before).insert(key, v)) by {
                assert forall|k: Seq<char>| #[trigger] sprite_map(after).contains_key(k)
                    <==> sprite_map(before).insert(key, v).contains_key(k) by {
                    if sprite_map(after).contains_key(k) {
                        let j = choose|j: int| 0 <= j < after.len() && #[trigger] after[j].key@ == k;
                        if j < before.len() {
                            assert(before[j].key@ == k);
                        }
                    }
                    if sprite_map(before).contains_key(k) {
                        let j = choose|j: int| 0 <= j < before.len() && #[trigger] before[j].key@ == k;
                        assert(after[j].key@ == k);
                    }
                    if k == key {
                        assert(after[before.len() as int].key@ == k);
                    }
                }
                assert forall|k: Seq<char>| #[trigger] sprite_map(after).contains_key(k)
                    implies sprite_map(after)[k] == sprite_map(before).insert(key, v)[k] by {
                    let j = choose|j: int| 0 <= j < after.len() && #[trigger] after[j].key@ == k;
                    lemma_map_at(after, j);
                    if j < before.len() {
                        assert(before[j] == after[j]);
                        lemma_map_at(before, j);
                    }
                }
            }
        }
        self.sprites = sprites;
    }

    /// The sprite a name stands for, however it is spelled.
    pub fn find(&self, name: &str) -> (r: Option<SpriteMatch>)
        ensures
            match self@.get(sprite_key(name@)) {
                Some(s) => r matches Some(m) && m.name@ == s.name && m.texture@ == s.texture
                    && m.frames == s.frames,
                None => r is None,
            },
    {
        proof {
            use_type_invariant(self);
        }
        let key = sprite_key_of(name);
        let mut i: usize = 0;
        while i < self.sprites.len()
            invariant
                distinct_keys(self.sprites@),
                key@ == sprite_key(name@),
                i <= self.sprites.len(),
                forall|j: int| 0 <= j < i ==> #[trigger] self.sprites@[j].key@ != key@,
            decreases self.sprites.len() - i,
        {
            if crate::text::str_eq(self.sprites[i].key.as_str(), key.as_str()) {
                proof {
                    lemma_map_at(self.sprites@, i as int);
                }
                let s = &self.sprites[i];
                return Some(
                    SpriteMatch {
                        name: s.name.as_str().to_owned(),
                        texture: s.texture.as_str().to_owned(),
                        frames: s.frames,
                    },
                );
            }
            i = i + 1;
        }
        proof {
            if self@.contains_key(key@) {
                let j = choose|j: int| 0 <= j < self.sprites@.len() && #[trigger] self.sprites@[j].key@ == key@;
            }
        }
        None
    }
}

/// The key a sprite name is found by.
pub fn sprite_key_of(name: &str) -> (r: String)
    ensures
        r@ == sprite_key(name@),
{
    let trimmed = trim(name);
    to_uppercase(trimmed.as_str())
}


/// `noOfFrames`, when it reads as a number above one; otherwise one.
pub open spec fn frames_spec(items: Seq<Item>) -> u32 {
    match scalar_spec(items, "noOfFrames"@) {
        Some(v) => match decimal_spec(trim_spec(v), 0xffff_ffff) {
            Some(n) => if n > 1 {
                n as u32
            } else {
                1
            },
            None => 1,
        },
        None => 1,
    }
}

/// The sprite a block defines, under its key: a block naming both a `name`
/// and a `texturefile`.
pub open spec fn sprite_of(items: Seq<Item>) -> Option<(Seq<char>, SpriteView)> {
    match (scalar_spec(items, "name"@), scalar_spec(items, "texturefile"@)) {
        (Some(name), Some(texture)) => Some(
            (
                sprite_key(name),
                SpriteView { name: trim_spec(name), texture, frames: frames_spec(items) },
            ),
        ),
        _ => None,
    }
}

/// The sprites after reading `items`: any block naming a texture, whatever
/// wraps it, down to `depth` levels of other blocks.
pub open spec fn collected_items(
    m: Map<Seq<char>, SpriteView>,
    items: Seq<Item>,
    depth: nat,
) -> Map<Seq<char>, SpriteView>
    decreases items,
{
    if items.len() == 0 {
        m
    } else {
        collected_item(collected_items(m, items.drop_last(), depth), items.last(), depth)
    }
}

pub open spec fn collected_item(m: Map<Seq<char>, SpriteView>, it: Item, depth: nat) -> Map<
    Seq<char>,
    SpriteView,
>
    decreases it,
{
    match it {
        Item::Pair(p) => match p.value {
            Value::Block(b) => match sprite_of(b.items@) {
                Some((key, sprite)) => m.insert(key, sprite),
                None => if depth > 0 {
                    collected_items(m, b.items@, (depth - 1) as nat)
                } else {
                    m
                },
            },
            Value::Scalar(_) => m,
        },
        Item::Value(_) => m,
    }
}

/// The sprite a definition block describes, if it names both a `name` and
/// a `texturefile`.
pub fn read_sprite(block: &Block) -> (r: Option<Sprite>)
    ensures
        match sprite_of(block.items@) {
            Some((key, v)) => r matches Some(s) && s.key@ == key && sprite_view(s) == v,
            None => r is None,
        },
{
    let name = match block.scalar("name") {
        Some(name) => name,
        None => {
            return None;
        },
    };
    let texture = match block.scalar("texturefile") {
        Some(texture) => texture,
        None => {
            return None;
        },
    };
    let frames: u32 = match block.scalar("noOfFrames") {
        Some(value) => match parse_decimal(trim(value.as_str()).as_str(), 0xffff_ffff) {
            Some(n) => if n > 1 {
                n
            } else {
                1
            },
            None => 1,
        },
        None => 1,
    };
    Some(Sprite { key: sprite_key_of(name.as_str()), name: trim(name.as_str()), texture, frames })
}

fn collect(items: &Vec<Item>, depth: usize, into: &mut SpriteIndex)
    ensures
        final(into)@ == collected_items(old(into)@, items@, depth as nat),
    decreases items@,
{
    let mut i: usize = 0;
    while i < items.len()
        invariant
            i <= items@.len(),
            into@ == collected_items(old(into)@, items@.take(i as int), depth as nat),
        decreases items@.len() - i,
    {
        let ghost start = into@;
        proof {
            assert(items@.take(i + 1).drop_last() =~= items@.take(i as int));
            assert(items@.take(i + 1).last() == items@[i as int]);
            assert(collected_items(old(into)@, items@.take(i + 1), depth as nat) == collected_item(
                start,
                items@[i as int],
                depth as nat,
            ));
        }
        if let Item::Pair(pair) = &items[i] {
            if let Value::Block(block) = &pair.value {
                match read_sprite(block) {
                    Some(sprite) => {
                        into.insert(sprite);
                    },
                    None => {
                        if depth > 0 {
                            proof {
                                assert(decreases_to!(items@ => block.items@));
                            }
                            collect(&block.items, depth - 1, into);
                        }
                    },
                }
            }
        }
        i = i + 1;
    }
    proof {
        assert(items@.take(items@.len() as int) =~= items@);
    }
}

impl SpriteIndex {
    /// Reads the definitions of a parsed `.gfx` file into the index: any
    /// block naming a texture, whatever wraps it, as deep as definitions sit.
    /// A definition under a key already known replaces it.
    pub fn add_definitions(&mut self, document: &Document)
        ensures
            final(self)@ == collected_items(old(self)@, document.items@, MAX_DEPTH as nat),
    {
        collect(&document.items, MAX_DEPTH, self);
    }
}


/// `needle` occurs somewhere in `hay`.
pub open spec fn contains_chars(hay: Seq<char>, needle: Seq<char>) -> bool {
    exists|i: int|
        0 <= i && i + needle.len() <= hay.len() && #[trigger] hay.subrange(i, i + needle.len())
            == needle
}

/// `needle` occurs in `hay` at position `i`.
fn occurs_at(hay: &Vec<char>, needle: &Vec<char>, i: usize) -> (r: bool)
    requires
        i + needle.len() <= hay.len(),
    ensures
        r == (hay@.subrange(i as int, i + needle@.len()) == needle@),
{
    let mut k: usize = 0;
    while k < needle.len()
        invariant
            i + needle.len() <= hay.len(),
            k <= needle.len(),
            forall|t: int| 0 <= t < k ==> hay@[i + t] == needle@[t],
        decreases needle.len() - k,
    {
        if hay[i + k] != needle[k] {
            proof {
                assert(hay@.subrange(i as int, i + needle@.len())[k as int] != needle@[k as int]);
            }
            return false;
        }
        k = k + 1;
    }
    proof {
        assert(hay@.subrange(i as int, i + needle@.len()) =~= needle@);
    }
    true
}

/// `str::contains` with a text pattern.
pub fn contains_text(hay: &str, needle: &str) -> (r: bool)
    ensures
        r == contains_chars(hay@, needle@),
{
    let h = crate::text::chars_of(hay);
    let n = crate::text::chars_of(needle);
    if n.len() > h.len() {
        return false;
    }
    let last = h.len() - n.len();
    let mut i: usize = 0;
    loop
        invariant
            h@ == hay@,
            n@ == needle@,
            last == h.len() - n.len(),
            i <= last,
            forall|j: int|
                0 <= j < i ==> #[trigger] h@.subrange(j, j + n@.len()) != n@,
        ensures
            forall|j: int|
                0 <= j <= last ==> #[trigger] h@.subrange(j, j + n@.len()) != n@,
        decreases last - i,
    {
        if occurs_at(&h, &n, i) {
            return true;
        }
        if i == last {
            break;
        }
        i = i + 1;
    }
    proof {
        if contains_chars(hay@, needle@) {
            let j = choose|j: int|
                0 <= j && j + needle@.len() <= hay@.len() && #[trigger] hay@.subrange(
                    j,
                    j + needle@.len(),
                ) == needle@;
            assert(h@.subrange(j, j + n@.len()) == n@);
        }
    }
    false
}

/// `a` sorts before `b`, character by character, a prefix first: the order
/// of `String`, since UTF-8 keeps the order of code points.
pub open spec fn chars_less(a: Seq<char>, b: Seq<char>) -> bool
    decreases a.len(),
{
    if a.len() == 0 {
        b.len() > 0
    } else if b.len() == 0 {
        false
    } else if a[0] < b[0] {
        true
    } else if a[0] > b[0] {
        false
    } else {
        chars_less(a.drop_first(), b.drop_first())
    }
}

proof fn lemma_less_transitive(a: Seq<char>, b: Seq<char>, c: Seq<char>)
    requires
        chars_less(a, b),
        chars_less(b, c),
    ensures
        chars_less(a, c),
    decreases a.len(),
{
    if a.len() > 0 {
        assert(b.len() > 0);
        assert(c.len() > 0);
        if a[0] == b[0] && b[0] == c[0] {
            lemma_less_transitive(a.drop_first(), b.drop_first(), c.drop_first());
        }
    }
}

proof fn lemma_less_irreflexive(a: Seq<char>)
    ensures
        !chars_less(a, a),
    decreases a.len(),
{
    if a.len() > 0 {
        lemma_less_irreflexive(a.drop_first());
    }
}

/// `a` sorts before `b`.
pub fn text_less(a: &str, b: &str) -> (r: bool)
    ensures
        r == chars_less(a@, b@),
{
    let x = crate::text::chars_of(a);
    let y = crate::text::chars_of(b);
    let mut i: usize = 0;
    proof {
        assert(x@.skip(0) =~= x@);
        assert(y@.skip(0) =~= y@);
    }
    while i < x.len() && i < y.len() && x[i] == y[i]
        invariant
            x@ == a@,
            y@ == b@,
            i <= x.len(),
            i <= y.len(),
            chars_less(a@, b@) == chars_less(x@.skip(i as int), y@.skip(i as int)),
        decreases x.len() - i,
    {
        proof {
            assert(x@.skip(i as int).drop_first() =~= x@.skip(i as int + 1));
            assert(y@.skip(i as int).drop_first() =~= y@.skip(i as int + 1));
        }
        i = i + 1;
    }
    proof {
        let (xs, ys) = (x@.skip(i as int), y@.skip(i as int));
        if i < x.len() {
            assert(xs[0] == x@[i as int]);
        }
        if i < y.len() {
            assert(ys[0] == y@[i as int]);
        }
        if i == x.len() {
            assert(xs.len() == 0);
            assert(chars_less(xs, ys) == (ys.len() > 0));
        } else if i == y.len() {
            assert(ys.len() == 0);
            assert(!chars_less(xs, ys));
        } else {
            assert(x@[i as int] != y@[i as int]);
            assert(chars_less(xs, ys) == (x@[i as int] < y@[i as int]));
        }
    }
    if i == x.len() {
        i < y.len()
    } else if i == y.len() {
        false
    } else {
        x[i] < y[i]
    }
}

/// A key the search for `needle` finds: any key when the needle is empty.
pub open spec fn is_hit(key: Seq<char>, needle: Seq<char>) -> bool {
    needle.len() == 0 || contains_chars(key, needle)
}

/// A search hit describing sprite `v`.
pub open spec fn describes(m: SpriteMatch, v: SpriteView) -> bool {
    m.name@ == v.name && m.texture@ == v.texture && m.frames == v.frames
}

/// `v` is ordered by name, equal names in any order.
pub open spec fn sorted_by_name(v: Seq<SpriteMatch>) -> bool {
    forall|i: int, j: int| 0 <= i < j < v.len() ==> !chars_less(#[trigger] v[j].name@, #[trigger] v[i].name@)
}

/// Where `m` goes in the sorted `v`: after every entry it does not sort
/// before.
fn insertion_point(v: &Vec<SpriteMatch>, m: &SpriteMatch) -> (r: usize)
    requires
        sorted_by_name(v@),
    ensures
        r <= v.len(),
        forall|q: int| 0 <= q < r ==> !chars_less(m.name@, #[trigger] v@[q].name@),
        r < v.len() ==> chars_less(m.name@, v@[r as int].name@),
{
    let mut i: usize = 0;
    while i < v.len()
        invariant
            i <= v.len(),
            forall|q: int| 0 <= q < i ==> !chars_less(m.name@, #[trigger] v@[q].name@),
        decreases v.len() - i,
    {
        if text_less(m.name.as_str(), v[i].name.as_str()) {
            return i;
        }
        i = i + 1;
    }
    i
}

impl SpriteIndex {
    /// Sprites whose name contains `query`, however either is cased, ordered
    /// by name so the same search always reads the same way, at most `limit`
    /// of them: the first `limit` in that order.
    pub fn search(&self, query: &str, limit: usize) -> (r: Vec<SpriteMatch>)
        ensures
            r.len() <= limit,
            sorted_by_name(r@),
            exists|ks: Seq<Seq<char>>|
                {
                    &&& ks.len() == r.len()
                    &&& ks.no_duplicates()
                    &&& forall|i: int|
                        0 <= i < r.len() ==> self@.contains_key(#[trigger] ks[i]) && is_hit(
                            ks[i],
                            sprite_key(query@),
                        ) && describes(r@[i], self@[ks[i]])
                    &&& forall|k: Seq<char>|
                        self@.contains_key(k) && is_hit(k, sprite_key(query@)) && !(
                        #[trigger] ks.contains(k)) ==> r.len() == limit && (limit > 0
                            ==> !chars_less(self@[k].name, r@[limit - 1].name@))
                },
    {
        proof {
            use_type_invariant(self);
        }
        let needle = sprite_key_of(query);
        let mut hits: Vec<SpriteMatch> = Vec::new();
        let ghost mut ks: Seq<Seq<char>> = Seq::empty();
        let mut i: usize = 0;
        while i < self.sprites.len()
            invariant
                distinct_keys(self.sprites@),
                needle@ == sprite_key(query@),
                i <= self.sprites.len(),
                sorted_by_name(hits@),
                ks.len() == hits.len(),
                ks.no_duplicates(),
                forall|t: int|
                    #![trigger hits@[t]]
                    0 <= t < hits.len() ==> exists|j: int|
                        0 <= j < i && #[trigger] self.sprites@[j].key@ == ks[t] && describes(
                            hits@[t],
                            sprite_view(self.sprites@[j]),
                        ),
                forall|t: int| 0 <= t < ks.len() ==> is_hit(#[trigger] ks[t], needle@),
                forall|j: int|
                    0 <= j < i && is_hit(self.sprites@[j].key@, needle@) ==> ks.contains(
                        #[trigger] self.sprites@[j].key@,
                    ),
                forall|t: int|
                    #![trigger ks[t]]
                    0 <= t < ks.len() ==> exists|j: int| 0 <= j < i && #[trigger] self.sprites@[j].key@ == ks[t],
            decreases self.sprites.len() - i,
        {
            let sprite = &self.sprites[i];
            if needle.as_str().is_empty() || contains_text(sprite.key.as_str(), needle.as_str()) {
                let m = SpriteMatch {
                    name: sprite.name.as_str().to_owned(),
                    texture: sprite.texture.as_str().to_owned(),
                    frames: sprite.frames,
                };
                let p = insertion_point(&hits, &m);
                let ghost before = hits@;
                let ghost key = sprite.key@;
                proof {
                    assert(!ks.contains(key)) by {
                        if ks.contains(key) {
                            let t = choose|t: int| 0 <= t < ks.len() && ks[t] == key;
                            let j = choose|j: int| 0 <= j < i && #[trigger] self.sprites@[j].key@ == ks[t];
                            assert(self.sprites@[j].key@ != self.sprites@[i as int].key@);
                        }
                    }
                }
                hits.insert(p, m);
                proof {
                    let old_ks = ks;
                    ks = ks.insert(p as int, key);
                    assert(hits@ == before.insert(p as int, m));
                    assert(sorted_by_name(hits@)) by {
                        assert forall|a: int, b: int| 0 <= a < b < hits@.len() implies !chars_less(
                            #[trigger] hits@[b].name@,
                            #[trigger] hits@[a].name@,
                        ) by {
                            if b < p {
                                assert(hits@[a] == before[a] && hits@[b] == before[b]);
                            } else if b == p {
                                assert(hits@[a] == before[a] && hits@[b] == m);
                            } else if a < p {
                                assert(hits@[a] == before[a] && hits@[b] == before[b - 1]);
                            } else if a == p {
                                assert(hits@[a] == m && hits@[b] == before[b - 1]);
                                assert(chars_less(m.name@, before[p as int].name@));
                                if chars_less(before[b - 1].name@, m.name@) {
                                    lemma_less_transitive(
                                        before[b - 1].name@,
                                        m.name@,
                                        before[p as int].name@,
                                    );
                                    if b - 1 == p {
                                        lemma_less_irreflexive(before[p as int].name@);
                                    }
                                }
                            } else {
                                assert(hits@[a] == before[a - 1] && hits@[b] == before[b - 1]);
                            }
                        }
                    }
                    assert(ks.no_duplicates()) by {
                        assert forall|a: int, b: int| 0 <= a < ks.len() && 0 <= b < ks.len() && a
                            != b implies ks[a] != ks[b] by {
                            if a != p && b != p {
                            } else if a == p {
                                assert(old_ks.contains(ks[b]) ==> ks[b] != key);
                                if b < p {
                                    assert(ks[b] == old_ks[b]);
                                } else {
                                    assert(ks[b] == old_ks[b - 1]);
                                }
                            } else {
                                if a < p {
                                    assert(ks[a] == old_ks[a]);
                                } else {
                                    assert(ks[a] == old_ks[a - 1]);
                                }
                            }
                        }
                    }
                    assert forall|t: int| #![trigger hits@[t]] 0 <= t < hits.len() implies exists|j: int|
                        0 <= j < i + 1 && #[trigger] self.sprites@[j].key@ == ks[t] && describes(
                            hits@[t],
                            sprite_view(self.sprites@[j]),
                        ) by {
                        if t < p {
                            assert(hits@[t] == before[t] && ks[t] == old_ks[t]);
                        } else if t == p {
                            assert(self.sprites@[i as int].key@ == ks[t]);
                        } else {
                            assert(hits@[t] == before[t - 1] && ks[t] == old_ks[t - 1]);
                        }
                    }
                    assert forall|t: int| #![trigger ks[t]] 0 <= t < ks.len() implies exists|j: int|
                        0 <= j < i + 1 && #[trigger] self.sprites@[j].key@ == ks[t] by {
                        if t < p {
                            assert(ks[t] == old_ks[t]);
                        } else if t == p {
                            assert(self.sprites@[i as int].key@ == ks[t]);
                        } else {
                            assert(ks[t] == old_ks[t - 1]);
                        }
                    }
                    assert forall|t: int| 0 <= t < ks.len() implies is_hit(#[trigger] ks[t], needle@) by {
                        if t < p {
                            assert(ks[t] == old_ks[t]);
                        } else if t > p {
                            assert(ks[t] == old_ks[t - 1]);
                        }
                    }
                    assert forall|j: int|
                        0 <= j < i + 1 && is_hit(self.sprites@[j].key@, needle@) implies ks.contains(
                        #[trigger] self.sprites@[j].key@,
                    ) by {
                        if j < i {
                            let t = choose|t: int| 0 <= t < old_ks.len() && old_ks[t] == self.sprites@[j].key@;
                            if t < p {
                                assert(ks[t] == old_ks[t]);
                            } else {
                                assert(ks[t + 1] == old_ks[t]);
                            }
                        } else {
                            assert(ks[p as int] == key);
                        }
                    }
                }
            }
            i = i + 1;
        }
        let ghost all = ks;
        let ghost full = hits@;
        hits.truncate(limit);
        proof {
            ks = all.take(hits.len() as int);
            assert(hits@ == full.take(hits.len() as int));
            assert(ks.len() == hits.len());
            assert(ks.no_duplicates()) by {
                assert forall|a: int, b: int| 0 <= a < ks.len() && 0 <= b < ks.len() && a != b implies ks[a]
                    != ks[b] by {
                    assert(ks[a] == all[a] && ks[b] == all[b]);
                }
            }
            assert forall|t: int| 0 <= t < hits.len() implies self@.contains_key(#[trigger] ks[t])
                && is_hit(ks[t], sprite_key(query@)) && describes(hits@[t], self@[ks[t]]) by {
                assert(ks[t] == all[t] && hits@[t] == full[t]);
                let j = choose|j: int|
                    0 <= j < self.sprites@.len() && #[trigger] self.sprites@[j].key@ == all[t]
                        && describes(full[t], sprite_view(self.sprites@[j]));
                lemma_map_at(self.sprites@, j);
            }
            assert forall|k: Seq<char>|
                self@.contains_key(k) && is_hit(k, sprite_key(query@)) && !(
                #[trigger] ks.contains(k)) implies hits.len() == limit && (limit > 0 ==> !chars_less(
                self@[k].name,
                hits@[limit - 1].name@,
            )) by {
                let j = choose|j: int| 0 <= j < self.sprites@.len() && #[trigger] self.sprites@[j].key@ == k;
                assert(all.contains(k));
                let t = choose|t: int| 0 <= t < all.len() && all[t] == k;
                if t < hits.len() {
                    assert(ks[t] == k);
                }
                assert(t >= hits.len());
                let j2 = choose|j2: int|
                    0 <= j2 < self.sprites@.len() && #[trigger] self.sprites@[j2].key@ == all[t]
                        && describes(full[t], sprite_view(self.sprites@[j2]));
                if j2 != j {
                    if j2 < j {
                        assert(self.sprites@[j2].key@ != self.sprites@[j].key@);
                    } else {
                        assert(self.sprites@[j].key@ != self.sprites@[j2].key@);
                    }
                }
                lemma_map_at(self.sprites@, j);
                assert(full.len() == all.len());
                assert(hits.len() == limit);
                if limit > 0 {
                    assert(hits@[limit - 1] == full[limit - 1]);
                    assert(!chars_less(full[t].name@, full[limit - 1].name@));
                }
            }
        }
        hits
    }
}


/// A texture path as written, made relative to a mod or game folder:
/// backslashes turned into slashes, spaces around it and slashes before it
/// dropped. Nothing is left of a blank one.
pub open spec fn relative_texture_spec(texture: Seq<char>) -> Option<Seq<char>> {
    let t = trim_start_char(trim_spec(replace_char(texture, '\\', '/')), '/');
    if t.len() == 0 {
        None
    } else {
        Some(t)
    }
}

pub fn relative_texture(texture: &str) -> (r: Option<String>)
    ensures
        match relative_texture_spec(texture@) {
            Some(t) => r matches Some(x) && x@ == t,
            None => r is None,
        },
{
    let slashed = replace_char_in(texture, '\\', '/');
    let trimmed = trim(slashed.as_str());
    let relative = trim_start_matches_char(trimmed.as_str(), '/');
    if relative.as_str().is_empty() {
        None
    } else {
        Some(relative)
    }
}

/// The folders `roots` names that are not blank, in order.
pub open spec fn named_roots(roots: Seq<Seq<char>>) -> Seq<Seq<char>>
    decreases roots.len(),
{
    if roots.len() == 0 {
        Seq::empty()
    } else {
        let rest = named_roots(roots.drop_last());
        if trim_spec(roots.last()).len() == 0 {
            rest
        } else {
            rest.push(roots.last())
        }
    }
}

fn keep_named(roots: &mut Vec<String>, root: &str)
    ensures
        crate::text::views(final(roots)@) == if trim_spec(root@).len() == 0 {
            crate::text::views(old(roots)@)
        } else {
            crate::text::views(old(roots)@).push(root@)
        },
{
    let trimmed = trim(root);
    if !trimmed.as_str().is_empty() {
        let ghost before = crate::text::views(roots@);
        roots.push(root.to_owned());
        proof {
            assert(crate::text::views(roots@) =~= before.push(root@));
        }
    }
}

/// Where sprite definitions are read from, in order: the game first, so a
/// mod redefining one of its sprite names wins. A blank folder is skipped.
pub fn definition_roots(folder: &str, game_root: &str) -> (r: Vec<String>)
    ensures
        crate::text::views(r@) == named_roots(seq![game_root@, folder@]),
{
    let mut r: Vec<String> = Vec::new();
    keep_named(&mut r, game_root);
    keep_named(&mut r, folder);
    proof {
        reveal_with_fuel(named_roots, 3);
        assert(seq![game_root@, folder@].drop_last() =~= seq![game_root@]);
        assert(seq![game_root@].drop_last() =~= Seq::<Seq<char>>::empty());
        assert(crate::text::views(Seq::<String>::empty()) =~= Seq::<Seq<char>>::empty());
    }
    r
}

/// Where a texture is looked for, in order: the mod before the game,
/// whichever defined the sprite, because dropping a file at the same
/// relative path is how art is usually replaced. A blank folder is skipped.
pub fn texture_roots(folder: &str, game_root: &str) -> (r: Vec<String>)
    ensures
        crate::text::views(r@) == named_roots(seq![folder@, game_root@]),
{
    let mut r: Vec<String> = Vec::new();
    keep_named(&mut r, folder);
    keep_named(&mut r, game_root);
    proof {
        reveal_with_fuel(named_roots, 3);
        assert(seq![folder@, game_root@].drop_last() =~= seq![folder@]);
        assert(seq![folder@].drop_last() =~= Seq::<Seq<char>>::empty());
        assert(crate::text::views(Seq::<String>::empty()) =~= Seq::<Seq<char>>::empty());
    }
    r
}

/// Where to look for the texture behind a sprite: the path relative to a
/// folder, the folders to try in order, and how many frames the strip holds.
#[derive(Debug, Clone)]
pub struct TextureLookup {
    pub relative: String,
    pub roots: Vec<String>,
    pub frames: u32,
}

impl SpriteIndex {
    /// Where the texture of the sprite `name` stands for would be, before the
    /// disk is asked; `None` when nothing defines the name or its texture
    /// path is blank.
    pub fn texture_lookup(&self, name: &str, folder: &str, game_root: &str) -> (r: Option<
        TextureLookup,
    >)
        ensures
            match self@.get(sprite_key(name@)) {
                Some(s) => match relative_texture_spec(s.texture) {
                    Some(t) => r matches Some(l) && l.relative@ == t && crate::text::views(
                        l.roots@,
                    ) == named_roots(seq![folder@, game_root@]) && l.frames == s.frames,
                    None => r is None,
                },
                None => r is None,
            },
    {
        match self.find(name) {
            Some(found) => match relative_texture(found.texture.as_str()) {
                Some(relative) => Some(
                    TextureLookup {
                        relative,
                        roots: texture_roots(folder, game_root),
                        frames: found.frames,
                    },
                ),
                None => None,
            },
            None => None,
        }
    }
}


proof fn lemma_collected_items(
    m: Map<Seq<char>, SpriteView>,
    a: Map<Seq<char>, SpriteView>,
    items: Seq<Item>,
    depth: nat,
)
    ensures
        collected_items(m.union_prefer_right(a), items, depth) == m.union_prefer_right(
            collected_items(a, items, depth),
        ),
    decreases items,
{
    if items.len() == 0 {
    } else {
        let init = items.drop_last();
        lemma_collected_items(m, a, init, depth);
        lemma_collected_item(m, collected_items(a, init, depth), items.last(), depth);
    }
}

proof fn lemma_collected_item(
    m: Map<Seq<char>, SpriteView>,
    a: Map<Seq<char>, SpriteView>,
    it: Item,
    depth: nat,
)
    ensures
        collected_item(m.union_prefer_right(a), it, depth) == m.union_prefer_right(
            collected_item(a, it, depth),
        ),
    decreases it,
{
    match it {
        Item::Pair(p) => match p.value {
            Value::Block(b) => match sprite_of(b.items@) {
                Some((key, sprite)) => {
                    assert(m.union_prefer_right(a).insert(key, sprite) =~= m.union_prefer_right(
                        a.insert(key, sprite),
                    ));
                },
                None => if depth > 0 {
                    assert(decreases_to!(it => b.items@));
                    lemma_collected_items(m, a, b.items@, (depth - 1) as nat);
                },
            },
            Value::Scalar(_) => {},
        },
        Item::Value(_) => {},
    }
}

/// Law: reading a `.gfx` file onto the sprites already known keeps every
/// sprite the file does not define and takes the file's definition for
/// every one it does. Read after the game's, a mod's files override exactly
/// the names they redefine, and the mod inherits all the others.
pub proof fn law_later_definitions_override(known: Map<Seq<char>, SpriteView>, items: Seq<Item>)
    ensures
        collected_items(known, items, MAX_DEPTH as nat) == known.union_prefer_right(
            collected_items(Map::empty(), items, MAX_DEPTH as nat),
        ),
{
    assert(known.union_prefer_right(Map::empty()) =~= known);
    lemma_collected_items(known, Map::empty(), items, MAX_DEPTH as nat);
}

} // verus!
