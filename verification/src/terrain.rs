//! Terrain tiles, their tags, and the table of tags by archetype name.
use vstd::prelude::*;
use rustc_hash::FxHashMap;
use vstd::string::*;

verus! {

/// A terrain tile; every tile is 32 by 32 pixels, with its top-left corner at `(x, y)`.
#[derive(Debug, Clone, Copy, PartialEq, Eq, Structural)]
pub struct Terrain {
    pub element_id: usize,
    pub x: usize,
    pub y: usize,
}

/// What a terrain archetype says of its tiles.
#[derive(Debug, Clone, Copy, PartialEq, Eq, Structural)]
pub enum TerrainTags {
    BlocksMovement,
    Sprite(usize),
}

/// The tags of the terrain archetypes, by archetype name.
pub type TagTable = FxHashMap<String, Vec<TerrainTags>>;

/// The entries of a tag table, each name taken by its characters and each
/// list of tags as a sequence.
pub uninterp spec fn tag_entries(m: TagTable) -> Map<Seq<char>, Seq<TerrainTags>>;

/// The table with no entries.
pub open spec fn no_tag_entries() -> Map<Seq<char>, Seq<TerrainTags>> {
    Map::empty()
}

/// `FxHashMap::default()`: a table with no entries.
#[verifier::external_body]
pub(crate) fn tag_table_new() -> (r: TagTable)
    ensures
        tag_entries(r) == no_tag_entries(),
{
    FxHashMap::default()
}

/// `HashMap::insert` on a tag table: the name now maps to `tags`, replacing
/// what it mapped to before.
#[verifier::external_body]
pub(crate) fn tag_table_insert(m: &mut TagTable, name: String, tags: Vec<TerrainTags>)
    ensures
        tag_entries(*final(m)) == tag_entries(*old(m)).insert(name@, tags@),
{
    m.insert(name, tags);
}

/// `HashMap::get` on a tag table, looked up by the characters of `name`.
#[verifier::external_body]
pub(crate) fn tag_table_get<'a>(m: &'a TagTable, name: &str) -> (r: Option<&'a Vec<TerrainTags>>)
    ensures
        match r {
            Some(v) => tag_entries(*m).contains_key(name@) && v@ == tag_entries(*m)[name@],
            None => !tag_entries(*m).contains_key(name@),
        },
{
    m.get(name)
}

} // verus!

verus! {

/// The tags that the tag names `names` stand for, if every one is known:
/// `blocksMovement` is the only tag a terrain archetype can name.
pub open spec fn tags_named(names: Seq<Seq<char>>) -> Option<Seq<TerrainTags>>
    decreases names.len(),
{
    if names.len() == 0 {
        Some(Seq::empty())
    } else {
        match tags_named(names.drop_last()) {
            Some(t) => if names.last() == "blocksMovement"@ { Some(t.push(TerrainTags::BlocksMovement)) } else { None },
            None => None,
        }
    }
}

/// The first of `names`, from position `i` on, that names no tag.
pub open spec fn first_unknown_tag(names: Seq<Seq<char>>, i: int) -> Option<Seq<char>>
    decreases names.len() - i,
{
    if i < 0 || i >= names.len() {
        None
    } else if names[i] != "blocksMovement"@ {
        Some(names[i])
    } else {
        first_unknown_tag(names, i + 1)
    }
}

/// The tags named by `tags`, in order. Fails with `Invalid` at the first
/// name that is not `blocksMovement`.
pub fn match_terrain_tags(tags: &Vec<String>) -> (r: Result<Vec<TerrainTags>, crate::error::PError>)
    ensures
        match tags_named(tags@.map_values(|s: String| s@)) {
            Some(t) => r matches Ok(v) && v@ == t,
            None => r matches Err(e) && first_unknown_tag(tags@.map_values(|s: String| s@), 0) matches Some(t)
                && crate::error::caused_as(e, crate::error::ErrorKind::Invalid, "Found unknown terrain tag: "@ + t, "match_terrain_tags"@, seq![]),
        },
{
    let ghost names = tags@.map_values(|s: String| s@);
    let mut out: Vec<TerrainTags> = Vec::new();
    let n = tags.len();
    proof { assert(names.take(0) =~= Seq::<Seq<char>>::empty()); }
    for i in 0..n
        invariant
            n == tags@.len(),
            names == tags@.map_values(|s: String| s@),
            tags_named(names.take(i as int)) == Some(out@),
            first_unknown_tag(names, 0) == first_unknown_tag(names, i as int),
    {
        proof {
            assert(names.take(i + 1).drop_last() =~= names.take(i as int));
            assert(names.take(i + 1).last() == tags@[i as int]@);
        }
        if crate::json_parsing::same_text(tags[i].as_str(), "blocksMovement") {
            out.push(TerrainTags::BlocksMovement);
        } else {
            proof { lemma_tags_named_stops(names, i + 1); }
            let mut d = "Found unknown terrain tag: ".to_owned();
            d.append(tags[i].as_str());
            let e = crate::error::PError::raised(crate::error::ErrorKind::Invalid, d, "match_terrain_tags");
            assert(crate::error::texts(e.trace@) =~= seq![]);
            return Err(e);
        }
    }
    proof { assert(names.take(n as int) =~= names); }
    Ok(out)
}

/// Once an unknown name is met, the names as a whole name no tags.
proof fn lemma_tags_named_stops(names: Seq<Seq<char>>, k: int)
    requires
        0 <= k <= names.len(),
        tags_named(names.take(k)) is None,
    ensures
        tags_named(names) is None,
    decreases names.len() - k,
{
    if k < names.len() {
        assert(names.take(k + 1).drop_last() =~= names.take(k));
        lemma_tags_named_stops(names, k + 1);
    } else {
        assert(names.take(k) =~= names);
    }
}

} // verus!
