//! The level editor's text field: what a key does to the property being
//! edited and to the text typed for it.
use vstd::prelude::*;
use vstd::string::*;
use crate::inventory::{all_numeric, digits_value, key_all_numeric, parse_usize, parses_as_usize};

verus! {

/// The properties of an entity or a tile that the editor lets one type.
#[derive(Debug, Clone, Copy, PartialEq, Eq, Structural)]
pub enum EditableProperty {
    EntityX,
    EntityY,
    EntityArchetype,
    EntitySprite,
    TerrainX,
    TerrainY,
    TerrainW,
    TerrainH,
    TerrainArchetype,
}

/// What the editor does with the property once a key has been handled.
#[derive(Debug, Clone, PartialEq, Eq)]
pub enum EditorAction {
    /// Nothing.
    Nothing,
    /// Editing ended: set the property to the typed text, which the editor
    /// still checks (a number for a position, a known sprite or archetype).
    Commit(EditableProperty, String),
    /// Editing ended: set the tile property to the typed whole number.
    CommitWhole(EditableProperty, usize),
    /// Editing ended without a change: the typed text is not a whole number.
    Discard,
}

/// Whether typing into `p` takes only numeric characters.
pub open spec fn numeric_property(p: EditableProperty) -> bool {
    !(p == EditableProperty::EntityArchetype || p == EditableProperty::EntitySprite
        || p == EditableProperty::TerrainArchetype)
}

/// Whether `p` is a tile's position or size, a whole number.
pub open spec fn whole_property(p: EditableProperty) -> bool {
    p == EditableProperty::TerrainX || p == EditableProperty::TerrainY || p == EditableProperty::TerrainW
        || p == EditableProperty::TerrainH
}

/// Whether `key` is the lower-case word `word` with any of its letters in
/// upper case: what comparing the key in lower case with `word` says, for
/// the ASCII words the editor knows.
pub open spec fn named_key(key: Seq<char>, word: Seq<char>) -> bool {
    &&& key.len() == word.len()
    &&& forall|i: int| 0 <= i < key.len() ==> (#[trigger] key[i] == word[i] || key[i] as int + 32 == word[i] as int)
}

/// The typed text after the key `key` while editing `p`: `delete` drops its
/// last character, a numeric property takes the key only if all of it is
/// numeric, any other property takes the key.
pub open spec fn typed_after(p: EditableProperty, typed: Seq<char>, key: Seq<char>) -> Seq<char> {
    if named_key(key, "delete"@) {
        if typed.len() > 0 {
            typed.drop_last()
        } else {
            typed
        }
    } else if numeric_property(p) && !all_numeric(key) {
        typed
    } else {
        typed + key
    }
}

/// Whether `key` is made of the ASCII letters of `word`, case aside.
fn key_is(key: &str, word: &str) -> (r: bool)
    requires
        forall|i: int| 0 <= i < word@.len() ==> 'a' <= #[trigger] word@[i] <= 'z',
    ensures
        r == named_key(key@, word@),
{
    let n = key.unicode_len();
    if n != word.unicode_len() {
        return false;
    }
    for i in 0..n
        invariant
            n == key@.len(),
            n == word@.len(),
            forall|j: int| 0 <= j < word@.len() ==> 'a' <= #[trigger] word@[j] <= 'z',
            forall|j: int| 0 <= j < i ==> (#[trigger] key@[j] == word@[j] || key@[j] as int + 32 == word@[j] as int),
    {
        let k = key.get_char(i);
        let w = word.get_char(i);
        if !(k == w || (k as u32) + 32 == (w as u32)) {
            return false;
        }
    }
    true
}

/// `s` without its last character (unchanged when empty).
fn without_last(s: &str) -> (r: String)
    ensures
        r@ == (if s@.len() > 0 { s@.drop_last() } else { s@ }),
{
    let n = s.unicode_len();
    let mut out = String::new();
    if n == 0 {
        out.append(s);
        return out;
    }
    for i in 0..n - 1
        invariant
            n == s@.len(),
            n > 0,
            out@ == s@.take(i as int),
    {
        let c = s.get_char(i);
        out.push(c);
        proof {
            assert(out@ =~= s@.take(i + 1));
        }
    }
    assert(out@ =~= s@.drop_last());
    out
}

/// Handles the key `key` in the editor's text field, where `editing` is the
/// property being edited, if any, and `typed` the text typed so far; returns
/// the property then being edited, the new text and what to do. Without a
/// property being edited nothing changes. `enter` ends editing, clears the
/// text and commits it (a tile's position or size only if it is a whole
/// number `usize` holds, else it is discarded); `delete` drops the last
/// character; any other key is typed (for a numeric property only when all
/// of it is numeric).
pub fn editor_key(editing: Option<EditableProperty>, typed: &String, key: &str) -> (r: (
    Option<EditableProperty>,
    String,
    EditorAction,
))
    ensures
        match editing {
            None => r.0 is None && r.1@ == typed@ && r.2 == EditorAction::Nothing,
            Some(p) => if named_key(key@, "enter"@) {
                &&& r.0 is None
                &&& r.1@.len() == 0
                &&& if whole_property(p) {
                    if parses_as_usize(typed@) {
                        r.2 == EditorAction::CommitWhole(p, digits_value(typed@) as usize)
                    } else {
                        r.2 == EditorAction::Discard
                    }
                } else {
                    r.2 matches EditorAction::Commit(q, s) && q == p && s@ == typed@
                }
            } else {
                &&& r.0 == Some(p)
                &&& r.1@ == typed_after(p, typed@, key@)
                &&& r.2 == EditorAction::Nothing
            },
        },
{
    proof {
        reveal_strlit("enter");
        reveal_strlit("delete");
    }
    let p = match editing {
        None => {
            let mut same = String::new();
            same.append(typed.as_str());
            return (None, same, EditorAction::Nothing);
        },
        Some(p) => p,
    };
    if key_is(key, "enter") {
        let action = match p {
            EditableProperty::TerrainX | EditableProperty::TerrainY | EditableProperty::TerrainW
            | EditableProperty::TerrainH => match parse_usize(typed.as_str()) {
                Some(v) => EditorAction::CommitWhole(p, v),
                None => EditorAction::Discard,
            },
            _ => {
                let mut text = String::new();
                text.append(typed.as_str());
                EditorAction::Commit(p, text)
            },
        };
        return (None, String::new(), action);
    }
    if key_is(key, "delete") {
        return (Some(p), without_last(typed.as_str()), EditorAction::Nothing);
    }
    let mut text = String::new();
    text.append(typed.as_str());
    let numeric = match p {
        EditableProperty::EntityArchetype | EditableProperty::EntitySprite | EditableProperty::TerrainArchetype => false,
        _ => true,
    };
    if !numeric || key_all_numeric(key) {
        text.append(key);
    }
    (Some(p), text, EditorAction::Nothing)
}

} // verus!
