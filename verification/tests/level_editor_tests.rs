use xiaofeng::level_editor::{editor_key, EditableProperty, EditorAction};

#[test]
fn keys_do_nothing_when_no_property_is_edited() {
    let (p, t, a) = editor_key(None, &"12".to_string(), "enter");
    assert_eq!((p, t.as_str(), a), (None, "12", EditorAction::Nothing));
}

#[test]
fn numeric_properties_take_only_numeric_keys() {
    let x = Some(EditableProperty::TerrainX);
    let (p, t, a) = editor_key(x, &"1".to_string(), "2");
    assert_eq!((p, t.as_str(), a), (x, "12", EditorAction::Nothing));
    let (p, t, _) = editor_key(x, &"1".to_string(), "a");
    assert_eq!((p, t.as_str()), (x, "1"));
    let (_, t, _) = editor_key(Some(EditableProperty::EntityY), &"".to_string(), "7");
    assert_eq!(t, "7");
}

#[test]
fn text_properties_take_every_key() {
    let s = Some(EditableProperty::EntitySprite);
    let (p, t, a) = editor_key(s, &"gob".to_string(), "Lin");
    assert_eq!((p, t.as_str(), a), (s, "gobLin", EditorAction::Nothing));
}

#[test]
fn delete_drops_the_last_character() {
    let s = Some(EditableProperty::TerrainArchetype);
    let (p, t, a) = editor_key(s, &"wallé".to_string(), "Delete");
    assert_eq!((p, t.as_str(), a), (s, "wall", EditorAction::Nothing));
    let (_, t, _) = editor_key(s, &"".to_string(), "delete");
    assert_eq!(t, "");
}

#[test]
fn enter_commits_and_clears() {
    let (p, t, a) = editor_key(Some(EditableProperty::TerrainW), &"42".to_string(), "Enter");
    assert_eq!((p, t.as_str(), a), (None, "", EditorAction::CommitWhole(EditableProperty::TerrainW, 42)));
    let (p, t, a) = editor_key(Some(EditableProperty::TerrainH), &"".to_string(), "ENTER");
    assert_eq!((p, t.as_str(), a), (None, "", EditorAction::Discard));
    let (_, _, a) = editor_key(Some(EditableProperty::TerrainY), &"99999999999999999999999".to_string(), "enter");
    assert_eq!(a, EditorAction::Discard);
    let (p, t, a) = editor_key(Some(EditableProperty::EntityArchetype), &"ghost".to_string(), "enter");
    assert_eq!((p, t.as_str()), (None, ""));
    assert_eq!(a, EditorAction::Commit(EditableProperty::EntityArchetype, "ghost".to_string()));
}
