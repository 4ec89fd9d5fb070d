use xiaofeng::camera::{Camera, Font};
use xiaofeng::error::PE;

fn camera() -> Camera<String, String> {
    Camera::new(1152, 720)
}

#[test]
fn new_camera_is_empty() {
    let c = camera();
    assert_eq!(c.viewpoint_width, 1152);
    assert_eq!(c.viewpoint_height, 720);
    assert!(!c.level_editor);
    assert_eq!(c.get_ui_element_id_from_name("health_bar_back"), None);
    assert!(c.get_ui_element(0).is_none());
}

#[test]
fn ui_elements_get_increasing_ids_and_are_found_by_name() {
    let mut c = camera();
    let back = c.add_ui_element("health_bar_back".to_string(), "back".to_string());
    let inside = c.add_ui_element("health_bar_inside".to_string(), "inside".to_string());
    assert_eq!((back, inside), (0, 1));
    assert_eq!(c.get_ui_element_id_from_name("health_bar_inside"), Some(1));
    assert_eq!(c.get_ui_element(0), Some(&"back".to_string()));
    if let Some(e) = c.get_ui_element_mut_by_name("health_bar_inside") {
        e.push_str(" (narrow)");
    }
    assert_eq!(c.get_ui_element(1), Some(&"inside (narrow)".to_string()));
    assert!(c.get_ui_element_mut_by_name("missing").is_none());
}

#[test]
fn a_reused_name_names_the_new_element() {
    let mut c = camera();
    c.add_ui_element("slot".to_string(), "first".to_string());
    let second = c.add_ui_element("slot".to_string(), "second".to_string());
    assert_eq!(c.get_ui_element_id_from_name("slot"), Some(second));
    // The first element keeps its id but has no name any more.
    assert_eq!(c.get_ui_element(0), Some(&"first".to_string()));
    assert!(matches!(c.remove_ui_element(0).map_err(|e| e.error), Err(PE::NotFound(_))));
    assert_eq!(c.get_ui_element(0), Some(&"first".to_string()));
}

#[test]
fn removing_an_element_forgets_its_name() {
    let mut c = camera();
    let id = c.add_ui_element("tooltip".to_string(), "tip".to_string());
    assert!(c.remove_ui_element(id).is_ok());
    assert_eq!(c.get_ui_element_id_from_name("tooltip"), None);
    assert!(c.get_ui_element(id).is_none());
    let err = c.remove_ui_element(id).unwrap_err();
    assert!(matches!(err.error, PE::NotFound(ref d) if d.desc == "no element with id 0"));
    // Ids are not reused.
    assert_eq!(c.add_ui_element("tooltip".to_string(), "tip".to_string()), 1);
}

#[test]
fn texts_are_added_and_removed_by_id() {
    let mut c = camera();
    let a = c.add_text("score".to_string(), Font::A);
    let b = c.add_text("level".to_string(), Font::B);
    assert_eq!((a, b), (0, 1));
    let w = c.add_world_text("12.5".to_string(), Font::B);
    assert_eq!(w, 0);
    if let Some(t) = c.get_text_mut(b) {
        t.push('!');
    }
    assert_eq!(c.get_text_mut(b).map(|t| t.clone()), Some("level!".to_string()));
    assert!(c.remove_text(a).is_ok());
    assert!(c.get_text_mut(a).is_none());
    let err = c.remove_text(a).unwrap_err();
    assert!(matches!(err.error, PE::NotFound(ref d) if d.desc == "There was no text to remove with id 0"));
    assert!(c.remove_world_text(w).is_ok());
    let err = c.remove_world_text(w).unwrap_err();
    assert!(matches!(err.error, PE::NotFound(ref d) if d.desc == "There was no world text to remove with id 0"));
    assert!(c.get_world_text_mut(w).is_none());
    assert_eq!(c.add_world_text("3".to_string(), Font::A), 1);
}
