use xiaofeng::error::PE;
use xiaofeng::inventory::{Inventory, Slot};
use xiaofeng::item::{Item, ItemType};

fn item(name: &str, kind: ItemType, sprite: &str) -> Item<u32> {
    Item {
        name: name.to_string(),
        lore: "test".to_string(),
        item_type: kind,
        sprite: sprite.to_string(),
        attack_sprite: Some("melee_attack".to_string()),
        gear: 0,
    }
}

/// The inventory of the game's test world: two swords (ids 0 and 1) and the standard layout.
fn basic_inventory() -> Inventory<u32> {
    let mut inv = Inventory::new();
    assert_eq!(inv.add_item(item("test1", ItemType::MeleeWeapon, "sword")), 0);
    assert_eq!(inv.add_item(item("test2", ItemType::MeleeWeapon, "spear")), 1);
    inv.init_ui();
    inv
}

fn slot_item(inv: &Inventory<u32>, i: usize) -> Option<usize> {
    inv.get_slot(&i).unwrap().item
}

fn assert_only(inv: &Inventory<u32>, filled: &[(usize, usize)]) {
    for i in 0..inv.slots.len() {
        let expected = filled.iter().find(|(s, _)| *s == i).map(|(_, id)| *id);
        assert_eq!(slot_item(inv, i), expected, "slot {}", i);
    }
}

#[test]
fn init_ui_lays_out_twenty_three_slots() {
    let inv = basic_inventory();
    assert_eq!(inv.slots.len(), 23);
    for i in 0..5 {
        let s = inv.get_hotbar_slot(i).unwrap();
        assert_eq!((s.x, s.y), (20 + 58 * i, 652));
    }
    assert_eq!((inv.slots[5].x, inv.slots[5].y), (520, 200));
    assert_eq!((inv.slots[11].x, inv.slots[11].y), (578, 258));
    assert_eq!((inv.slots[19].x, inv.slots[19].y), (752, 316));
    assert_eq!((inv.slots[20].x, inv.slots[20].y), (369, 242));
    assert_eq!(inv.slots[20].accepted_types, vec![ItemType::HelmetArmor]);
    assert_eq!(inv.slots[21].accepted_types, vec![ItemType::ChestplateArmor]);
    assert_eq!(inv.slots[22].accepted_types, vec![ItemType::BootsArmor]);
    assert_eq!(inv.slots[0].accepted_types, ItemType::all());
    assert!(inv.get_hotbar_slot(5).is_none());
    assert_only(&inv, &[]);
}

#[test]
fn add_item_gives_fresh_ids() {
    let mut inv: Inventory<u32> = Inventory::new();
    let a = inv.add_item(item("a", ItemType::Shield, "s"));
    let b = inv.add_item(item("b", ItemType::Shield, "t"));
    assert_eq!((a, b), (0, 1));
    assert_eq!(inv.get_item(&b).unwrap().name, "b");
    assert!(inv.get_item(&2).is_none());
}

#[test]
fn set_slot_item_errors() {
    let mut inv = basic_inventory();
    let e = inv.set_slot_item(99, 0).unwrap_err();
    assert!(matches!(e.error, PE::NotFound(ref d) if d.desc == "There is no 99th slot"));
    let e = inv.set_slot_item(6, 42).unwrap_err();
    assert!(matches!(e.error, PE::Error(_)));
    assert!(e.trace[0].starts_with("Not Found Error"));
    assert_eq!(e.trace, vec!["Not Found Error at Slot::set_item:0: no item with id 42".to_string()]);
    // a sword does not fit the helmet slot
    let e = inv.set_slot_item(20, 0).unwrap_err();
    assert!(matches!(e.error, PE::Error(_)));
    assert!(e.trace[0].starts_with("Wrong Item Type Error"));
    assert_eq!(
        e.trace,
        vec!["Wrong Item Type Error at Slot::set_item:0: this slot cannot take items of type MeleeWeapon".to_string()]
    );
    assert_only(&inv, &[]);
}

#[test]
fn set_slot_item_then_get_slot() {
    let mut inv = basic_inventory();
    inv.set_slot_item(6, 1).unwrap();
    let s = inv.get_slot(&6).unwrap();
    assert_eq!(s.item, Some(1));
    assert_eq!(s.item_sprite, Some("spear".to_string()));
    let ui = s.get_ui();
    assert_eq!(ui.len(), 2);
    assert_eq!(ui[0].sprite, "hslot");
    assert_eq!(ui[1].sprite, "spear");
}

#[test]
fn test_inventory_clicking_blank_slot_in_blank_inventory() {
    let mut inv = basic_inventory();
    inv.show_inventory();
    assert_only(&inv, &[]);
    inv.on_mouse_click(579, 201, true, false).unwrap();
    inv.on_mouse_click(521, 201, true, false).unwrap();
    assert_only(&inv, &[]);
}

#[test]
fn test_inventory_clicking_blank_slot_in_inventory_with_items() {
    let mut inv = basic_inventory();
    inv.set_slot_item(7, 1).unwrap();
    inv.set_slot_item(8, 0).unwrap();
    inv.show_inventory();
    assert_only(&inv, &[(7, 1), (8, 0)]);
    inv.on_mouse_click(579, 201, true, false).unwrap();
    inv.on_mouse_click(521, 201, true, false).unwrap();
    assert_only(&inv, &[(7, 1), (8, 0)]);
}

#[test]
fn test_inventory_item_move() {
    let mut inv = basic_inventory();
    inv.show_inventory();
    inv.set_slot_item(6, 1).unwrap();
    assert_only(&inv, &[(6, 1)]);
    inv.on_mouse_click(579, 201, true, false).unwrap();
    assert_only(&inv, &[]);
    inv.on_mouse_click(521, 201, true, false).unwrap();
    assert_only(&inv, &[(5, 1)]);
}

#[test]
fn test_inventory_item_swap() {
    let mut inv = basic_inventory();
    inv.show_inventory();
    inv.set_slot_item(6, 1).unwrap();
    inv.set_slot_item(5, 0).unwrap();
    assert_only(&inv, &[(5, 0), (6, 1)]);
    inv.on_mouse_click(579, 201, true, false).unwrap();
    inv.on_mouse_click(521, 201, true, false).unwrap();
    // item 0 is now on the mouse
    assert_only(&inv, &[(5, 1)]);
    inv.on_mouse_click(579, 201, true, false).unwrap();
    assert_only(&inv, &[(5, 1), (6, 0)]);
}

#[test]
fn test_close_inventory_with_item_held_basic() {
    let mut inv = basic_inventory();
    inv.show_inventory();
    inv.set_slot_item(6, 1).unwrap();
    inv.on_mouse_click(579, 201, true, false).unwrap();
    assert_only(&inv, &[]);
    inv.hide_inventory().unwrap();
    assert_only(&inv, &[(6, 1)]);
}

#[test]
fn test_close_inventory_with_item_held_after_swap() {
    let mut inv = basic_inventory();
    inv.show_inventory();
    inv.set_slot_item(6, 1).unwrap();
    inv.set_slot_item(5, 0).unwrap();
    inv.on_mouse_click(579, 201, true, false).unwrap();
    inv.on_mouse_click(521, 201, true, false).unwrap();
    inv.hide_inventory().unwrap();
    // item 0, swapped out of slot 5, goes back to slot 6, where the carried item came from
    assert_only(&inv, &[(5, 1), (6, 0)]);
}

#[test]
fn right_click_and_clicks_outside_slots_do_nothing() {
    let mut inv = basic_inventory();
    inv.show_inventory();
    inv.set_slot_item(6, 1).unwrap();
    inv.on_mouse_click(579, 201, false, true).unwrap();
    inv.on_mouse_click(5, 5, true, false).unwrap();
    // edges do not count as inside
    inv.on_mouse_click(578, 201, true, false).unwrap();
    assert_only(&inv, &[(6, 1)]);
}

#[test]
fn carried_item_does_not_fit_armor_slot() {
    let mut inv = basic_inventory();
    inv.show_inventory();
    inv.set_slot_item(6, 1).unwrap();
    inv.on_mouse_click(579, 201, true, false).unwrap();
    // helmet slot at (369, 242) refuses a sword; the click is not an error
    inv.on_mouse_click(370, 243, true, false).unwrap();
    assert_only(&inv, &[]);
    inv.hide_inventory().unwrap();
    assert_only(&inv, &[(6, 1)]);
}

#[test]
fn clicks_keep_every_item() {
    let mut inv = basic_inventory();
    inv.show_inventory();
    inv.set_slot_item(6, 1).unwrap();
    inv.set_slot_item(5, 0).unwrap();
    let clicks = [(579, 201), (521, 201), (637, 201), (579, 201), (521, 201), (637, 201)];
    for (x, y) in clicks {
        inv.on_mouse_click(x, y, true, false).unwrap();
        let mut held: Vec<usize> = inv.slots.iter().filter_map(|s| s.item).collect();
        held.sort();
        // every item is in a slot or on the mouse: at most one is missing from the slots
        assert!(held == vec![0, 1] || held == vec![0] || held == vec![1]);
    }
    inv.hide_inventory().unwrap();
    let mut held: Vec<usize> = inv.slots.iter().filter_map(|s| s.item).collect();
    held.sort();
    assert_eq!(held, vec![0, 1]);
}

#[test]
fn test_item_drop_from_inventory() {
    let mut inv = basic_inventory();
    inv.show_inventory();
    inv.set_slot_item(6, 1).unwrap();
    inv.process_input(true, 579, 201);
    inv.hide_inventory().unwrap();
    assert_only(&inv, &[]);
    assert_eq!(inv.items_waiting_to_be_dropped, vec![1]);
    // not holding q does nothing
    inv.set_slot_item(7, 0).unwrap();
    inv.process_input(false, 637, 201);
    assert_only(&inv, &[(7, 0)]);
}

#[test]
fn show_then_hide_restores_the_layout() {
    let mut inv = basic_inventory();
    let before: Vec<(usize, usize)> = inv.slots.iter().map(|s| (s.x, s.y)).collect();
    inv.show_inventory();
    assert!(inv.show_inventory);
    for i in 0..5 {
        let s = inv.get_hotbar_slot(i).unwrap();
        assert_eq!((s.x, s.y), (520 + 58 * i, 374));
    }
    inv.hide_inventory().unwrap();
    assert!(!inv.show_inventory);
    let after: Vec<(usize, usize)> = inv.slots.iter().map(|s| (s.x, s.y)).collect();
    assert_eq!(before, after);
}

#[test]
fn add_to_slot_fills_the_first_free_slot() {
    let mut inv = basic_inventory();
    inv.set_slot_item(0, 0).unwrap();
    inv.add_to_slot(item("found", ItemType::Shield, "shield")).unwrap();
    assert_eq!(slot_item(&inv, 1), Some(2));
    assert_eq!(inv.get_item(&2).unwrap().name, "found");
}

#[test]
fn add_to_slot_without_space() {
    let mut inv: Inventory<u32> = Inventory::new();
    let e = inv.add_to_slot(item("x", ItemType::Shield, "s")).unwrap_err();
    assert!(matches!(e.error, PE::NoSpace(_)));
    // the item is kept all the same
    assert!(inv.get_item(&0).is_some());
}

#[test]
fn hotbar_keys_select_slots() {
    let mut inv = basic_inventory();
    inv.set_hotbar_slot_item(2, 1).unwrap();
    inv.on_key_down("3");
    assert_eq!(inv.get_cur_held_item().unwrap().name, "test2");
    inv.on_key_down("9");
    inv.on_key_down("0");
    inv.on_key_down("w");
    // the empty key is made of number characters but writes no number
    assert!(!inv.try_on_key_down(""));
    assert_eq!(inv.get_cur_held_item().unwrap().name, "test2");
    inv.on_key_down("1");
    assert!(inv.get_cur_held_item().is_none());
    assert!(inv.try_on_key_down("05"));
    inv.set_hotbar_slot_item(4, 0).unwrap();
    assert_eq!(inv.get_cur_held_item().unwrap().name, "test1");
    // number characters that are not a numeral usize can hold are refused
    assert!(!inv.try_on_key_down("٣"));
    assert!(!inv.try_on_key_down("99999999999999999999999"));
    assert_eq!(inv.get_cur_held_item().unwrap().name, "test1");
}

#[test]
fn stat_item_ids_list_held_item_and_helmet() {
    let mut inv = basic_inventory();
    assert_eq!(inv.stat_item_ids().unwrap(), Vec::<usize>::new());
    inv.set_hotbar_slot_item(0, 1).unwrap();
    assert_eq!(inv.stat_item_ids().unwrap(), vec![1]);
    let helm = inv.add_item(item("cap", ItemType::HelmetArmor, "cap"));
    inv.set_slot_item(20, helm).unwrap();
    assert_eq!(inv.stat_item_ids().unwrap(), vec![1, helm]);
    inv.remove_item(helm).unwrap();
    let e = inv.stat_item_ids().unwrap_err();
    assert!(matches!(e.error, PE::Invalid(_)));
}

#[test]
fn remove_item_errors_when_absent() {
    let mut inv = basic_inventory();
    inv.remove_item(0).unwrap();
    let e = inv.remove_item(0).unwrap_err();
    assert!(matches!(e.error, PE::NotFound(_)));
}

#[test]
fn hotbar_slot_can_be_changed_in_place() {
    let mut inv = basic_inventory();
    {
        let s = inv.get_hotbar_slot_mut(1).unwrap();
        s.alter_position(7, 9);
    }
    assert_eq!((inv.slots[1].x, inv.slots[1].y), (7, 9));
    assert!(inv.get_hotbar_slot_mut(7).is_none());
    let mut s = Slot::new(1, 2, vec![ItemType::Shield]);
    s.remove_item();
    assert!(s.item.is_none());
}

#[test]
fn next_item_id_follows_the_added_items() {
    let mut inv = basic_inventory();
    assert_eq!(inv.next_item_id(), 2);
    inv.remove_item(0).unwrap();
    assert_eq!(inv.next_item_id(), 2);
    assert_eq!(inv.add_item(item("c", ItemType::Shield, "s")), 2);
    assert_eq!(inv.next_item_id(), 3);
}
