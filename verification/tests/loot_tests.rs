use xiaofeng::loot::{LootTable, LootTableEntry};

fn entry(item: Option<&str>, weight: usize) -> LootTableEntry {
    LootTableEntry { item: item.map(|s| s.to_string()), weight }
}

fn table() -> LootTable {
    LootTable::new(vec![entry(Some("sword"), 2), entry(None, 3), entry(Some("spear"), 5)])
}

#[test]
fn total_weight_counts_every_entry() {
    assert_eq!(table().total_weight(), 10);
    assert_eq!(LootTable::new(vec![]).total_weight(), 0);
}

#[test]
fn pick_walks_the_named_entries() {
    let t = table();
    assert_eq!(t.pick(0), Some("sword".to_string()));
    assert_eq!(t.pick(1), Some("sword".to_string()));
    // entries without an item do not add to the running sum
    assert_eq!(t.pick(2), Some("spear".to_string()));
    assert_eq!(t.pick(6), Some("spear".to_string()));
    assert_eq!(t.pick(7), None);
    assert_eq!(t.pick(9), None);
}

#[test]
fn roll_with_keeps_the_order_of_draws() {
    let t = table();
    assert_eq!(t.roll_with(&vec![6, 0, 8, 1]), vec!["spear".to_string(), "sword".to_string(), "sword".to_string()]);
    assert!(t.roll_with(&vec![]).is_empty());
}

#[test]
fn roll_drops_only_items_of_the_table() {
    let t = table();
    for _ in 0..20 {
        let items = t.roll(5);
        assert!(items.len() <= 5);
        for i in items {
            assert!(i == "sword" || i == "spear");
        }
    }
    let only = LootTable::new(vec![entry(Some("coin"), 1)]);
    assert_eq!(only.roll(3), vec!["coin".to_string(), "coin".to_string(), "coin".to_string()]);
}

#[test]
fn no_rolls_need_no_weight() {
    assert!(LootTable::new(vec![]).roll(0).is_empty());
    assert!(LootTable::new(vec![entry(Some("sword"), 0)]).roll(0).is_empty());
    assert!(table().roll(0).is_empty());
}
