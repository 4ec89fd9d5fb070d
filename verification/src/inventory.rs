//! The player's inventory: slots that hold items by id, the hotbar, the armor
//! slots, and the item picked up with the mouse.
use vstd::prelude::*;
use vstd::string::*;
use vstd::multiset::Multiset;
use crate::error::{caused_as, decimal, decimal_string_usize, lemma_raised_text, raised_text, ErrorKind, PError, pe_text, texts};
use crate::fx::{fx_get, fx_get_mut, fx_insert, fx_new, fx_remove, IdMap};
use crate::item::{all_item_types, item_type_name, Item, ItemType};

verus! {

/// The item being carried by the mouse, and the slot it was taken from.
#[derive(Debug, Clone, Copy)]
pub struct ItemOnMouse {
    pub item_id: usize,
    pub slot_belonging: usize,
}

/// Which picture of a slot a [`SlotImage`] is: the slot's frame, or the
/// picture of the item in it.
#[derive(Debug, Clone, Copy, PartialEq, Eq)]
pub enum SlotImageKind {
    Frame,
    Item,
}

/// A picture that a slot shows, anchored at the slot's top-left corner.
#[derive(Debug, Clone)]
pub struct SlotImage {
    pub kind: SlotImageKind,
    pub x: usize,
    pub y: usize,
    pub sprite: String,
}

/// A place for one item. `item` is the id of the item it holds; `item_sprite`
/// is the sprite of that item, taken when it was put in.
#[derive(Debug, Clone)]
pub struct Slot {
    pub item: Option<usize>,
    pub item_sprite: Option<String>,
    pub x: usize,
    pub y: usize,
    pub accepted_types: Vec<ItemType>,
}

/// The sprite of a slot's frame.
pub open spec fn frame_sprite() -> Seq<char> {
    "hslot"@
}

impl Slot {
    /// Whether this slot takes items of kind `t`.
    pub open spec fn accepts(&self, t: ItemType) -> bool {
        self.accepted_types@.contains(t)
    }

    /// This slot at another position, with the same contents.
    pub open spec fn moved_to(self, x: usize, y: usize) -> Slot {
        Slot { item: self.item, item_sprite: self.item_sprite, x, y, accepted_types: self.accepted_types }
    }

    /// An empty slot at `(x, y)` that takes the kinds in `accepted_types`.
    pub fn new(x: usize, y: usize, accepted_types: Vec<ItemType>) -> (r: Self)
        ensures
            r.item is None,
            r.item_sprite is None,
            r.x == x,
            r.y == y,
            r.accepted_types@ == accepted_types@,
    {
        Self { item: None, item_sprite: None, x, y, accepted_types }
    }

    /// The pictures this slot shows: its frame, then the picture of its item if it holds one.
    pub fn get_ui(&self) -> (r: Vec<SlotImage>)
        ensures
            r@.len() == if self.item_sprite is Some { 2int } else { 1int },
            r@[0].kind == SlotImageKind::Frame,
            r@[0].x == self.x && r@[0].y == self.y,
            r@[0].sprite@ == frame_sprite(),
            self.item_sprite is Some ==> {
                &&& r@[1].kind == SlotImageKind::Item
                &&& r@[1].x == self.x && r@[1].y == self.y
                &&& r@[1].sprite@ == self.item_sprite->0@
            },
    {
        let mut sprites: Vec<SlotImage> = Vec::new();
        sprites.push(SlotImage { kind: SlotImageKind::Frame, x: self.x, y: self.y, sprite: "hslot".to_owned() });
        match &self.item_sprite {
            Some(s) => {
                sprites.push(SlotImage { kind: SlotImageKind::Item, x: self.x, y: self.y, sprite: s.clone() });
            },
            None => {},
        }
        sprites
    }

    /// Moves the slot, with its pictures, to `(new_x, new_y)`.
    pub fn alter_position(&mut self, new_x: usize, new_y: usize)
        ensures
            *final(self) == old(self).moved_to(new_x, new_y),
    {
        self.x = new_x;
        self.y = new_y;
    }

    /// Puts the item with id `item` in this slot. Fails with `NotFound` when
    /// `items` has no such item and with `WrongItemType` when the slot does not
    /// take its kind; the slot is then unchanged.
    pub fn set_item<G>(&mut self, item: usize, items: &IdMap<Item<G>>) -> (r: Result<(), PError>)
        ensures
            !items@.contains_key(item) ==> (r matches Err(e) && caused_as(e, ErrorKind::NotFound, "no item with id "@ + decimal(item as nat), "Slot::set_item"@, seq![])) && *final(self) == *old(self),
            items@.contains_key(item) && !old(self).accepts(items@[item].item_type)
                ==> (r matches Err(e) && caused_as(e, ErrorKind::WrongItemType, "this slot cannot take items of type "@ + item_type_name(items@[item].item_type), "Slot::set_item"@, seq![])) && *final(self) == *old(self),
            items@.contains_key(item) && old(self).accepts(items@[item].item_type) ==> {
                &&& r is Ok
                &&& final(self).item == Some(item)
                &&& final(self).item_sprite == Some(items@[item].sprite)
                &&& final(self).x == old(self).x
                &&& final(self).y == old(self).y
                &&& final(self).accepted_types == old(self).accepted_types
            },
    {
        let i = match fx_get(items, item) {
            Some(i) => i,
            None => {
                let mut d = "no item with id ".to_owned();
                let n = decimal_string_usize(item);
                d.append(n.as_str());
                let e = PError::raised(ErrorKind::NotFound, d, "Slot::set_item");
                assert(texts(e.trace@) =~= seq![]);
                return Err(e);
            },
        };
        let mut ok_type = false;
        let n = self.accepted_types.len();
        for k in 0..n
            invariant
                n == self.accepted_types@.len(),
                ok_type <==> exists|j: int| 0 <= j < k && self.accepted_types@[j] == i.item_type,
        {
            if self.accepted_types[k] == i.item_type {
                ok_type = true;
            }
        }
        if !ok_type {
            let mut d = "this slot cannot take items of type ".to_owned();
            d.append(i.item_type.name().as_str());
            let e = PError::raised(ErrorKind::WrongItemType, d, "Slot::set_item");
            assert(texts(e.trace@) =~= seq![]);
            return Err(e);
        }
        self.item = Some(item);
        self.item_sprite = Some(i.sprite.clone());
        Ok(())
    }

    /// Empties the slot.
    pub fn remove_item(&mut self)
        ensures
            final(self).item is None,
            final(self).item_sprite is None,
            final(self).x == old(self).x,
            final(self).y == old(self).y,
            final(self).accepted_types == old(self).accepted_types,
    {
        self.item = None;
        self.item_sprite = None;
    }
}

} // verus!

verus! {

/// The player's inventory. Items are kept by id; slots refer to them by id.
/// `hotbar` lists the slots of the hotbar, by index into `slots`.
#[derive(Debug)]
pub struct Inventory<G> {
    items: IdMap<Item<G>>,
    hotbar: Vec<usize>,
    cur_hotbar_slot: usize,
    pub slots: Vec<Slot>,
    item_id: usize,
    pub show_inventory: bool,
    item_on_mouse: Option<ItemOnMouse>,
    pub items_waiting_to_be_dropped: Vec<usize>,
    chest_slot: Option<usize>,
    helm_slot: Option<usize>,
    boot_slot: Option<usize>,
}

impl<G> Inventory<G> {
    /// The slots.
    pub closed spec fn slots_view(&self) -> Seq<Slot> {
        self.slots@
    }

    /// Whether the inventory screen is shown.
    pub closed spec fn showing(&self) -> bool {
        self.show_inventory
    }

    /// The ids of the items waiting to be dropped.
    pub closed spec fn dropped(&self) -> Seq<usize> {
        self.items_waiting_to_be_dropped@
    }

    /// The items, by id.
    pub closed spec fn items_view(&self) -> Map<usize, Item<G>> {
        self.items@
    }

    /// The hotbar: indices of slots.
    pub closed spec fn hotbar_view(&self) -> Seq<usize> {
        self.hotbar@
    }

    /// The selected hotbar position.
    pub closed spec fn cur_slot(&self) -> usize {
        self.cur_hotbar_slot
    }

    /// The id the next added item gets.
    pub closed spec fn next_id(&self) -> usize {
        self.item_id
    }

    /// The item carried by the mouse.
    pub closed spec fn on_mouse(&self) -> Option<ItemOnMouse> {
        self.item_on_mouse
    }

    /// The index of the helmet slot.
    pub closed spec fn helm(&self) -> Option<usize> {
        self.helm_slot
    }

    /// The index of the chestplate slot.
    pub closed spec fn chest(&self) -> Option<usize> {
        self.chest_slot
    }

    /// The index of the boots slot.
    pub closed spec fn boot(&self) -> Option<usize> {
        self.boot_slot
    }

    /// `o`, if it names a slot, names one that exists.
    pub open spec fn names_slot(&self, o: Option<usize>) -> bool {
        o matches Some(i) ==> i < self.slots_view().len()
    }

    /// The inventory's invariant: the hotbar names distinct existing slots, the
    /// armor slots exist, every item id is below the next id, and the item on
    /// the mouse belongs to an existing slot.
    pub closed spec fn wf(&self) -> bool {
        &&& forall|i: int| 0 <= i < self.hotbar@.len() ==> #[trigger] self.hotbar@[i] < self.slots@.len()
        &&& self.hotbar@.no_duplicates()
        &&& (self.helm_slot matches Some(i) ==> i < self.slots@.len())
        &&& (self.chest_slot matches Some(i) ==> i < self.slots@.len())
        &&& (self.boot_slot matches Some(i) ==> i < self.slots@.len())
        &&& forall|k: usize| #[trigger] self.items@.dom().contains(k) ==> k < self.item_id
        &&& (self.item_on_mouse matches Some(m) ==> m.slot_belonging < self.slots@.len())
    }

    /// Everything but the items, the next id and the slots is as in `other`.
    pub open spec fn same_frame(&self, other: &Self) -> bool {
        &&& self.hotbar_view() == other.hotbar_view()
        &&& self.cur_slot() == other.cur_slot()
        &&& self.showing() == other.showing()
        &&& self.on_mouse() == other.on_mouse()
        &&& self.dropped() == other.dropped()
        &&& self.helm() == other.helm()
        &&& self.chest() == other.chest()
        &&& self.boot() == other.boot()
    }

    /// The slot index at hotbar position `pos`, if there is one.
    pub open spec fn hotbar_slot_index(&self, pos: int) -> Option<usize> {
        if 0 <= pos < self.hotbar_view().len() && self.hotbar_view()[pos] < self.slots_view().len() {
            Some(self.hotbar_view()[pos])
        } else {
            None
        }
    }

    /// The id of the item in the selected hotbar slot, if that item exists.
    pub open spec fn held_item_id(&self) -> Option<usize> {
        match self.hotbar_slot_index(self.cur_slot() as int) {
            Some(s) => match self.slots_view()[s as int].item {
                Some(id) => if self.items_view().contains_key(id) { Some(id) } else { None },
                None => None,
            },
            None => None,
        }
    }

    /// An empty inventory: no items, slots or hotbar; nothing selected or carried.
    pub fn new() -> (r: Self)
        ensures
            r.wf(),
            r.items_view().is_empty(),
            r.hotbar_view().len() == 0,
            r.slots_view().len() == 0,
            r.cur_slot() == 0,
            r.next_id() == 0,
            !r.showing(),
            r.on_mouse() is None,
            r.dropped().len() == 0,
            r.helm() is None && r.chest() is None && r.boot() is None,
    {
        let r = Self {
            hotbar: Vec::new(),
            cur_hotbar_slot: 0,
            helm_slot: None,
            chest_slot: None,
            boot_slot: None,
            items: fx_new(),
            item_id: 0,
            slots: Vec::new(),
            show_inventory: false,
            item_on_mouse: None,
            items_waiting_to_be_dropped: Vec::new(),
        };
        assert(r.items_view() == Map::<usize, Item<G>>::empty());
        r
    }

    /// Keeps `item` under a fresh id, which it returns.
    pub fn add_item(&mut self, item: Item<G>) -> (r: usize)
        requires
            old(self).wf(),
            old(self).next_id() < usize::MAX,
        ensures
            final(self).wf(),
            r == old(self).next_id(),
            !old(self).items_view().contains_key(r),
            final(self).items_view() == old(self).items_view().insert(r, item),
            final(self).next_id() == r + 1,
            final(self).slots_view() == old(self).slots_view(),
            final(self).same_frame(old(self)),
    {
        let id = self.item_id;
        fx_insert(&mut self.items, id, item);
        self.item_id = id + 1;
        id
    }

    /// Selects the hotbar position `slot`.
    pub fn set_hotbar_slot(&mut self, slot: usize)
        requires
            old(self).wf(),
        ensures
            final(self).wf(),
            final(self).cur_slot() == slot,
            final(self).items_view() == old(self).items_view(),
            final(self).next_id() == old(self).next_id(),
            final(self).slots_view() == old(self).slots_view(),
            final(self).hotbar_view() == old(self).hotbar_view(),
            final(self).showing() == old(self).showing(),
            final(self).on_mouse() == old(self).on_mouse(),
            final(self).dropped() == old(self).dropped(),
            final(self).helm() == old(self).helm(),
            final(self).chest() == old(self).chest(),
            final(self).boot() == old(self).boot(),
    {
        self.cur_hotbar_slot = slot;
    }

    /// Adds `slot` as a new slot at the end of the hotbar.
    pub fn add_hotbar_slot(&mut self, slot: Slot)
        requires
            old(self).wf(),
        ensures
            final(self).wf(),
            final(self).slots_view() == old(self).slots_view().push(slot),
            final(self).hotbar_view() == old(self).hotbar_view().push(old(self).slots_view().len() as usize),
            final(self).items_view() == old(self).items_view(),
            final(self).next_id() == old(self).next_id(),
            final(self).cur_slot() == old(self).cur_slot(),
            final(self).showing() == old(self).showing(),
            final(self).on_mouse() == old(self).on_mouse(),
            final(self).dropped() == old(self).dropped(),
            final(self).helm() == old(self).helm(),
            final(self).chest() == old(self).chest(),
            final(self).boot() == old(self).boot(),
    {
        let n = self.slots.len();
        self.hotbar.push(n);
        self.slots.push(slot);
        assert forall|i: int, j: int| 0 <= i < j < self.hotbar@.len() implies self.hotbar@[i] != self.hotbar@[j] by {
            if j == self.hotbar@.len() - 1 {
                assert(old(self).hotbar@[i] < n);
            } else {
                assert(old(self).hotbar@.no_duplicates());
            }
        }
    }

    /// Adds `slot` as a new slot; returns its index.
    pub fn add_slot(&mut self, slot: Slot) -> (r: usize)
        requires
            old(self).wf(),
        ensures
            final(self).wf(),
            r == old(self).slots_view().len(),
            final(self).slots_view() == old(self).slots_view().push(slot),
            final(self).items_view() == old(self).items_view(),
            final(self).next_id() == old(self).next_id(),
            final(self).same_frame(old(self)),
    {
        self.slots.push(slot);
        self.slots.len() - 1
    }

    /// The slot at hotbar position `slot`, if there is one.
    pub fn get_hotbar_slot(&self, slot: usize) -> (r: Option<&Slot>)
        ensures
            match self.hotbar_slot_index(slot as int) {
                Some(i) => r matches Some(s) && *s == self.slots_view()[i as int],
                None => r is None,
            },
    {
        if slot < self.hotbar.len() {
            let i = self.hotbar[slot];
            if i < self.slots.len() {
                return Some(&self.slots[i]);
            }
        }
        None
    }

    /// The slot with index `slot`, if there is one.
    pub fn get_slot(&self, slot: &usize) -> (r: Option<&Slot>)
        ensures
            *slot < self.slots_view().len() ==> (r matches Some(s) && *s == self.slots_view()[*slot as int]),
            *slot >= self.slots_view().len() ==> r is None,
    {
        if *slot < self.slots.len() {
            Some(&self.slots[*slot])
        } else {
            None
        }
    }

    /// The id the next added item gets; every item has a smaller one.
    pub fn next_item_id(&self) -> (r: usize)
        ensures
            r == self.next_id(),
            self.wf() ==> forall|k: usize| #[trigger] self.items_view().contains_key(k) ==> k < r,
    {
        self.item_id
    }

    /// The item with id `id`, if there is one.
    pub fn get_item(&self, id: &usize) -> (r: Option<&Item<G>>)
        ensures
            self.items_view().contains_key(*id) ==> (r matches Some(i) && *i == self.items_view()[*id]),
            !self.items_view().contains_key(*id) ==> r is None,
    {
        fx_get(&self.items, *id)
    }

    /// The item with id `id`, if there is one, for changing it in place.
    pub fn get_item_mut(&mut self, id: &usize) -> (r: Option<&mut Item<G>>)
        ensures
            match r {
                Some(i) => old(self).items_view().contains_key(*id) && *i == old(self).items_view()[*id]
                    && final(self).items_view() == old(self).items_view().insert(*id, *final(i)),
                None => !old(self).items_view().contains_key(*id) && final(self).items_view() == old(self).items_view(),
            },
            final(self).next_id() == old(self).next_id(),
            final(self).slots_view() == old(self).slots_view(),
            final(self).same_frame(old(self)),
    {
        fx_get_mut(&mut self.items, *id)
    }

    /// The item in the selected hotbar slot, if that slot holds an item that exists.
    pub fn get_cur_held_item(&self) -> (r: Option<&Item<G>>)
        ensures
            match self.held_item_id() {
                Some(id) => r matches Some(i) && *i == self.items_view()[id],
                None => r is None,
            },
    {
        match self.get_hotbar_slot(self.cur_hotbar_slot) {
            Some(slot) => match slot.item {
                Some(id) => self.get_item(&id),
                None => None,
            },
            None => None,
        }
    }

    /// The item in the selected hotbar slot, for changing it in place.
    pub fn get_cur_held_item_mut(&mut self) -> (r: Option<&mut Item<G>>)
        ensures
            match old(self).held_item_id() {
                Some(id) => r matches Some(i) && *i == old(self).items_view()[id]
                    && final(self).items_view() == old(self).items_view().insert(id, *final(i)),
                None => r is None && final(self).items_view() == old(self).items_view(),
            },
            final(self).next_id() == old(self).next_id(),
            final(self).slots_view() == old(self).slots_view(),
            final(self).same_frame(old(self)),
    {
        let id = match self.get_hotbar_slot(self.cur_hotbar_slot) {
            Some(slot) => slot.item,
            None => None,
        };
        match id {
            Some(id) => self.get_item_mut(&id),
            None => None,
        }
    }

    /// Removes the item with id `id`. Slots that refer to it are left as they
    /// are. Fails with `NotFound` when there is no such item.
    pub fn remove_item(&mut self, id: usize) -> (r: Result<(), PError>)
        requires
            old(self).wf(),
        ensures
            final(self).wf(),
            r is Ok <==> old(self).items_view().contains_key(id),
            r matches Err(e) ==> caused_as(e, ErrorKind::NotFound, "attempted to remove item with id "@ + decimal(id as nat) + " that doesn't exist"@, "Inventory::remove_item"@, seq![]),
            final(self).items_view() == old(self).items_view().remove(id),
            final(self).next_id() == old(self).next_id(),
            final(self).slots_view() == old(self).slots_view(),
            final(self).same_frame(old(self)),
    {
        match fx_remove(&mut self.items, id) {
            Some(_) => Ok(()),
            None => {
                let mut d = "attempted to remove item with id ".to_owned();
                let n = decimal_string_usize(id);
                d.append(n.as_str());
                d.append(" that doesn't exist");
                let e = PError::raised(ErrorKind::NotFound, d, "Inventory::remove_item");
                assert(texts(e.trace@) =~= seq![]);
                Err(e)
            },
        }
    }
}

} // verus!

verus! {

/// An empty slot at `(x, y)` taking exactly the kinds in `types`.
pub open spec fn fresh_slot(s: Slot, x: int, y: int, types: Seq<ItemType>) -> bool {
    &&& s.item is None
    &&& s.item_sprite is None
    &&& s.x == x
    &&& s.y == y
    &&& s.accepted_types@ == types
}

/// `s` holding the item `id`, shown with `sprite`.
pub open spec fn holding(s: Slot, id: usize, sprite: String) -> Slot {
    Slot { item: Some(id), item_sprite: Some(sprite), x: s.x, y: s.y, accepted_types: s.accepted_types }
}

/// `s` with nothing in it.
pub open spec fn emptied(s: Slot) -> Slot {
    Slot { item: None, item_sprite: None, x: s.x, y: s.y, accepted_types: s.accepted_types }
}

/// Whether the screen point `(x, y)` lies strictly inside the 48-pixel square of `s`.
pub open spec fn hovered(s: Slot, x: int, y: int) -> bool {
    s.x < x && x < s.x + 48 && s.y < y && y < s.y + 48
}

/// The first slot at or after index `i` that `(x, y)` lies inside.
pub open spec fn first_hovered_from(slots: Seq<Slot>, x: int, y: int, i: int) -> Option<int>
    decreases slots.len() - i,
{
    if i < 0 || i >= slots.len() {
        None
    } else if hovered(slots[i], x, y) {
        Some(i)
    } else {
        first_hovered_from(slots, x, y, i + 1)
    }
}

/// `new` is `old` with each hotbar slot `hotbar[i]` moved to `(base_x + 58 i, y)`.
pub open spec fn hotbar_moved(old: Seq<Slot>, new: Seq<Slot>, hotbar: Seq<usize>, base_x: int, y: int) -> bool {
    &&& new.len() == old.len()
    &&& forall|i: int| 0 <= i < hotbar.len() ==>
            new[#[trigger] hotbar[i] as int] == old[hotbar[i] as int].moved_to((base_x + 58 * i) as usize, y as usize)
    &&& forall|s: int| 0 <= s < old.len() && !hotbar.contains(s as usize) ==> #[trigger] new[s] == old[s]
}

/// The x of hotbar position `i` while the inventory screen is hidden.
pub open spec fn hotbar_x(i: int) -> int {
    20 + 58 * i
}

/// The x of the `j`-th storage slot.
pub open spec fn grid_x(j: int) -> int {
    520 + 58 * (j % 5)
}

/// The y of the `j`-th storage slot.
pub open spec fn grid_y(j: int) -> int {
    200 + 58 * (j / 5)
}

/// What the inventory holds in its slots and on the mouse, each place counted once:
/// `Some(id)` for a place holding item `id`, `None` for an empty one.
pub open spec fn carried(slots: Seq<Slot>, on_mouse: Option<ItemOnMouse>) -> Multiset<Option<usize>> {
    slots.map_values(|s: Slot| s.item).push(
        match on_mouse {
            Some(m) => Some(m.item_id),
            None => None,
        },
    ).to_multiset()
}

} // verus!

verus! {

impl<G> Inventory<G> {
    /// Moves each hotbar slot `hotbar[i]` to `(base_x + 58 i, y)`.
    fn move_hotbar(&mut self, base_x: usize, y: usize)
        requires
            old(self).wf(),
            base_x + 58 * old(self).hotbar_view().len() <= usize::MAX,
        ensures
            final(self).wf(),
            hotbar_moved(old(self).slots_view(), final(self).slots_view(), old(self).hotbar_view(), base_x as int, y as int),
            final(self).items_view() == old(self).items_view(),
            final(self).next_id() == old(self).next_id(),
            final(self).same_frame(old(self)),
    {
        let n = self.hotbar.len();
        let ghost old_slots = self.slots@;
        for i in 0..n
            invariant
                n == self.hotbar@.len(),
                base_x + 58 * n <= usize::MAX,
                self.wf(),
                self.hotbar@ == old(self).hotbar@,
                self.items@ == old(self).items@,
                self.item_id == old(self).item_id,
                self.same_frame(old(self)),
                old_slots == old(self).slots@,
                self.slots@.len() == old_slots.len(),
                forall|j: int| 0 <= j < i ==>
                    self.slots@[#[trigger] self.hotbar@[j] as int] == old_slots[self.hotbar@[j] as int].moved_to((base_x + 58 * j) as usize, y),
                forall|s: int| 0 <= s < old_slots.len() && !self.hotbar@.take(i as int).contains(s as usize) ==> #[trigger] self.slots@[s] == old_slots[s],
        {
            let idx = self.hotbar[i];
            assert(idx < self.slots@.len());
            let x = base_x + i * 58;
            self.slots[idx].alter_position(x, y);
            assert forall|j: int| 0 <= j < i + 1 implies
                self.slots@[#[trigger] self.hotbar@[j] as int] == old_slots[self.hotbar@[j] as int].moved_to((base_x + 58 * j) as usize, y) by {
                if j < i {
                    assert(self.hotbar@[j] != idx);
                } else {
                    assert(!self.hotbar@.take(i as int).contains(idx)) by {
                        if self.hotbar@.take(i as int).contains(idx) {
                            let k = choose|k: int| 0 <= k < i && self.hotbar@.take(i as int)[k] == idx;
                            assert(self.hotbar@[k] == self.hotbar@[i as int]);
                        }
                    }
                }
            }
            assert forall|s: int| 0 <= s < old_slots.len() && !self.hotbar@.take(i + 1).contains(s as usize)
                implies #[trigger] self.slots@[s] == old_slots[s] by {
                assert(self.hotbar@.take(i + 1)[i as int] == idx);
                if self.hotbar@.take(i as int).contains(s as usize) {
                    let k = choose|k: int| 0 <= k < i && self.hotbar@.take(i as int)[k] == s as usize;
                    assert(self.hotbar@.take(i + 1)[k] == s as usize);
                }
            }
        }
        assert(self.hotbar@.take(n as int) =~= self.hotbar@);
    }

    /// Shows the inventory screen and moves the hotbar slots onto it.
    pub fn show_inventory(&mut self)
        requires
            old(self).wf(),
            520 + 58 * old(self).hotbar_view().len() <= usize::MAX,
        ensures
            final(self).wf(),
            final(self).showing(),
            hotbar_moved(old(self).slots_view(), final(self).slots_view(), old(self).hotbar_view(), 520, 374),
            final(self).items_view() == old(self).items_view(),
            final(self).next_id() == old(self).next_id(),
            final(self).hotbar_view() == old(self).hotbar_view(),
            final(self).cur_slot() == old(self).cur_slot(),
            final(self).on_mouse() == old(self).on_mouse(),
            final(self).dropped() == old(self).dropped(),
            final(self).helm() == old(self).helm(),
            final(self).chest() == old(self).chest(),
            final(self).boot() == old(self).boot(),
    {
        self.show_inventory = true;
        self.move_hotbar(520, 374);
    }
}

} // verus!

verus! {

impl<G> Inventory<G> {
    /// Whether slot `slot` exists and takes the existing item `id`.
    pub open spec fn takes(&self, slot: int, id: usize) -> bool {
        &&& 0 <= slot < self.slots_view().len()
        &&& self.items_view().contains_key(id)
        &&& self.slots_view()[slot].accepts(self.items_view()[id].item_type)
    }

    /// The message of the error that slot `slot` raises when it refuses item
    /// `id`: there is no such item, or the slot does not take its kind.
    pub open spec fn refusal(&self, slot: int, id: usize) -> Seq<char> {
        if !self.items_view().contains_key(id) {
            raised_text(ErrorKind::NotFound, "no item with id "@ + decimal(id as nat), "Slot::set_item"@)
        } else {
            raised_text(
                ErrorKind::WrongItemType,
                "this slot cannot take items of type "@ + item_type_name(self.items_view()[id].item_type),
                "Slot::set_item"@,
            )
        }
    }

    /// The slots after slot `slot` takes item `id`.
    pub open spec fn slots_with(&self, slot: int, id: usize) -> Seq<Slot> {
        self.slots_view().update(slot, holding(self.slots_view()[slot], id, self.items_view()[id].sprite))
    }

    /// Puts item `item_id` in slot `slot`. Fails with `NotFound` when there is
    /// no such slot, and with an `Error` caused by the slot's refusal when the
    /// item does not exist or the slot does not take its kind; the inventory
    /// is then unchanged.
    pub fn set_slot_item(&mut self, slot: usize, item_id: usize) -> (r: Result<(), PError>)
        requires
            old(self).wf(),
        ensures
            final(self).wf(),
            r is Ok <==> old(self).takes(slot as int, item_id),
            slot >= old(self).slots_view().len() ==> (r matches Err(e) && caused_as(e, ErrorKind::NotFound, "There is no "@ + decimal(slot as nat) + "th slot"@, "Inventory::set_slot_item"@, seq![])),
            slot < old(self).slots_view().len() && !old(self).takes(slot as int, item_id) ==> (r matches Err(e) && caused_as(e, ErrorKind::Error, ""@, "Inventory::set_slot_item"@, seq![old(self).refusal(slot as int, item_id)])),
            r is Ok ==> final(self).slots_view() == old(self).slots_with(slot as int, item_id),
            r is Err ==> final(self).slots_view() == old(self).slots_view(),
            final(self).items_view() == old(self).items_view(),
            final(self).next_id() == old(self).next_id(),
            final(self).same_frame(old(self)),
    {
        if slot >= self.slots.len() {
            let mut d = "There is no ".to_owned();
            let n = decimal_string_usize(slot);
            d.append(n.as_str());
            d.append("th slot");
            let e = PError::raised(ErrorKind::NotFound, d, "Inventory::set_slot_item");
            assert(texts(e.trace@) =~= seq![]);
            return Err(e);
        }
        let res = self.slots[slot].set_item(item_id, &self.items);
        match res {
            Ok(()) => Ok(()),
            Err(e) => {
                let w = PError::caused_by(ErrorKind::Error, String::new(), "Inventory::set_slot_item", &e);
                proof {
                    reveal_strlit("");
                    if !self.items@.contains_key(item_id) {
                        lemma_raised_text(e.error, ErrorKind::NotFound, "no item with id "@ + decimal(item_id as nat), "Slot::set_item"@);
                    } else {
                        lemma_raised_text(e.error, ErrorKind::WrongItemType,
                            "this slot cannot take items of type "@ + item_type_name(self.items@[item_id].item_type), "Slot::set_item"@);
                    }
                    assert(texts(w.trace@) =~= seq![old(self).refusal(slot as int, item_id)]);
                    assert(""@ =~= Seq::<char>::empty());
                }
                Err(w)
            },
        }
    }

    /// Puts item `item_id` in the slot at hotbar position `slot`. Fails with
    /// `NotFound` when there is no such hotbar slot, and with an `Error`
    /// caused by the slot's refusal otherwise; the inventory is then unchanged.
    pub fn set_hotbar_slot_item(&mut self, slot: usize, item_id: usize) -> (r: Result<(), PError>)
        requires
            old(self).wf(),
        ensures
            final(self).wf(),
            match old(self).hotbar_slot_index(slot as int) {
                None => (r matches Err(e) && caused_as(e, ErrorKind::NotFound, "There is no "@ + decimal(slot as nat) + "th hotbar slot"@, "Inventory::set_hotbar_slot_item"@, seq![]))
                    && final(self).slots_view() == old(self).slots_view(),
                Some(s) => {
                    &&& (r is Ok <==> old(self).takes(s as int, item_id))
                    &&& (r matches Err(e) ==> caused_as(e, ErrorKind::Error,
                            "While setting hotbar slot "@ + decimal(slot as nat) + " to item "@ + decimal(item_id as nat),
                            "Inventory::set_hotbar_slot_item"@, seq![old(self).refusal(s as int, item_id)]))
                    &&& (r is Ok ==> final(self).slots_view() == old(self).slots_with(s as int, item_id))
                    &&& (r is Err ==> final(self).slots_view() == old(self).slots_view())
                },
            },
            final(self).items_view() == old(self).items_view(),
            final(self).next_id() == old(self).next_id(),
            final(self).same_frame(old(self)),
    {
        if slot >= self.hotbar.len() || self.hotbar[slot] >= self.slots.len() {
            let mut d = "There is no ".to_owned();
            let n = decimal_string_usize(slot);
            d.append(n.as_str());
            d.append("th hotbar slot");
            let e = PError::raised(ErrorKind::NotFound, d, "Inventory::set_hotbar_slot_item");
            assert(texts(e.trace@) =~= seq![]);
            return Err(e);
        }
        let idx = self.hotbar[slot];
        let res = self.slots[idx].set_item(item_id, &self.items);
        match res {
            Ok(()) => Ok(()),
            Err(e) => {
                let mut d = "While setting hotbar slot ".to_owned();
                let n = decimal_string_usize(slot);
                d.append(n.as_str());
                d.append(" to item ");
                let m = decimal_string_usize(item_id);
                d.append(m.as_str());
                let w = PError::caused_by(ErrorKind::Error, d, "Inventory::set_hotbar_slot_item", &e);
                proof {
                    if !self.items@.contains_key(item_id) {
                        lemma_raised_text(e.error, ErrorKind::NotFound, "no item with id "@ + decimal(item_id as nat), "Slot::set_item"@);
                    } else {
                        lemma_raised_text(e.error, ErrorKind::WrongItemType,
                            "this slot cannot take items of type "@ + item_type_name(self.items@[item_id].item_type), "Slot::set_item"@);
                    }
                    assert(texts(w.trace@) =~= seq![old(self).refusal(idx as int, item_id)]);
                }
                Err(w)
            },
        }
    }

    /// Hides the inventory screen. An item carried by the mouse goes back to
    /// the slot it came from; if that fails, the error is returned (caused by
    /// the slot's refusal), the item stays on the mouse and the hotbar stays
    /// where it is. Otherwise the hotbar slots return to the bottom of the screen.
    pub fn hide_inventory(&mut self) -> (r: Result<(), PError>)
        requires
            old(self).wf(),
            20 + 58 * old(self).hotbar_view().len() <= usize::MAX,
        ensures
            final(self).wf(),
            !final(self).showing(),
            match old(self).on_mouse() {
                None => r is Ok && final(self).on_mouse() is None
                    && hotbar_moved(old(self).slots_view(), final(self).slots_view(), old(self).hotbar_view(), 20, 652),
                Some(m) => if old(self).takes(m.slot_belonging as int, m.item_id) {
                    &&& r is Ok
                    &&& final(self).on_mouse() is None
                    &&& hotbar_moved(old(self).slots_with(m.slot_belonging as int, m.item_id),
                            final(self).slots_view(), old(self).hotbar_view(), 20, 652)
                } else {
                    &&& (r matches Err(e) && caused_as(e, ErrorKind::Error, ""@, "Inventory::hide_inventory"@,
                            seq![raised_text(ErrorKind::Error, ""@, "Inventory::set_slot_item"@),
                                old(self).refusal(m.slot_belonging as int, m.item_id)]))
                    &&& final(self).on_mouse() == old(self).on_mouse()
                    &&& final(self).slots_view() == old(self).slots_view()
                },
            },
            final(self).items_view() == old(self).items_view(),
            final(self).next_id() == old(self).next_id(),
            final(self).hotbar_view() == old(self).hotbar_view(),
            final(self).cur_slot() == old(self).cur_slot(),
            final(self).dropped() == old(self).dropped(),
            final(self).helm() == old(self).helm(),
            final(self).chest() == old(self).chest(),
            final(self).boot() == old(self).boot(),
    {
        self.show_inventory = false;
        match self.item_on_mouse {
            Some(iom) => {
                let res = self.set_slot_item(iom.slot_belonging, iom.item_id);
                match res {
                    Ok(()) => {},
                    Err(e) => {
                        let w = PError::caused_by(ErrorKind::Error, String::new(), "Inventory::hide_inventory", &e);
                        proof {
                            reveal_strlit("");
                            assert(""@ =~= Seq::<char>::empty());
                            lemma_raised_text(e.error, ErrorKind::Error, ""@, "Inventory::set_slot_item"@);
                            assert(texts(w.trace@) =~= seq![raised_text(ErrorKind::Error, ""@, "Inventory::set_slot_item"@),
                                old(self).refusal(iom.slot_belonging as int, iom.item_id)]);
                        }
                        return Err(w);
                    },
                }
                self.item_on_mouse = None;
            },
            None => {},
        }
        self.move_hotbar(20, 652);
        Ok(())
    }
}

} // verus!

verus! {

impl<G> Inventory<G> {
    /// Lays out the inventory: five hotbar slots along the bottom of the
    /// screen, fifteen storage slots in rows of five, then the helmet,
    /// chestplate and boots slots, which take only their kind of armor.
    /// All other slots take every kind of item.
    #[verifier::spinoff_prover]
    #[verifier::rlimit(40)]
    pub fn init_ui(&mut self)
        requires
            old(self).wf(),
        ensures
            final(self).wf(),
            ({
                let n = old(self).slots_view().len() as int;
                let s = final(self).slots_view();
                &&& s.len() == n + 23
                &&& s.take(n as int) == old(self).slots_view()
                &&& forall|i: int| 0 <= i < 5 ==> fresh_slot(#[trigger] s[n + i], hotbar_x(i), 652, all_item_types())
                &&& forall|j: int| 0 <= j < 15 ==> fresh_slot(#[trigger] s[n + 5 + j], grid_x(j), grid_y(j), all_item_types())
                &&& fresh_slot(s[n + 20], 369, 242, seq![ItemType::HelmetArmor])
                &&& fresh_slot(s[n + 21], 369, 300, seq![ItemType::ChestplateArmor])
                &&& fresh_slot(s[n + 22], 369, 358, seq![ItemType::BootsArmor])
                &&& final(self).hotbar_view() == old(self).hotbar_view() + seq![n as usize, (n + 1) as usize, (n + 2) as usize, (n + 3) as usize, (n + 4) as usize]
                &&& final(self).helm() == Some((n + 20) as usize)
                &&& final(self).chest() == Some((n + 21) as usize)
                &&& final(self).boot() == Some((n + 22) as usize)
            }),
            final(self).items_view() == old(self).items_view(),
            final(self).next_id() == old(self).next_id(),
            final(self).cur_slot() == old(self).cur_slot(),
            final(self).showing() == old(self).showing(),
            final(self).on_mouse() == old(self).on_mouse(),
            final(self).dropped() == old(self).dropped(),
    {
        let ghost n = self.slots@.len() as int;
        let ghost h = self.hotbar@;
        self.add_hotbar_slot(Slot::new(20, 652, ItemType::all()));
        self.add_hotbar_slot(Slot::new(78, 652, ItemType::all()));
        self.add_hotbar_slot(Slot::new(136, 652, ItemType::all()));
        self.add_hotbar_slot(Slot::new(194, 652, ItemType::all()));
        self.add_hotbar_slot(Slot::new(252, 652, ItemType::all()));
        self.add_slot(Slot::new(520, 200, ItemType::all()));
        self.add_slot(Slot::new(578, 200, ItemType::all()));
        self.add_slot(Slot::new(636, 200, ItemType::all()));
        self.add_slot(Slot::new(694, 200, ItemType::all()));
        self.add_slot(Slot::new(752, 200, ItemType::all()));
        self.add_slot(Slot::new(520, 258, ItemType::all()));
        self.add_slot(Slot::new(578, 258, ItemType::all()));
        self.add_slot(Slot::new(636, 258, ItemType::all()));
        self.add_slot(Slot::new(694, 258, ItemType::all()));
        self.add_slot(Slot::new(752, 258, ItemType::all()));
        self.add_slot(Slot::new(520, 316, ItemType::all()));
        self.add_slot(Slot::new(578, 316, ItemType::all()));
        self.add_slot(Slot::new(636, 316, ItemType::all()));
        self.add_slot(Slot::new(694, 316, ItemType::all()));
        self.add_slot(Slot::new(752, 316, ItemType::all()));
        let helm_types = vec![ItemType::HelmetArmor];
        assert(helm_types@ =~= seq![ItemType::HelmetArmor]);
        let chest_types = vec![ItemType::ChestplateArmor];
        assert(chest_types@ =~= seq![ItemType::ChestplateArmor]);
        let boot_types = vec![ItemType::BootsArmor];
        assert(boot_types@ =~= seq![ItemType::BootsArmor]);
        let helm = self.add_slot(Slot::new(369, 242, helm_types));
        let chest = self.add_slot(Slot::new(369, 300, chest_types));
        let boot = self.add_slot(Slot::new(369, 358, boot_types));
        self.helm_slot = Some(helm);
        self.chest_slot = Some(chest);
        self.boot_slot = Some(boot);
        proof {
            let s = self.slots@;
            assert(s.take(n as int) =~= old(self).slots@);
            assert(self.hotbar@ =~= h + seq![n as usize, (n + 1) as usize, (n + 2) as usize, (n + 3) as usize, (n + 4) as usize]);
            assert forall|j: int| 0 <= j < 15 implies fresh_slot(#[trigger] s[n + 5 + j], grid_x(j), grid_y(j), all_item_types()) by {
                assert(0 <= j < 5 || 5 <= j < 10 || 10 <= j < 15);
            }
        }
    }
}

} // verus!

verus! {

/// Whether slot `i` can receive a picked-up item: it is empty and is not one
/// of the armor slots `h`, `c`, `b`.
pub open spec fn open_for_pickup(slots: Seq<Slot>, h: Option<usize>, c: Option<usize>, b: Option<usize>, i: int) -> bool {
    &&& h != Some(i as usize)
    &&& c != Some(i as usize)
    &&& b != Some(i as usize)
    &&& slots[i].item is None
}

/// The first slot at or after `i` that can receive a picked-up item.
pub open spec fn first_open_from(slots: Seq<Slot>, h: Option<usize>, c: Option<usize>, b: Option<usize>, i: int) -> Option<int>
    decreases slots.len() - i,
{
    if i < 0 || i >= slots.len() {
        None
    } else if open_for_pickup(slots, h, c, b, i) {
        Some(i)
    } else {
        first_open_from(slots, h, c, b, i + 1)
    }
}

proof fn lemma_first_open_skip(slots: Seq<Slot>, h: Option<usize>, c: Option<usize>, b: Option<usize>, i: int)
    requires
        0 <= i < slots.len(),
        !open_for_pickup(slots, h, c, b, i),
    ensures
        first_open_from(slots, h, c, b, i) == first_open_from(slots, h, c, b, i + 1),
{
}

proof fn lemma_first_hovered_skip(slots: Seq<Slot>, x: int, y: int, i: int)
    requires
        0 <= i < slots.len(),
        !hovered(slots[i], x, y),
    ensures
        first_hovered_from(slots, x, y, i) == first_hovered_from(slots, x, y, i + 1),
{
}

/// Whether `(x, y)` lies strictly inside the square of `s`, computed without overflow.
fn is_hovered(s: &Slot, x: usize, y: usize) -> (r: bool)
    ensures
        r == hovered(*s, x as int, y as int),
{
    s.x < x && x - s.x < 48 && s.y < y && y - s.y < 48
}

/// The index of the first slot that `(x, y)` lies inside.
fn find_hovered(slots: &Vec<Slot>, x: usize, y: usize) -> (r: Option<usize>)
    ensures
        match r {
            Some(k) => first_hovered_from(slots@, x as int, y as int, 0) == Some(k as int),
            None => first_hovered_from(slots@, x as int, y as int, 0) is None,
        },
{
    let n = slots.len();
    for i in 0..n
        invariant
            n == slots@.len(),
            first_hovered_from(slots@, x as int, y as int, 0) == first_hovered_from(slots@, x as int, y as int, i as int),
    {
        if is_hovered(&slots[i], x, y) {
            return Some(i);
        }
        proof { lemma_first_hovered_skip(slots@, x as int, y as int, i as int); }
    }
    None
}

} // verus!

verus! {

impl<G> Inventory<G> {
    /// The first slot that can receive a picked-up item.
    pub open spec fn first_open(&self) -> Option<int> {
        first_open_from(self.slots_view(), self.helm(), self.chest(), self.boot(), 0)
    }

    /// Keeps `item` under a fresh id and puts it in the first empty slot that
    /// is not an armor slot. The item is kept even when it finds no place.
    /// Fails with `NoSpace` when there is no such slot, and with an `Error`
    /// caused by the slot's refusal when that slot does not take its kind.
    pub fn add_to_slot(&mut self, item: Item<G>) -> (r: Result<(), PError>)
        requires
            old(self).wf(),
            old(self).next_id() < usize::MAX,
        ensures
            final(self).wf(),
            final(self).items_view() == old(self).items_view().insert(old(self).next_id(), item),
            final(self).next_id() == old(self).next_id() + 1,
            match old(self).first_open() {
                None => (r matches Err(e) && caused_as(e, ErrorKind::NoSpace, "No space for item"@, "Inventory::add_to_slot"@, seq![]))
                    && final(self).slots_view() == old(self).slots_view(),
                Some(j) => if old(self).slots_view()[j].accepts(item.item_type) {
                    &&& r is Ok
                    &&& final(self).slots_view() == old(self).slots_view().update(j,
                            holding(old(self).slots_view()[j], old(self).next_id(), item.sprite))
                } else {
                    &&& (r matches Err(e) && caused_as(e, ErrorKind::Error, ""@, "Inventory::add_to_slot"@,
                            seq![raised_text(ErrorKind::WrongItemType, "this slot cannot take items of type "@ + item_type_name(item.item_type), "Slot::set_item"@)]))
                    &&& final(self).slots_view() == old(self).slots_view()
                },
            },
            final(self).same_frame(old(self)),
    {
        let ghost t = item.item_type;
        let ghost sp = item.sprite;
        let it = self.add_item(item);
        let n = self.slots.len();
        let ghost slots0 = self.slots@;
        for i in 0..n
            invariant
                n == self.slots@.len(),
                self.wf(),
                self.slots@ == slots0,
                slots0 == old(self).slots@,
                self.items@ == old(self).items@.insert(it, item),
                it == old(self).item_id,
                self.item_id == it + 1,
                self.same_frame(old(self)),
                t == item.item_type,
                sp == item.sprite,
                old(self).first_open() == first_open_from(slots0, self.helm_slot, self.chest_slot, self.boot_slot, i as int),
        {
            let skip = match self.helm_slot { Some(h) => h == i, None => false }
                || match self.chest_slot { Some(c) => c == i, None => false }
                || match self.boot_slot { Some(b) => b == i, None => false };
            if !skip && self.slots[i].item.is_none() {
                let res = self.slots[i].set_item(it, &self.items);
                match res {
                    Ok(()) => {
                        return Ok(());
                    },
                    Err(e) => {
                        let w = PError::caused_by(ErrorKind::Error, String::new(), "Inventory::add_to_slot", &e);
                        proof {
                            reveal_strlit("");
                            assert(""@ =~= Seq::<char>::empty());
                            lemma_raised_text(e.error, ErrorKind::WrongItemType,
                                "this slot cannot take items of type "@ + item_type_name(t), "Slot::set_item"@);
                            assert(texts(w.trace@) =~= seq![raised_text(ErrorKind::WrongItemType,
                                "this slot cannot take items of type "@ + item_type_name(t), "Slot::set_item"@)]);
                        }
                        return Err(w);
                    },
                }
            }
            proof { lemma_first_open_skip(slots0, self.helm_slot, self.chest_slot, self.boot_slot, i as int); }
        }
        let e = PError::raised(ErrorKind::NoSpace, "No space for item".to_owned(), "Inventory::add_to_slot");
        assert(texts(e.trace@) =~= seq![]);
        Err(e)
    }

    /// What a click at screen point `(x, y)` does to the slots and the mouse:
    /// the new slots, the new item on the mouse, and whether the click fails.
    /// A left click on a slot picks up its item when the mouse carries none;
    /// when the mouse carries an item, the slot takes it (handing its own
    /// item, if any, to the mouse) provided it takes that kind; a carried item
    /// that no longer exists makes the click fail.
    pub open spec fn click_outcome(&self, x: int, y: int, left: bool) -> (Seq<Slot>, Option<ItemOnMouse>, bool) {
        let slots = self.slots_view();
        let mouse = self.on_mouse();
        if !left {
            (slots, mouse, false)
        } else {
            match first_hovered_from(slots, x, y, 0) {
                None => (slots, mouse, false),
                Some(i) => {
                    let s = slots[i];
                    match mouse {
                        None => match s.item {
                            Some(sid) => (slots.update(i, emptied(s)), Some(ItemOnMouse { item_id: sid, slot_belonging: i as usize }), false),
                            None => (slots, mouse, false),
                        },
                        Some(m) => if !self.items_view().contains_key(m.item_id) {
                            (slots, mouse, true)
                        } else if !s.accepts(self.items_view()[m.item_id].item_type) {
                            (slots, mouse, false)
                        } else {
                            let put = slots.update(i, holding(s, m.item_id, self.items_view()[m.item_id].sprite));
                            match s.item {
                                Some(sid) => (put, Some(ItemOnMouse { item_id: sid, slot_belonging: m.slot_belonging }), false),
                                None => (put, None, false),
                            }
                        },
                    }
                },
            }
        }
    }

    /// Handles a click at the screen point `(x, y)` as [`Self::click_outcome`]
    /// describes; a failure is an `Error` caused by the slot's refusal.
    pub fn on_mouse_click(&mut self, x: usize, y: usize, left: bool, right: bool) -> (r: Result<(), PError>)
        requires
            old(self).wf(),
        ensures
            final(self).wf(),
            final(self).slots_view() == old(self).click_outcome(x as int, y as int, left).0,
            final(self).on_mouse() == old(self).click_outcome(x as int, y as int, left).1,
            r is Err <==> old(self).click_outcome(x as int, y as int, left).2,
            r matches Err(e) ==> old(self).on_mouse() matches Some(m) && caused_as(e, ErrorKind::Error, ""@,
                "Inventory::on_mouse_click"@, seq![raised_text(ErrorKind::NotFound, "no item with id "@ + decimal(m.item_id as nat), "Slot::set_item"@)]),
            final(self).items_view() == old(self).items_view(),
            final(self).next_id() == old(self).next_id(),
            final(self).hotbar_view() == old(self).hotbar_view(),
            final(self).cur_slot() == old(self).cur_slot(),
            final(self).showing() == old(self).showing(),
            final(self).dropped() == old(self).dropped(),
            final(self).helm() == old(self).helm(),
            final(self).chest() == old(self).chest(),
            final(self).boot() == old(self).boot(),
    {
        if !left {
            return Ok(());
        }
        let found = find_hovered(&self.slots, x, y);
        let i = match found {
            Some(i) => i,
            None => {
                return Ok(());
            },
        };
        proof { lemma_first_hovered_in_range(self.slots@, x as int, y as int, 0); }
        match self.item_on_mouse {
            None => {
                match self.slots[i].item {
                    Some(sid) => {
                        self.item_on_mouse = Some(ItemOnMouse { slot_belonging: i, item_id: sid });
                        self.slots[i].remove_item();
                        assert(self.slots@ =~= old(self).slots@.update(i as int, emptied(old(self).slots@[i as int])));
                    },
                    None => {},
                }
            },
            Some(m) => {
                let held = self.slots[i].item;
                let res = self.slots[i].set_item(m.item_id, &self.items);
                match res {
                    Ok(()) => {
                        assert(self.slots@ =~= old(self).slots@.update(i as int,
                            holding(old(self).slots@[i as int], m.item_id, old(self).items@[m.item_id].sprite)));
                        match held {
                            Some(sid) => {
                                self.item_on_mouse = Some(ItemOnMouse { slot_belonging: m.slot_belonging, item_id: sid });
                            },
                            None => {
                                self.item_on_mouse = None;
                            },
                        }
                    },
                    Err(e) => {
                        match e.error {
                            crate::error::PE::WrongItemType(_) => {},
                            _ => {
                                let w = PError::caused_by(ErrorKind::Error, String::new(), "Inventory::on_mouse_click", &e);
                                proof {
                                    reveal_strlit("");
                                    assert(""@ =~= Seq::<char>::empty());
                                    lemma_raised_text(e.error, ErrorKind::NotFound, "no item with id "@ + decimal(m.item_id as nat), "Slot::set_item"@);
                                    assert(texts(w.trace@) =~= seq![raised_text(ErrorKind::NotFound, "no item with id "@ + decimal(m.item_id as nat), "Slot::set_item"@)]);
                                }
                                return Err(w);
                            },
                        }
                    },
                }
            },
        }
        Ok(())
    }
}

/// Swapping what place `i` holds with an extra place leaves what is held unchanged.
proof fn lemma_swap_keeps_multiset(s: Seq<Option<usize>>, i: int, c: Option<usize>)
    requires
        0 <= i < s.len(),
    ensures
        s.update(i, c).push(s[i]).to_multiset() == s.push(c).to_multiset(),
{
    broadcast use vstd::seq_lib::to_multiset_update, vstd::seq_lib::to_multiset_contains, vstd::multiset::group_multiset_properties;
    let t = s.push(c);
    assert(t.update(i, c).update(s.len() as int, s[i]) =~= s.update(i, c).push(s[i]));
    assert(t.update(i, c).to_multiset() == t.to_multiset().insert(c).remove(s[i]));
    assert(t.update(i, c).update(s.len() as int, s[i]).to_multiset()
        == t.update(i, c).to_multiset().insert(s[i]).remove(c));
    let m = t.to_multiset();
    assert(t[i] == s[i]);
    assert(t.contains(s[i]));
    assert(m.count(s[i]) > 0);
    assert(m.insert(c).remove(s[i]).insert(s[i]) =~= m.insert(c));
    assert(m.insert(c).remove(c) =~= m);
}

/// A click moves items between the slots and the mouse but never creates,
/// duplicates or loses one: what the inventory carries is the same before
/// and after.
pub proof fn lemma_click_conserves_items<G>(inv: Inventory<G>, x: int, y: int, left: bool)
    ensures
        carried(inv.click_outcome(x, y, left).0, inv.click_outcome(x, y, left).1)
            == carried(inv.slots_view(), inv.on_mouse()),
{
    let slots = inv.slots_view();
    let items = slots.map_values(|s: Slot| s.item);
    if left {
        match first_hovered_from(slots, x, y, 0) {
            Some(i) => {
                lemma_first_hovered_in_range(slots, x, y, 0);
                let out = inv.click_outcome(x, y, left);
                let mouse_item = match inv.on_mouse() { Some(m) => Some(m.item_id), None => None };
                if out.0 != slots || out.1 != inv.on_mouse() {
                    let new_item = out.0[i].item;
                    assert(out.0.map_values(|s: Slot| s.item) =~= items.update(i, new_item));
                    lemma_swap_keeps_multiset(items, i, mouse_item);
                    assert(new_item == mouse_item);
                    let out_mouse = match out.1 { Some(m) => Some(m.item_id), None => None };
                    assert(out_mouse == items[i]);
                }
            },
            None => {},
        }
    }
}

proof fn lemma_first_hovered_in_range(slots: Seq<Slot>, x: int, y: int, i: int)
    requires
        0 <= i,
    ensures
        first_hovered_from(slots, x, y, i) matches Some(j) ==> i <= j < slots.len(),
    decreases slots.len() - i,
{
    if i < slots.len() && !hovered(slots[i], x, y) {
        lemma_first_hovered_in_range(slots, x, y, i + 1);
    }
}

} // verus!

verus! {

/// Whether `c` is an ASCII decimal digit.
pub open spec fn is_digit(c: char) -> bool {
    '0' <= c && c <= '9'
}

/// The number that the decimal digits `s` write.
pub open spec fn digits_value(s: Seq<char>) -> int
    decreases s.len(),
{
    if s.len() == 0 {
        0
    } else {
        digits_value(s.drop_last()) * 10 + (s.last() as int - 48)
    }
}

/// Whether `s` is a decimal numeral that `usize` can hold: one or more
/// ASCII digits whose value fits.
pub open spec fn parses_as_usize(s: Seq<char>) -> bool {
    &&& s.len() > 0
    &&& forall|i: int| 0 <= i < s.len() ==> is_digit(#[trigger] s[i])
    &&& digits_value(s) <= usize::MAX
}

/// What `char::is_numeric` says of `c`: whether it has one of Unicode's
/// general categories for numbers.
pub uninterp spec fn numeric_char(c: char) -> bool;

/// Whether every character of `s` is numeric (true of the empty string).
pub open spec fn all_numeric(s: Seq<char>) -> bool {
    forall|i: int| 0 <= i < s.len() ==> numeric_char(#[trigger] s[i])
}

/// `char::is_numeric`: whether `c` has one of Unicode's general categories
/// for numbers. The ASCII digits are such characters; of other characters
/// the contract says only that the answer is `numeric_char(c)`.
#[verifier::external_body]
fn char_is_numeric(c: char) -> (r: bool)
    ensures
        r == numeric_char(c),
        is_digit(c) ==> r,
{
    c.is_numeric()
}

/// Whether every character of `key` is numeric.
pub(crate) fn key_all_numeric(key: &str) -> (r: bool)
    ensures
        r == all_numeric(key@),
{
    let mut all = true;
    let ghost s = key@;
    for c in it: key.chars()
        invariant
            s == key@,
            it.seq() == s,
            all <==> forall|i: int| 0 <= i < it.index() ==> numeric_char(#[trigger] s[i]),
    {
        assert(c == s[it.index() as int]);
        if !char_is_numeric(c) {
            all = false;
        }
    }
    all
}

proof fn lemma_digits_value_nonneg(s: Seq<char>)
    requires
        forall|i: int| 0 <= i < s.len() ==> is_digit(#[trigger] s[i]),
    ensures
        digits_value(s) >= 0,
    decreases s.len(),
{
    if s.len() > 0 {
        assert forall|i: int| 0 <= i < s.drop_last().len() implies is_digit(#[trigger] s.drop_last()[i]) by {
            assert(s.drop_last()[i] == s[i]);
        }
        lemma_digits_value_nonneg(s.drop_last());
    }
}

proof fn lemma_digits_value_prefix(s: Seq<char>, k: int)
    requires
        0 <= k <= s.len(),
        forall|j: int| 0 <= j < s.len() ==> is_digit(#[trigger] s[j]),
    ensures
        digits_value(s.take(k)) <= digits_value(s),
    decreases s.len() - k,
{
    if k == s.len() {
        assert(s.take(k) =~= s);
    } else {
        assert(s.take(k + 1).drop_last() =~= s.take(k));
        assert forall|j: int| 0 <= j < s.take(k).len() implies is_digit(#[trigger] s.take(k)[j]) by {
            assert(s.take(k)[j] == s[j]);
        }
        lemma_digits_value_nonneg(s.take(k));
        lemma_digits_value_prefix(s, k + 1);
    }
}

/// The value of `key` as a decimal numeral that `usize` can hold, if it is one.
pub(crate) fn parse_usize(key: &str) -> (r: Option<usize>)
    ensures
        match r {
            Some(v) => parses_as_usize(key@) && v == digits_value(key@),
            None => !parses_as_usize(key@),
        },
{
    let ghost s = key@;
    let mut value: usize = 0;
    let mut ok = true;
    let mut nonempty = false;
    for c in it: key.chars()
        invariant
            s == key@,
            it.seq() == s,
            nonempty <==> it.index() > 0,
            ok ==> forall|j: int| 0 <= j < it.index() ==> is_digit(#[trigger] s[j]),
            ok ==> value == digits_value(s.take(it.index() as int)),
            !ok ==> !parses_as_usize(s),
    {
        let ghost i = it.index() as int;
        assert(c == s[i]);
        proof { assert(s.take(i + 1).drop_last() =~= s.take(i)); }
        nonempty = true;
        if ok {
            if !('0' <= c && c <= '9') {
                ok = false;
            } else {
                let d: usize = (c as u32 - 48u32) as usize;
                let next = match value.checked_mul(10) {
                    Some(t) => t.checked_add(d),
                    None => None,
                };
                match next {
                    Some(v) => {
                        value = v;
                    },
                    None => {
                        proof {
                            if forall|j: int| 0 <= j < s.len() ==> is_digit(#[trigger] s[j]) {
                                lemma_digits_value_prefix(s, i + 1);
                            }
                        }
                        ok = false;
                    },
                }
            }
        }
    }
    proof { assert(s.take(s.len() as int) =~= s); }
    if ok && nonempty {
        Some(value)
    } else {
        None
    }
}

impl<G> Inventory<G> {
    /// The hotbar position that the key `key` selects: the one before the
    /// number it writes, when it writes one from 1 to 5.
    pub open spec fn key_selection(key: Seq<char>) -> Option<usize> {
        if all_numeric(key) && 0 < digits_value(key) < 6 {
            Some((digits_value(key) - 1) as usize)
        } else {
            None
        }
    }

    /// Handles a key press: a key made of number characters that writes a
    /// number from 1 to 5 selects that hotbar position (counted from 1).
    /// A key made of number characters must be a decimal numeral that
    /// `usize` can hold.
    pub fn on_key_down(&mut self, key: &str)
        requires
            old(self).wf(),
            all_numeric(key@) ==> parses_as_usize(key@),
        ensures
            final(self).wf(),
            final(self).cur_slot() == match Self::key_selection(key@) {
                Some(s) => s,
                None => old(self).cur_slot(),
            },
            final(self).items_view() == old(self).items_view(),
            final(self).next_id() == old(self).next_id(),
            final(self).slots_view() == old(self).slots_view(),
            final(self).hotbar_view() == old(self).hotbar_view(),
            final(self).showing() == old(self).showing(),
            final(self).on_mouse() == old(self).on_mouse(),
            final(self).dropped() == old(self).dropped(),
            final(self).helm() == old(self).helm(),
            final(self).chest() == old(self).chest(),
            final(self).boot() == old(self).boot(),
    {
        if key_all_numeric(key) {
            match parse_usize(key) {
                Some(num) => {
                    if num < 6 && num > 0 {
                        self.set_hotbar_slot(num - 1);
                    }
                },
                None => {},
            }
        }
    }

    /// Handles a key press as [`Self::on_key_down`] does when the key is one
    /// it takes, and returns `true`; otherwise (a key made of number
    /// characters that is not a decimal numeral `usize` can hold) leaves the
    /// inventory as it is and returns `false`.
    pub fn try_on_key_down(&mut self, key: &str) -> (r: bool)
        requires
            old(self).wf(),
        ensures
            final(self).wf(),
            r == (all_numeric(key@) ==> parses_as_usize(key@)),
            final(self).cur_slot() == match (if r { Self::key_selection(key@) } else { None }) {
                Some(s) => s,
                None => old(self).cur_slot(),
            },
            final(self).items_view() == old(self).items_view(),
            final(self).next_id() == old(self).next_id(),
            final(self).slots_view() == old(self).slots_view(),
            final(self).hotbar_view() == old(self).hotbar_view(),
            final(self).showing() == old(self).showing(),
            final(self).on_mouse() == old(self).on_mouse(),
            final(self).dropped() == old(self).dropped(),
            final(self).helm() == old(self).helm(),
            final(self).chest() == old(self).chest(),
            final(self).boot() == old(self).boot(),
    {
        if key_all_numeric(key) {
            if parse_usize(key).is_none() {
                return false;
            }
        }
        self.on_key_down(key);
        true
    }
}

} // verus!

verus! {

impl<G> Inventory<G> {
    /// The slots and the drop list after `q` is pressed with the mouse at
    /// `(x, y)`: the first slot under the mouse is emptied and its item, if it
    /// had one, joins the items waiting to be dropped.
    pub open spec fn drop_outcome(&self, x: int, y: int) -> (Seq<Slot>, Seq<usize>) {
        match first_hovered_from(self.slots_view(), x, y, 0) {
            None => (self.slots_view(), self.dropped()),
            Some(i) => (
                self.slots_view().update(i, emptied(self.slots_view()[i])),
                match self.slots_view()[i].item {
                    Some(id) => self.dropped().push(id),
                    None => self.dropped(),
                },
            ),
        }
    }

    /// Handles the keys held this frame: while `q` is held (`q_held`), the
    /// item in the first slot under the mouse at `(x, y)` is taken out of the
    /// slot and waits to be dropped (see [`Self::drop_outcome`]).
    pub fn process_input(&mut self, q_held: bool, x: usize, y: usize)
        requires
            old(self).wf(),
        ensures
            final(self).wf(),
            final(self).slots_view() == if q_held { old(self).drop_outcome(x as int, y as int).0 } else { old(self).slots_view() },
            final(self).dropped() == if q_held { old(self).drop_outcome(x as int, y as int).1 } else { old(self).dropped() },
            final(self).items_view() == old(self).items_view(),
            final(self).next_id() == old(self).next_id(),
            final(self).hotbar_view() == old(self).hotbar_view(),
            final(self).cur_slot() == old(self).cur_slot(),
            final(self).showing() == old(self).showing(),
            final(self).on_mouse() == old(self).on_mouse(),
            final(self).helm() == old(self).helm(),
            final(self).chest() == old(self).chest(),
            final(self).boot() == old(self).boot(),
    {
        if q_held {
            match find_hovered(&self.slots, x, y) {
                Some(i) => {
                    proof { lemma_first_hovered_in_range(self.slots@, x as int, y as int, 0); }
                    match self.slots[i].item {
                        Some(id) => {
                            self.items_waiting_to_be_dropped.push(id);
                        },
                        None => {},
                    }
                    self.slots[i].remove_item();
                    assert(self.slots@ =~= old(self).slots@.update(i as int, emptied(old(self).slots@[i as int])));
                },
                None => {},
            }
        }
    }

    /// The ids of the items whose stats add to the player's: the item held in
    /// the selected hotbar slot, if any, then the item in the helmet slot, if
    /// any. Fails with `Invalid` when the helmet slot does not exist or holds
    /// an item that does not.
    pub fn stat_item_ids(&self) -> (r: Result<Vec<usize>, PError>)
        ensures
            match self.helm() {
                None => r matches Ok(v) && v@ == Self::held_seq(self.held_item_id()),
                Some(h) => if h >= self.slots_view().len() {
                    r matches Err(e) && caused_as(e, ErrorKind::Invalid, "Helm slot is marked as a non-existent slot "@ + decimal(h as nat),
                        "Inventory::stat_item_ids"@, seq![])
                } else {
                    match self.slots_view()[h as int].item {
                        None => r matches Ok(v) && v@ == Self::held_seq(self.held_item_id()),
                        Some(i) => if self.items_view().contains_key(i) {
                            r matches Ok(v) && v@ == Self::held_seq(self.held_item_id()).push(i)
                        } else {
                            r matches Err(e) && caused_as(e, ErrorKind::Invalid, "Helm slot refers to non-existent item with id "@ + decimal(i as nat),
                                "Inventory::stat_item_ids"@, seq![])
                        },
                    }
                },
            },
    {
        let mut ids: Vec<usize> = Vec::new();
        match self.get_hotbar_slot(self.cur_hotbar_slot) {
            Some(slot) => match slot.item {
                Some(id) => {
                    if fx_get(&self.items, id).is_some() {
                        ids.push(id);
                    }
                },
                None => {},
            },
            None => {},
        }
        assert(ids@ =~= Self::held_seq(self.held_item_id()));
        match self.helm_slot {
            Some(h) => {
                let slot = match self.get_slot(&h) {
                    Some(s) => s,
                    None => {
                        let mut d = "Helm slot is marked as a non-existent slot ".to_owned();
                        let n = decimal_string_usize(h);
                        d.append(n.as_str());
                        let e = PError::raised(ErrorKind::Invalid, d, "Inventory::stat_item_ids");
                        assert(texts(e.trace@) =~= seq![]);
                        return Err(e);
                    },
                };
                match slot.item {
                    Some(i) => {
                        if fx_get(&self.items, i).is_none() {
                            let mut d = "Helm slot refers to non-existent item with id ".to_owned();
                            let n = decimal_string_usize(i);
                            d.append(n.as_str());
                            let e = PError::raised(ErrorKind::Invalid, d, "Inventory::stat_item_ids");
                            assert(texts(e.trace@) =~= seq![]);
                            return Err(e);
                        }
                        ids.push(i);
                    },
                    None => {},
                }
            },
            None => {},
        }
        Ok(ids)
    }

    /// An optional id as a sequence of at most one id.
    pub open spec fn held_seq(o: Option<usize>) -> Seq<usize> {
        match o {
            Some(id) => seq![id],
            None => Seq::empty(),
        }
    }

    /// The slot at hotbar position `slot`, if there is one, for changing it in place.
    pub fn get_hotbar_slot_mut(&mut self, slot: usize) -> (r: Option<&mut Slot>)
        requires
            old(self).wf(),
        ensures
            match old(self).hotbar_slot_index(slot as int) {
                Some(i) => r matches Some(s) && *s == old(self).slots_view()[i as int]
                    && final(self).slots_view() == old(self).slots_view().update(i as int, *final(s)),
                None => r is None && final(self).slots_view() == old(self).slots_view(),
            },
            final(self).wf(),
            final(self).items_view() == old(self).items_view(),
            final(self).next_id() == old(self).next_id(),
            final(self).same_frame(old(self)),
    {
        if slot < self.hotbar.len() {
            let i = self.hotbar[slot];
            if i < self.slots.len() {
                return Some(&mut self.slots[i]);
            }
        }
        None
    }
}

} // verus!

verus! {

/// Showing the inventory and then hiding it, with nothing carried by the
/// mouse, leaves every slot as it was when the hotbar slots stood where
/// `init_ui` lays them out along the bottom of the screen.
pub proof fn lemma_show_hide_restores(s0: Seq<Slot>, s1: Seq<Slot>, s2: Seq<Slot>, hotbar: Seq<usize>)
    requires
        s0.len() <= usize::MAX,
        hotbar.no_duplicates(),
        forall|i: int| 0 <= i < hotbar.len() ==> #[trigger] hotbar[i] < s0.len(),
        forall|i: int| 0 <= i < hotbar.len() ==> (#[trigger] s0[hotbar[i] as int]).x == hotbar_x(i) && s0[hotbar[i] as int].y == 652,
        hotbar_moved(s0, s1, hotbar, 520, 374),
        hotbar_moved(s1, s2, hotbar, 20, 652),
    ensures
        s2 == s0,
{
    assert forall|j: int| 0 <= j < s0.len() implies s2[j] == s0[j] by {
        if hotbar.contains(j as usize) {
            let i = choose|i: int| 0 <= i < hotbar.len() && hotbar[i] == j as usize;
            assert(s2[hotbar[i] as int] == s1[hotbar[i] as int].moved_to((20 + 58 * i) as usize, 652));
            assert(s1[hotbar[i] as int] == s0[hotbar[i] as int].moved_to((520 + 58 * i) as usize, 374));
            assert(s0[hotbar[i] as int].x == hotbar_x(i));
            assert(s0[hotbar[i] as int].y == 652);
            assert(hotbar[i] as int == j);
        }
    }
    assert(s2 =~= s0);
}

} // verus!
