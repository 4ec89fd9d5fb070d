//! The game's screens and how clicks, keys and frames move between them: the
//! decisions of the game loop, which the program around the library carries
//! out on the world, the inventory and the window.
use vstd::prelude::*;
use crate::json_parsing::same_text;

verus! {

/// The screen the game shows.
#[allow(non_camel_case_types)]
#[derive(Debug, Clone, Copy, PartialEq, Eq, Structural)]
pub enum GameState {
    start,
    play,
    inventory,
    death,
}

/// Where a mouse click goes.
#[derive(Debug, Clone, Copy, PartialEq, Eq, Structural)]
pub enum ClickRoute {
    /// The click leaves the start screen and is not recorded as a button press.
    Begin,
    /// The button is recorded; a press goes to the world.
    World,
    /// The button is recorded; a press goes to the inventory.
    Inventory,
    /// The button is recorded and nothing else happens.
    Record,
}

/// Where a key goes.
#[derive(Debug, Clone, Copy, PartialEq, Eq, Structural)]
pub enum KeyRoute {
    /// The key leaves the start screen and is not recorded.
    Begin,
    /// The inventory key opens the inventory.
    ShowInventory,
    /// The inventory key closes the inventory; when that succeeds, the items
    /// waiting to be dropped are dropped.
    HideInventory,
    /// The pressed key goes to the world.
    World,
    /// The pressed key goes to the inventory.
    Inventory,
    /// The key is only recorded as held or released.
    Record,
}

/// What one frame updates.
#[derive(Debug, Clone, Copy, PartialEq, Eq, Structural)]
pub enum FrameWork {
    /// The interface, the caches, input, entities, attacks, abilities, items and deaths.
    World,
    /// The interface and the inventory's input.
    InventoryOnly,
    /// Nothing.
    Nothing,
}

/// The key that opens and closes the inventory.
pub open spec fn inventory_key() -> Seq<char> {
    seq!['e']
}

/// The screen after a click and where the click goes.
pub open spec fn click_route(state: GameState, pressed: bool) -> (GameState, ClickRoute) {
    match state {
        GameState::start => (GameState::play, ClickRoute::Begin),
        GameState::play => (state, if pressed { ClickRoute::World } else { ClickRoute::Record }),
        GameState::inventory => (state, if pressed { ClickRoute::Inventory } else { ClickRoute::Record }),
        GameState::death => (state, ClickRoute::Record),
    }
}

/// The screen after the key `key` is pressed or released, and where it goes.
pub open spec fn key_route(state: GameState, key: Seq<char>, pressed: bool) -> (GameState, KeyRoute) {
    if state == GameState::start {
        (GameState::play, KeyRoute::Begin)
    } else if !pressed {
        (state, KeyRoute::Record)
    } else if key == inventory_key() {
        match state {
            GameState::play => (GameState::inventory, KeyRoute::ShowInventory),
            GameState::inventory => (GameState::play, KeyRoute::HideInventory),
            _ => (state, KeyRoute::Record),
        }
    } else {
        match state {
            GameState::play => (state, KeyRoute::World),
            GameState::inventory => (state, KeyRoute::Inventory),
            _ => (state, KeyRoute::Record),
        }
    }
}

/// What a frame on the screen `state` updates.
pub open spec fn frame_work(state: GameState) -> FrameWork {
    match state {
        GameState::play => FrameWork::World,
        GameState::inventory => FrameWork::InventoryOnly,
        _ => FrameWork::Nothing,
    }
}

impl GameState {
    /// The screen after a mouse button is pressed (`pressed`) or released, and
    /// where the click goes.
    pub fn on_click(self, pressed: bool) -> (r: (GameState, ClickRoute))
        ensures
            r == click_route(self, pressed),
    {
        match self {
            GameState::start => (GameState::play, ClickRoute::Begin),
            GameState::play => (self, if pressed { ClickRoute::World } else { ClickRoute::Record }),
            GameState::inventory => (self, if pressed { ClickRoute::Inventory } else { ClickRoute::Record }),
            GameState::death => (self, ClickRoute::Record),
        }
    }

    /// The screen after the key named `key` (lower case) is pressed or
    /// released, and where the key goes.
    pub fn on_key(self, key: &str, pressed: bool) -> (r: (GameState, KeyRoute))
        ensures
            r == key_route(self, key@, pressed),
    {
        if self == GameState::start {
            return (GameState::play, KeyRoute::Begin);
        }
        if !pressed {
            return (self, KeyRoute::Record);
        }
        let is_inventory_key = same_text(key, "e");
        proof {
            reveal_strlit("e");
            assert("e"@ =~= inventory_key());
        }
        if is_inventory_key {
            match self {
                GameState::play => (GameState::inventory, KeyRoute::ShowInventory),
                GameState::inventory => (GameState::play, KeyRoute::HideInventory),
                _ => (self, KeyRoute::Record),
            }
        } else {
            match self {
                GameState::play => (self, KeyRoute::World),
                GameState::inventory => (self, KeyRoute::Inventory),
                _ => (self, KeyRoute::Record),
            }
        }
    }

    /// What a frame on this screen updates.
    pub fn frame(self) -> (r: FrameWork)
        ensures
            r == frame_work(self),
    {
        match self {
            GameState::play => FrameWork::World,
            GameState::inventory => FrameWork::InventoryOnly,
            _ => FrameWork::Nothing,
        }
    }
}

/// Pressing the inventory key twice, from play or from the inventory, comes
/// back to the same screen, having opened and closed the inventory once each.
pub proof fn lemma_inventory_key_toggles(state: GameState)
    requires
        state == GameState::play || state == GameState::inventory,
    ensures
        key_route(key_route(state, inventory_key(), true).0, inventory_key(), true).0 == state,
        key_route(state, inventory_key(), true).1 != key_route(
            key_route(state, inventory_key(), true).0,
            inventory_key(),
            true,
        ).1,
{
}

/// The start screen is left for play by the first click or key, whatever it is,
/// and no click or key leads back to it.
pub proof fn lemma_start_is_left_for_good(state: GameState, key: Seq<char>, pressed: bool)
    ensures
        click_route(GameState::start, pressed).0 == GameState::play,
        key_route(GameState::start, key, pressed).0 == GameState::play,
        click_route(state, pressed).0 != GameState::start,
        key_route(state, key, pressed).0 != GameState::start,
{
}

/// A released button never reaches a screen: it only leaves the start screen
/// or is recorded. A pressed one goes to the world in play and to the
/// inventory on the inventory screen. A click changes the screen only on the
/// start screen, which it leaves for play.
pub proof fn lemma_clicks_by_screen(state: GameState, pressed: bool)
    ensures
        click_route(state, false).1 == ClickRoute::Begin || click_route(state, false).1 == ClickRoute::Record,
        click_route(state, pressed).1 == ClickRoute::Begin <==> state == GameState::start,
        state == GameState::play && pressed ==> click_route(state, pressed).1 == ClickRoute::World,
        state == GameState::inventory && pressed ==> click_route(state, pressed).1 == ClickRoute::Inventory,
        click_route(state, pressed).1 == ClickRoute::World ==> state == GameState::play && pressed,
        click_route(state, pressed).1 == ClickRoute::Inventory ==> state == GameState::inventory && pressed,
        state != GameState::start ==> click_route(state, pressed).0 == state,
        state == GameState::start ==> click_route(state, pressed).0 == GameState::play,
{
}

/// A released key never reaches a screen; a pressed key other than the
/// inventory key goes to the screen shown, and changes no screen.
pub proof fn lemma_keys_by_screen(state: GameState, key: Seq<char>, pressed: bool)
    ensures
        state != GameState::start && !pressed ==> key_route(state, key, pressed) == (state, KeyRoute::Record),
        state == GameState::play && pressed && key != inventory_key() ==> key_route(state, key, pressed) == (state, KeyRoute::World),
        state == GameState::inventory && pressed && key != inventory_key() ==> key_route(state, key, pressed) == (state, KeyRoute::Inventory),
        key_route(state, key, pressed).1 == KeyRoute::World || key_route(state, key, pressed).1 == KeyRoute::Inventory ==> pressed && key != inventory_key(),
{
}

/// Only play updates the world, and only the inventory screen updates the
/// inventory alone; the start and death screens update nothing.
pub proof fn lemma_frames_by_screen(state: GameState)
    ensures
        frame_work(state) == FrameWork::World <==> state == GameState::play,
        frame_work(state) == FrameWork::InventoryOnly <==> state == GameState::inventory,
{
}

} // verus!
