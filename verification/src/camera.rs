//! The camera's registries: the interface elements, found by id or by name,
//! and the texts drawn on the screen and in the world, each with its font.
//! The elements (`E`) and texts (`T`) themselves, with their positions and
//! sizes, are carried without being read.
use vstd::prelude::*;
use std::collections::BTreeMap;
use crate::error::{caused_as, decimal, decimal_string_usize, texts, ErrorKind, PError};
use crate::fx::{
    fx_get, fx_get_mut, fx_insert, fx_new, fx_remove, name_entries, name_lookup, name_map_get, name_map_insert,
    name_map_keys, name_map_new, name_map_remove, IdMap, NameMap,
};

verus! {

broadcast use vstd::laws_cmp::group_laws_cmp;

/// The two fonts text is drawn in.
#[derive(Debug, Clone, Copy, PartialEq, Eq, Structural)]
pub enum Font {
    A,
    B,
}

/// The size of the view, the interface elements by id and by name, and the
/// texts on the screen and in the world with their fonts. Ids are handed out in
/// increasing order and never reused.
#[derive(Debug)]
pub struct Camera<E, T> {
    pub viewpoint_width: usize,
    pub viewpoint_height: usize,
    ui_element_names: NameMap,
    ui_elements: IdMap<E>,
    ui_element_id: usize,
    pub level_editor: bool,
    text: BTreeMap<usize, T>,
    world_text: BTreeMap<usize, T>,
    world_text_id: usize,
    world_text_font_lookup: IdMap<Font>,
    text_font_lookup: IdMap<Font>,
    text_id: usize,
}

/// The names in `names` that do not map to `id`.
pub open spec fn names_without(names: Map<Seq<char>, usize>, id: usize) -> Map<Seq<char>, usize> {
    Map::new(|n: Seq<char>| names.contains_key(n) && names[n] != id, |n: Seq<char>| names[n])
}

/// Whether some name maps to `id`.
pub open spec fn named(names: Map<Seq<char>, usize>, id: usize) -> bool {
    exists|n: Seq<char>| names.contains_key(n) && names[n] == id
}

/// Whether the keys of `m` are all below `bound`.
pub open spec fn keys_below<V>(m: Map<usize, V>, bound: nat) -> bool {
    forall|k: usize| m.contains_key(k) ==> k < bound
}

/// `BTreeMap::get_mut` keyed by `usize`: a mutable reference to the key's
/// value, through which the map's entry for the key is updated.
#[verifier::external_body]
fn text_get_mut<T>(m: &mut BTreeMap<usize, T>, k: usize) -> (r: Option<&mut T>)
    ensures
        match r {
            Some(w) => old(m)@.contains_key(k) && *w == old(m)@[k] && final(m)@ == old(m)@.insert(k, *final(w)),
            None => !old(m)@.contains_key(k) && final(m)@ == old(m)@,
        },
{
    m.get_mut(&k)
}

/// The ids in `ids` are below `next`, every name maps to one of them, and no
/// two names map to the same id.
pub open spec fn registry_ok(names: Map<Seq<char>, usize>, ids: Set<usize>, next: nat) -> bool {
    &&& forall|k: usize| ids.contains(k) ==> k < next
    &&& forall|n: Seq<char>| #[trigger] names.contains_key(n) ==> ids.contains(names[n])
    &&& forall|n1: Seq<char>, n2: Seq<char>|
        #![trigger names[n1], names[n2]]
        names.contains_key(n1) && names.contains_key(n2) && names[n1] == names[n2] ==> n1 == n2
}

/// The position in `names` of a name that `map` maps to `element`, if any.
fn name_index(names: &Vec<String>, map: &NameMap, element: usize) -> (r: Option<usize>)
    requires
        forall|j: int| 0 <= j < names.len() ==> name_entries(*map).contains_key(#[trigger] names@[j]@),
    ensures
        match r {
            Some(j) => j < names.len() && name_entries(*map)[names@[j as int]@] == element,
            None => forall|j: int| 0 <= j < names.len() ==> name_entries(*map)[#[trigger] names@[j]@] != element,
        },
{
    let mut i: usize = 0;
    while i < names.len()
        invariant
            i <= names.len(),
            forall|j: int| 0 <= j < names.len() ==> name_entries(*map).contains_key(#[trigger] names@[j]@),
            forall|j: int| 0 <= j < i ==> name_entries(*map)[#[trigger] names@[j]@] != element,
        decreases names.len() - i,
    {
        if name_map_get(map, names[i].as_str()) == Some(element) {
            return Some(i);
        }
        i = i + 1;
    }
    None
}

impl<E, T> Camera<E, T> {
    /// The width of the view.
    pub closed spec fn view_width(&self) -> usize {
        self.viewpoint_width
    }

    /// The height of the view.
    pub closed spec fn view_height(&self) -> usize {
        self.viewpoint_height
    }

    /// Whether the camera serves the level editor.
    pub closed spec fn editing(&self) -> bool {
        self.level_editor
    }

    /// The interface elements by id.
    pub closed spec fn ui_elements_view(&self) -> Map<usize, E> {
        self.ui_elements@
    }

    /// The id of each named interface element, by name.
    pub closed spec fn ui_names(&self) -> Map<Seq<char>, usize> {
        name_entries(self.ui_element_names)
    }

    /// The id the next interface element gets.
    pub closed spec fn next_ui_element_id(&self) -> nat {
        self.ui_element_id as nat
    }

    /// The texts on the screen by id.
    pub closed spec fn texts(&self) -> Map<usize, T> {
        self.text@
    }

    /// The texts in the world by id.
    pub closed spec fn world_texts(&self) -> Map<usize, T> {
        self.world_text@
    }

    /// The font of each text on the screen that was added, by id.
    pub closed spec fn text_fonts(&self) -> Map<usize, Font> {
        self.text_font_lookup@
    }

    /// The font of each text in the world that was added, by id.
    pub closed spec fn world_text_fonts(&self) -> Map<usize, Font> {
        self.world_text_font_lookup@
    }

    /// The id the next text on the screen gets.
    pub closed spec fn next_text_id(&self) -> nat {
        self.text_id as nat
    }

    /// The id the next text in the world gets.
    pub closed spec fn next_world_text_id(&self) -> nat {
        self.world_text_id as nat
    }

    /// The ids handed out so far are below the next ones; every name maps to
    /// an element; no two names map to the same id.
    pub closed spec fn wf(&self) -> bool {
        &&& registry_ok(self.ui_names(), self.ui_elements@.dom(), self.ui_element_id as nat)
        &&& keys_below(self.text@, self.text_id as nat)
        &&& keys_below(self.text_font_lookup@, self.text_id as nat)
        &&& keys_below(self.world_text@, self.world_text_id as nat)
        &&& keys_below(self.world_text_font_lookup@, self.world_text_id as nat)
    }

    /// The texts, fonts and their ids are those of `other`.
    pub open spec fn same_texts(&self, other: &Self) -> bool {
        &&& self.texts() == other.texts()
        &&& self.world_texts() == other.world_texts()
        &&& self.text_fonts() == other.text_fonts()
        &&& self.world_text_fonts() == other.world_text_fonts()
        &&& self.next_text_id() == other.next_text_id()
        &&& self.next_world_text_id() == other.next_world_text_id()
    }

    /// The view's size and the level-editor flag are those of `other`.
    pub open spec fn same_frame(&self, other: &Self) -> bool {
        &&& self.view_width() == other.view_width()
        &&& self.view_height() == other.view_height()
        &&& self.editing() == other.editing()
    }

    /// The interface elements, their names and the next id are those of `other`.
    pub open spec fn same_ui(&self, other: &Self) -> bool {
        &&& self.ui_elements_view() == other.ui_elements_view()
        &&& self.ui_names() == other.ui_names()
        &&& self.next_ui_element_id() == other.next_ui_element_id()
    }

    /// A camera with a view of the given size, with no elements and no texts.
    pub fn new(viewpoint_width: usize, viewpoint_height: usize) -> (r: Self)
        ensures
            r.wf(),
            r.view_width() == viewpoint_width,
            r.view_height() == viewpoint_height,
            !r.editing(),
            r.ui_elements_view() == Map::<usize, E>::empty(),
            r.ui_names() == Map::<Seq<char>, usize>::empty(),
            r.next_ui_element_id() == 0,
            r.texts() == Map::<usize, T>::empty(),
            r.world_texts() == Map::<usize, T>::empty(),
            r.text_fonts() == Map::<usize, Font>::empty(),
            r.world_text_fonts() == Map::<usize, Font>::empty(),
            r.next_text_id() == 0,
            r.next_world_text_id() == 0,
    {
        Camera {
            viewpoint_width,
            viewpoint_height,
            ui_element_names: name_map_new(),
            ui_elements: fx_new(),
            ui_element_id: 0,
            level_editor: false,
            text: BTreeMap::new(),
            world_text: BTreeMap::new(),
            world_text_id: 0,
            world_text_font_lookup: fx_new(),
            text_font_lookup: fx_new(),
            text_id: 0,
        }
    }

    /// Adds `element` under `name` and returns its id, the next one. A name
    /// that was taken now names the new element.
    pub fn add_ui_element(&mut self, name: String, element: E) -> (r: usize)
        requires
            old(self).wf(),
            old(self).next_ui_element_id() < usize::MAX,
        ensures
            final(self).wf(),
            r == old(self).next_ui_element_id(),
            final(self).ui_elements_view() == old(self).ui_elements_view().insert(r, element),
            final(self).ui_names() == old(self).ui_names().insert(name@, r),
            final(self).next_ui_element_id() == old(self).next_ui_element_id() + 1,
            final(self).same_texts(old(self)),
            final(self).same_frame(old(self)),
    {
        let id = self.ui_element_id;
        name_map_insert(&mut self.ui_element_names, name, id);
        fx_insert(&mut self.ui_elements, id, element);
        self.ui_element_id = id + 1;
        id
    }

    /// Removes the element with id `element` and its name. Fails with
    /// `NotFound` when no name maps to that id, changing nothing.
    pub fn remove_ui_element(&mut self, element: usize) -> (r: Result<(), PError>)
        requires
            old(self).wf(),
        ensures
            final(self).wf(),
            r is Ok <==> named(old(self).ui_names(), element),
            r matches Err(e) ==> caused_as(e, ErrorKind::NotFound, "no element with id "@ + decimal(element as nat), "Camera::remove_ui_element"@, seq![]),
            r is Ok ==> final(self).ui_names() == names_without(old(self).ui_names(), element)
                && final(self).ui_elements_view() == old(self).ui_elements_view().remove(element),
            r is Err ==> final(self).ui_names() == old(self).ui_names() && final(self).ui_elements_view()
                == old(self).ui_elements_view(),
            final(self).next_ui_element_id() == old(self).next_ui_element_id(),
            final(self).same_texts(old(self)),
            final(self).same_frame(old(self)),
    {
        let names = name_map_keys(&self.ui_element_names);
        let found = name_index(&names, &self.ui_element_names, element);
        proof {
            if found is None {
                assert forall|n: Seq<char>| self.ui_names().contains_key(n) implies self.ui_names()[n] != element by {
                    let j = choose|j: int| 0 <= j < names.len() && names@[j]@ == n;
                    assert(name_entries(self.ui_element_names)[names@[j]@] != element);
                }
            }
        }
        let name_to_remove = match found {
            Some(j) => Some(names[j].clone()),
            None => None,
        };
        match name_to_remove {
            Some(name_to_remove) => {
                if name_map_remove(&mut self.ui_element_names, name_to_remove.as_str()).is_none() {
                    let mut d = "Element name ".to_owned();
                    d.append(name_to_remove.as_str());
                    d.append(" associated with id ");
                    d.append(decimal_string_usize(element).as_str());
                    d.append(" was not found");
                    return Err(PError::raised(ErrorKind::Error, d, "Camera::remove_ui_element"));
                }
                if fx_remove(&mut self.ui_elements, element).is_none() {
                    let mut d = "There was no element to remove with id ".to_owned();
                    d.append(decimal_string_usize(element).as_str());
                    let e = PError::raised(ErrorKind::NotFound, d, "Camera::remove_ui_element");
                    assert(texts(e.trace@) =~= seq![]);
                    return Err(e);
                }
                Ok(())
            },
            None => {
                let mut d = "no element with id ".to_owned();
                d.append(decimal_string_usize(element).as_str());
                let e = PError::raised(ErrorKind::NotFound, d, "Camera::remove_ui_element");
                assert(texts(e.trace@) =~= seq![]);
                Err(e)
            },
        }
    }

    /// The id of the element named `element`, if any.
    pub fn get_ui_element_id_from_name(&self, element: &str) -> (r: Option<usize>)
        ensures
            r == name_lookup(self.ui_names(), element@),
    {
        name_map_get(&self.ui_element_names, element)
    }

    /// The element with id `element`, if any.
    pub fn get_ui_element(&self, element: usize) -> (r: Option<&E>)
        ensures
            match r {
                Some(e) => self.ui_elements_view().contains_key(element) && *e == self.ui_elements_view()[element],
                None => !self.ui_elements_view().contains_key(element),
            },
    {
        fx_get(&self.ui_elements, element)
    }

    /// The element with id `element`, if any, to change in place.
    pub fn get_ui_element_mut(&mut self, element: usize) -> (r: Option<&mut E>)
        requires
            old(self).wf(),
        ensures
            final(self).wf(),
            final(self).ui_elements_view().dom() == old(self).ui_elements_view().dom(),
            match r {
                Some(e) => old(self).ui_elements_view().contains_key(element) && *e == old(
                    self,
                ).ui_elements_view()[element] && final(self).ui_elements_view() == old(
                    self,
                ).ui_elements_view().insert(element, *final(e)),
                None => !old(self).ui_elements_view().contains_key(element) && final(self).ui_elements_view()
                    == old(self).ui_elements_view(),
            },
            final(self).ui_names() == old(self).ui_names(),
            final(self).next_ui_element_id() == old(self).next_ui_element_id(),
            final(self).same_texts(old(self)),
            final(self).same_frame(old(self)),
    {
        fx_get_mut(&mut self.ui_elements, element)
    }

    /// The element named `name`, if any, to change in place.
    pub fn get_ui_element_mut_by_name(&mut self, name: &str) -> (r: Option<&mut E>)
        requires
            old(self).wf(),
        ensures
            final(self).wf(),
            final(self).ui_elements_view().dom() == old(self).ui_elements_view().dom(),
            match r {
                Some(e) => name_lookup(old(self).ui_names(), name@) matches Some(id) && *e == old(
                    self,
                ).ui_elements_view()[id] && final(self).ui_elements_view() == old(
                    self,
                ).ui_elements_view().insert(id, *final(e)),
                None => name_lookup(old(self).ui_names(), name@) is None && final(self).ui_elements_view()
                    == old(self).ui_elements_view(),
            },
            final(self).ui_names() == old(self).ui_names(),
            final(self).next_ui_element_id() == old(self).next_ui_element_id(),
            final(self).same_texts(old(self)),
            final(self).same_frame(old(self)),
    {
        match self.get_ui_element_id_from_name(name) {
            Some(id) => self.get_ui_element_mut(id),
            None => None,
        }
    }

    /// Adds `text` on the screen in `font` and returns its id, the next one.
    pub fn add_text(&mut self, text: T, font: Font) -> (r: usize)
        requires
            old(self).wf(),
            old(self).next_text_id() < usize::MAX,
        ensures
            final(self).wf(),
            r == old(self).next_text_id(),
            final(self).texts() == old(self).texts().insert(r, text),
            final(self).text_fonts() == old(self).text_fonts().insert(r, font),
            final(self).next_text_id() == old(self).next_text_id() + 1,
            final(self).world_texts() == old(self).world_texts(),
            final(self).world_text_fonts() == old(self).world_text_fonts(),
            final(self).next_world_text_id() == old(self).next_world_text_id(),
            final(self).same_ui(old(self)),
            final(self).same_frame(old(self)),
    {
        let id = self.text_id;
        self.text.insert(id, text);
        fx_insert(&mut self.text_font_lookup, id, font);
        self.text_id = id + 1;
        id
    }

    /// Adds `text` in the world in `font` and returns its id, the next one.
    pub fn add_world_text(&mut self, text: T, font: Font) -> (r: usize)
        requires
            old(self).wf(),
            old(self).next_world_text_id() < usize::MAX,
        ensures
            final(self).wf(),
            r == old(self).next_world_text_id(),
            final(self).world_texts() == old(self).world_texts().insert(r, text),
            final(self).world_text_fonts() == old(self).world_text_fonts().insert(r, font),
            final(self).next_world_text_id() == old(self).next_world_text_id() + 1,
            final(self).texts() == old(self).texts(),
            final(self).text_fonts() == old(self).text_fonts(),
            final(self).next_text_id() == old(self).next_text_id(),
            final(self).same_ui(old(self)),
            final(self).same_frame(old(self)),
    {
        let id = self.world_text_id;
        self.world_text.insert(id, text);
        fx_insert(&mut self.world_text_font_lookup, id, font);
        self.world_text_id = id + 1;
        id
    }

    /// Removes the text in the world with id `id`; its font stays recorded.
    /// Fails with `NotFound` when there is no such text, changing nothing.
    pub fn remove_world_text(&mut self, id: usize) -> (r: Result<(), PError>)
        requires
            old(self).wf(),
        ensures
            final(self).wf(),
            r is Ok <==> old(self).world_texts().contains_key(id),
            r matches Err(e) ==> caused_as(e, ErrorKind::NotFound, "There was no world text to remove with id "@ + decimal(id as nat), "Camera::remove_world_text"@, seq![]),
            final(self).world_texts() == old(self).world_texts().remove(id),
            final(self).world_text_fonts() == old(self).world_text_fonts(),
            final(self).next_world_text_id() == old(self).next_world_text_id(),
            final(self).texts() == old(self).texts(),
            final(self).text_fonts() == old(self).text_fonts(),
            final(self).next_text_id() == old(self).next_text_id(),
            final(self).same_ui(old(self)),
            final(self).same_frame(old(self)),
    {
        if self.world_text.remove(&id).is_none() {
            let mut d = "There was no world text to remove with id ".to_owned();
            d.append(decimal_string_usize(id).as_str());
            let e = PError::raised(ErrorKind::NotFound, d, "Camera::remove_world_text");
            assert(texts(e.trace@) =~= seq![]);
            return Err(e);
        }
        Ok(())
    }

    /// The text in the world with id `id`, if any, to change in place.
    pub fn get_world_text_mut(&mut self, id: usize) -> (r: Option<&mut T>)
        requires
            old(self).wf(),
        ensures
            final(self).wf(),
            match r {
                Some(t) => old(self).world_texts().contains_key(id) && *t == old(self).world_texts()[id]
                    && final(self).world_texts() == old(self).world_texts().insert(id, *final(t)),
                None => !old(self).world_texts().contains_key(id) && final(self).world_texts() == old(
                    self,
                ).world_texts(),
            },
            final(self).world_text_fonts() == old(self).world_text_fonts(),
            final(self).next_world_text_id() == old(self).next_world_text_id(),
            final(self).texts() == old(self).texts(),
            final(self).text_fonts() == old(self).text_fonts(),
            final(self).next_text_id() == old(self).next_text_id(),
            final(self).same_ui(old(self)),
            final(self).same_frame(old(self)),
    {
        text_get_mut(&mut self.world_text, id)
    }

    /// Removes the text on the screen with id `id`; its font stays recorded.
    /// Fails with `NotFound` when there is no such text, changing nothing.
    pub fn remove_text(&mut self, id: usize) -> (r: Result<(), PError>)
        requires
            old(self).wf(),
        ensures
            final(self).wf(),
            r is Ok <==> old(self).texts().contains_key(id),
            r matches Err(e) ==> caused_as(e, ErrorKind::NotFound, "There was no text to remove with id "@ + decimal(id as nat), "Camera::remove_text"@, seq![]),
            final(self).texts() == old(self).texts().remove(id),
            final(self).text_fonts() == old(self).text_fonts(),
            final(self).next_text_id() == old(self).next_text_id(),
            final(self).world_texts() == old(self).world_texts(),
            final(self).world_text_fonts() == old(self).world_text_fonts(),
            final(self).next_world_text_id() == old(self).next_world_text_id(),
            final(self).same_ui(old(self)),
            final(self).same_frame(old(self)),
    {
        if self.text.remove(&id).is_none() {
            let mut d = "There was no text to remove with id ".to_owned();
            d.append(decimal_string_usize(id).as_str());
            let e = PError::raised(ErrorKind::NotFound, d, "Camera::remove_text");
            assert(texts(e.trace@) =~= seq![]);
            return Err(e);
        }
        Ok(())
    }

    /// The text on the screen with id `id`, if any, to change in place.
    pub fn get_text_mut(&mut self, id: usize) -> (r: Option<&mut T>)
        requires
            old(self).wf(),
        ensures
            final(self).wf(),
            match r {
                Some(t) => old(self).texts().contains_key(id) && *t == old(self).texts()[id]
                    && final(self).texts() == old(self).texts().insert(id, *final(t)),
                None => !old(self).texts().contains_key(id) && final(self).texts() == old(self).texts(),
            },
            final(self).text_fonts() == old(self).text_fonts(),
            final(self).next_text_id() == old(self).next_text_id(),
            final(self).world_texts() == old(self).world_texts(),
            final(self).world_text_fonts() == old(self).world_text_fonts(),
            final(self).next_world_text_id() == old(self).next_world_text_id(),
            final(self).same_ui(old(self)),
            final(self).same_frame(old(self)),
    {
        text_get_mut(&mut self.text, id)
    }

    /// An element added under a name (the next id, `id`) is found by that name
    /// and by its id, and removing it by its id succeeds and gives back the
    /// names and elements there were before, when the name was not taken.
    pub proof fn lemma_remove_undoes_add(&self, name: Seq<char>, id: usize, element: E)
        requires
            self.wf(),
            id == self.next_ui_element_id(),
            !self.ui_names().contains_key(name),
        ensures
            name_lookup(self.ui_names().insert(name, id), name) == Some(id),
            self.ui_elements_view().insert(id, element)[id] == element,
            named(self.ui_names().insert(name, id), id),
            names_without(self.ui_names().insert(name, id), id) == self.ui_names(),
            self.ui_elements_view().insert(id, element).remove(id) == self.ui_elements_view(),
    {
        let names = self.ui_names().insert(name, id);
        assert(names.contains_key(name) && names[name] == id);
        assert(!self.ui_elements_view().contains_key(id));
        assert(names_without(names, id) =~= self.ui_names());
        assert(self.ui_elements_view().insert(id, element).remove(id) =~= self.ui_elements_view());
    }
}

} // verus!
