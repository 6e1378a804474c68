//! The state of each panel, kept under the panel's id.

use crate::editor::Editor;
use std::collections::HashMap;
use vstd::prelude::*;

verus! {

/// The id of a panel: 128 bits that mean nothing to the store.
pub type PanelId = u128;

/// The state of a panel, one variant for each kind of panel.
pub enum PanelData {
    Editor(Editor),
    Explorer,
}

pub struct DataStore {
    map: HashMap<PanelId, PanelData>,
}

impl View for DataStore {
    type V = Map<PanelId, PanelData>;

    closed spec fn view(&self) -> Map<PanelId, PanelData> {
        self.map@
    }
}

/// `HashMap::get_mut`: a mutable reference to the value under a key, if the
/// map has the key. What is written through the reference is what the map
/// holds under the key afterwards; nothing else changes. Not proved.
#[verifier::external_body]
fn map_get_mut<'a>(map: &'a mut HashMap<PanelId, PanelData>, key: &PanelId) -> (r: Option<
    &'a mut PanelData,
>)
    ensures
        match r {
            Some(d) => old(map)@.dom().contains(*key) && *d == old(map)@[*key] && final(map)@
                == old(map)@.insert(*key, *final(d)),
            None => !old(map)@.dom().contains(*key) && final(map)@ == old(map)@,
        },
{
    map.get_mut(key)
}

impl DataStore {
    /// A store without data.
    pub fn new() -> (s: DataStore)
        ensures
            s@ == Map::<PanelId, PanelData>::empty(),
    {
        DataStore { map: HashMap::new() }
    }

    /// Puts `data` under `panel_id`, in place of what was there.
    pub fn insert(&mut self, panel_id: PanelId, data: PanelData)
        ensures
            final(self)@ == old(self)@.insert(panel_id, data),
    {
        broadcast use vstd::std_specs::hash::group_hash_axioms;

        self.map.insert(panel_id, data);
    }

    /// The data under `panel_id`, if there is any.
    pub fn get(&self, panel_id: &PanelId) -> (r: Option<&PanelData>)
        ensures
            match r {
                Some(d) => self@.dom().contains(*panel_id) && *d == self@[*panel_id],
                None => !self@.dom().contains(*panel_id),
            },
    {
        broadcast use vstd::std_specs::hash::group_hash_axioms;

        self.map.get(panel_id)
    }

    /// The data under `panel_id`, to be changed in place.
    pub fn get_mut(&mut self, panel_id: &PanelId) -> (r: Option<&mut PanelData>)
        ensures
            match r {
                Some(d) => old(self)@.dom().contains(*panel_id) && *d == old(self)@[*panel_id]
                    && final(self)@ == old(self)@.insert(*panel_id, *final(d)),
                None => !old(self)@.dom().contains(*panel_id) && final(self)@ == old(self)@,
            },
    {
        map_get_mut(&mut self.map, panel_id)
    }
}

} // verus!
