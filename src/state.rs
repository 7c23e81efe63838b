//! The persistent state and the selected profile.

use crate::game::{profile_index, GameManager, Profile};
use vstd::prelude::*;

verus! {

/// What the launcher keeps on disk between runs.
#[derive(Debug, Default)]
pub struct PersistentState {
    /// The id of the selected profile.
    pub selected_profile: Option<String>,
}

/// The profile that the desktop application currently has selected.
#[derive(Debug)]
pub struct SelectedProfile(pub Option<Profile>);

impl SelectedProfile {
    /// The selection at start up: the profile whose id the persistent state
    /// names, if the catalogue has it; else nothing.
    pub fn new(game_manager: &GameManager, state: &PersistentState) -> (r: Self)
        ensures
            match state.selected_profile {
                Some(id) => match profile_index(game_manager.profiles@, id@) {
                    Some(i) => r.0 matches Some(p) && p@ == game_manager.profiles@[i]@,
                    None => r.0 is None,
                },
                None => r.0 is None,
            },
    {
        match &state.selected_profile {
            Some(id) => SelectedProfile(game_manager.get_profile(id.as_str())),
            None => SelectedProfile(None),
        }
    }
}

impl SelectedProfile {
    /// Selects the catalogue's profile with id `id` and records the choice in
    /// the persistent state. Returns whether there was such a profile; when
    /// there was none, nothing changes.
    pub fn select(&mut self, state: &mut PersistentState, game_manager: &GameManager, id: &str) -> (r: bool)
        ensures
            match profile_index(game_manager.profiles@, id@) {
                Some(i) => {
                    &&& r
                    &&& final(self).0 matches Some(p) && p@ == game_manager.profiles@[i]@
                    &&& final(state).selected_profile matches Some(s) && s@ == id@
                },
                None => {
                    &&& !r
                    &&& *final(self) == *old(self)
                    &&& *final(state) == *old(state)
                },
            },
    {
        match game_manager.get_profile(id) {
            Some(profile) => {
                state.selected_profile = Some(id.to_owned());
                self.0 = Some(profile);
                true
            },
            None => false,
        }
    }

    /// Takes a newly created profile as the selection when nothing is
    /// selected yet, in the persistent state or here. Returns whether it did.
    pub fn adopt_new(&mut self, state: &mut PersistentState, profile: Profile) -> (r: bool)
        ensures
            r == (old(state).selected_profile is None || old(self).0 is None),
            r ==> (final(self).0 matches Some(p) && p@ == profile@),
            r ==> (final(state).selected_profile matches Some(s) && s@ == profile.id@),
            !r ==> *final(self) == *old(self) && *final(state) == *old(state),
    {
        if state.selected_profile.is_none() || self.0.is_none() {
            state.selected_profile = Some(profile.id.clone());
            self.0 = Some(profile);
            true
        } else {
            false
        }
    }
}

} // verus!
