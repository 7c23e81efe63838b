//! The catalogue: profiles, tools, mods and game versions.

use crate::error::ErrorCode;
use vstd::prelude::*;

verus! {

/// A tool that a profile loads with the game: a DLL to inject or a program to
/// start beside it.
#[derive(Debug, Default)]
pub struct Tool {
    pub id: String,
    pub name: String,
    pub icon: String,
    /// Where the tool's file lies; `$APPDATA` stands for the launcher's data
    /// directory.
    pub path: String,
}

/// A game modification, such as a plugin or a visual mod, and the tool that
/// loads it.
#[derive(Debug, Default)]
pub struct Mod {
    pub id: String,
    pub name: String,
    pub icon: String,
    pub path: String,
    pub version: String,
    pub tool: Tool,
}

/// An installed game version.
#[derive(Debug, Default)]
pub struct Version {
    /// The version token found in the game's binary.
    pub version: String,
    /// The path of the game's executable.
    pub path: String,
}

/// A game launch profile.
#[derive(Debug, Default)]
pub struct Profile {
    pub id: String,
    pub name: String,
    pub icon: String,
    pub version: Version,
    /// The tools to load, in order.
    pub tools: Vec<Tool>,
    pub mods: Vec<Mod>,
    /// The command line handed to the game, verbatim.
    pub launch_args: String,
}

/// What a profile holds, as values.
pub struct ProfileView {
    pub id: Seq<char>,
    pub name: Seq<char>,
    pub icon: Seq<char>,
    pub version: Version,
    pub tools: Seq<Tool>,
    pub mods: Seq<Mod>,
    pub launch_args: Seq<char>,
}

impl View for Profile {
    type V = ProfileView;

    open spec fn view(&self) -> ProfileView {
        ProfileView {
            id: self.id@,
            name: self.name@,
            icon: self.icon@,
            version: self.version,
            tools: self.tools@,
            mods: self.mods@,
            launch_args: self.launch_args@,
        }
    }
}

impl Clone for Tool {
    fn clone(&self) -> (r: Self)
        ensures
            r == *self,
    {
        Tool {
            id: self.id.clone(),
            name: self.name.clone(),
            icon: self.icon.clone(),
            path: self.path.clone(),
        }
    }
}

impl Clone for Mod {
    fn clone(&self) -> (r: Self)
        ensures
            r == *self,
    {
        Mod {
            id: self.id.clone(),
            name: self.name.clone(),
            icon: self.icon.clone(),
            path: self.path.clone(),
            version: self.version.clone(),
            tool: self.tool.clone(),
        }
    }
}

impl Clone for Version {
    fn clone(&self) -> (r: Self)
        ensures
            r == *self,
    {
        Version { version: self.version.clone(), path: self.path.clone() }
    }
}

impl Clone for Profile {
    fn clone(&self) -> (r: Self)
        ensures
            r@ == self@,
    {
        let tools = self.tools.clone();
        let mods = self.mods.clone();
        assert(tools@ =~= self.tools@);
        assert(mods@ =~= self.mods@);
        Profile {
            id: self.id.clone(),
            name: self.name.clone(),
            icon: self.icon.clone(),
            version: self.version.clone(),
            tools,
            mods,
            launch_args: self.launch_args.clone(),
        }
    }
}

/// The launcher's catalogue: profiles, known versions, tools and mods.
#[derive(Default)]
pub struct GameManager {
    pub profiles: Vec<Profile>,
    pub versions: Vec<Version>,
    pub tools: Vec<Tool>,
    pub mods: Vec<Mod>,
}

/// The index of the first profile with this id, if any.
pub open spec fn profile_index(profiles: Seq<Profile>, id: Seq<char>) -> Option<int>
    decreases profiles.len(),
{
    if profiles.len() == 0 {
        None
    } else {
        match profile_index(profiles.drop_last(), id) {
            Some(i) => Some(i),
            None => if profiles.last().id@ == id {
                Some(profiles.len() - 1)
            } else {
                None
            },
        }
    }
}

/// Whether some version in `versions` has this version token.
pub open spec fn version_known(versions: Seq<Version>, token: Seq<char>) -> bool {
    exists|i: int| 0 <= i < versions.len() && (#[trigger] versions[i]).version@ == token
}

proof fn lemma_profile_index(profiles: Seq<Profile>, id: Seq<char>)
    ensures
        match profile_index(profiles, id) {
            Some(i) => 0 <= i < profiles.len() && profiles[i].id@ == id && forall|j: int|
                0 <= j < i ==> (#[trigger] profiles[j]).id@ != id,
            None => forall|j: int| 0 <= j < profiles.len() ==> (#[trigger] profiles[j]).id@ != id,
        },
    decreases profiles.len(),
{
    if profiles.len() > 0 {
        lemma_profile_index(profiles.drop_last(), id);
        assert forall|j: int| 0 <= j < profiles.len() - 1 implies profiles[j] == profiles.drop_last()[j] by {}
    }
}

impl GameManager {
    /// A copy of the first profile with the id `profile_id`, if any.
    pub fn get_profile(&self, profile_id: &str) -> (r: Option<Profile>)
        ensures
            match profile_index(self.profiles@, profile_id@) {
                Some(i) => r matches Some(p) && p@ == self.profiles@[i]@,
                None => r is None,
            },
    {
        let id = profile_id.to_owned();
        proof {
            lemma_profile_index(self.profiles@, profile_id@);
        }
        let mut i: usize = 0;
        while i < self.profiles.len()
            invariant
                i <= self.profiles@.len(),
                id@ == profile_id@,
                forall|j: int| 0 <= j < i ==> (#[trigger] self.profiles@[j]).id@ != id@,
            decreases self.profiles@.len() - i,
        {
            if self.profiles[i].id == id {
                proof {
                    lemma_profile_index(self.profiles@, profile_id@);
                    let k = profile_index(self.profiles@, profile_id@);
                    assert(self.profiles@[i as int].id@ == id@);
                    if let Some(k) = k {
                        if k < i {
                            assert(self.profiles@[k].id@ != id@);
                        } else if k > i {
                            assert(self.profiles@[i as int].id@ != id@);
                        }
                    }
                }
                return Some(self.profiles[i].clone());
            }
            i = i + 1;
        }
        None
    }

    /// Registers a newly located version, unless one with the same token is
    /// already known.
    pub fn add_version(&mut self, version: Version) -> (r: Result<(), ErrorCode>)
        ensures
            version_known(old(self).versions@, version.version@) ==> {
                &&& r == Err::<(), ErrorCode>(ErrorCode::VersionAlreadyKnown)
                &&& final(self).versions@ == old(self).versions@
            },
            !version_known(old(self).versions@, version.version@) ==> {
                &&& r == Ok::<(), ErrorCode>(())
                &&& final(self).versions@ == old(self).versions@.push(version)
            },
            final(self).profiles@ == old(self).profiles@,
            final(self).tools@ == old(self).tools@,
            final(self).mods@ == old(self).mods@,
    {
        let mut i: usize = 0;
        while i < self.versions.len()
            invariant
                i <= self.versions@.len(),
                forall|j: int| 0 <= j < i ==> (#[trigger] self.versions@[j]).version@ != version.version@,
            decreases self.versions@.len() - i,
        {
            if self.versions[i].version == version.version {
                return Err(ErrorCode::VersionAlreadyKnown);
            }
            i = i + 1;
        }
        self.versions.push(version);
        Ok(())
    }
}

} // verus!
