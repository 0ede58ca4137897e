//! The registry of plugins: which interpreter runs which plugin, and where
//! the files of both are found.

use vstd::prelude::*;
use crate::dispatch::same_text;
use crate::plugin::{json_members, member_views, parse_object, Member, MemberView};

verus! {

/// Why a registry could not be used.
#[derive(Debug, PartialEq, Eq)]
pub enum RegistryError {
    /// The document is not one JSON object.
    Malformed,
    /// The plugin under this name has no interpreter: its member is no
    /// string.
    NoInterpreter(String),
    /// No plugin goes by this name.
    UnknownPlugin(String),
}

/// The plugins of a registry, each with the name of its interpreter.
pub struct Registry {
    pub plugins: Vec<(String, String)>,
}

/// The first of `members` that is no string, if there is one.
pub open spec fn first_unnamed(members: Seq<(Seq<char>, MemberView)>) -> Option<int>
    decreases members.len(),
{
    if members.len() == 0 {
        None
    } else {
        match first_unnamed(members.drop_last()) {
            Some(i) => Some(i),
            None => if members.last().1 is String {
                None
            } else {
                Some(members.len() - 1)
            },
        }
    }
}

/// The first member that is no string among the first `n` is the first
/// among all.
pub proof fn lemma_first_unnamed_stays(members: Seq<(Seq<char>, MemberView)>, n: int)
    requires
        0 <= n <= members.len(),
        first_unnamed(members.take(n)) is Some,
    ensures
        first_unnamed(members) == first_unnamed(members.take(n)),
    decreases members.len() - n,
{
    if n < members.len() {
        assert(members.take(n + 1).drop_last() =~= members.take(n));
        lemma_first_unnamed_stays(members, n + 1);
    } else {
        assert(members.take(n) =~= members);
    }
}

/// The first member that is no string is one of the members.
pub proof fn lemma_first_unnamed_in_range(members: Seq<(Seq<char>, MemberView)>)
    requires
        first_unnamed(members) is Some,
    ensures
        0 <= first_unnamed(members)->Some_0 < members.len(),
    decreases members.len(),
{
    if members.len() > 0 && first_unnamed(members.drop_last()) is Some {
        lemma_first_unnamed_in_range(members.drop_last());
    }
}

/// The plugins by their text, as members of an object.
pub open spec fn plugin_views(plugins: Seq<(String, String)>) -> Seq<(Seq<char>, MemberView)> {
    plugins.map_values(|p: (String, String)| (p.0@, MemberView::String(p.1@)))
}

/// The first place at or after `from` where `plugins` holds `name`, if
/// there is one.
pub open spec fn place_of(plugins: Seq<(String, String)>, name: Seq<char>, from: int) -> Option<
    int,
>
    decreases plugins.len() - from,
{
    if from < 0 || from >= plugins.len() {
        None
    } else if plugins[from].0@ == name {
        Some(from)
    } else {
        place_of(plugins, name, from + 1)
    }
}

impl Registry {
    /// Turns the members of a registry document into a registry: every
    /// member names the interpreter of the plugin that its key names.
    pub fn from_members(members: &Vec<(String, Member)>) -> (res: Result<Registry, RegistryError>)
        ensures
            match res {
                Ok(registry) => first_unnamed(member_views(members@)) is None && plugin_views(
                    registry.plugins@,
                ) == member_views(members@),
                Err(RegistryError::NoInterpreter(key)) => first_unnamed(member_views(members@)) is Some
                    && key@ == members@[first_unnamed(member_views(members@))->Some_0].0@,
                Err(_) => false,
            },
    {
        let mut plugins: Vec<(String, String)> = Vec::new();
        let mut i: usize = 0;
        let ghost all = member_views(members@);
        proof {
            assert(all.take(0) =~= Seq::<(Seq<char>, MemberView)>::empty());
            assert(plugin_views(plugins@) =~= all.take(0));
        }
        while i < members.len()
            invariant
                i <= members@.len(),
                all == member_views(members@),
                first_unnamed(all.take(i as int)) is None,
                plugin_views(plugins@) == all.take(i as int),
            decreases members@.len() - i,
        {
            let ghost done = plugins@;
            proof {
                assert(all.take(i + 1).drop_last() =~= all.take(i as int));
                assert(all.take(i + 1).last() == all[i as int]);
                assert(all[i as int] == (members@[i as int].0@, members@[i as int].1@));
            }
            let key = members[i].0.clone();
            let interp = match &members[i].1 {
                Member::String(s) => s.clone(),
                _ => {
                    proof {
                        lemma_first_unnamed_stays(all, i + 1);
                    }
                    return Err(RegistryError::NoInterpreter(key));
                },
            };
            plugins.push((key, interp));
            proof {
                assert(plugin_views(plugins@) =~= plugin_views(done).push(all[i as int]));
                assert(all.take(i + 1) =~= all.take(i as int).push(all[i as int]));
            }
            i = i + 1;
        }
        proof {
            assert(all.take(i as int) =~= all);
        }
        Ok(Registry { plugins })
    }

    /// Reads a registry document: one JSON object whose members are
    /// strings.
    pub fn parse(document: &[u8]) -> (res: Result<Registry, RegistryError>)
        ensures
            match res {
                Ok(registry) => json_members(document@) == Some(plugin_views(registry.plugins@))
                    && first_unnamed(plugin_views(registry.plugins@)) is None,
                Err(RegistryError::Malformed) => json_members(document@) is None,
                Err(RegistryError::NoInterpreter(key)) => {
                    &&& json_members(document@) is Some
                    &&& first_unnamed(json_members(document@)->Some_0) is Some
                    &&& key@ == json_members(document@)->Some_0[first_unnamed(
                        json_members(document@)->Some_0,
                    )->Some_0].0
                },
                Err(RegistryError::UnknownPlugin(_)) => false,
            },
    {
        match parse_object(document) {
            None => Err(RegistryError::Malformed),
            Some(members) => {
                proof {
                    let all = member_views(members@);
                    if first_unnamed(all) is Some {
                        lemma_first_unnamed_in_range(all);
                    }
                }
                Registry::from_members(&members)
            },
        }
    }

    /// The interpreter of the plugin called `name`: that of the first entry
    /// under the name. A name that no entry has is an error, and is named.
    pub fn interpreter(&self, name: &str) -> (res: Result<&str, RegistryError>)
        ensures
            match res {
                Ok(interp) => place_of(self.plugins@, name@, 0) is Some && interp@
                    == self.plugins@[place_of(self.plugins@, name@, 0)->Some_0].1@,
                Err(RegistryError::UnknownPlugin(missing)) => place_of(self.plugins@, name@, 0)
                    is None && missing@ == name@,
                Err(_) => false,
            },
    {
        let mut i: usize = 0;
        while i < self.plugins.len()
            invariant
                i <= self.plugins@.len(),
                place_of(self.plugins@, name@, 0) == place_of(self.plugins@, name@, i as int),
            decreases self.plugins@.len() - i,
        {
            if same_text(self.plugins[i].0.as_str(), name) {
                return Ok(self.plugins[i].1.as_str());
            }
            i = i + 1;
        }
        Err(RegistryError::UnknownPlugin(name.to_owned()))
    }
}

/// The place of a file of the distribution: directory, stem, a dot, and the
/// extension.
pub open spec fn spec_dist_path(stem: Seq<char>, extension: Seq<char>) -> Seq<char> {
    "plugins/dist/"@ + stem + "."@ + extension
}

/// `format!` on the directory of the distribution, a stem and an extension.
#[verifier::external_body]
fn dist_path(stem: &str, extension: &str) -> (path: String)
    ensures
        path@ == spec_dist_path(stem@, extension@),
{
    format!("plugins/dist/{}.{}", stem, extension)
}

/// Where the module of the interpreter `interp` lies.
pub fn interpreter_path(interp: &str) -> (path: String)
    ensures
        path@ == spec_dist_path(interp@, "wasm"@),
{
    dist_path(interp, "wasm")
}

/// Where the bundle of the plugin `name` lies.
pub fn bundle_path(name: &str) -> (path: String)
    ensures
        path@ == spec_dist_path(name@, "tar"@),
{
    dist_path(name, "tar")
}

/// The plugin that a script for the interpreter `interp` is run as, and the
/// file of its bundle that the script takes the place of. Only two
/// interpreters take scripts.
pub open spec fn spec_base_plugin(interp: Seq<char>) -> Option<(Seq<char>, Seq<char>)> {
    if interp == "js"@ {
        Some(("parity"@, "script.js"@))
    } else if interp == "py"@ {
        Some(("difficulty"@, "script.py"@))
    } else {
        None
    }
}

/// Finds the plugin that stands in for a script of the interpreter
/// `interp`.
pub fn base_plugin(interp: &str) -> (res: Option<(&'static str, &'static str)>)
    ensures
        match res {
            Some((plugin, script)) => spec_base_plugin(interp@) == Some((plugin@, script@)),
            None => spec_base_plugin(interp@) is None,
        },
{
    if same_text(interp, "js") {
        Some(("parity", "script.js"))
    } else if same_text(interp, "py") {
        Some(("difficulty", "script.py"))
    } else {
        None
    }
}

} // verus!
