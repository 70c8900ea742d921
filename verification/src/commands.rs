//! The four command handlers: switch, import, status and list.
//!
//! Each handler is pure: it takes the registry and the observed state of
//! the active location and returns either an error or a plan of the
//! filesystem actions to perform, which the surrounding application
//! carries out.  The laws relating the handlers are proved here as well.

use vstd::prelude::*;
use vstd::string::StringExecFns;

use crate::errors::ProfileError;
use crate::link::ActiveLocation;
use crate::link::Resolved;
use crate::link::resolve_active;
use crate::link::status_outcome;
use crate::names::suffix_chars;
use crate::registry::Registry;
use crate::registry::get_profile_name_for_path;
use crate::registry::lemma_name_for_path_of_bound;
use crate::registry::spec_name_for_path;

verus! {

/// The filesystem actions a successful switch asks for: remove the old
/// link if one exists, then link the active location to `target`.
pub struct SwitchPlan {
    /// An existing symlink occupies the location and must be removed
    /// before the new one is created.
    pub remove_existing: bool,
    /// The registered backing file the new link points at.
    pub target: String,
}

/// The filesystem action a successful import asks for: move the foreign
/// credentials file to `destination`.
pub struct ImportPlan {
    /// The registry file of the imported name.
    pub destination: String,
}

/// Decide a switch to the profile named `name`.  An unknown name is
/// refused, as is replacing a non-symlink occupying the active location;
/// otherwise the plan links the location to the profile's backing file.
pub fn switch_profile(location: &ActiveLocation, profiles: &Registry, name: &String) -> (r: Result<
    SwitchPlan,
    ProfileError,
>)
    requires
        profiles.wf(),
    ensures
        match r {
            Ok(plan) => {
                &&& profiles.contains_name(name@)
                &&& !((*location) is Foreign)
                &&& plan.target@ == profiles.as_map()[name@]
                &&& plan.remove_existing == ((*location) is Symlink)
            },
            Err(e) => match e {
                ProfileError::UnknownProfile => !profiles.contains_name(name@),
                ProfileError::DestructiveOverwrite => profiles.contains_name(name@) && (*location)
                    is Foreign,
                _ => false,
            },
        },
{
    match profiles.lookup(name) {
        None => Err(ProfileError::UnknownProfile),
        Some(profile_path) => match location {
            ActiveLocation::Foreign => Err(ProfileError::DestructiveOverwrite),
            ActiveLocation::Symlink { .. } => Ok(
                SwitchPlan { remove_existing: true, target: profile_path.clone() },
            ),
            ActiveLocation::Absent => Ok(
                SwitchPlan { remove_existing: false, target: profile_path.clone() },
            ),
        },
    }
}

/// Decide an import under the name `name`.  A location that is already a
/// symlink is refused — it holds a managed profile or an unknown link,
/// not fresh credentials; otherwise the plan moves the file at the
/// location to `<registry_dir>/<name>.tfrc.json`.
pub fn import_profile(
    name: &String,
    location: &ActiveLocation,
    profiles: &Registry,
    registry_dir: &String,
) -> (r: Result<ImportPlan, ProfileError>)
    ensures
        match r {
            Ok(plan) => {
                &&& !((*location) is Symlink)
                &&& plan.destination@ == registry_dir@ + seq!['/'] + name@ + suffix_chars()
            },
            Err(e) => match e {
                ProfileError::AlreadyImported { name: existing } => (*location) matches ActiveLocation::Symlink { target }
                    && spec_name_for_path(*profiles, target@) == Some(existing@),
                ProfileError::UnknownLink => (*location) matches ActiveLocation::Symlink { target }
                    && spec_name_for_path(*profiles, target@) is None,
                _ => false,
            },
        },
{
    match location {
        ActiveLocation::Symlink { target } => match get_profile_name_for_path(target, profiles) {
            Some(key) => Err(ProfileError::AlreadyImported { name: key.clone() }),
            None => Err(ProfileError::UnknownLink),
        },
        _ => {
            let mut destination = registry_dir.clone();
            destination.append("/");
            destination.append(name.as_str());
            destination.append(".tfrc.json");
            proof {
                reveal_strlit("/");
                reveal_strlit(".tfrc.json");
                assert("/"@ =~= seq!['/']);
                assert(".tfrc.json"@ =~= suffix_chars());
                assert(destination@ =~= registry_dir@ + seq!['/'] + name@ + suffix_chars());
            }
            Ok(ImportPlan { destination })
        },
    }
}

/// Report the active profile's name, or that none is in use.  A missing
/// location, a foreign file and an unknown symlink are all reported the
/// same way.
pub fn show_profile_status(location: &ActiveLocation, profiles: &Registry) -> (r: Result<
    String,
    ProfileError,
>)
    ensures
        match r {
            Ok(name) => status_outcome(*profiles, *location) == Some(name@),
            Err(e) => e is NoActiveProfile && status_outcome(*profiles, *location) is None,
        },
{
    match resolve_active(profiles, location) {
        Resolved::Active { name } => Ok(name),
        _ => Err(ProfileError::NoActiveProfile),
    }
}

/// List the registered names, in scan order; an empty registry is an
/// error.  Under `wf()` each name appears exactly once, and the listed
/// names are exactly the keys of the mapping.
pub fn show_profiles_list(profiles: &Registry) -> (r: Result<Vec<String>, ProfileError>)
    requires
        profiles.wf(),
    ensures
        match r {
            Ok(list) => {
                &&& profiles.entries_seq().len() > 0
                &&& list@.len() == profiles.entries_seq().len()
                &&& forall|i: int|
                    0 <= i < list@.len() ==> #[trigger] list@[i]@
                        == profiles.entries_seq()[i].name@
                &&& forall|i: int, j: int|
                    0 <= i < j < list@.len() ==> #[trigger] list@[i]@ != #[trigger] list@[j]@
                &&& forall|i: int|
                    0 <= i < list@.len() ==> profiles.as_map().contains_key(#[trigger] list@[i]@)
                &&& forall|k: Seq<char>| #[trigger]
                    profiles.as_map().contains_key(k) ==> exists|i: int|
                        0 <= i < list@.len() && #[trigger] list@[i]@ == k
            },
            Err(e) => e is EmptyRegistry && profiles.entries_seq().len() == 0,
        },
{
    if profiles.is_empty() {
        Err(ProfileError::EmptyRegistry)
    } else {
        let names = profiles.profile_names();
        proof {
            assert forall|i: int, j: int|
                0 <= i < j < names@.len() implies #[trigger] names@[i]@
                != #[trigger] names@[j]@ by {
                assert(profiles.entries_seq()[i].name@ != profiles.entries_seq()[j].name@);
            }
            assert forall|i: int| 0 <= i < names@.len() implies profiles.as_map().contains_key(
                #[trigger] names@[i]@,
            ) by {
                profiles.lemma_index_of_name(names@[i]@, i);
            }
            assert forall|k: Seq<char>| #[trigger]
                profiles.as_map().contains_key(k) implies exists|i: int|
                0 <= i < names@.len() && #[trigger] names@[i]@ == k by {
                let w = choose|w: int|
                    0 <= w < profiles.entries_seq().len() && (#[trigger] profiles.entries_seq()[w]).name@
                        == k;
                assert(names@[w]@ == k);
            }
        }
        Ok(names)
    }
}

/// Status is idempotent: without a switch in between, the registry and
/// the observed location are the same, and two status computations on
/// them report the same outcome.
pub proof fn lemma_status_idempotent(
    reg: Registry,
    loc: ActiveLocation,
    first: Option<Seq<char>>,
    second: Option<Seq<char>>,
)
    requires
        first == status_outcome(reg, loc),
        second == status_outcome(reg, loc),
    ensures
        first == second,
{
}

/// Switch followed by status reports the name just switched to: linking
/// the location to the backing file of a registered name makes status
/// resolve exactly that name, provided each profile has its own backing
/// file.
pub proof fn lemma_switch_then_status(reg: Registry, loc: ActiveLocation, name: Seq<char>)
    requires
        reg.wf(),
        reg.paths_distinct(),
        reg.contains_name(name),
        loc matches ActiveLocation::Symlink { target } && target@ == reg.as_map()[name],
    ensures
        status_outcome(reg, loc) == Some(name),
{
    lemma_name_for_path_of_bound(reg, name);
}

} // verus!
