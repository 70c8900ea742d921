//! The active link: the single well-known location the credentials-
//! dependent tool reads, and its resolution against the registry.
//!
//! The surrounding application observes the location and reports it as an
//! [`ActiveLocation`]; the logic here only decides, never touches the
//! filesystem.

use vstd::prelude::*;

use crate::registry::Registry;
use crate::registry::get_profile_name_for_path;
use crate::registry::spec_name_for_path;

verus! {

/// What an observation of the active location found there.
pub enum ActiveLocation {
    /// Nothing exists at the location.
    Absent,
    /// A symbolic link with the given target path.
    Symlink { target: String },
    /// Something that exists but is not a symbolic link.
    Foreign,
}

/// The resolution of the active location against the registry.
pub enum Resolved {
    /// A symbolic link to the named registered profile.
    Active { name: String },
    /// A symbolic link to a target outside the registry.
    Unknown,
    /// Nothing exists at the location.
    Absent,
    /// A non-symlink occupies the location.
    Foreign,
}

/// The profile name the active location selects: the name under which a
/// symlink target is registered, and nothing in every other state.
pub open spec fn status_outcome(reg: Registry, loc: ActiveLocation) -> Option<Seq<char>> {
    match loc {
        ActiveLocation::Symlink { target } => spec_name_for_path(reg, target@),
        _ => None,
    }
}

/// Resolve the active location against the registry.
pub fn resolve_active(profiles: &Registry, location: &ActiveLocation) -> (r: Resolved)
    ensures
        match *location {
            ActiveLocation::Absent => r is Absent,
            ActiveLocation::Foreign => r is Foreign,
            ActiveLocation::Symlink { target } => match spec_name_for_path(*profiles, target@) {
                Some(nm) => r matches Resolved::Active { name } && name@ == nm,
                None => r is Unknown,
            },
        },
{
    match location {
        ActiveLocation::Absent => Resolved::Absent,
        ActiveLocation::Foreign => Resolved::Foreign,
        ActiveLocation::Symlink { target } => match get_profile_name_for_path(target, profiles) {
            Some(nm) => Resolved::Active { name: nm.clone() },
            None => Resolved::Unknown,
        },
    }
}

} // verus!
