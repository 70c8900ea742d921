//! The domain errors a command can report.
//!
//! Filesystem failures are not represented here: they arise only in the
//! surrounding application, which performs the actual I/O and propagates
//! them on its own.  These variants cover the states the decision logic
//! itself detects and refuses.

use vstd::prelude::*;
use vstd::string::StringExecFns;

verus! {

/// A condition that makes a command fail with a diagnostic and exit code 1.
#[derive(Debug)]
pub enum ProfileError {
    /// The requested profile name is not a key of the registry.
    UnknownProfile,
    /// The active location holds a plain file; replacing it would destroy
    /// credentials that were never imported.
    DestructiveOverwrite,
    /// The active location is already a symlink to a registered profile.
    AlreadyImported { name: String },
    /// The active location is a symlink to a target outside the registry.
    UnknownLink,
    /// No registered profile is selected by the active location.
    NoActiveProfile,
    /// The registry holds no profiles at all.
    EmptyRegistry,
    /// A registry file name does not contain the fixed suffix.
    MalformedEntryName,
}

impl ProfileError {
    /// The diagnostic text for this error.
    pub open spec fn spec_message(&self) -> Seq<char> {
        match self {
            ProfileError::UnknownProfile => "Couldn't find the profile to switch with."@,
            ProfileError::DestructiveOverwrite => "A non-profile credentials already exists. This is a destructive operation, you should import or delete it first."@,
            ProfileError::AlreadyImported { name } => "The profile is already imported under `"@ + name@ + "`"@,
            ProfileError::UnknownLink => "The profile is an unknown symbolic link."@,
            ProfileError::NoActiveProfile => "No profile is currently in use."@,
            ProfileError::EmptyRegistry => "No profiles is currently available"@,
            ProfileError::MalformedEntryName => "Couldn't split file name"@,
        }
    }

    /// Render the diagnostic text for this error.
    pub fn message(&self) -> (r: String)
        ensures
            r@ == self.spec_message(),
    {
        match self {
            ProfileError::UnknownProfile => "Couldn't find the profile to switch with.".to_owned(),
            ProfileError::DestructiveOverwrite => "A non-profile credentials already exists. This is a destructive operation, you should import or delete it first.".to_owned(),
            ProfileError::AlreadyImported { name } => {
                let mut s = "The profile is already imported under `".to_owned();
                s.append(name.as_str());
                s.append("`");
                s
            },
            ProfileError::UnknownLink => "The profile is an unknown symbolic link.".to_owned(),
            ProfileError::NoActiveProfile => "No profile is currently in use.".to_owned(),
            ProfileError::EmptyRegistry => "No profiles is currently available".to_owned(),
            ProfileError::MalformedEntryName => "Couldn't split file name".to_owned(),
        }
    }
}

} // verus!
