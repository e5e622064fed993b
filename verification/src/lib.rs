pub mod codec;
pub mod data;
pub mod hosts;
pub mod list;
pub mod observer;
pub mod search;
pub mod state;
pub mod text;
pub mod util;

use vstd::prelude::*;

verus! {

/// The errors that profile-list, storage and hosts-write operations report.
///
/// `NoPermission` is the one recoverable error: a direct write to the system
/// hosts file was denied and the caller should prompt for credentials.
#[derive(Clone, Copy, Debug, PartialEq, Eq, Structural)]
pub enum HostsError {
    /// Reading or writing a metadata or content file failed.
    Storage,
    /// A direct write to the system hosts file was denied.
    NoPermission,
    /// The privilege-elevation helper itself failed.
    Elevation,
    /// An operation referenced a profile id that is no longer present.
    NotFound,
    /// An empty title was submitted to the create/rename dialog.
    Validation,
}

/// A title is accepted by the create/rename dialog exactly when it is non-empty.
pub fn validate_title(title: &String) -> (r: Result<(), HostsError>)
    ensures
        r is Ok <==> title@.len() > 0,
        r is Err ==> r == Result::<(), HostsError>::Err(HostsError::Validation),
{
    if title.as_str().is_empty() {
        Err(HostsError::Validation)
    } else {
        Ok(())
    }
}

} // verus!
