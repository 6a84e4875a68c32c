//! What is answered to requests for updates.
use vstd::prelude::*;
use vstd::string::*;

use crate::error::FeriteError;

verus! {

/// Whether to look for updates again although that was done recently.
#[derive(Debug)]
pub struct UpdateCheckQuery {
    pub force: bool,
}

impl Default for UpdateCheckQuery {
    fn default() -> (r: UpdateCheckQuery)
        ensures
            !r.force,
    {
        UpdateCheckQuery { force: false }
    }
}

/// What a look for an update of the web interface found.
#[derive(Debug)]
pub enum WebUpdate {
    /// There is a version to install.
    Install,
    /// The installed one is the latest.
    UpToDate,
    /// The latest one cannot be used with this server.
    Refused(FeriteError),
}

/// What becomes of a look for an update of the web interface: a version that can be
/// used is installed, and a later one that cannot be used is only named where there
/// is none that can.
pub fn web_update(usable: bool, incompatible: Option<String>) -> (r: WebUpdate)
    ensures
        usable ==> r is Install,
        !usable && incompatible is None ==> r is UpToDate,
        !usable && incompatible is Some ==> r == WebUpdate::Refused(FeriteError::Update(incompatible->0)),
{
    if usable {
        return WebUpdate::Install;
    }
    match incompatible {
        Some(reason) => WebUpdate::Refused(FeriteError::Update(reason)),
        None => WebUpdate::UpToDate,
    }
}

}
