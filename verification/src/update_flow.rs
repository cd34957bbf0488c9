//! What the interface shows about updates, and how a check moves it along: checking, then either
//! up to date, a background download when this copy can install the release and the person has
//! not chosen manual updates, or a pointer to the release page; once downloaded, "Restart to
//! Update". Timers, the network and the files are the caller's; it hands each outcome back here.
use vstd::prelude::*;

use crate::update::{Offer, Staged, UpdateError, Version};

verus! {

/// Where updates stand.
#[derive(Clone, Debug)]
pub enum UpdateStatus {
    /// A development or test build, or updates switched off in the environment.
    Off,
    Idle,
    Checking,
    UpToDate,
    Downloading(Version),
    Ready(Staged),
    /// Newer, but this copy cannot install it: point at the release page.
    Manual { version: Version, page: String },
    Failed,
}

/// The interface's update state.
pub struct UpdateState {
    pub status: UpdateStatus,
}

impl UpdateState {
    /// The state a window opens with: off when updates are off, ready when a download from an
    /// earlier run is staged, idle otherwise.
    pub fn open(enabled: bool, staged: Option<Staged>) -> (r: UpdateState)
        ensures
            !enabled ==> r.status is Off,
            enabled ==> match staged {
                Some(s) => r.status == UpdateStatus::Ready(s),
                None => r.status is Idle,
            },
    {
        let status = if !enabled {
            UpdateStatus::Off
        } else {
            match staged {
                Some(s) => UpdateStatus::Ready(s),
                None => UpdateStatus::Idle,
            }
        };
        UpdateState { status }
    }

    /// Whether a check would be pointless now: updates are off, one is under way, or a release
    /// is already downloading or ready.
    pub open spec fn busy_spec(&self) -> bool {
        ||| self.status is Off
        ||| self.status is Checking
        ||| self.status is Downloading
        ||| self.status is Ready
    }

    pub fn busy(&self) -> (r: bool)
        ensures
            r == self.busy_spec(),
    {
        match &self.status {
            UpdateStatus::Off | UpdateStatus::Checking | UpdateStatus::Downloading(_) | UpdateStatus::Ready(_) => true,
            _ => false,
        }
    }

    /// Starts a check unless the state is busy; `true` when it started.
    pub fn begin_check(&mut self) -> (r: bool)
        ensures
            r == !old(self).busy_spec(),
            r ==> final(self).status is Checking,
            !r ==> final(self).status == old(self).status,
    {
        if self.busy() {
            return false;
        }
        self.status = UpdateStatus::Checking;
        true
    }
}

/// What a check found.
#[derive(Clone, Debug)]
pub enum Found {
    Current,
    /// Newer, and this copy downloads it by itself.
    Download(Offer),
    /// Newer, for a person to fetch.
    Manual(Offer),
}

/// A check's result as the interface takes it: a release this copy can install is downloaded
/// when updates are automatic; any other newer release is for a person to fetch.
pub fn classify(checked: Result<Option<Offer>, UpdateError>, automatic: bool) -> (r: Result<Found, UpdateError>)
    ensures
        match checked {
            Err(e) => r == Err::<Found, UpdateError>(e),
            Ok(None) => r matches Ok(Found::Current),
            Ok(Some(offer)) => if automatic && offer.package is Some {
                r == Ok::<Found, UpdateError>(Found::Download(offer))
            } else {
                r == Ok::<Found, UpdateError>(Found::Manual(offer))
            },
        },
{
    match checked {
        Err(e) => Err(e),
        Ok(None) => Ok(Found::Current),
        Ok(Some(offer)) => {
            if automatic && offer.package.is_some() {
                Ok(Found::Download(offer))
            } else {
                Ok(Found::Manual(offer))
            }
        },
    }
}

/// Where a check leaves the interface, and the download to start with the staging folder, when
/// there is one: none without a folder to stage into.
pub fn after_check(found: Result<Found, UpdateError>, staging_dir: Option<String>)
    -> (r: (UpdateStatus, Option<(Offer, String)>))
    ensures
        match found {
            Ok(Found::Download(offer)) => match staging_dir {
                Some(dir) => r.0 == UpdateStatus::Downloading(offer.version)
                    && r.1 == Some((offer, dir)),
                None => r.0 is Failed && r.1 is None,
            },
            Ok(Found::Manual(offer)) => r.0 == (UpdateStatus::Manual { version: offer.version, page: offer.page })
                && r.1 is None,
            Ok(Found::Current) => r.0 is UpToDate && r.1 is None,
            Err(_) => r.0 is Failed && r.1 is None,
        },
{
    match found {
        Ok(Found::Download(offer)) => match staging_dir {
            Some(dir) => (UpdateStatus::Downloading(offer.version), Some((offer, dir))),
            None => (UpdateStatus::Failed, None),
        },
        Ok(Found::Manual(offer)) => (UpdateStatus::Manual { version: offer.version, page: offer.page }, None),
        Ok(Found::Current) => (UpdateStatus::UpToDate, None),
        Err(_) => (UpdateStatus::Failed, None),
    }
}

/// Where a download leaves the interface: ready, or, when the package did not arrive whole,
/// pointing at the release page, which still has it.
pub fn after_download(downloaded: Result<Staged, UpdateError>, version: Version, page: String) -> (r: UpdateStatus)
    ensures
        match downloaded {
            Ok(staged) => r == UpdateStatus::Ready(staged),
            Err(UpdateError::ChecksumMismatch) => r == (UpdateStatus::Manual { version, page }),
            Err(_) => r is Failed,
        },
{
    match downloaded {
        Ok(staged) => UpdateStatus::Ready(staged),
        Err(UpdateError::ChecksumMismatch) => UpdateStatus::Manual { version, page },
        Err(_) => UpdateStatus::Failed,
    }
}

/// The top bar's update button: "Restart to Update" (`Some(true)`) once a release is ready,
/// "Update available" (`Some(false)`) for one to fetch by hand, none otherwise.
pub fn chrome_button(status: &UpdateStatus) -> (r: Option<bool>)
    ensures
        r == match *status {
            UpdateStatus::Ready(_) => Some(true),
            UpdateStatus::Manual { .. } => Some(false),
            _ => None::<bool>,
        },
{
    match status {
        UpdateStatus::Ready(_) => Some(true),
        UpdateStatus::Manual { .. } => Some(false),
        _ => None,
    }
}

} // verus!
