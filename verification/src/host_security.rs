//! What the Session Host accepts of the files, sockets, processes and peers it works with, so
//! that only the user who started it can reach it: a runtime folder, slot locks and an endpoint
//! only that user may open, and a process tree that is its own. Reading metadata, locking and
//! signalling are the caller's; it hands the facts here.
use vstd::prelude::*;

use crate::text::{decimal_text, push_decimal, push_str, string_of};

verus! {

/// Why the Host refused.
#[derive(Clone, Copy, Debug, PartialEq, Eq, Structural)]
pub enum HostErrorCode {
    /// The child's process group could not be told apart as its own.
    ProcessIdentityUnavailable,
    /// Something in the runtime folder is not this user's alone.
    PermissionDenied,
    /// Every slot for a live Host is taken.
    ResourceLimit,
}

/// The permission bits a file's mode grants, owner, group and others.
pub open spec fn access_bits(mode: u32) -> u32 {
    mode % 512
}

/// The process group a stop signals: the one the pseudo-terminal's child leads. A child that is
/// not its group's leader could share the group with processes the Host does not own, so it is
/// refused.
pub fn process_group_for(leader: Option<i32>, process_id: u32) -> (r: Result<i32, HostErrorCode>)
    ensures
        match leader {
            Some(group) => if group > 0 && group as int == process_id as int {
                r == Ok::<i32, HostErrorCode>(group)
            } else {
                r == Err::<i32, HostErrorCode>(HostErrorCode::ProcessIdentityUnavailable)
            },
            None => r == Err::<i32, HostErrorCode>(HostErrorCode::ProcessIdentityUnavailable),
        },
{
    match leader {
        Some(group) => {
            if group > 0 && group as u32 == process_id {
                Ok(group)
            } else {
                Err(HostErrorCode::ProcessIdentityUnavailable)
            }
        },
        None => Err(HostErrorCode::ProcessIdentityUnavailable),
    }
}

/// What signalling the process group came to: a group with no process left to signal was
/// already stopped, which is what the stop wanted; any other failure is reported.
pub fn signal_outcome(delivered: bool, no_such_process: bool) -> (r: bool)
    ensures
        r == (delivered || no_such_process),
{
    delivered || no_such_process
}

/// The slot lock a live Host holds: the prefix, the slot number in at least two digits, `.lock`.
pub open spec fn slot_lock_name_spec(prefix: Seq<char>, slot: u32) -> Seq<char> {
    prefix + (if slot < 10 { seq!['0'] } else { Seq::empty() }) + decimal_text(slot as nat) + ".lock"@
}

/// The slot lock a live Host holds.
pub fn slot_lock_name(prefix: &str, slot: u32) -> (r: String)
    ensures
        r@ == slot_lock_name_spec(prefix@, slot),
{
    let mut out: Vec<char> = Vec::new();
    push_str(&mut out, prefix);
    if slot < 10 {
        out.push('0');
    }
    push_decimal(&mut out, slot as u64);
    push_str(&mut out, ".lock");
    proof {
        if slot < 10 {
            assert(out@ =~= prefix@ + seq!['0'] + decimal_text(slot as nat) + ".lock"@);
        } else {
            assert(out@ =~= prefix@ + Seq::<char>::empty() + decimal_text(slot as nat) + ".lock"@);
        }
    }
    string_of(out.as_slice())
}

/// A slot lock is used only when it is a plain file this user owns that only this user may read
/// and write.
pub fn slot_lock_acceptable(is_file: bool, owner: u32, effective_user: u32, mode: u32) -> (r: bool)
    ensures
        r == (is_file && owner == effective_user && access_bits(mode) == 0o600),
{
    is_file && owner == effective_user && mode % 512 == 0o600
}

/// What trying a slot comes to: held, taken by another Host (try the next one), or a failure.
#[derive(Clone, Copy, Debug, PartialEq, Eq, Structural)]
pub enum SlotAttempt {
    Held,
    Taken,
    Failed,
}

/// The slot to hold, from the attempts in slot order: the first one held; `ResourceLimit` when
/// every slot was taken; `PermissionDenied` at the first failure.
pub open spec fn slot_choice(attempts: Seq<SlotAttempt>) -> Result<int, HostErrorCode>
    decreases attempts.len(),
{
    if attempts.len() == 0 {
        Err(HostErrorCode::ResourceLimit)
    } else {
        match attempts[0] {
            SlotAttempt::Held => Ok(0),
            SlotAttempt::Failed => Err(HostErrorCode::PermissionDenied),
            SlotAttempt::Taken => match slot_choice(attempts.drop_first()) {
                Ok(i) => Ok(i + 1),
                Err(e) => Err(e),
            },
        }
    }
}

/// The slot to hold, given how trying each went.
pub fn choose_slot(attempts: &Vec<SlotAttempt>) -> (r: Result<usize, HostErrorCode>)
    ensures
        match r {
            Ok(i) => slot_choice(attempts@) == Ok::<int, HostErrorCode>(i as int),
            Err(e) => slot_choice(attempts@) == Err::<int, HostErrorCode>(e),
        },
{
    let mut i: usize = 0;
    assert(attempts@.skip(0) =~= attempts@);
    while i < attempts.len()
        invariant
            i <= attempts@.len(),
            forall|k: int| 0 <= k < i ==> attempts@[k] == SlotAttempt::Taken,
            slot_choice(attempts@) == match slot_choice(attempts@.skip(i as int)) {
                Ok(j) => Ok::<int, HostErrorCode>(j + i),
                Err(e) => Err::<int, HostErrorCode>(e),
            },
        decreases attempts@.len() - i,
    {
        assert(attempts@.skip(i as int)[0] == attempts@[i as int]);
        assert(attempts@.skip(i as int).drop_first() =~= attempts@.skip(i + 1));
        match attempts[i] {
            SlotAttempt::Held => return Ok(i),
            SlotAttempt::Failed => return Err(HostErrorCode::PermissionDenied),
            SlotAttempt::Taken => {},
        }
        i = i + 1;
    }
    assert(attempts@.skip(i as int).len() == 0);
    Err(HostErrorCode::ResourceLimit)
}

/// The runtime folder, as it stands before the Host uses it: refused when it is a symbolic link
/// or not a folder; created when missing.
pub fn runtime_root_usable(exists: bool, is_symlink: bool, is_dir: bool) -> (r: Result<bool, HostErrorCode>)
    ensures
        !exists ==> r == Ok::<bool, HostErrorCode>(true),
        exists && (is_symlink || !is_dir) ==> r == Err::<bool, HostErrorCode>(HostErrorCode::PermissionDenied),
        exists && !is_symlink && is_dir ==> r == Ok::<bool, HostErrorCode>(false),
{
    if !exists {
        Ok(true)
    } else if is_symlink || !is_dir {
        Err(HostErrorCode::PermissionDenied)
    } else {
        Ok(false)
    }
}

/// The runtime folder, once its permissions are set: this user's, and only this user's.
pub fn runtime_root_private(owner: u32, effective_user: u32, mode: u32) -> (r: bool)
    ensures
        r == (owner == effective_user && access_bits(mode) == 0o700),
{
    owner == effective_user && mode % 512 == 0o700
}

/// The endpoint, once bound: a socket this user owns that only this user may use.
pub fn endpoint_private(is_socket: bool, owner: u32, effective_user: u32, mode: u32) -> (r: bool)
    ensures
        r == (is_socket && owner == effective_user && access_bits(mode) == 0o600),
{
    is_socket && owner == effective_user && mode % 512 == 0o600
}

/// A connection is served only when its peer is the user the Host runs as; one whose peer is
/// someone else, or is gone before it could be asked, is turned away on its own.
pub fn peer_admitted(peer_user: Option<u32>, expected_user: u32) -> (r: bool)
    ensures
        r == (peer_user == Some(expected_user)),
{
    match peer_user {
        Some(user) => user == expected_user,
        None => false,
    }
}

/// The endpoint is removed on the way out only while it is still the socket this Host bound, not
/// one something else put in its place.
pub fn removes_endpoint(is_socket: bool, device: u64, inode: u64, bound_device: u64, bound_inode: u64) -> (r: bool)
    ensures
        r == (is_socket && device == bound_device && inode == bound_inode),
{
    is_socket && device == bound_device && inode == bound_inode
}

/// The Windows security descriptor for the Host's pipe: full access for the user whose security
/// identifier is `sid`, and for no one else.
pub fn pipe_security_descriptor(sid: &str) -> (r: String)
    ensures
        r@ == "D:P(A;;GA;;;"@ + sid@ + ")"@,
{
    let mut out: Vec<char> = Vec::new();
    push_str(&mut out, "D:P(A;;GA;;;");
    push_str(&mut out, sid);
    push_str(&mut out, ")");
    string_of(out.as_slice())
}

} // verus!
