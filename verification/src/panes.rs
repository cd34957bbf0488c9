//! Which open pane a saved host already has, and which terminals on this computer the app did
//! not open itself.
use vstd::prelude::*;

use crate::text::{chars_of, occurs_at, occurs_here};

verus! {

/// `c` in lower case, for ASCII letters; any other character as it is.
pub open spec fn ascii_lower(c: char) -> char {
    if 'A' <= c && c <= 'Z' {
        ((c as u32) + 32) as char
    } else {
        c
    }
}

/// `str::eq_ignore_ascii_case`: the same length, and the same characters once ASCII letters are
/// lowered.
pub open spec fn same_ignoring_ascii_case(a: Seq<char>, b: Seq<char>) -> bool {
    a.len() == b.len() && forall|i: int| 0 <= i < a.len() ==> ascii_lower(#[trigger] a[i]) == ascii_lower(b[i])
}

fn lower(c: char) -> (r: char)
    ensures
        r == ascii_lower(c),
{
    if 'A' <= c && c <= 'Z' {
        let code: u8 = (c as u32 - 65) as u8;
        (code + 97) as char
    } else {
        c
    }
}

/// Whether two texts are equal once ASCII letters are lowered.
pub fn eq_ignore_ascii_case(a: &str, b: &str) -> (r: bool)
    ensures
        r == same_ignoring_ascii_case(a@, b@),
{
    let x = chars_of(a);
    let y = chars_of(b);
    if x.len() != y.len() {
        return false;
    }
    let mut i: usize = 0;
    while i < x.len()
        invariant
            x@ == a@,
            y@ == b@,
            x@.len() == y@.len(),
            i <= x@.len(),
            forall|k: int| 0 <= k < i ==> ascii_lower(#[trigger] x@[k]) == ascii_lower(y@[k]),
        decreases x@.len() - i,
    {
        if lower(x[i]) != lower(y[i]) {
            return false;
        }
        i = i + 1;
    }
    true
}

/// A pane of the active workspace, as far as which host it reaches.
#[derive(Clone, Debug)]
pub struct PaneConnection {
    pub pane_id: u64,
    pub closed: bool,
    /// Connected over SSH, rather than a local shell or an agent.
    pub ssh: bool,
    pub host: String,
    pub port: u16,
    pub username: String,
}

/// A pane that is open and connected over SSH to the saved host: the host named alike but for
/// the case of ASCII letters, the same port and the same user.
pub open spec fn reaches(pane: PaneConnection, host: Seq<char>, port: u16, username: Seq<char>) -> bool {
    &&& !pane.closed
    &&& pane.ssh
    &&& same_ignoring_ascii_case(pane.host@, host)
    &&& pane.port == port
    &&& pane.username@ == username
}

/// The first pane, in the workspace's order, that reaches the saved host.
pub open spec fn first_reaching(panes: Seq<PaneConnection>, host: Seq<char>, port: u16, username: Seq<char>) -> Option<int>
    decreases panes.len(),
{
    if panes.len() == 0 {
        None
    } else {
        match first_reaching(panes.drop_last(), host, port, username) {
            Some(i) => Some(i),
            None => if reaches(panes.last(), host, port, username) { Some(panes.len() - 1) } else { None },
        }
    }
}

proof fn lemma_first_reaching_prefix(panes: Seq<PaneConnection>, host: Seq<char>, port: u16, username: Seq<char>, n: int)
    requires
        0 <= n <= panes.len(),
        first_reaching(panes.take(n), host, port, username) is Some,
    ensures
        first_reaching(panes, host, port, username) == first_reaching(panes.take(n), host, port, username),
    decreases panes.len() - n,
{
    if n < panes.len() {
        assert(panes.take(n + 1).drop_last() =~= panes.take(n));
        lemma_first_reaching_prefix(panes, host, port, username, n + 1);
    } else {
        assert(panes.take(n) =~= panes);
    }
}

/// The pane of the active workspace already connected to the saved host, if one is.
pub fn open_pane_for_profile(panes: &Vec<PaneConnection>, host: &str, port: u16, username: &str) -> (r: Option<u64>)
    ensures
        match first_reaching(panes@, host@, port, username@) {
            Some(i) => r == Some(panes@[i].pane_id),
            None => r is None,
        },
{
    let user = chars_of(username);
    let mut i: usize = 0;
    while i < panes.len()
        invariant
            i <= panes@.len(),
            user@ == username@,
            first_reaching(panes@.take(i as int), host@, port, username@) is None,
        decreases panes@.len() - i,
    {
        let pane = &panes[i];
        let same_user = {
            let theirs = chars_of(pane.username.as_str());
            theirs.len() == user.len() && occurs_here(theirs.as_slice(), user.as_slice(), 0)
        };
        proof {
            assert(panes@.take(i + 1).drop_last() =~= panes@.take(i as int));
            assert(panes@.take(i + 1).last() == panes@[i as int]);
            let theirs = pane.username@;
            if same_user {
                assert(theirs.subrange(0, username@.len() as int) =~= theirs);
            } else if theirs == username@ {
                assert(theirs.subrange(0, username@.len() as int) =~= theirs);
            }
        }
        if !pane.closed && pane.ssh && eq_ignore_ascii_case(pane.host.as_str(), host) && pane.port == port && same_user {
            proof {
                lemma_first_reaching_prefix(panes@, host@, port, username@, i + 1);
            }
            return Some(pane.pane_id);
        }
        i = i + 1;
    }
    proof {
        assert(panes@.take(panes@.len() as int) =~= panes@);
    }
    None
}

/// A tmux session this app started, by its name: those are listed with the app's own sessions
/// already, so they are left out of the other terminals.
pub open spec fn started_by_this_app(name: Seq<char>) -> bool {
    occurs_at(name, "multiplex-"@, 0) || occurs_at(name, "termirust-"@, 0)
}

/// Whether a tmux session belongs with the app's own sessions rather than the other terminals.
pub fn is_own_tmux_session(name: &str) -> (r: bool)
    ensures
        r == started_by_this_app(name@),
{
    let text = chars_of(name);
    let current = chars_of("multiplex-");
    let earlier = chars_of("termirust-");
    occurs_here(text.as_slice(), current.as_slice(), 0) || occurs_here(text.as_slice(), earlier.as_slice(), 0)
}

/// What a pane that is not connected shows about its connection.
#[derive(Clone, Copy, Debug, PartialEq, Eq, Structural)]
pub enum PaneNotice {
    /// The card shown while a remote pane makes its first connection.
    ConnectingCard,
    /// A banner: the last attempt failed.
    Failed { retrying: bool },
    /// A banner: the session closed.
    Closed { retrying: bool },
    /// A banner: the pane is connecting again.
    Connecting { retrying: bool },
}

/// What a pane shows about its connection: nothing while it is connected or the app is attached
/// to it; the connecting card before a remote pane has ever connected; nothing for a local shell
/// that is only starting; else a banner saying why it is not connected (a failure first, then a
/// closed session), which retries when a reconnect is scheduled or the session did not close.
pub open spec fn notice_spec(
    connected: bool,
    app_attached: bool,
    ever_connected: bool,
    local_shell: bool,
    failed: bool,
    closed: bool,
    reconnect_scheduled: bool,
) -> Option<PaneNotice> {
    let retrying = reconnect_scheduled || !closed;
    if connected || app_attached {
        None
    } else if !ever_connected && !local_shell {
        Some(PaneNotice::ConnectingCard)
    } else if !failed && !closed && local_shell {
        None
    } else if failed {
        Some(PaneNotice::Failed { retrying })
    } else if closed {
        Some(PaneNotice::Closed { retrying })
    } else {
        Some(PaneNotice::Connecting { retrying })
    }
}

/// What a pane shows about its connection, as `notice_spec` says.
pub fn pane_connection_notice(
    connected: bool,
    app_attached: bool,
    ever_connected: bool,
    local_shell: bool,
    failed: bool,
    closed: bool,
    reconnect_scheduled: bool,
) -> (r: Option<PaneNotice>)
    ensures
        r == notice_spec(connected, app_attached, ever_connected, local_shell, failed, closed, reconnect_scheduled),
{
    if connected || app_attached {
        return None;
    }
    if !ever_connected && !local_shell {
        return Some(PaneNotice::ConnectingCard);
    }
    if !failed && !closed && local_shell {
        return None;
    }
    let retrying = reconnect_scheduled || !closed;
    if failed {
        Some(PaneNotice::Failed { retrying })
    } else if closed {
        Some(PaneNotice::Closed { retrying })
    } else {
        Some(PaneNotice::Connecting { retrying })
    }
}

} // verus!
