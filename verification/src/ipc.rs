//! Where a durable session's Host listens, and who may connect to it.
use vstd::prelude::*;

use crate::paths::{join, joined};
use crate::text::{chars_of, decimal_text, push_decimal, push_str, string_of};

verus! {

/// Why a local connection was refused.
#[derive(Clone, Copy, Debug, PartialEq, Eq, Structural)]
pub enum ClientErrorCode {
    PermissionDenied,
}

#[derive(Clone, Copy, Debug, PartialEq, Eq, Structural)]
pub struct ClientError {
    pub code: ClientErrorCode,
}

impl ClientError {
    pub fn new(code: ClientErrorCode) -> (r: ClientError)
        ensures
            r.code == code,
    {
        ClientError { code }
    }
}

/// The user-only runtime folder of a session Host and the endpoint inside it.
#[derive(Clone, PartialEq, Eq)]
pub struct LocalEndpoint {
    runtime_root: String,
    socket_path: String,
}

impl View for LocalEndpoint {
    type V = (Seq<char>, Seq<char>);

    closed spec fn view(&self) -> (Seq<char>, Seq<char>) {
        (self.runtime_root@, self.socket_path@)
    }
}

impl LocalEndpoint {
    /// The endpoint named `endpoint_name` (the session's opaque endpoint name) inside
    /// `runtime_root`.
    pub fn new(runtime_root: String, endpoint_name: &str) -> (r: LocalEndpoint)
        ensures
            r@ == (runtime_root@, join(runtime_root@, endpoint_name@)),
    {
        let socket = joined(chars_of(runtime_root.as_str()).as_slice(), endpoint_name);
        LocalEndpoint { runtime_root, socket_path: string_of(socket.as_slice()) }
    }

    pub fn runtime_root(&self) -> (r: &String)
        ensures
            r@ == self@.0,
    {
        &self.runtime_root
    }

    pub fn socket_path(&self) -> (r: &String)
        ensures
            r@ == self@.1,
    {
        &self.socket_path
    }
}

/// Where a platform keeps session runtime folders: macOS and other Unix systems below the
/// temporary directory, so socket paths stay short enough, and the rest beside the configuration.
#[derive(Clone, Copy, Debug, PartialEq, Eq, Structural)]
pub enum RuntimeFamily {
    MacOs,
    OtherUnix,
    NotUnix,
}

/// The folder session runtime folders are made in, for the user with effective id `euid`.
pub open spec fn durable_runtime_parent_spec(family: RuntimeFamily, euid: u32, config_root: Seq<char>) -> Seq<char> {
    match family {
        RuntimeFamily::MacOs => "/private/tmp/termirust-"@ + decimal_text(euid as nat),
        RuntimeFamily::OtherUnix => "/tmp/termirust-"@ + decimal_text(euid as nat),
        RuntimeFamily::NotUnix => join(config_root, "session-host-runtime"@),
    }
}

/// The folder session runtime folders are made in.
pub fn durable_runtime_parent(family: RuntimeFamily, euid: u32, config_root: &str) -> (r: String)
    ensures
        r@ == durable_runtime_parent_spec(family, euid, config_root@),
{
    match family {
        RuntimeFamily::MacOs => {
            let mut out: Vec<char> = Vec::new();
            push_str(&mut out, "/private/tmp/termirust-");
            push_decimal(&mut out, euid as u64);
            string_of(out.as_slice())
        },
        RuntimeFamily::OtherUnix => {
            let mut out: Vec<char> = Vec::new();
            push_str(&mut out, "/tmp/termirust-");
            push_decimal(&mut out, euid as u64);
            string_of(out.as_slice())
        },
        RuntimeFamily::NotUnix => {
            string_of(joined(chars_of(config_root).as_slice(), "session-host-runtime").as_slice())
        },
    }
}

impl LocalEndpoint {
    /// The user-only runtime endpoint of a durable session's Host: the session's own folder
    /// below the runtime parent, and the endpoint named `endpoint_name` in it.
    pub fn for_config_root(config_root: &str, family: RuntimeFamily, euid: u32, session_id: &str, endpoint_name: &str)
        -> (r: LocalEndpoint)
        ensures
            r@.0 == join(durable_runtime_parent_spec(family, euid, config_root@), session_id@),
            r@.1 == join(r@.0, endpoint_name@),
    {
        let parent = durable_runtime_parent(family, euid, config_root);
        let root = joined(chars_of(parent.as_str()).as_slice(), session_id);
        LocalEndpoint::new(string_of(root.as_slice()), endpoint_name)
    }
}

/// The peer at the other end of a local connection.
#[derive(Clone, Copy, Debug, PartialEq, Eq, Structural)]
pub struct PeerIdentity {
    pub principal: u64,
}

/// Decides which peers may talk to a Host.
pub trait PeerAuthorizer {
    /// The peers this authorizer lets in.
    spec fn admits(&self, peer: PeerIdentity) -> bool;

    fn authorize(&self, peer: PeerIdentity) -> (r: Result<(), ClientError>)
        ensures
            r is Ok <==> self.admits(peer);
}

/// Lets in exactly one principal: the stand-in used where the platform's own check is not
/// available.
#[derive(Clone, Copy, Debug)]
pub struct FakePeerAuthorizer {
    expected: u64,
}

impl FakePeerAuthorizer {
    pub fn new(expected: u64) -> (r: FakePeerAuthorizer)
        ensures
            r.expected() == expected,
    {
        FakePeerAuthorizer { expected }
    }

    pub closed spec fn expected(&self) -> u64 {
        self.expected
    }
}

impl PeerAuthorizer for FakePeerAuthorizer {
    open spec fn admits(&self, peer: PeerIdentity) -> bool {
        peer.principal == self.expected()
    }

    fn authorize(&self, peer: PeerIdentity) -> (r: Result<(), ClientError>)
        ensures
            r matches Err(e) ==> e.code == ClientErrorCode::PermissionDenied,
    {
        if peer.principal == self.expected {
            Ok(())
        } else {
            Err(ClientError::new(ClientErrorCode::PermissionDenied))
        }
    }
}

/// Windows named pipes stay behind this authorization boundary: every connection's SID token is
/// put to the authorizer.
#[derive(Clone, Copy, Debug)]
pub struct WindowsNamedPipeSecurityAdapter<A> {
    authorizer: A,
}

impl<A: PeerAuthorizer> WindowsNamedPipeSecurityAdapter<A> {
    pub fn new(authorizer: A) -> (r: Self)
        ensures
            r.authorizer() == authorizer,
    {
        WindowsNamedPipeSecurityAdapter { authorizer }
    }

    pub closed spec fn authorizer(&self) -> A {
        self.authorizer
    }

    /// Lets the peer with this opaque SID token in exactly when the authorizer admits it.
    pub fn authorize_sid_token(&self, opaque_sid_token: u64) -> (r: Result<(), ClientError>)
        ensures
            r is Ok <==> self.authorizer().admits(PeerIdentity { principal: opaque_sid_token }),
    {
        self.authorizer.authorize(PeerIdentity { principal: opaque_sid_token })
    }
}

} // verus!
