//! The bus core: the resolved address and session GUID, the authentication
//! mechanism chosen from the transport, the peer-identifier counter, the
//! accept-loop decisions, the listener plan and the shutdown cleanup target.

use vstd::prelude::*;
use vstd::string::*;

use crate::address::{
    dec_digits, parse_spec, resolve_address, resolve_spec, u32_to_dec, AddressError, BusAddress,
    BusAddressV, Transport, TransportV, UnixSocket, UnixSocketV,
};
use crate::guid::valid_guid;
use vstd::pervasive::unreached;

verus! {

/// The authentication mechanism a transport implies: UNIX domain sockets
/// carry peer credentials, TCP carries none.
#[derive(Clone, Copy, Debug, PartialEq, Eq, Structural)]
pub enum AuthMechanism {
    External,
    Anonymous,
}

/// The mechanism implied by a transport.
pub open spec fn auth_for(t: TransportV) -> AuthMechanism {
    match t {
        TransportV::Unix(_) => AuthMechanism::External,
        TransportV::Tcp(_) => AuthMechanism::Anonymous,
    }
}

/// Chooses the authentication mechanism for a transport.
pub fn auth_mechanism_for(t: &Transport) -> (r: AuthMechanism)
    ensures
        r == auth_for(t@),
{
    match t {
        Transport::Unix(_) => AuthMechanism::External,
        Transport::Tcp(_) => AuthMechanism::Anonymous,
    }
}

/// An address is resolved once it carries a GUID and its transport is
/// directly dialable (no directory hint left).
pub open spec fn resolved(a: BusAddressV) -> bool {
    &&& a.guid is Some
    &&& match a.transport {
        TransportV::Unix(UnixSocketV::Dir(_)) => false,
        TransportV::Unix(UnixSocketV::TmpDir(_)) => false,
        _ => true,
    }
}

/// What the listener factory must bind: exactly one of the two transport
/// kinds, with the domain-socket sub-mode made explicit.
#[derive(Debug, PartialEq, Eq)]
pub enum ListenPlan {
    UnixPath(String),
    UnixAbstract(String),
    Tcp(String, u16),
}

/// Mathematical model of `ListenPlan`.
pub enum ListenPlanV {
    UnixPath(Seq<char>),
    UnixAbstract(Seq<char>),
    Tcp(Seq<char>, u16),
}

impl View for ListenPlan {
    type V = ListenPlanV;

    open spec fn view(&self) -> ListenPlanV {
        match self {
            ListenPlan::UnixPath(p) => ListenPlanV::UnixPath(p@),
            ListenPlan::UnixAbstract(n) => ListenPlanV::UnixAbstract(n@),
            ListenPlan::Tcp(h, p) => ListenPlanV::Tcp(h@, *p),
        }
    }
}

/// Why no listener can be produced for an address.
#[derive(Clone, Copy, Debug, PartialEq, Eq, Structural)]
pub enum ListenError {
    /// The address still carries a directory hint; it must be resolved first.
    UnresolvedAddress,
    /// The nonce-authenticated TCP variant is rejected as unsupported.
    NonceTcpUnsupported,
}

/// The listener owed for an address.
pub open spec fn listen_plan_spec(a: BusAddressV) -> Result<ListenPlanV, ListenError> {
    match a.transport {
        TransportV::Unix(UnixSocketV::File(p)) => Result::Ok(ListenPlanV::UnixPath(p)),
        TransportV::Unix(UnixSocketV::Abstract(n)) => Result::Ok(ListenPlanV::UnixAbstract(n)),
        TransportV::Unix(UnixSocketV::Dir(_)) => Result::Err(ListenError::UnresolvedAddress),
        TransportV::Unix(UnixSocketV::TmpDir(_)) => Result::Err(ListenError::UnresolvedAddress),
        TransportV::Tcp(t) => if t.nonce_file is Some {
            Result::Err(ListenError::NonceTcpUnsupported)
        } else {
            Result::Ok(ListenPlanV::Tcp(t.host, t.port))
        },
    }
}

/// Plans the listener for an address: the concrete endpoint to bind, or the
/// error owed — the nonce-authenticated TCP variant is rejected, and so is an
/// address whose directory hint was never resolved.
pub fn listener_plan(a: &BusAddress) -> (r: Result<ListenPlan, ListenError>)
    ensures
        match listen_plan_spec(a@) {
            Result::Ok(p) => r matches Result::Ok(q) && q@ == p,
            Result::Err(e) => r matches Result::Err(e2) && e2 == e,
        },
{
    match &a.transport {
        Transport::Unix(u) => match u {
            UnixSocket::File(p) => Ok(ListenPlan::UnixPath(p.clone())),
            UnixSocket::Abstract(n) => Ok(ListenPlan::UnixAbstract(n.clone())),
            UnixSocket::Dir(_) => Err(ListenError::UnresolvedAddress),
            UnixSocket::TmpDir(_) => Err(ListenError::UnresolvedAddress),
        },
        Transport::Tcp(t) => match &t.nonce_file {
            Some(_) => Err(ListenError::NonceTcpUnsupported),
            None => Ok(ListenPlan::Tcp(t.host.clone(), t.port)),
        },
    }
}

/// The filesystem artifact cleanup must remove: the socket file of a
/// path-bound domain-socket listener, and nothing for the abstract-namespace
/// or TCP transports.
pub open spec fn cleanup_target_spec(a: BusAddressV) -> Option<Seq<char>> {
    match a.transport {
        TransportV::Unix(UnixSocketV::File(p)) => Option::Some(p),
        _ => Option::None,
    }
}

/// An event the accept loop reacts to.
#[derive(Clone, Copy, Debug, PartialEq, Eq, Structural)]
pub enum AcceptEvent {
    /// The listener admitted a new connection.
    Accepted,
    /// The listener itself failed.
    AcceptFailed,
    /// One connection's concurrent admission failed after its handoff.
    AdmissionFailed,
}

/// What the accept loop must do next.
#[derive(Clone, Copy, Debug, PartialEq, Eq, Structural)]
pub enum LoopAction {
    /// Hand the connection, tagged with this freshly minted peer identifier,
    /// to the registry's admission entry point, concurrently.
    Admit(usize),
    /// Keep accepting; a single connection's failure is logged and swallowed.
    Continue,
    /// Stop the loop and propagate the listener failure to the caller.
    Terminate,
}

/// The bus: the resolved address it advertises, its session GUID, the chosen
/// authentication mechanism and the peer-identifier counter. The listener,
/// the peer registry and the self-connection pair live with the runtime that
/// drives this core.
pub struct Bus {
    pub address: BusAddress,
    pub guid: String,
    pub auth_mechanism: AuthMechanism,
    pub next_id: usize,
    /// The peer identifiers minted so far, in acceptance order.
    pub minted: Ghost<Seq<int>>,
}

impl Bus {
    /// The bus invariant: the address is resolved and carries exactly the
    /// session GUID, the mechanism matches the transport, and the minted
    /// identifiers are exactly 1,...,next_id in order.
    pub open spec fn wf(self) -> bool {
        &&& resolved(self.address@)
        &&& self.address@.guid == Option::Some(self.guid@)
        &&& valid_guid(self.guid@)
        &&& self.auth_mechanism == auth_for(self.address@.transport)
        &&& self.minted@.len() == self.next_id
        &&& forall|i: int| 0 <= i < self.minted@.len() ==> self.minted@[i] == i + 1
    }

    /// The resolved address the bus advertises.
    pub fn address(&self) -> (r: &BusAddress)
        ensures
            *r == self.address,
    {
        &self.address
    }

    /// The session GUID.
    pub fn guid(&self) -> (r: &String)
        ensures
            *r == self.guid,
    {
        &self.guid
    }

    /// The authentication mechanism every connection's handshake uses.
    pub fn auth_mechanism(&self) -> (r: AuthMechanism)
        ensures
            r == self.auth_mechanism,
    {
        self.auth_mechanism
    }

    /// Mints the next peer identifier: strictly increasing from 1, one per
    /// accepted connection, never reused.
    pub fn next_id(&mut self) -> (id: usize)
        requires
            old(self).wf(),
            old(self).next_id < usize::MAX,
        ensures
            final(self).wf(),
            id == final(self).next_id == old(self).next_id + 1,
            final(self).minted@ == old(self).minted@.push(id as int),
            final(self).address == old(self).address,
            final(self).guid == old(self).guid,
            final(self).auth_mechanism == old(self).auth_mechanism,
    {
        self.next_id = self.next_id + 1;
        proof {
            self.minted@ = self.minted@.push(self.next_id as int);
        }
        self.next_id
    }

    /// One accept-loop decision. A new connection gets the next identifier
    /// and is admitted concurrently; a listener failure terminates the loop;
    /// one connection's admission failure is swallowed, leaving the bus
    /// untouched so later connections are accepted and numbered as if it had
    /// never happened.
    pub fn accept_step(&mut self, event: AcceptEvent) -> (r: LoopAction)
        requires
            old(self).wf(),
            old(self).next_id < usize::MAX,
        ensures
            final(self).wf(),
            match event {
                AcceptEvent::Accepted => {
                    &&& r == LoopAction::Admit(final(self).next_id)
                    &&& final(self).next_id == old(self).next_id + 1
                    &&& final(self).minted@ == old(self).minted@.push(old(self).next_id + 1)
                    &&& final(self).address == old(self).address
                    &&& final(self).guid == old(self).guid
                    &&& final(self).auth_mechanism == old(self).auth_mechanism
                },
                AcceptEvent::AcceptFailed => {
                    &&& r == LoopAction::Terminate
                    &&& *final(self) == *old(self)
                },
                AcceptEvent::AdmissionFailed => {
                    &&& r == LoopAction::Continue
                    &&& *final(self) == *old(self)
                },
            },
    {
        match event {
            AcceptEvent::Accepted => {
                let id = self.next_id();
                LoopAction::Admit(id)
            },
            AcceptEvent::AcceptFailed => LoopAction::Terminate,
            AcceptEvent::AdmissionFailed => LoopAction::Continue,
        }
    }

    /// The socket file to remove on orderly shutdown, if any: cleanup for the
    /// abstract-namespace and TCP transports has nothing to do.
    pub fn cleanup_target(&self) -> (r: Option<String>)
        ensures
            crate::address::opt_view(r) == cleanup_target_spec(self.address@),
    {
        match &self.address.transport {
            Transport::Unix(UnixSocket::File(p)) => Some(p.clone()),
            _ => None,
        }
    }
}

/// The default address specification: a domain-socket directory hint rooted
/// at the runtime directory, falling back to the uid-qualified path under
/// `/run/user` when no runtime directory is set.
pub fn default_address(runtime_dir: Option<&str>, uid: u32) -> (r: String)
    ensures
        match runtime_dir {
            Option::Some(d) => r@ == "unix:dir="@ + d@,
            Option::None => r@ == "unix:dir=/run/user/"@ + dec_digits(uid as int),
        },
{
    let mut out = String::new();
    match runtime_dir {
        Some(d) => {
            out.append("unix:dir=");
            out.append(d);
            assert(out@ =~= "unix:dir="@ + d@);
        },
        None => {
            out.append("unix:dir=/run/user/");
            let digits = u32_to_dec(uid);
            out.append(digits.as_str());
            assert(out@ =~= "unix:dir=/run/user/"@ + dec_digits(uid as int));
        },
    }
    out
}

/// The specification string the bus is built for: the given one, or the
/// platform default derived from the runtime directory and the uid.
pub open spec fn chosen_spec(
    address: Option<&str>,
    runtime_dir: Option<&str>,
    uid: u32,
) -> Seq<char> {
    match address {
        Option::Some(a) => a@,
        Option::None => match runtime_dir {
            Option::Some(d) => "unix:dir="@ + d@,
            Option::None => "unix:dir=/run/user/"@ + dec_digits(uid as int),
        },
    }
}

impl Bus {
    /// Builds the bus core for an address specification, or for the platform
    /// default when none is given: the specification is parsed and resolved,
    /// the session GUID adopted or generated, the authentication mechanism
    /// chosen from the transport, and the peer-identifier counter started at
    /// zero. A malformed or unsupported specification is fatal and reported.
    pub fn for_address(address: Option<&str>, runtime_dir: Option<&str>, uid: u32) -> (r: Result<
        Bus,
        AddressError,
    >)
        ensures
            r matches Result::Ok(b) ==> b.wf() && b.next_id == 0,
            r matches Result::Ok(b) ==> parse_spec(chosen_spec(address, runtime_dir, uid)) is Ok,
            r matches Result::Ok(b) ==> exists|g: Seq<char>, n: int|
                valid_guid(g) && 1_000_000 <= n < u32::MAX && b.address@ == resolve_spec(
                    parse_spec(chosen_spec(address, runtime_dir, uid))->Ok_0,
                    g,
                    n,
                ),
            r matches Result::Err(e) ==> parse_spec(chosen_spec(address, runtime_dir, uid))
                matches Result::Err(e2) && e2 == e,
    {
        let ghost s = chosen_spec(address, runtime_dir, uid);
        let parsed = match address {
            Some(a) => resolve_address(a),
            None => {
                let d = default_address(runtime_dir, uid);
                resolve_address(d.as_str())
            },
        };
        let addr = match parsed {
            Ok(a) => a,
            Err(e) => {
                proof {
                    assert(parse_spec(s) matches Result::Err(e2) && e2 == e);
                }
                return Err(e);
            },
        };
        let ghost a0 = parse_spec(s)->Ok_0;
        proof {
            crate::address::lemma_parse_spec_guid(s);
            let (g, n) = choose|g: Seq<char>, n: int|
                valid_guid(g) && 1_000_000 <= n < u32::MAX && addr@ == resolve_spec(a0, g, n);
            assert(addr@.guid is Some);
            assert(valid_guid(addr@.guid->0));
            assert(resolved(addr@));
        }
        let g_string = match &addr.guid {
            Some(g) => g.clone(),
            None => unreached(),
        };
        let auth = auth_mechanism_for(&addr.transport);
        let b = Bus {
            address: addr,
            guid: g_string,
            auth_mechanism: auth,
            next_id: 0,
            minted: Ghost(Seq::empty()),
        };
        Ok(b)
    }
}

/// Peer identifiers are exact: a well-formed bus has minted exactly the
/// identifiers 1,...,next_id, in strict acceptance order, with no repeats
/// and no gaps.
pub proof fn lemma_peer_ids_exact(b: Bus)
    requires
        b.wf(),
    ensures
        b.minted@.len() == b.next_id,
        forall|i: int| 0 <= i < b.minted@.len() ==> b.minted@[i] == i + 1,
        forall|i: int, j: int| 0 <= i < j < b.minted@.len() ==> b.minted@[i] < b.minted@[j],
{
}

} // verus!
