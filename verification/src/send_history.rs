//! What was sent to whom, so that an error about it can be attributed.
use vstd::prelude::*;

use crate::addr::{IpAddr, SocketAddr};
use crate::rows::{Dated, RowKey, Rows};

verus! {

impl RowKey for IpAddr {
    type Model = IpAddr;

    open spec fn model(&self) -> IpAddr {
        *self
    }

    fn same(&self, other: &Self) -> bool {
        *self == *other
    }
}

impl RowKey for u16 {
    type Model = u16;

    open spec fn model(&self) -> u16 {
        *self
    }

    fn same(&self, other: &Self) -> bool {
        *self == *other
    }
}

/// What is known of the sends to one endpoint.
#[derive(Clone, Copy, Debug, PartialEq, Eq, Structural)]
pub enum Evidence {
    /// Every send carried this hop limit.
    Exact { hop_limit: u8 },
    /// Sends carried different ones.
    Ambiguous,
}

/// What is known of one remote.
pub struct Remote {
    deadline: u64,
    endpoints: Rows<u16, Evidence>,
}

/// What is known of one remote.
#[verifier::ext_equal]
pub struct RemoteState {
    pub deadline: u64,
    pub endpoints: Map<u16, Evidence>,
}

impl View for Remote {
    type V = RemoteState;

    closed spec fn view(&self) -> RemoteState {
        RemoteState { deadline: self.deadline, endpoints: self.endpoints@ }
    }
}

impl Dated for Remote {
    closed spec fn due(&self) -> u64 {
        self.deadline
    }

    fn deadline(&self) -> u64 {
        self.deadline
    }
}

/// What an endpoint resolves to.
#[derive(Clone, Copy, Debug, PartialEq, Eq, Structural)]
pub enum Resolution {
    Matched { hop_limit: u8 },
    Ambiguous,
    Untracked,
}

/// What is known of every remote.
pub type Remotes = Map<IpAddr, RemoteState>;

/// The evidence after one more send.
pub open spec fn after_send(before: Option<Evidence>, hop_limit: u8) -> Evidence {
    match before {
        None => Evidence::Exact { hop_limit },
        Some(evidence) => if evidence == (Evidence::Exact { hop_limit }) {
            evidence
        } else {
            Evidence::Ambiguous
        },
    }
}

/// What is known of one endpoint, if anything.
pub open spec fn evidence_of(remotes: Remotes, destination: SocketAddr) -> Option<Evidence> {
    if remotes.contains_key(destination.ip) && remotes[destination.ip].endpoints.contains_key(
        destination.port,
    ) {
        Some(remotes[destination.ip].endpoints[destination.port])
    } else {
        None
    }
}

/// What is known after one more send.
pub open spec fn recorded(remotes: Remotes, destination: SocketAddr, hop_limit: u8, deadline: u64) -> Remotes {
    let endpoints = if remotes.contains_key(destination.ip) {
        remotes[destination.ip].endpoints
    } else {
        Map::empty()
    };
    remotes.insert(
        destination.ip,
        RemoteState {
            deadline,
            endpoints: endpoints.insert(
                destination.port,
                after_send(evidence_of(remotes, destination), hop_limit),
            ),
        },
    )
}

/// What an endpoint resolves to.
pub open spec fn resolution(remotes: Remotes, destination: SocketAddr) -> Resolution {
    match evidence_of(remotes, destination) {
        Some(Evidence::Exact { hop_limit }) => Resolution::Matched { hop_limit },
        Some(Evidence::Ambiguous) => Resolution::Ambiguous,
        None => Resolution::Untracked,
    }
}

/// The remotes that are not forgotten at `now`.
pub open spec fn remembered(remotes: Remotes, now: u64) -> Remotes {
    remotes.restrict(
        Set::new(|ip: IpAddr| remotes.contains_key(ip) && remotes[ip].deadline > now),
    )
}

/// Every remote sent to and not yet forgotten.
pub struct History {
    remotes: Rows<IpAddr, Remote>,
}

spec fn states(rows: Map<IpAddr, Remote>) -> Remotes {
    rows.map_values(|remote: Remote| remote@)
}

impl View for History {
    type V = Remotes;

    closed spec fn view(&self) -> Remotes {
        states(self.remotes@)
    }
}

impl Default for History {
    fn default() -> (r: Self)
        ensures
            r.wf(),
            r@ == Map::<IpAddr, RemoteState>::empty(),
    {
        let r = History { remotes: Rows::new() };
        assert(r@ =~= Map::<IpAddr, RemoteState>::empty());
        r
    }
}

impl History {
    pub closed spec fn wf(&self) -> bool {
        &&& self.remotes.wf()
        &&& forall|ip: IpAddr|
            #[trigger] self.remotes@.contains_key(ip) ==> self.remotes@[ip].endpoints.wf()
    }

    /// Records one send, and when its remote is forgotten.
    pub fn record(&mut self, destination: SocketAddr, hop_limit: u8, deadline: u64)
        requires
            old(self).wf(),
        ensures
            final(self).wf(),
            final(self)@ == recorded(old(self)@, destination, hop_limit, deadline),
    {
        let mut remote = match self.remotes.remove(&destination.ip) {
            Some(remote) => remote,
            None => Remote { deadline, endpoints: Rows::new() },
        };
        remote.deadline = deadline;
        let evidence = match remote.endpoints.get(&destination.port) {
            None => Evidence::Exact { hop_limit },
            Some(evidence) => {
                if *evidence == (Evidence::Exact { hop_limit }) {
                    *evidence
                } else {
                    Evidence::Ambiguous
                }
            },
        };
        remote.endpoints.insert(destination.port, evidence);
        self.remotes.insert(destination.ip, remote);
        assert(self@ =~= recorded(old(self)@, destination, hop_limit, deadline));
    }

    /// What an endpoint resolves to.
    pub fn resolve(&self, destination: SocketAddr) -> (r: Resolution)
        requires
            self.wf(),
        ensures
            r == resolution(self@, destination),
    {
        match self.remotes.get(&destination.ip) {
            None => Resolution::Untracked,
            Some(remote) => match remote.endpoints.get(&destination.port) {
                None => Resolution::Untracked,
                Some(Evidence::Exact { hop_limit }) => Resolution::Matched { hop_limit: *hop_limit },
                Some(Evidence::Ambiguous) => Resolution::Ambiguous,
            },
        }
    }

    /// How many endpoints of a remote are known.
    pub fn endpoints(&self, remote: IpAddr) -> (r: usize)
        requires
            self.wf(),
        ensures
            r == (if self@.contains_key(remote) { self@[remote].endpoints.dom().len() } else { 0 }),
    {
        match self.remotes.get(&remote) {
            None => 0,
            Some(remote) => remote.endpoints.len(),
        }
    }

    /// Whether anything was sent to a remote.
    pub fn authorizes(&self, remote: IpAddr) -> (r: bool)
        requires
            self.wf(),
        ensures
            r == self@.contains_key(remote),
    {
        self.remotes.contains(&remote)
    }

    /// Forgets every remote whose time has come, answering how many there were.
    pub fn expire(&mut self, now: u64) -> (r: usize)
        requires
            old(self).wf(),
        ensures
            final(self).wf(),
            final(self)@ == remembered(old(self)@, now),
            r == old(self)@.dom().len() - final(self)@.dom().len(),
    {
        let gone = self.remotes.expire(now);
        assert(self@ =~= remembered(old(self)@, now));
        assert(self@.dom() =~= self.remotes@.dom());
        assert(old(self)@.dom() =~= old(self).remotes@.dom());
        gone.len()
    }

    /// When the next remote is forgotten.
    pub fn next_deadline(&self) -> (r: Option<u64>)
        requires
            self.wf(),
        ensures
            match r {
                Some(t) => {
                    &&& exists|ip: IpAddr| #[trigger] self@.contains_key(ip) && self@[ip].deadline == t
                    &&& forall|ip: IpAddr| #[trigger] self@.contains_key(ip) ==> t <= self@[ip].deadline
                },
                None => self@.dom() == Set::<IpAddr>::empty(),
            },
    {
        let r = self.remotes.next_deadline();
        proof {
            if let Some(t) = r {
                let ip = choose|ip: IpAddr| #[trigger] self.remotes@.contains_key(ip) && self.remotes@[ip].due() == t;
                assert(self@.contains_key(ip));
            } else {
                assert(self@.dom() =~= Set::<IpAddr>::empty());
            }
        }
        r
    }
}

/// Ambiguity stays: once sends to an endpoint differed, no later send makes it exact.
pub proof fn law_ambiguity_is_permanent(remotes: Remotes, destination: SocketAddr, hop_limit: u8, deadline: u64)
    requires
        resolution(remotes, destination) == Resolution::Ambiguous,
    ensures
        resolution(recorded(remotes, destination, hop_limit, deadline), destination)
            == Resolution::Ambiguous,
{
}

/// Repeating a send changes nothing but when its remote is forgotten.
pub proof fn law_repeats_are_exact(
    remotes: Remotes,
    destination: SocketAddr,
    hop_limit: u8,
    first: u64,
    second: u64,
)
    ensures
        ({
            let once = recorded(remotes, destination, hop_limit, first);
            let twice = recorded(once, destination, hop_limit, second);
            &&& resolution(twice, destination) == resolution(once, destination)
            &&& twice[destination.ip].endpoints.dom() == once[destination.ip].endpoints.dom()
        }),
{
    let once = recorded(remotes, destination, hop_limit, first);
    let twice = recorded(once, destination, hop_limit, second);
    assert(twice[destination.ip].endpoints.dom() =~= once[destination.ip].endpoints.dom());
}

/// A send says nothing of any other endpoint.
pub proof fn law_other_endpoints_stay(
    remotes: Remotes,
    destination: SocketAddr,
    other: SocketAddr,
    hop_limit: u8,
    deadline: u64,
)
    requires
        other != destination,
    ensures
        resolution(recorded(remotes, destination, hop_limit, deadline), other) == resolution(
            remotes,
            other,
        ),
{
}

/// A remote that was forgotten is known by later sends alone.
pub proof fn law_forgotten_remote_starts_over(
    remotes: Remotes,
    destination: SocketAddr,
    now: u64,
    hop_limit: u8,
    deadline: u64,
)
    requires
        remotes.contains_key(destination.ip),
        remotes[destination.ip].deadline <= now,
    ensures
        resolution(remembered(remotes, now), destination) == Resolution::Untracked,
        resolution(recorded(remembered(remotes, now), destination, hop_limit, deadline), destination) == (
        Resolution::Matched { hop_limit }),
{
}

/// The first send to an endpoint is what its errors are attributed to: it resolves to that send's hop limit. Two sends
/// with different hop limits cannot be told apart.
pub proof fn law_sends_are_told_apart_by_hop_limit(
    remotes: Remotes,
    destination: SocketAddr,
    first: u8,
    second: u8,
    deadline: u64,
    later: u64,
)
    requires
        !remotes.contains_key(destination.ip) || !remotes[destination.ip].endpoints.contains_key(destination.port),
    ensures
        resolution(remotes, destination) is Untracked,
        ({
            let once = recorded(remotes, destination, first, deadline);
            let twice = recorded(once, destination, second, later);
            &&& resolution(once, destination) == (Resolution::Matched { hop_limit: first })
            &&& first == second ==> resolution(twice, destination) == (Resolution::Matched { hop_limit: first })
            &&& first != second ==> resolution(twice, destination) is Ambiguous
        }),
{
}

/// A send to any port puts off when its remote is forgotten to the deadline that came with it, for that remote alone.
pub proof fn law_a_send_sets_when_its_remote_is_forgotten(
    remotes: Remotes,
    destination: SocketAddr,
    hop_limit: u8,
    deadline: u64,
    other: IpAddr,
)
    ensures
        ({
            let after = recorded(remotes, destination, hop_limit, deadline);
            &&& after.contains_key(destination.ip)
            &&& after[destination.ip].deadline == deadline
            &&& after[destination.ip].endpoints.contains_key(destination.port)
            &&& other != destination.ip ==> after.contains_key(other) == remotes.contains_key(other)
            &&& other != destination.ip && remotes.contains_key(other) ==> after[other] == remotes[other]
        }),
{
}

/// A remote is remembered, with all that is known of it, exactly until its deadline comes.
pub proof fn law_a_remote_is_remembered_until_its_deadline(remotes: Remotes, now: u64, ip: IpAddr)
    ensures
        remembered(remotes, now).contains_key(ip) <==> remotes.contains_key(ip) && now < remotes[ip].deadline,
        remembered(remotes, now).contains_key(ip) ==> remembered(remotes, now)[ip] == remotes[ip],
{
}

} // verus!
