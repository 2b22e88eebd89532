//! Echo requests that were sent on, by where they went and the sequence number they went with.
use vstd::prelude::*;

use crate::addr::IpAddr;
use crate::rows::{undue, Dated, RowKey, Rows};

verus! {

/// How long a reply is waited for, in nanoseconds.
pub const ECHO_TIMEOUT: u64 = 60_000_000_000;

/// What a client calls its request.
#[derive(Clone, Copy, Debug, PartialEq, Eq, Structural)]
pub struct Identity {
    pub identifier: u16,
    pub sequence: u16,
}

/// Where a request went, and with which sequence number.
#[derive(Clone, Copy, Debug, PartialEq, Eq, Structural)]
pub struct Key {
    pub remote: IpAddr,
    pub sequence: u16,
}

impl RowKey for Key {
    type Model = Key;

    open spec fn model(&self) -> Key {
        *self
    }

    fn same(&self, other: &Self) -> (r: bool) {
        *self == *other
    }
}

/// Whose request it was.
#[derive(Clone, Copy, Debug, PartialEq, Eq, Structural)]
pub struct Session {
    pub client: IpAddr,
    pub identity: Identity,
    pub hop_limit: u8,
    pub deadline: u64,
}

impl Dated for Session {
    open spec fn due(&self) -> u64 {
        self.deadline
    }

    fn deadline(&self) -> (r: u64) {
        self.deadline
    }
}

/// What was found under a sequence number alone.
#[derive(Clone, Copy, Debug, PartialEq, Eq, Structural)]
pub enum Found {
    One { remote: IpAddr, session: Session },
    Ambiguous,
    Missing,
}

/// The sequence number `k` behind `n`.
pub open spec fn sequence_after(n: u16, k: int) -> u16 {
    ((n + k) % 0x1_0000) as u16
}

/// Whether a sequence number is taken for a remote.
pub open spec fn taken(sessions: Map<Key, Session>, remote: IpAddr, sequence: u16) -> bool {
    sessions.contains_key(Key { remote, sequence })
}

/// Whether a request to a remote under a sequence number may still be answered.
pub open spec fn awaits(sessions: Map<Key, Session>, remote: IpAddr, sequence: u16, now: u64) -> bool {
    taken(sessions, remote, sequence) && sessions[Key { remote, sequence }].deadline > now
}

/// Whether the `k`th number from `start` on is the first that is free for a remote.
pub open spec fn first_free(sessions: Map<Key, Session>, remote: IpAddr, start: u16, k: int) -> bool {
    &&& 0 <= k < 0x1_0000
    &&& !taken(sessions, remote, sequence_after(start, k))
    &&& forall|j: int| 0 <= j < k ==> taken(sessions, remote, #[trigger] sequence_after(start, j))
}

/// Whether an address is of a family, if one is asked for.
pub open spec fn in_family(family: Option<bool>, address: IpAddr) -> bool {
    match family {
        Some(ipv6) => (address is V6) == ipv6,
        None => true,
    }
}

/// Whether a remote of a family has a request with a sequence number.
pub open spec fn candidate(
    sessions: Map<Key, Session>,
    family: Option<bool>,
    remote: IpAddr,
    sequence: u16,
) -> bool {
    taken(sessions, remote, sequence) && in_family(family, remote)
}

/// What comes of taking the only request of a family with a sequence number.
pub open spec fn took_only(
    before: Map<Key, Session>,
    after: Map<Key, Session>,
    family: Option<bool>,
    sequence: u16,
    found: Found,
) -> bool {
    match found {
        Found::One { remote, session } => {
            &&& candidate(before, family, remote, sequence)
            &&& session == before[Key { remote, sequence }]
            &&& forall|other: IpAddr| #[trigger] candidate(before, family, other, sequence) ==> other == remote
            &&& after == before.remove(Key { remote, sequence })
        },
        Found::Ambiguous => {
            &&& exists|a: IpAddr, b: IpAddr|
                a != b && #[trigger] candidate(before, family, a, sequence) && #[trigger] candidate(
                    before,
                    family,
                    b,
                    sequence,
                )
            &&& after == before
        },
        Found::Missing => {
            &&& forall|remote: IpAddr| !#[trigger] candidate(before, family, remote, sequence)
            &&& after == before
        },
    }
}

/// Requests that a reply may still come to.
pub struct Sessions {
    sessions: Rows<Key, Session>,
    next_sequence: u16,
}

impl Sessions {
    pub closed spec fn wf(&self) -> bool {
        self.sessions.wf()
    }

    /// The requests.
    pub closed spec fn spec_sessions(&self) -> Map<Key, Session> {
        self.sessions@
    }

    /// The sequence number that is tried next.
    pub closed spec fn spec_next(&self) -> u16 {
        self.next_sequence
    }

    /// A sequence number that no request to this remote has: the first free one in turn, unless all are taken.
    pub fn allocate(&mut self, remote: IpAddr) -> (r: Option<u16>)
        requires
            old(self).wf(),
        ensures
            final(self).wf(),
            final(self).spec_sessions() == old(self).spec_sessions(),
            match r {
                Some(sequence) => exists|k: int|
                    {
                        &&& #[trigger] first_free(
                            old(self).spec_sessions(),
                            remote,
                            old(self).spec_next(),
                            k,
                        )
                        &&& sequence == sequence_after(old(self).spec_next(), k)
                        &&& final(self).spec_next() == sequence_after(old(self).spec_next(), k + 1)
                    },
                None => {
                    &&& forall|sequence: u16| #[trigger] taken(old(self).spec_sessions(), remote, sequence)
                    &&& final(self).spec_next() == old(self).spec_next()
                },
            },
    {
        let ghost start = self.next_sequence;
        let mut tried: u32 = 0;
        while tried < 0x1_0000
            invariant
                tried <= 0x1_0000,
                self.wf(),
                self.sessions@ == old(self).sessions@,
                start == old(self).next_sequence,
                self.next_sequence == sequence_after(start, tried as int),
                forall|j: int|
                    0 <= j < tried ==> taken(
                        old(self).sessions@,
                        remote,
                        #[trigger] sequence_after(start, j),
                    ),
            decreases 0x1_0000 - tried,
        {
            let sequence = self.next_sequence;
            self.next_sequence = if sequence == u16::MAX {
                0
            } else {
                sequence + 1
            };
            assert(self.next_sequence == sequence_after(start, tried + 1));
            if !self.sessions.contains(&Key { remote, sequence }) {
                assert(first_free(
                    old(self).spec_sessions(),
                    remote,
                    old(self).spec_next(),
                    tried as int,
                ));
                return Some(sequence);
            }
            tried += 1;
        }
        proof {
            assert forall|sequence: u16| #[trigger] taken(old(self).sessions@, remote, sequence) by {
                let j = (sequence - start) % 0x1_0000;
                assert(sequence_after(start, j) == sequence);
            }
        }
        None
    }

    /// Notes a request that was sent.
    pub fn insert(
        &mut self,
        remote: IpAddr,
        sequence: u16,
        client: IpAddr,
        identity: Identity,
        hop_limit: u8,
        now: u64,
    )
        requires
            old(self).wf(),
            now + ECHO_TIMEOUT <= u64::MAX,
        ensures
            final(self).wf(),
            final(self).spec_next() == old(self).spec_next(),
            final(self).spec_sessions() == old(self).spec_sessions().insert(
                Key { remote, sequence },
                Session { client, identity, hop_limit, deadline: (now + ECHO_TIMEOUT) as u64 },
            ),
    {
        self.sessions.insert(
            Key { remote, sequence },
            Session { client, identity, hop_limit, deadline: now + ECHO_TIMEOUT },
        );
    }

    /// Takes the request that a reply belongs to.
    pub fn take(&mut self, remote: IpAddr, sequence: u16) -> (r: Option<Session>)
        requires
            old(self).wf(),
        ensures
            final(self).wf(),
            final(self).spec_next() == old(self).spec_next(),
            final(self).spec_sessions() == old(self).spec_sessions().remove(Key { remote, sequence }),
            match r {
                Some(session) => taken(old(self).spec_sessions(), remote, sequence) && session
                    == old(self).spec_sessions()[Key { remote, sequence }],
                None => !taken(old(self).spec_sessions(), remote, sequence),
            },
    {
        self.sessions.remove(&Key { remote, sequence })
    }

    fn take_only(&mut self, family: Option<bool>, sequence: u16) -> (r: Found)
        requires
            old(self).wf(),
        ensures
            final(self).wf(),
            final(self).spec_next() == old(self).spec_next(),
            took_only(old(self).spec_sessions(), final(self).spec_sessions(), family, sequence, r),
    {
        let ghost sessions = self.sessions@;
        let ghost entries = self.sessions.entries();
        proof {
            self.sessions.lemma_entries();
        }
        let count: usize = self.sessions.len();
        let mut found: Option<Key> = None;
        let mut i: usize = 0;
        while i < count
            invariant
                i <= count,
                self.sessions.wf(),
                sessions == self.sessions@,
                sessions == old(self).sessions@,
                self.next_sequence == old(self).next_sequence,
                entries == self.sessions.entries(),
                count == entries.len(),
                forall|a: int, b: int|
                    0 <= a < b < entries.len() ==> (#[trigger] entries[a]).0.model() != (
                    #[trigger] entries[b]).0.model(),
                match found {
                    Some(key) => {
                        &&& key.sequence == sequence && in_family(family, key.remote)
                        &&& exists|a: int| 0 <= a < i && (#[trigger] entries[a]).0 == key
                        &&& forall|a: int|
                            0 <= a < i && (#[trigger] entries[a]).0.sequence == sequence && in_family(
                                family,
                                entries[a].0.remote,
                            ) ==> entries[a].0 == key
                    },
                    None => forall|a: int|
                        0 <= a < i ==> (#[trigger] entries[a]).0.sequence != sequence || !in_family(
                            family,
                            entries[a].0.remote,
                        ),
                },
            decreases count - i,
        {
            let key = *self.sessions.key_at(i);
            assert(key == entries[i as int].0);
            let fits = match family {
                Some(ipv6) => key.remote.is_ipv6() == ipv6,
                None => true,
            };
            if key.sequence == sequence && fits {
                if let Some(first) = found {
                    proof {
                        let a = choose|a: int| 0 <= a < i && (#[trigger] entries[a]).0 == first;
                        assert(entries[a].0.model() != entries[i as int].0.model());
                        self.sessions.lemma_entries();
                        assert(sessions.contains_key(entries[a].0.model()));
                        assert(sessions.contains_key(entries[i as int].0.model()));
                        assert(first == Key { remote: first.remote, sequence });
                        assert(key == Key { remote: key.remote, sequence });
                        assert(candidate(sessions, family, first.remote, sequence));
                        assert(candidate(sessions, family, key.remote, sequence));
                    }
                    return Found::Ambiguous;
                }
                found = Some(key);
            }
            i += 1;
        }
        proof {
            assert forall|remote: IpAddr| #[trigger] candidate(sessions, family, remote, sequence) implies found
                == Some(Key { remote, sequence }) by {
                self.sessions.lemma_entries();
                let a = choose|a: int|
                    0 <= a < entries.len() && (#[trigger] entries[a]).0.model() == (Key { remote, sequence });
                assert(entries[a].0.sequence == sequence);
            }
        }
        match found {
            Some(key) => {
                proof {
                    assert(key == Key { remote: key.remote, sequence });
                    self.sessions.lemma_entries();
                    let a = choose|a: int| 0 <= a < count && (#[trigger] entries[a]).0 == key;
                    assert(sessions.contains_key(entries[a].0.model()));
                    assert forall|other: IpAddr| #[trigger] candidate(
                        sessions,
                        family,
                        other,
                        sequence,
                    ) implies other == key.remote by {}
                }
                match self.sessions.remove(&key) {
                    Some(session) => Found::One { remote: key.remote, session },
                    None => Found::Missing,
                }
            },
            None => Found::Missing,
        }
    }

    /// Takes the only request with a sequence number. Where several remotes have one it is nobody's.
    pub fn take_by_sequence(&mut self, sequence: u16) -> (r: Found)
        requires
            old(self).wf(),
        ensures
            final(self).wf(),
            final(self).spec_next() == old(self).spec_next(),
            took_only(old(self).spec_sessions(), final(self).spec_sessions(), None, sequence, r),
    {
        self.take_only(None, sequence)
    }

    /// Takes the request that a reply belongs to, unless its time is over. One whose time is over stays to be
    /// forgotten with the others.
    pub fn take_live(&mut self, remote: IpAddr, sequence: u16, now: u64) -> (r: Option<Session>)
        requires
            old(self).wf(),
        ensures
            final(self).wf(),
            final(self).spec_next() == old(self).spec_next(),
            final(self).spec_sessions() == if r is Some {
                old(self).spec_sessions().remove(Key { remote, sequence })
            } else {
                old(self).spec_sessions()
            },
            match r {
                Some(session) => awaits(old(self).spec_sessions(), remote, sequence, now) && session
                    == old(self).spec_sessions()[Key { remote, sequence }],
                None => !awaits(old(self).spec_sessions(), remote, sequence, now),
            },
    {
        let key = Key { remote, sequence };
        match self.sessions.get(&key) {
            Some(session) => if session.deadline <= now {
                return None;
            },
            None => return None,
        }
        self.sessions.remove(&key)
    }

    /// Forgets the requests that no reply came to in time, and takes the only one of a family with a sequence
    /// number. Says how many were forgotten.
    pub fn take_live_by_sequence(&mut self, ipv6: bool, sequence: u16, now: u64) -> (r: (usize, Found))
        requires
            old(self).wf(),
        ensures
            final(self).wf(),
            final(self).spec_next() == old(self).spec_next(),
            r.0 == old(self).spec_sessions().dom().len() - undue(old(self).spec_sessions(), now).dom().len(),
            took_only(
                undue(old(self).spec_sessions(), now),
                final(self).spec_sessions(),
                Some(ipv6),
                sequence,
                r.1,
            ),
    {
        let swept = self.expire(now);
        let found = self.take_only(Some(ipv6), sequence);
        (swept, found)
    }

    /// Forgets the requests that no reply came to in time, and says how many they were.
    pub fn expire(&mut self, now: u64) -> (r: usize)
        requires
            old(self).wf(),
        ensures
            final(self).wf(),
            final(self).spec_next() == old(self).spec_next(),
            final(self).spec_sessions() == undue(old(self).spec_sessions(), now),
            r == old(self).spec_sessions().dom().len() - final(self).spec_sessions().dom().len(),
    {
        self.sessions.expire(now).len()
    }

    /// Forgets every request.
    pub fn clear(&mut self)
        ensures
            final(self).wf(),
            final(self).spec_next() == old(self).spec_next(),
            final(self).spec_sessions() == Map::<Key, Session>::empty(),
    {
        self.sessions = Rows::new();
    }

    /// When the next request is forgotten.
    pub fn next_deadline(&self) -> (r: Option<u64>)
        requires
            self.wf(),
        ensures
            match r {
                Some(t) => {
                    &&& exists|key: Key|
                        #[trigger] self.spec_sessions().contains_key(key)
                            && self.spec_sessions()[key].deadline == t
                    &&& forall|key: Key|
                        #[trigger] self.spec_sessions().contains_key(key) ==> t
                            <= self.spec_sessions()[key].deadline
                },
                None => self.spec_sessions() == Map::<Key, Session>::empty(),
            },
    {
        let r = self.sessions.next_deadline();
        proof {
            if r is None {
                assert(self.sessions@ =~= Map::<Key, Session>::empty());
            } else {
                let key = choose|key: Key|
                    #[trigger] self.sessions@.contains_key(key) && self.sessions@[key].due() == r->0;
                assert(self.spec_sessions().contains_key(key));
            }
        }
        r
    }

    /// How many requests a reply may still come to.
    pub fn len(&self) -> (r: usize)
        requires
            self.wf(),
        ensures
            r == self.spec_sessions().dom().len(),
    {
        self.sessions.len()
    }
}

impl Default for Sessions {
    fn default() -> (r: Self)
        ensures
            r.wf(),
            r.spec_sessions() == Map::<Key, Session>::empty(),
            r.spec_next() == 0,
    {
        Sessions { sessions: Rows::new(), next_sequence: 0 }
    }
}

/// A request is answered once: after its reply was taken nothing is there for a second one, and every other
/// request is where it was.
pub proof fn law_one_reply_per_request(sessions: Map<Key, Session>, key: Key, other: Key)
    requires
        other != key,
    ensures
        !taken(sessions.remove(key), key.remote, key.sequence),
        taken(sessions.remove(key), other.remote, other.sequence) == taken(
            sessions,
            other.remote,
            other.sequence,
        ),
        sessions.contains_key(other) ==> sessions.remove(key)[other] == sessions[other],
{
    assert(key == Key { remote: key.remote, sequence: key.sequence });
    assert(other == Key { remote: other.remote, sequence: other.sequence });
}

/// The number tried next is the first that no request to the remote has, counting up from where the last search ended
/// and around after 65535. Where that one is free it is taken at once.
pub proof fn law_a_free_number_is_found_in_turn(sessions: Map<Key, Session>, remote: IpAddr, start: u16, k: int)
    requires
        first_free(sessions, remote, start, k),
    ensures
        0 <= k < 65_536,
        !sessions.contains_key(Key { remote, sequence: sequence_after(start, k) }),
        !sessions.contains_key(Key { remote, sequence: start }) <==> k == 0,
        sequence_after(start, 0) == start,
        sequence_after(start, k + 1) == if sequence_after(start, k) == 65_535 {
            0int
        } else {
            sequence_after(start, k) + 1
        },
        forall|j: int|
            #![trigger sequence_after(start, j)]
            0 <= j < k ==> sessions.contains_key(Key { remote, sequence: sequence_after(start, j) }),
{
    if k > 0 {
        assert(taken(sessions, remote, sequence_after(start, 0)));
    }
}

/// A request is waited for as long as it is noted and its deadline has not come.
pub proof fn law_a_request_is_waited_for_until_its_deadline(
    sessions: Map<Key, Session>,
    remote: IpAddr,
    sequence: u16,
    now: u64,
)
    ensures
        awaits(sessions, remote, sequence, now) <==> sessions.contains_key(Key { remote, sequence }) && now
            < sessions[Key { remote, sequence }].deadline,
        taken(sessions, remote, sequence) <==> sessions.contains_key(Key { remote, sequence }),
{
}

/// A request that alone has its sequence number among the remotes of its family is the one that is taken, as it was
/// noted, and every other request stays.
pub proof fn law_the_only_request_is_taken(
    before: Map<Key, Session>,
    after: Map<Key, Session>,
    ipv6: bool,
    sequence: u16,
    found: Found,
    remote: IpAddr,
)
    requires
        took_only(before, after, Some(ipv6), sequence, found),
        before.contains_key(Key { remote, sequence }),
        (remote is V6) == ipv6,
        forall|other: IpAddr|
            #![trigger before.contains_key(Key { remote: other, sequence })]
            other != remote && (other is V6) == ipv6 ==> !before.contains_key(Key { remote: other, sequence }),
    ensures
        found == (Found::One { remote, session: before[Key { remote, sequence }] }),
        after == before.remove(Key { remote, sequence }),
{
    assert(candidate(before, Some(ipv6), remote, sequence));
    if let Found::Ambiguous = found {
        let (a, b) = choose|a: IpAddr, b: IpAddr|
            a != b && #[trigger] candidate(before, Some(ipv6), a, sequence) && #[trigger] candidate(
                before,
                Some(ipv6),
                b,
                sequence,
            );
        assert(before.contains_key(Key { remote: a, sequence }));
        assert(before.contains_key(Key { remote: b, sequence }));
    }
    if let Found::One { remote: one, .. } = found {
        assert(candidate(before, Some(ipv6), one, sequence));
        assert(before.contains_key(Key { remote: one, sequence }));
    }
}

/// Where two remotes of a family have a request with the same sequence number neither is taken, and where none has one
/// nothing is. A request to a remote of the other family is never taken.
pub proof fn law_nothing_is_taken_by_guess(
    before: Map<Key, Session>,
    after: Map<Key, Session>,
    ipv6: bool,
    sequence: u16,
    found: Found,
    a: IpAddr,
    b: IpAddr,
)
    requires
        took_only(before, after, Some(ipv6), sequence, found),
    ensures
        a != b && before.contains_key(Key { remote: a, sequence }) && before.contains_key(Key { remote: b, sequence })
            && (a is V6) == ipv6 && (b is V6) == ipv6 ==> found is Ambiguous && after == before,
        (forall|remote: IpAddr|
            #![trigger before.contains_key(Key { remote, sequence })]
            (remote is V6) == ipv6 ==> !before.contains_key(Key { remote, sequence })) ==> found is Missing && after
            == before,
        found is One ==> (found->remote is V6) == ipv6 && before.contains_key(
            Key { remote: found->remote, sequence },
        ),
{
    assert(before.contains_key(Key { remote: a, sequence }) && (a is V6) == ipv6 ==> candidate(
        before,
        Some(ipv6),
        a,
        sequence,
    ));
    assert(before.contains_key(Key { remote: b, sequence }) && (b is V6) == ipv6 ==> candidate(
        before,
        Some(ipv6),
        b,
        sequence,
    ));
    if let Found::Ambiguous = found {
        let (x, y) = choose|x: IpAddr, y: IpAddr|
            x != y && #[trigger] candidate(before, Some(ipv6), x, sequence) && #[trigger] candidate(
                before,
                Some(ipv6),
                y,
                sequence,
            );
        assert(before.contains_key(Key { remote: x, sequence }));
    }
}

/// Where no family is asked for, remotes of both count.
pub proof fn law_a_bare_number_is_of_either_family(
    before: Map<Key, Session>,
    after: Map<Key, Session>,
    sequence: u16,
    found: Found,
    a: IpAddr,
    b: IpAddr,
)
    requires
        took_only(before, after, None, sequence, found),
        before.contains_key(Key { remote: a, sequence }),
    ensures
        !(found is Missing),
        a != b && before.contains_key(Key { remote: b, sequence }) ==> found is Ambiguous && after == before,
        found is One ==> found->remote == a && found->session == before[Key { remote: a, sequence }] && after
            == before.remove(Key { remote: a, sequence }),
{
    assert(candidate(before, None, a, sequence));
    assert(before.contains_key(Key { remote: b, sequence }) ==> candidate(before, None, b, sequence));
}

} // verus!
