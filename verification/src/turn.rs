//! Whose turn it is: each source of work gets one turn in a pass before any gets a second.
use vstd::arithmetic::power2::pow2;
use vstd::prelude::*;

verus! {

/// A source of work for the session's owner.
#[derive(Clone, Copy, Debug, PartialEq, Eq, Structural)]
pub enum Source {
    TcpAttention,
    UdpReply,
    EchoReply,
    TcpDnsAsk,
    MappingDeadline,
    EchoDeadline,
    FragmentDeadline,
    TcpDeadline,
    TunIngress,
}

impl Source {
    /// The place of a source in the order they are asked.
    pub open spec fn place(self) -> int {
        match self {
            Source::TcpAttention => 0,
            Source::UdpReply => 1,
            Source::EchoReply => 2,
            Source::TcpDnsAsk => 3,
            Source::MappingDeadline => 4,
            Source::EchoDeadline => 5,
            Source::FragmentDeadline => 6,
            Source::TcpDeadline => 7,
            Source::TunIngress => 8,
        }
    }

    /// The bit that stands for a source.
    pub fn bit(self) -> (r: u16)
        ensures
            r == bit_of(self),
    {
        match self {
            Source::TcpAttention => 1,
            Source::UdpReply => 2,
            Source::EchoReply => 4,
            Source::TcpDnsAsk => 8,
            Source::MappingDeadline => 16,
            Source::EchoDeadline => 32,
            Source::FragmentDeadline => 64,
            Source::TcpDeadline => 128,
            Source::TunIngress => 256,
        }
    }
}

/// The bit that stands for a source.
pub open spec fn bit_of(source: Source) -> u16 {
    match source {
        Source::TcpAttention => 1,
        Source::UdpReply => 2,
        Source::EchoReply => 4,
        Source::TcpDnsAsk => 8,
        Source::MappingDeadline => 16,
        Source::EchoDeadline => 32,
        Source::FragmentDeadline => 64,
        Source::TcpDeadline => 128,
        Source::TunIngress => 256,
    }
}

/// What a deadline turn may do.
#[derive(Clone, Copy, Debug, PartialEq, Eq, Structural)]
pub enum Expiry {
    /// Retire state and emit what is owed about it.
    Delivering,
    /// Retire state only: the interface has no room.
    Maintaining,
}

impl Expiry {
    /// Whether anything may be emitted.
    pub fn delivering(self) -> (r: bool)
        ensures
            r == (self == Expiry::Delivering),
    {
        match self {
            Expiry::Delivering => true,
            Expiry::Maintaining => false,
        }
    }
}

impl From<bool> for Expiry {
    fn from(accepting: bool) -> (r: Self) {
        if accepting {
            Expiry::Delivering
        } else {
            Expiry::Maintaining
        }
    }
}

impl vstd::std_specs::convert::FromSpecImpl<bool> for Expiry {
    open spec fn obeys_from_spec() -> bool {
        true
    }

    open spec fn from_spec(accepting: bool) -> Self {
        if accepting {
            Expiry::Delivering
        } else {
            Expiry::Maintaining
        }
    }
}

/// Whether the pass is an ordinary one or owes the sources that the last one served.
#[derive(Clone, Copy, Debug, PartialEq, Eq, Structural)]
pub enum Phase {
    Open,
    Carried,
}

/// A pass: the sources it has recorded, and what recording means.
#[verifier::ext_equal]
pub struct PassState {
    pub served: Set<Source>,
    pub phase: Phase,
}

impl PassState {
    /// A pass that has served nobody.
    pub open spec fn fresh() -> PassState {
        PassState { served: Set::empty(), phase: Phase::Open }
    }

    /// Whether a source may take a turn.
    pub open spec fn owed(self, source: Source) -> bool {
        match self.phase {
            Phase::Open => !self.served.contains(source),
            Phase::Carried => self.served.contains(source),
        }
    }

    /// The pass after a source took its turn.
    pub open spec fn taken(self, source: Source) -> PassState {
        match self.phase {
            Phase::Open => PassState { served: self.served.insert(source), ..self },
            Phase::Carried => PassState { served: set![source], phase: Phase::Open },
        }
    }

    /// TCP attention is never among the sources that are carried over.
    pub open spec fn sound(self) -> bool {
        self.phase == Phase::Carried ==> !self.served.contains(Source::TcpAttention)
    }

    /// Whether the pass may end: only while the interface accepts, and only once it has served or carries.
    pub open spec fn started(self, accepting: bool) -> bool {
        accepting && (self.phase == Phase::Carried || self.served != Set::<Source>::empty())
    }

    /// The pass after an end: the sources it served are carried over unless TCP attention was among them.
    pub open spec fn ended(self) -> PassState {
        if self.phase == Phase::Open && self.owed(Source::TcpAttention) {
            PassState { phase: Phase::Carried, ..self }
        } else {
            PassState::fresh()
        }
    }
}

/// One pass over the sources of work.
pub struct Pass {
    served: u16,
    phase: Phase,
}

/// Whether a set of bits holds a source's.
pub open spec fn holds(bits: u16, source: Source) -> bool {
    bits & bit_of(source) != 0
}

impl View for Pass {
    type V = PassState;

    closed spec fn view(&self) -> PassState {
        PassState { served: Set::new(|source: Source| holds(self.served, source)), phase: self.phase }
    }
}

proof fn lemma_bits(bits: u16, bit: u16, other: u16)
    by (bit_vector)
    requires
        bit == 1 || bit == 2 || bit == 4 || bit == 8 || bit == 16 || bit == 32 || bit == 64 || bit == 128
            || bit == 256,
        other == 1 || other == 2 || other == 4 || other == 8 || other == 16 || other == 32 || other == 64
            || other == 128 || other == 256,
    ensures
        ((bits | bit) & other != 0) == (bits & other != 0 || bit == other),
        (bit & other != 0) == (bit == other),
        0u16 & other == 0,
        bits & bit != 0 ==> bits != 0,
        bits < 512 && bits & 1 == 0 && bits & 2 == 0 && bits & 4 == 0 && bits & 8 == 0 && bits & 16 == 0
            && bits & 32 == 0 && bits & 64 == 0 && bits & 128 == 0 && bits & 256 == 0 ==> bits == 0,
        bits < 512 ==> (bits | bit) < 512,
{
}

impl Pass {
    /// Only the bits of sources are set, and what is carried over is sound.
    pub closed spec fn wf(&self) -> bool {
        &&& self.served < 512
        &&& self@.sound()
    }

    /// What holds of the sources that every pass has recorded.
    pub proof fn lemma_wf(&self)
        requires
            self.wf(),
        ensures
            self@.sound(),
    {
    }

    /// Whether a source may take a turn.
    pub fn owed(&self, source: Source) -> (r: bool)
        ensures
            r == self@.owed(source),
    {
        match self.phase {
            Phase::Open => self.served & source.bit() == 0,
            Phase::Carried => self.served & source.bit() != 0,
        }
    }

    /// Records that a source took its turn.
    pub fn take(&mut self, source: Source)
        requires
            old(self).wf(),
        ensures
            final(self).wf(),
            final(self)@ == old(self)@.taken(source),
    {
        let ghost before = self.served;
        match self.phase {
            Phase::Open => {
                self.served = self.served | source.bit();
            },
            Phase::Carried => {
                self.phase = Phase::Open;
                self.served = source.bit();
            },
        }
        proof {
            lemma_bits(before, bit_of(source), 1);
            assert forall|other: Source| self@.served.contains(other) == old(self)@.taken(source).served.contains(
                other,
            ) by {
                lemma_bits(before, bit_of(source), bit_of(other));
                assert((bit_of(source) == bit_of(other)) == (source == other));
            }
            assert(self@ =~= old(self)@.taken(source));
        }
    }

    /// Whether the pass may end.
    pub fn started(&self, accepting: bool) -> (r: bool)
        requires
            self.wf(),
        ensures
            r == self@.started(accepting),
    {
        proof {
            lemma_bits(self.served, 1, 1);
            if self.served == 0 {
                assert(self@.served =~= Set::<Source>::empty()) by {
                    assert forall|other: Source| !self@.served.contains(other) by {
                        lemma_bits(0, 1, bit_of(other));
                    }
                }
            } else {
                if self@.served == Set::<Source>::empty() {
                    assert(!self@.served.contains(Source::TcpAttention));
                    assert(!self@.served.contains(Source::UdpReply));
                    assert(!self@.served.contains(Source::EchoReply));
                    assert(!self@.served.contains(Source::TcpDnsAsk));
                    assert(!self@.served.contains(Source::MappingDeadline));
                    assert(!self@.served.contains(Source::EchoDeadline));
                    assert(!self@.served.contains(Source::FragmentDeadline));
                    assert(!self@.served.contains(Source::TcpDeadline));
                    assert(!self@.served.contains(Source::TunIngress));
                }
            }
        }
        accepting && (match self.phase {
            Phase::Carried => true,
            Phase::Open => false,
        } || self.served != 0)
    }

    /// Ends the pass.
    pub fn end(&mut self)
        requires
            old(self).wf(),
        ensures
            final(self).wf(),
            final(self)@ == old(self)@.ended(),
    {
        let open = match self.phase {
            Phase::Open => true,
            Phase::Carried => false,
        };
        if open && self.owed(Source::TcpAttention) {
            self.phase = Phase::Carried;
            assert(self@ =~= old(self)@.ended());
            return;
        }
        self.phase = Phase::Open;
        self.served = 0;
        proof {
            assert forall|other: Source| !self@.served.contains(other) by {
                lemma_bits(0, 1, bit_of(other));
            }
            assert(self@ =~= PassState::fresh());
        }
    }
}

impl Default for Pass {
    fn default() -> (r: Self)
        ensures
            r.wf(),
            r@ == PassState::fresh(),
    {
        let r = Pass { served: 0, phase: Phase::Open };
        proof {
            assert forall|other: Source| !r@.served.contains(other) by {
                lemma_bits(0, 1, bit_of(other));
            }
            assert(r@ =~= PassState::fresh());
        }
        r
    }
}

/// What the owner does with a pass.
pub enum PassEvent {
    /// A source takes its turn.
    Turn(Source),
    /// The pass ends.
    End,
}

/// A pass after what its owner did: a source takes a turn only where it may, and a pass ends only where it has begun.
pub open spec fn passed(pass: PassState, event: PassEvent) -> PassState {
    match event {
        PassEvent::Turn(source) => if pass.owed(source) {
            pass.taken(source)
        } else {
            pass
        },
        PassEvent::End => if pass.started(true) {
            pass.ended()
        } else {
            pass
        },
    }
}

/// A pass that a fresh one became.
pub open spec fn reached(events: Seq<PassEvent>) -> PassState
    decreases events.len(),
{
    if events.len() == 0 {
        PassState::fresh()
    } else {
        passed(reached(events.drop_last()), events.last())
    }
}

/// What holds of every pass that can come about: TCP attention is never carried over, and somebody is whenever a pass
/// carries. A pass has begun exactly where some source may not take a turn. Once nobody takes one, at most two ends
/// let every source take a turn again.
pub proof fn law_every_pass_ends(events: Seq<PassEvent>)
    ensures
        ({
            let pass = reached(events);
            &&& pass.sound()
            &&& pass.phase == Phase::Carried ==> !pass.owed(Source::TcpAttention) && exists|source: Source|
                #[trigger] pass.owed(source)
            &&& pass.started(true) <==> exists|source: Source| !#[trigger] pass.owed(source)
            &&& !pass.started(true) <==> pass == PassState::fresh()
            &&& passed(passed(pass, PassEvent::End), PassEvent::End) == PassState::fresh()
        }),
    decreases events.len(),
{
    let pass = reached(events);
    if events.len() > 0 {
        law_every_pass_ends(events.drop_last());
        let before = reached(events.drop_last());
        if pass.phase == Phase::Carried && before.phase == Phase::Open {
            let source = choose|source: Source| !#[trigger] before.owed(source);
            assert(pass.owed(source));
        }
        if let PassEvent::Turn(source) = events.last() {
            if before.owed(source) {
                assert(pass.served.contains(source));
                assert(!pass.owed(source));
            }
        }
    }
    if pass.phase == Phase::Carried {
        assert(!pass.owed(Source::TcpAttention));
    } else if pass.served == Set::<Source>::empty() {
        assert(pass =~= PassState::fresh());
        assert forall|source: Source| #[trigger] pass.owed(source) by {}
    } else {
        let source = choose|source: Source| pass.served.contains(source);
        assert(exists|source: Source| pass.served.contains(source)) by {
            if forall|source: Source| !pass.served.contains(source) {
                assert(pass.served =~= Set::<Source>::empty());
            }
        }
        assert(!pass.owed(source));
    }
}

/// The pass after a list of sources took their turns.
pub open spec fn taken_all(pass: PassState, sources: Seq<Source>) -> PassState
    decreases sources.len(),
{
    if sources.len() == 0 {
        pass
    } else {
        taken_all(pass, sources.drop_last()).taken(sources.last())
    }
}

/// In a fresh pass each source takes one turn: after any turns, exactly those that took none are owed one.
pub proof fn law_one_turn_each(sources: Seq<Source>, source: Source)
    ensures
        taken_all(PassState::fresh(), sources).phase == Phase::Open,
        taken_all(PassState::fresh(), sources).owed(source) == !sources.contains(source),
    decreases sources.len(),
{
    if sources.len() > 0 {
        let before = sources.drop_last();
        law_one_turn_each(before, source);
        if before.contains(source) {
            let i = choose|i: int| 0 <= i < before.len() && before[i] == source;
            assert(sources[i] == source);
        }
        if sources.contains(source) && source != sources.last() {
            let i = choose|i: int| 0 <= i < sources.len() && sources[i] == source;
            assert(before[i] == source);
        }
        if source == sources.last() {
            assert(sources[sources.len() - 1] == source);
        }
    }
}

/// A pass that TCP attention had no turn in gives the sources it served one more turn before attention comes
/// again, and lifts the restriction with the first of them or with its end.
pub proof fn law_carried_cohort(pass: PassState, source: Source)
    requires
        pass.phase == Phase::Open,
        pass.owed(Source::TcpAttention),
    ensures
        pass.ended().owed(source) == pass.served.contains(source),
        !pass.ended().owed(Source::TcpAttention),
        pass.ended().ended() == PassState::fresh(),
        pass.ended().taken(source).phase == Phase::Open,
        pass.ended().taken(source).owed(Source::TcpAttention) == (source != Source::TcpAttention),
{
}

/// A pass in which TCP attention had its turn carries nothing over.
pub proof fn law_attention_clears(pass: PassState)
    requires
        pass.phase == Phase::Open,
        !pass.owed(Source::TcpAttention),
    ensures
        pass.ended() == PassState::fresh(),
{
}

/// While the interface accepts nothing, no pass may end.
pub proof fn law_a_stalled_pass_stays(pass: PassState)
    ensures
        !pass.started(false),
{
}

/// Whether a deadline arm runs: while the interface accepts it takes its turn in the pass, while it does not it
/// runs without one.
pub fn deadline_turn(pass: &mut Pass, source: Source, accepting: bool) -> (r: bool)
    requires
        old(pass).wf(),
    ensures
        final(pass).wf(),
        r == (!accepting || old(pass)@.owed(source)),
        final(pass)@ == (if accepting && old(pass)@.owed(source) {
            old(pass)@.taken(source)
        } else {
            old(pass)@
        }),
{
    if !accepting {
        return true;
    }
    if !pass.owed(source) {
        return false;
    }
    pass.take(source);
    true
}

/// The sources are asked in one order, each at a place of its own, and each has a bit of its own: the one whose number
/// is two to its place.
pub proof fn law_every_source_has_its_own_place(a: Source, b: Source)
    ensures
        0 <= a.place() < 9,
        a.place() == b.place() <==> a == b,
        bit_of(a) == pow2(a.place() as nat),
        Source::TcpAttention.place() < Source::UdpReply.place(),
        Source::UdpReply.place() < Source::EchoReply.place(),
        Source::EchoReply.place() < Source::TcpDnsAsk.place(),
        Source::TcpDnsAsk.place() < Source::MappingDeadline.place(),
        Source::MappingDeadline.place() < Source::EchoDeadline.place(),
        Source::EchoDeadline.place() < Source::FragmentDeadline.place(),
        Source::FragmentDeadline.place() < Source::TcpDeadline.place(),
        Source::TcpDeadline.place() < Source::TunIngress.place(),
{
    vstd::arithmetic::power2::lemma2_to64();
}

/// In a fresh pass every source is owed a turn, and a source that had its turn is owed none until the pass ends.
pub proof fn law_a_turn_is_had_once_a_pass(pass: PassState, source: Source, other: Source)
    ensures
        PassState::fresh().owed(source),
        !pass.taken(source).owed(source),
        pass.taken(source).phase is Open,
        pass.phase is Open && other != source ==> pass.taken(source).owed(other) == pass.owed(other),
        pass.phase is Carried && other != source ==> pass.taken(source).owed(other),
        pass.ended() == PassState::fresh() || pass.ended().phase is Carried,
        pass.ended().phase is Carried <==> pass.phase is Open && !pass.served.contains(Source::TcpAttention),
        pass.started(true) <==> pass.phase is Carried || pass.served != Set::<Source>::empty(),
{
}

/// What expires while packets are taken is delivered, and what expires otherwise is only kept in order.
pub proof fn law_expiry_delivers_while_packets_are_taken(accepting: bool)
    ensures
        accepting ==> <Expiry as vstd::std_specs::convert::FromSpec<bool>>::from_spec(accepting) is Delivering,
        !accepting ==> <Expiry as vstd::std_specs::convert::FromSpec<bool>>::from_spec(accepting) is Maintaining,
{
}

} // verus!
