//! Holding the descriptor that the app hands over to what it declared, one question after the other.
use vstd::prelude::*;

use crate::handoff::{
    declared_mtu, descriptors, interface_address, interface_mtu, interface_name, name_length, nonblocking, other_tun,
    refuses, tun,
};
use crate::octets::be32;
use crate::protocol::{contextual, plain_error, ErrorKind, IoError, IoResultReportExt, Site};
use crate::text::{decimal, hexadecimal, lossy_text};

verus! {

/// What is asked next.
#[derive(Clone, Copy, Debug, PartialEq, Eq, Structural)]
pub enum Stage {
    /// How many descriptors came.
    Descriptors,
    /// The descriptor's flags.
    Flags,
    /// The name and the flags of the tun.
    Tun,
    /// The limit of the tun.
    Mtu,
    /// The address of the tun.
    Address,
    /// Nothing: it was verified or refused.
    Over,
}

/// What the answer was.
#[derive(Debug)]
pub enum Event {
    Descriptors(usize),
    Flags(Result<i32, IoError>),
    Tun(Result<([u8; 16], i16), IoError>),
    Mtu(Result<i32, IoError>),
    /// The family of the address, and the address.
    Address(Result<(u16, [u8; 4]), IoError>),
}

/// What comes of it.
#[derive(Debug)]
pub enum Step {
    Ask(Stage),
    /// The descriptor is the tun that was declared, with this address.
    Verified(u32),
    Refused(IoError),
}

/// How far a descriptor was held to what was declared.
pub struct CheckState {
    pub expected: Seq<char>,
    pub mtu: u32,
    /// The tun's name, once it is known.
    pub name: Seq<char>,
    pub stage: Stage,
}

/// Whether an answer is one to what is asked.
pub open spec fn expected(stage: Stage, event: Event) -> bool {
    match stage {
        Stage::Descriptors => event is Descriptors,
        Stage::Flags => event is Flags,
        Stage::Tun => event is Tun,
        Stage::Mtu => event is Mtu,
        Stage::Address => event is Address,
        Stage::Over => false,
    }
}

/// Whether a check goes on to the next question.
pub open spec fn asks(before: CheckState, next: Stage, after: CheckState, step: Step) -> bool {
    after == (CheckState { stage: next, ..before }) && step == Step::Ask(next)
}

/// Whether a descriptor is refused.
pub open spec fn ends(before: CheckState, after: CheckState) -> bool {
    after == (CheckState { stage: Stage::Over, ..before })
}

/// Whether a question that could not be answered refuses the descriptor.
pub open spec fn failed(
    before: CheckState,
    error: IoError,
    context: Seq<char>,
    site: Site,
    after: CheckState,
    step: Step,
) -> bool {
    ends(before, after) && (step matches Step::Refused(told) && contextual(
        error@,
        told@,
        context,
        site,
        Seq::empty(),
    ))
}

/// Whether a descriptor is refused for what it is.
pub open spec fn refuses_for(
    before: CheckState,
    message: Seq<char>,
    site: Site,
    after: CheckState,
    step: Step,
) -> bool {
    ends(before, after) && (step matches Step::Refused(told) && refuses(told@, message, site))
}

/// Whether an answer was dealt with.
pub open spec fn checked(before: CheckState, event: Event, site: Site, after: CheckState, step: Step) -> bool {
    match event {
        Event::Descriptors(count) => if count == 1 {
            asks(before, Stage::Flags, after, step)
        } else {
            ends(before, after) && (step matches Step::Refused(told) && contextual(
                plain_error(
                    ErrorKind::InvalidData,
                    if count == 0 {
                        "no descriptor was transferred"@
                    } else {
                        decimal(count as nat) + " descriptors were transferred"@
                    },
                ),
                told@,
                "shizuku.handoff.descriptors"@,
                site,
                Seq::empty(),
            ))
        },
        Event::Flags(Err(error)) => failed(before, error, "shizuku.handoff.descriptor_flags"@, site, after, step),
        Event::Flags(Ok(flags)) => if flags & 0x800 != 0 {
            asks(before, Stage::Tun, after, step)
        } else {
            refuses_for(before, "transferred descriptor is blocking"@, site, after, step)
        },
        Event::Tun(Err(error)) => failed(before, error, "shizuku.handoff.tungetiff"@, site, after, step),
        Event::Tun(Ok((field, flags))) => {
            let name = lossy_text(field@.subrange(0, name_length(field@, 0)));
            let named = CheckState { name, ..before };
            if name != before.expected {
                refuses_for(named, other_tun(name, before.expected), site, after, step)
            } else if flags & 0x1001 != 0x1001 {
                refuses_for(
                    named,
                    "transferred TUN has flags 0x"@ + hexadecimal(flags as u16 as nat),
                    site,
                    after,
                    step,
                )
            } else {
                asks(named, Stage::Mtu, after, step)
            }
        },
        Event::Mtu(Err(error)) => failed(before, error, "shizuku.handoff.interface_mtu"@, site, after, step),
        Event::Mtu(Ok(mtu)) => if mtu < 0 {
            ends(before, after) && (step matches Step::Refused(told) && contextual(
                plain_error(
                    ErrorKind::InvalidData,
                    "negative MTU: out of range integral type conversion attempted"@,
                ),
                told@,
                "shizuku.handoff.interface_mtu"@,
                site,
                Seq::empty(),
            ))
        } else if mtu != before.mtu {
            refuses_for(
                before,
                before.name + " has MTU "@ + decimal(mtu as nat) + " but "@ + decimal(before.mtu as nat)
                    + " was declared"@,
                site,
                after,
                step,
            )
        } else {
            asks(before, Stage::Address, after, step)
        },
        Event::Address(Err(error)) => failed(
            before,
            error,
            "shizuku.handoff.interface_address"@,
            site,
            after,
            step,
        ),
        Event::Address(Ok((family, address))) => ends(before, after) && if family == 2 {
            step == Step::Verified(be32(address@, 0) as u32)
        } else {
            step matches Step::Refused(told) && contextual(
                plain_error(
                    ErrorKind::InvalidData,
                    "interface address is family "@ + decimal(family as nat),
                ),
                told@,
                "shizuku.handoff.interface_address"@,
                site,
                Seq::empty(),
            )
        },
    }
}

/// Holding a descriptor to what was declared.
pub struct TunCheck {
    expected: String,
    mtu: u32,
    name: String,
    stage: Stage,
}

impl View for TunCheck {
    type V = CheckState;

    closed spec fn view(&self) -> CheckState {
        CheckState { expected: self.expected@, mtu: self.mtu, name: self.name@, stage: self.stage }
    }
}

impl TunCheck {
    /// Nothing was asked yet. The name and the limit are those that were declared.
    pub fn new(expected: &str, mtu: u32) -> (r: Self)
        ensures
            r@.expected == expected@,
            r@.mtu == mtu,
            r@.stage is Descriptors,
    {
        TunCheck { expected: expected.to_owned(), mtu, name: "".to_owned(), stage: Stage::Descriptors }
    }

    /// What is asked next.
    pub fn stage(&self) -> (r: Stage)
        ensures
            r == self@.stage,
    {
        self.stage
    }

    fn refuse(&mut self, error: IoError) -> (r: Step)
        ensures
            ends(old(self)@, final(self)@),
            r == Step::Refused(error),
    {
        self.stage = Stage::Over;
        Step::Refused(error)
    }

    fn ask(&mut self, next: Stage) -> (r: Step)
        ensures
            asks(old(self)@, next, final(self)@, r),
    {
        self.stage = next;
        Step::Ask(next)
    }

    /// Takes an answer.
    pub fn advance(&mut self, event: Event, site: &Site) -> (r: Step)
        requires
            expected(old(self)@.stage, event),
        ensures
            checked(old(self)@, event, *site, final(self)@, r),
    {
        match event {
            Event::Descriptors(count) => match descriptors(count, site) {
                Ok(_) => self.ask(Stage::Flags),
                Err(error) => self.refuse(error),
            },
            Event::Flags(flags) => {
                let flags: i32 = match flags.with_report_context("shizuku.handoff.descriptor_flags", site) {
                    Ok(flags) => flags,
                    Err(error) => return self.refuse(error),
                };
                match nonblocking(flags, site) {
                    Ok(_) => self.ask(Stage::Tun),
                    Err(error) => self.refuse(error),
                }
            },
            Event::Tun(answer) => {
                let (field, flags) = match answer.with_report_context("shizuku.handoff.tungetiff", site) {
                    Ok(answer) => answer,
                    Err(error) => return self.refuse(error),
                };
                self.name = interface_name(&field);
                match tun(&self.name, flags, self.expected.as_str(), site) {
                    Ok(_) => self.ask(Stage::Mtu),
                    Err(error) => self.refuse(error),
                }
            },
            Event::Mtu(answer) => {
                let mtu: i32 = match answer.with_report_context("shizuku.handoff.interface_mtu", site) {
                    Ok(mtu) => mtu,
                    Err(error) => return self.refuse(error),
                };
                let interface: u32 = match interface_mtu(mtu, site) {
                    Ok(interface) => interface,
                    Err(error) => return self.refuse(error),
                };
                match declared_mtu(&self.name, interface, self.mtu, site) {
                    Ok(_) => self.ask(Stage::Address),
                    Err(error) => self.refuse(error),
                }
            },
            Event::Address(answer) => {
                let (family, address) = match answer.with_report_context("shizuku.handoff.interface_address", site) {
                    Ok(answer) => answer,
                    Err(error) => return self.refuse(error),
                };
                match interface_address(family, &address, site) {
                    Ok(address) => {
                        self.stage = Stage::Over;
                        Step::Verified(address)
                    },
                    Err(error) => self.refuse(error),
                }
            },
        }
    }
}

/// Whether these are the answers to one check, what came of each, and how far it had come before each and after the
/// last.
pub open spec fn checks(
    states: Seq<CheckState>,
    events: Seq<Event>,
    sites: Seq<Site>,
    steps: Seq<Step>,
) -> bool {
    &&& states.len() == events.len() + 1
    &&& sites.len() == events.len()
    &&& steps.len() == events.len()
    &&& states[0].stage is Descriptors
    &&& forall|i: int|
        0 <= i < events.len() ==> expected(states[i].stage, events[i]) && checked(
            states[i],
            events[i],
            sites[i],
            states[i + 1],
            #[trigger] steps[i],
        )
}

/// How many answers a check has had when a question is asked.
pub open spec fn answers_before(stage: Stage) -> int {
    match stage {
        Stage::Descriptors => 0,
        Stage::Flags => 1,
        Stage::Tun => 2,
        Stage::Mtu => 3,
        Stage::Address => 4,
        Stage::Over => -1,
    }
}

proof fn lemma_in_order(
    states: Seq<CheckState>,
    events: Seq<Event>,
    sites: Seq<Site>,
    steps: Seq<Step>,
    i: int,
)
    requires
        checks(states, events, sites, steps),
        0 <= i < states.len(),
    ensures
        states[i].stage is Over || answers_before(states[i].stage) == i,
        states[i].expected == states[0].expected,
        states[i].mtu == states[0].mtu,
    decreases i,
{
    if i > 0 {
        lemma_in_order(states, events, sites, steps, i - 1);
        assert(checked(states[i - 1], events[i - 1], sites[i - 1], states[i], steps[i - 1]));
    }
}

/// A descriptor is taken only where it came alone, does not block, is a tun of the declared name without headers before
/// its packets and with the declared limit, and has an IPv4 address, which is then the one that is told.
pub proof fn law_only_the_declared_tun_is_taken(
    states: Seq<CheckState>,
    events: Seq<Event>,
    sites: Seq<Site>,
    steps: Seq<Step>,
    i: int,
)
    requires
        checks(states, events, sites, steps),
        0 <= i < steps.len(),
        steps[i] is Verified,
    ensures
        i == 4,
        events[0] == Event::Descriptors(1),
        events[1] matches Event::Flags(Ok(flags)) && flags & 0x800 != 0,
        events[2] matches Event::Tun(Ok((field, flags))) && lossy_text(field@.subrange(0, name_length(field@, 0)))
            == states[0].expected && flags & 0x1001 == 0x1001,
        events[3] matches Event::Mtu(Ok(mtu)) && mtu == states[0].mtu,
        events[4] matches Event::Address(Ok((family, address))) && family == 2 && steps[4] == Step::Verified(
            be32(address@, 0) as u32,
        ),
{
    lemma_in_order(states, events, sites, steps, i);
    assert(checked(states[i], events[i], sites[i], states[i + 1], steps[i]));
    lemma_in_order(states, events, sites, steps, 3);
    assert(checked(states[3], events[3], sites[3], states[4], steps[3]));
    lemma_in_order(states, events, sites, steps, 2);
    assert(checked(states[2], events[2], sites[2], states[3], steps[2]));
    lemma_in_order(states, events, sites, steps, 1);
    assert(checked(states[1], events[1], sites[1], states[2], steps[1]));
    assert(checked(states[0], events[0], sites[0], states[1], steps[0]));
}

/// What speaks for a tun leads on, step by step: one descriptor, that does not block, of the tun that was expected and
/// with its flags, with the declared MTU. Its IPv4 address is what is found of it.
pub proof fn law_what_speaks_for_a_tun_leads_on(
    before: CheckState,
    event: Event,
    site: Site,
    after: CheckState,
    step: Step,
)
    requires
        checked(before, event, site, after, step),
    ensures
        after.expected == before.expected,
        after.mtu == before.mtu,
        event == Event::Descriptors(1) ==> step == Step::Ask(Stage::Flags) && after.stage is Flags,
        event is Flags && event->Flags_0 is Ok && event->Flags_0->Ok_0 & 0x800 != 0 ==> step == Step::Ask(Stage::Tun)
            && after.stage is Tun,
        event is Tun && event->Tun_0 is Ok && ({
            let (field, flags) = event->Tun_0->Ok_0;
            lossy_text(field@.subrange(0, name_length(field@, 0))) == before.expected && flags & 0x1001 == 0x1001
        }) ==> step == Step::Ask(Stage::Mtu) && after.stage is Mtu && after.name == before.expected,
        event is Mtu && event->Mtu_0 is Ok && event->Mtu_0->Ok_0 == before.mtu ==> step == Step::Ask(Stage::Address)
            && after.stage is Address,
        event is Address && event->Address_0 is Ok && (event->Address_0->Ok_0).0 == 2 ==> step == Step::Verified(
            be32((event->Address_0->Ok_0).1@, 0) as u32,
        ) && after.stage is Over,
{
}

/// What speaks against a tun ends its check: it is refused, and nothing more is asked.
pub proof fn law_what_speaks_against_a_tun_ends_its_check(
    before: CheckState,
    event: Event,
    site: Site,
    after: CheckState,
    step: Step,
)
    requires
        checked(before, event, site, after, step),
        ({
            ||| event is Descriptors && event->Descriptors_0 != 1
            ||| event is Flags && (event->Flags_0 is Err || event->Flags_0->Ok_0 & 0x800 == 0)
            ||| event is Tun && (event->Tun_0 is Err || ({
                let (field, flags) = event->Tun_0->Ok_0;
                lossy_text(field@.subrange(0, name_length(field@, 0))) != before.expected || flags & 0x1001 != 0x1001
            }))
            ||| event is Mtu && (event->Mtu_0 is Err || event->Mtu_0->Ok_0 != before.mtu)
            ||| event is Address && (event->Address_0 is Err || (event->Address_0->Ok_0).0 != 2)
        }),
    ensures
        step is Refused,
        after.stage is Over,
{
}

/// A stage of the check waits for its own answer, and for none once the check is over.
pub proof fn law_a_check_waits_for_its_own_answer(stage: Stage, event: Event)
    ensures
        expected(stage, event) ==> {
            &&& event is Descriptors <==> stage is Descriptors
            &&& event is Flags <==> stage is Flags
            &&& event is Tun <==> stage is Tun
            &&& event is Mtu <==> stage is Mtu
            &&& event is Address <==> stage is Address
        },
        stage is Over ==> !expected(stage, event),
{
}

} // verus!
