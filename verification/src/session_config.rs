//! Which session configuration may follow which.
use vstd::prelude::*;

use crate::text::{decimal, push_field};

verus! {

/// One configuration of a session's upstream.
#[derive(Clone, Debug, PartialEq, Eq)]
pub struct ShizukuSessionConfig {
    pub upstream_generation: u64,
    pub admitting: bool,
    pub upstream_network: Option<u64>,
    pub upstream_interface_index: Option<u32>,
    pub virtual_addresses: Vec<Vec<u8>>,
    pub gateway_addresses: Vec<Vec<u8>>,
}

/// What a configuration says.
#[verifier::ext_equal]
pub struct ConfigState {
    pub upstream_generation: u64,
    pub admitting: bool,
    pub upstream_network: Option<u64>,
    pub upstream_interface_index: Option<u32>,
    pub virtual_addresses: Seq<Seq<u8>>,
    pub gateway_addresses: Seq<Seq<u8>>,
}

/// The octets of every address of a list.
pub open spec fn address_views(addresses: Seq<Vec<u8>>) -> Seq<Seq<u8>> {
    Seq::new(addresses.len(), |i: int| addresses[i]@)
}

impl View for ShizukuSessionConfig {
    type V = ConfigState;

    open spec fn view(&self) -> ConfigState {
        ConfigState {
            upstream_generation: self.upstream_generation,
            admitting: self.admitting,
            upstream_network: self.upstream_network,
            upstream_interface_index: self.upstream_interface_index,
            virtual_addresses: address_views(self.virtual_addresses@),
            gateway_addresses: address_views(self.gateway_addresses@),
        }
    }
}

/// Why a configuration is refused.
#[derive(Clone, Debug, PartialEq, Eq)]
pub enum Invalid {
    Unset(&'static str),
    NotAdvanced { field: &'static str, previous: u64, next: u64 },
    Unretired(&'static str),
}

impl Invalid {
    /// What a refusal says.
    pub open spec fn text(self) -> Seq<char> {
        match self {
            Invalid::Unset(field) => "Unset(\""@ + field@ + "\")"@,
            Invalid::NotAdvanced { field, previous, next } => "NotAdvanced { field: \""@ + field@
                + "\", previous: "@ + decimal(previous as nat) + ", next: "@ + decimal(next as nat) + " }"@,
            Invalid::Unretired(field) => "Unretired(\""@ + field@ + "\")"@,
        }
    }

    /// Says why.
    pub fn describe(&self) -> (r: String)
        ensures
            r@ == self.text(),
    {
        match self {
            Invalid::Unset(field) => {
                let mut out = "Unset(\"".to_owned();
                out.append(field);
                out.append("\")");
                out
            },
            Invalid::NotAdvanced { field, previous, next } => {
                let mut out = "NotAdvanced { field: \"".to_owned();
                out.append(field);
                push_field(&mut out, "\", previous: ", *previous);
                push_field(&mut out, ", next: ", *next);
                out.append(" }");
                out
            },
            Invalid::Unretired(field) => {
                let mut out = "Unretired(\"".to_owned();
                out.append(field);
                out.append("\")");
                out
            },
        }
    }
}

/// Why `next` may not follow `previous`, if it may not.
pub open spec fn refusal(previous: Option<ConfigState>, next: ConfigState) -> Option<Invalid> {
    if next.upstream_generation == 0 {
        Some(Invalid::Unset("upstream_generation"))
    } else {
        match previous {
            None => None,
            Some(previous) => if next.upstream_generation < previous.upstream_generation {
                Some(
                    Invalid::NotAdvanced {
                        field: "upstream_generation",
                        previous: previous.upstream_generation,
                        next: next.upstream_generation,
                    },
                )
            } else if next.upstream_generation == previous.upstream_generation && (
            previous.upstream_network != next.upstream_network || previous.upstream_interface_index
                != next.upstream_interface_index) {
                Some(Invalid::Unretired("upstream_network"))
            } else if previous.virtual_addresses != next.virtual_addresses {
                Some(Invalid::Unretired("virtual_addresses"))
            } else if previous.gateway_addresses != next.gateway_addresses {
                Some(Invalid::Unretired("gateway_addresses"))
            } else {
                None
            },
        }
    }
}

/// What is known of an optional configuration.
pub open spec fn known(config: Option<&ShizukuSessionConfig>) -> Option<ConfigState> {
    match config {
        Some(config) => Some(config@),
        None => None,
    }
}

fn same_bytes(a: &Vec<u8>, b: &Vec<u8>) -> (r: bool)
    ensures
        r == (a@ == b@),
{
    if a.len() != b.len() {
        return false;
    }
    let mut i: usize = 0;
    while i < a.len()
        invariant
            i <= a@.len(),
            a@.len() == b@.len(),
            forall|j: int| 0 <= j < i ==> a@[j] == b@[j],
        decreases a@.len() - i,
    {
        if a[i] != b[i] {
            assert(a@[i as int] != b@[i as int]);
            return false;
        }
        i += 1;
    }
    assert(a@ =~= b@);
    true
}

fn same_addresses(a: &Vec<Vec<u8>>, b: &Vec<Vec<u8>>) -> (r: bool)
    ensures
        r == (address_views(a@) == address_views(b@)),
{
    let ghost x = address_views(a@);
    let ghost y = address_views(b@);
    if a.len() != b.len() {
        assert(x.len() != y.len());
        return false;
    }
    let mut i: usize = 0;
    while i < a.len()
        invariant
            i <= a@.len(),
            a@.len() == b@.len(),
            x == address_views(a@),
            y == address_views(b@),
            forall|j: int| 0 <= j < i ==> x[j] == y[j],
        decreases a@.len() - i,
    {
        if !same_bytes(&a[i], &b[i]) {
            assert(x[i as int] != y[i as int]);
            return false;
        }
        i += 1;
    }
    assert(x =~= y);
    true
}

fn same_network(a: Option<u64>, b: Option<u64>) -> (r: bool)
    ensures
        r == (a == b),
{
    match (a, b) {
        (Some(x), Some(y)) => x == y,
        (None, None) => true,
        _ => false,
    }
}

fn same_index(a: Option<u32>, b: Option<u32>) -> (r: bool)
    ensures
        r == (a == b),
{
    match (a, b) {
        (Some(x), Some(y)) => x == y,
        (None, None) => true,
        _ => false,
    }
}

/// Checks that a configuration may follow the one before it: its generation is set and does not move back, the
/// upstream moves only with it, and the address sets never change.
pub fn check(previous: Option<&ShizukuSessionConfig>, next: &ShizukuSessionConfig) -> (r: Result<
    (),
    Invalid,
>)
    ensures
        r == (match refusal(known(previous), next@) {
            Some(invalid) => Err::<(), Invalid>(invalid),
            None => Ok(()),
        }),
{
    if next.upstream_generation == 0 {
        return Err(Invalid::Unset("upstream_generation"));
    }
    let previous = match previous {
        Some(previous) => previous,
        None => return Ok(()),
    };
    if next.upstream_generation < previous.upstream_generation {
        return Err(
            Invalid::NotAdvanced {
                field: "upstream_generation",
                previous: previous.upstream_generation,
                next: next.upstream_generation,
            },
        );
    }
    if next.upstream_generation == previous.upstream_generation && (!same_network(
        previous.upstream_network,
        next.upstream_network,
    ) || !same_index(previous.upstream_interface_index, next.upstream_interface_index)) {
        return Err(Invalid::Unretired("upstream_network"));
    }
    if !same_addresses(&previous.virtual_addresses, &next.virtual_addresses) {
        return Err(Invalid::Unretired("virtual_addresses"));
    }
    if !same_addresses(&previous.gateway_addresses, &next.gateway_addresses) {
        return Err(Invalid::Unretired("gateway_addresses"));
    }
    Ok(())
}

/// Admission alone decides nothing: a configuration is refused or not whatever it admits.
pub proof fn law_admission_is_free(previous: Option<ConfigState>, next: ConfigState, admitting: bool)
    ensures
        refusal(previous, ConfigState { admitting, ..next }) == refusal(previous, next),
{
}

/// A configuration that was accepted may be repeated.
pub proof fn law_a_config_may_be_repeated(previous: Option<ConfigState>, config: ConfigState)
    requires
        refusal(previous, config) is None,
    ensures
        refusal(Some(config), config) is None,
{
}

/// Along accepted configurations the generation never moves back and the addresses never change, and what may
/// follow the last of them could have followed the first.
pub proof fn law_succession(a: ConfigState, b: ConfigState, c: ConfigState)
    requires
        a.upstream_generation != 0,
        refusal(Some(a), b) is None,
        refusal(Some(b), c) is None,
    ensures
        a.upstream_generation <= c.upstream_generation,
        a.virtual_addresses == c.virtual_addresses,
        a.gateway_addresses == c.gateway_addresses,
        refusal(Some(a), c) is None,
{
}

/// A configuration may follow another exactly where its generation is set and does not fall, where no generation has
/// two upstreams, and where the addresses stay. The first need only have a generation.
pub proof fn law_which_configuration_may_follow(previous: ConfigState, next: ConfigState)
    ensures
        refusal(None, next) is None <==> next.upstream_generation != 0,
        refusal(Some(previous), next) is None <==> {
            &&& next.upstream_generation != 0
            &&& next.upstream_generation >= previous.upstream_generation
            &&& next.upstream_generation == previous.upstream_generation ==> next.upstream_network
                == previous.upstream_network && next.upstream_interface_index == previous.upstream_interface_index
            &&& next.virtual_addresses == previous.virtual_addresses
            &&& next.gateway_addresses == previous.gateway_addresses
        },
        next.upstream_generation == 0 ==> refusal(Some(previous), next) == Some(
            Invalid::Unset("upstream_generation"),
        ),
        0 < next.upstream_generation < previous.upstream_generation ==> refusal(Some(previous), next) == Some(
            Invalid::NotAdvanced {
                field: "upstream_generation",
                previous: previous.upstream_generation,
                next: next.upstream_generation,
            },
        ),
{
}

/// A configuration is seen as it is, field by field and address by address.
pub proof fn law_a_configuration_is_seen_as_it_is(config: ShizukuSessionConfig, i: int)
    ensures
        config@.upstream_generation == config.upstream_generation,
        config@.admitting == config.admitting,
        config@.upstream_network == config.upstream_network,
        config@.upstream_interface_index == config.upstream_interface_index,
        config@.virtual_addresses.len() == config.virtual_addresses@.len(),
        0 <= i < config.virtual_addresses@.len() ==> config@.virtual_addresses[i] == config.virtual_addresses@[i]@,
        config@.gateway_addresses.len() == config.gateway_addresses@.len(),
        0 <= i < config.gateway_addresses@.len() ==> config@.gateway_addresses[i] == config.gateway_addresses@[i]@,
{
}

/// Why a configuration was refused is told with the field that was at fault, and with both numbers where it fell.
pub proof fn law_why_a_configuration_was_refused_is_told(field: &'static str, previous: u64, next: u64)
    ensures
        Invalid::Unset(field).text() == "Unset(\""@ + field@ + "\")"@,
        Invalid::Unretired(field).text() == "Unretired(\""@ + field@ + "\")"@,
        (Invalid::NotAdvanced { field, previous, next }).text() == "NotAdvanced { field: \""@ + field@
            + "\", previous: "@ + decimal(previous as nat) + ", next: "@ + decimal(next as nat) + " }"@,
{
}

} // verus!
