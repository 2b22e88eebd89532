use vpnhotspotd::session_config::{check, Invalid, ShizukuSessionConfig};

fn base() -> ShizukuSessionConfig {
    ShizukuSessionConfig {
        upstream_generation: 1,
        admitting: false,
        upstream_network: Some(0x1234),
        upstream_interface_index: Some(7),
        virtual_addresses: vec![vec![192, 0, 2, 5]],
        gateway_addresses: vec![vec![192, 0, 2, 1]],
    }
}

#[test]
fn the_first_config_needs_a_nonzero_generation() {
    assert_eq!(Ok(()), check(None, &base()));
}

#[test]
fn a_zero_generation_is_an_unset_field_rather_than_a_value() {
    let config = ShizukuSessionConfig { upstream_generation: 0, ..base() };
    assert_eq!(Err(Invalid::Unset("upstream_generation")), check(None, &config));
    assert_eq!(Err(Invalid::Unset("upstream_generation")), check(Some(&base()), &config));
}

#[test]
fn an_admit_only_update_is_accepted_with_an_unchanged_generation() {
    let previous = base();
    let next = ShizukuSessionConfig { admitting: true, ..base() };
    assert_eq!(Ok(()), check(Some(&previous), &next));
    let closing = ShizukuSessionConfig { admitting: false, ..base() };
    assert_eq!(Ok(()), check(Some(&next), &closing));
    let reopened = ShizukuSessionConfig { admitting: true, ..base() };
    assert_eq!(Ok(()), check(Some(&closing), &reopened));
}

#[test]
fn the_generation_may_not_move_backwards() {
    let previous = ShizukuSessionConfig { upstream_generation: 4, ..base() };
    assert_eq!(
        Err(Invalid::NotAdvanced { field: "upstream_generation", previous: 4, next: 3 }),
        check(Some(&previous), &ShizukuSessionConfig { upstream_generation: 3, ..base() })
    );
}

#[test]
fn the_upstream_may_not_move_without_the_generation() {
    let previous = base();
    for mutate in [
        (|c: &mut ShizukuSessionConfig| c.upstream_network = Some(0x5678)) as fn(&mut _),
        |c: &mut ShizukuSessionConfig| c.upstream_network = None,
        |c: &mut ShizukuSessionConfig| c.upstream_interface_index = Some(9),
        |c: &mut ShizukuSessionConfig| c.upstream_interface_index = None,
    ] {
        let mut next = base();
        mutate(&mut next);
        assert_eq!(Err(Invalid::Unretired("upstream_network")), check(Some(&previous), &next));
        next.upstream_generation = 2;
        assert_eq!(Ok(()), check(Some(&previous), &next));
    }
}

#[test]
fn the_address_sets_may_not_change_at_all() {
    let previous = base();
    for (field, mutate) in [
        (
            "virtual_addresses",
            (|c: &mut ShizukuSessionConfig| c.virtual_addresses = vec![vec![192, 0, 2, 6]])
                as fn(&mut _),
        ),
        ("gateway_addresses", |c: &mut ShizukuSessionConfig| c.gateway_addresses.clear()),
    ] {
        let mut next = ShizukuSessionConfig { upstream_generation: 9, ..base() };
        mutate(&mut next);
        assert_eq!(Err(Invalid::Unretired(field)), check(Some(&previous), &next), "{field}");
    }
}
