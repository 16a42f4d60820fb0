//! The queries on the registered ports, 1024 to 49151.

use vstd::prelude::*;
use crate::error::DynaportError;
use crate::query::{
    any_found,
    any_n_found,
    highest_found,
    highest_n_found,
    highest_n_ports,
    highest_port,
    lowest_found,
    lowest_n_found,
    lowest_n_ports,
    lowest_port,
    may_ask_downward,
    may_ask_range,
    may_ask_upward,
    random_n_ports,
    random_port,
};
use crate::range::PortRange;
use crate::scan::{may_ask_while_short, outcome_view};

verus! {

/// A registered port that `probe` calls free, or `None` when it calls none
/// free.
///
/// The port is chosen at random: the probe is asked about the registered
/// ports in a shuffled order, which every call draws anew.
pub fn random_registered_port<F: Fn(usize) -> bool>(probe: F) -> (port: Option<usize>)
    requires
        may_ask_range(&probe, PortRange::Registered),
    ensures
        any_found(&probe, PortRange::Registered, port),
{
    random_port(PortRange::Registered, probe)
}

/// The lowest registered port that `probe` calls free, or `None` when it
/// calls none free.
///
/// The probe is asked about the ports from 1024 up, and about none above the
/// one returned.
pub fn lowest_registered_port<F: Fn(usize) -> bool>(probe: F) -> (port: Option<usize>)
    requires
        may_ask_upward(&probe, PortRange::Registered),
    ensures
        lowest_found(&probe, PortRange::Registered, port),
{
    lowest_port(PortRange::Registered, probe)
}

/// The highest registered port that `probe` calls free, or `None` when it
/// calls none free.
///
/// The probe is asked about the ports from 49151 down, and about none below
/// the one returned.
pub fn highest_registered_port<F: Fn(usize) -> bool>(probe: F) -> (port: Option<usize>)
    requires
        may_ask_downward(&probe, PortRange::Registered),
    ensures
        highest_found(&probe, PortRange::Registered, port),
{
    highest_port(PortRange::Registered, probe)
}

/// The `number_of_ports` lowest registered ports that `probe` calls free,
/// lowest first.
///
/// Returns an error if the probe calls fewer free; the error says how many.
/// The probe is asked about the ports from 1024 up, and about none above the
/// last one returned.
pub fn lowest_n_registered_ports<F: Fn(usize) -> bool>(
    number_of_ports: usize,
    probe: F,
) -> (outcome: Result<Vec<usize>, DynaportError>)
    requires
        may_ask_while_short(&probe, PortRange::Registered.ascending(), number_of_ports),
    ensures
        lowest_n_found(&probe, PortRange::Registered, number_of_ports, outcome_view(outcome)),
{
    lowest_n_ports(PortRange::Registered, number_of_ports, probe)
}

/// The `number_of_ports` highest registered ports that `probe` calls free,
/// highest first.
///
/// Returns an error if the probe calls fewer free; the error says how many.
/// The probe is asked about the ports from 49151 down, and about none below
/// the last one returned.
pub fn highest_n_registered_ports<F: Fn(usize) -> bool>(
    number_of_ports: usize,
    probe: F,
) -> (outcome: Result<Vec<usize>, DynaportError>)
    requires
        may_ask_while_short(&probe, PortRange::Registered.descending(), number_of_ports),
    ensures
        highest_n_found(&probe, PortRange::Registered, number_of_ports, outcome_view(outcome)),
{
    highest_n_ports(PortRange::Registered, number_of_ports, probe)
}

/// `number_of_ports` registered ports that `probe` calls free, chosen at
/// random.
///
/// Returns an error if the probe calls fewer free; the error says how many.
/// The probe is asked about the registered ports in a shuffled order, which
/// every call draws anew.
pub fn random_n_registered_ports<F: Fn(usize) -> bool>(
    number_of_ports: usize,
    probe: F,
) -> (outcome: Result<Vec<usize>, DynaportError>)
    requires
        number_of_ports > 0 ==> may_ask_range(&probe, PortRange::Registered),
    ensures
        any_n_found(&probe, PortRange::Registered, number_of_ports, outcome_view(outcome)),
{
    random_n_ports(PortRange::Registered, number_of_ports, probe)
}

} // verus!
