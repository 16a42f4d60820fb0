//! The queries on the dynamic ports, 49152 to 65535.

use vstd::prelude::*;
use crate::error::DynaportError;
use crate::query::{
    any_found,
    any_n_found,
    highest_found,
    highest_n_found,
    highest_n_ports,
    highest_port,
    lowest_found,
    lowest_n_found,
    lowest_n_ports,
    lowest_port,
    may_ask_downward,
    may_ask_range,
    may_ask_upward,
    random_n_ports,
    random_port,
};
use crate::range::PortRange;
use crate::scan::{may_ask_while_short, outcome_view};

verus! {

/// A dynamic port that `probe` calls free, or `None` when it calls none
/// free.
///
/// The port is chosen at random: the probe is asked about the dynamic
/// ports in a shuffled order, which every call draws anew.
pub fn random_dynamic_port<F: Fn(usize) -> bool>(probe: F) -> (port: Option<usize>)
    requires
        may_ask_range(&probe, PortRange::Dynamic),
    ensures
        any_found(&probe, PortRange::Dynamic, port),
{
    random_port(PortRange::Dynamic, probe)
}

/// The lowest dynamic port that `probe` calls free, or `None` when it
/// calls none free.
///
/// The probe is asked about the ports from 49152 up, and about none above the
/// one returned.
pub fn lowest_dynamic_port<F: Fn(usize) -> bool>(probe: F) -> (port: Option<usize>)
    requires
        may_ask_upward(&probe, PortRange::Dynamic),
    ensures
        lowest_found(&probe, PortRange::Dynamic, port),
{
    lowest_port(PortRange::Dynamic, probe)
}

/// The highest dynamic port that `probe` calls free, or `None` when it
/// calls none free.
///
/// The probe is asked about the ports from 65535 down, and about none below
/// the one returned.
pub fn highest_dynamic_port<F: Fn(usize) -> bool>(probe: F) -> (port: Option<usize>)
    requires
        may_ask_downward(&probe, PortRange::Dynamic),
    ensures
        highest_found(&probe, PortRange::Dynamic, port),
{
    highest_port(PortRange::Dynamic, probe)
}

/// The `number_of_ports` lowest dynamic ports that `probe` calls free,
/// lowest first.
///
/// Returns an error if the probe calls fewer free; the error says how many.
/// The probe is asked about the ports from 49152 up, and about none above the
/// last one returned.
pub fn lowest_n_dynamic_ports<F: Fn(usize) -> bool>(
    number_of_ports: usize,
    probe: F,
) -> (outcome: Result<Vec<usize>, DynaportError>)
    requires
        may_ask_while_short(&probe, PortRange::Dynamic.ascending(), number_of_ports),
    ensures
        lowest_n_found(&probe, PortRange::Dynamic, number_of_ports, outcome_view(outcome)),
{
    lowest_n_ports(PortRange::Dynamic, number_of_ports, probe)
}

/// The `number_of_ports` highest dynamic ports that `probe` calls free,
/// highest first.
///
/// Returns an error if the probe calls fewer free; the error says how many.
/// The probe is asked about the ports from 65535 down, and about none below
/// the last one returned.
pub fn highest_n_dynamic_ports<F: Fn(usize) -> bool>(
    number_of_ports: usize,
    probe: F,
) -> (outcome: Result<Vec<usize>, DynaportError>)
    requires
        may_ask_while_short(&probe, PortRange::Dynamic.descending(), number_of_ports),
    ensures
        highest_n_found(&probe, PortRange::Dynamic, number_of_ports, outcome_view(outcome)),
{
    highest_n_ports(PortRange::Dynamic, number_of_ports, probe)
}

/// `number_of_ports` dynamic ports that `probe` calls free, chosen at
/// random.
///
/// Returns an error if the probe calls fewer free; the error says how many.
/// The probe is asked about the dynamic ports in a shuffled order, which
/// every call draws anew.
pub fn random_n_dynamic_ports<F: Fn(usize) -> bool>(
    number_of_ports: usize,
    probe: F,
) -> (outcome: Result<Vec<usize>, DynaportError>)
    requires
        number_of_ports > 0 ==> may_ask_range(&probe, PortRange::Dynamic),
    ensures
        any_n_found(&probe, PortRange::Dynamic, number_of_ports, outcome_view(outcome)),
{
    random_n_ports(PortRange::Dynamic, number_of_ports, probe)
}

} // verus!
