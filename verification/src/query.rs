//! The queries on a range: one free port, or the first few, under one of
//! three policies: lowest first, highest first, or in a random order.
//!
//! Each query has a predicate that says what it may return, stated against
//! the answers that the probe may give. The queries for several ports are
//! walks in the sense of [`crate::scan`]; the predicates of the queries for
//! one port say the same without an order.

use vstd::prelude::*;
use vstd::seq_lib::to_multiset_len;
use crate::error::DynaportError;
use crate::range::PortRange;
use crate::scan::{
    answered,
    decided_by,
    first_available,
    first_n_available,
    first_n_of,
    hits_positions,
    in_use_before,
    may_ask_while_short,
    outcome_view,
    walk_ends,
    walk_gives,
};
use crate::shuffle::shuffle;

verus! {

/// Whether `probe` may be asked about every port of `range`.
pub open spec fn may_ask_range<F: Fn(usize) -> bool>(probe: &F, range: PortRange) -> bool {
    forall|port: usize| range.holds(port as int) ==> #[trigger] probe.requires((port,))
}

/// Whether the probe may call every port of `range` below `port` in use.
pub open spec fn in_use_below<F: Fn(usize) -> bool>(
    probe: &F,
    range: PortRange,
    port: usize,
) -> bool {
    forall|below: usize|
        range.first() <= below < port ==> #[trigger] probe.ensures((below,), false)
}

/// Whether the probe may call every port of `range` above `port` in use.
pub open spec fn in_use_above<F: Fn(usize) -> bool>(
    probe: &F,
    range: PortRange,
    port: usize,
) -> bool {
    forall|above: usize|
        port < above <= range.last() ==> #[trigger] probe.ensures((above,), false)
}

/// Whether `probe` may be asked about every port that a walk from the lowest
/// port of `range` up comes to: each port of the range such that the probe
/// may call all lower ports of the range in use.
pub open spec fn may_ask_upward<F: Fn(usize) -> bool>(probe: &F, range: PortRange) -> bool {
    forall|port: usize|
        range.holds(port as int) && in_use_below(probe, range, port) ==> #[trigger] probe.requires(
            (port,),
        )
}

/// Whether `probe` may be asked about every port that a walk from the
/// highest port of `range` down comes to: each port of the range such that
/// the probe may call all higher ports of the range in use.
pub open spec fn may_ask_downward<F: Fn(usize) -> bool>(probe: &F, range: PortRange) -> bool {
    forall|port: usize|
        range.holds(port as int) && in_use_above(probe, range, port) ==> #[trigger] probe.requires(
            (port,),
        )
}

/// Whether the probe may call every port of `range` in use.
pub open spec fn none_free<F: Fn(usize) -> bool>(probe: &F, range: PortRange) -> bool {
    forall|port: usize| range.holds(port as int) ==> #[trigger] probe.ensures((port,), false)
}

/// What a query for the lowest free port may return: a port of the range
/// that the probe calls free while it calls every lower port of the range in
/// use, or nothing once it has called the whole range in use.
pub open spec fn lowest_found<F: Fn(usize) -> bool>(
    probe: &F,
    range: PortRange,
    port: Option<usize>,
) -> bool {
    match port {
        Some(port) => {
            &&& range.holds(port as int)
            &&& probe.ensures((port,), true)
            &&& in_use_below(probe, range, port)
        },
        None => none_free(probe, range),
    }
}

/// What a query for the highest free port may return: a port of the range
/// that the probe calls free while it calls every higher port of the range
/// in use, or nothing once it has called the whole range in use.
pub open spec fn highest_found<F: Fn(usize) -> bool>(
    probe: &F,
    range: PortRange,
    port: Option<usize>,
) -> bool {
    match port {
        Some(port) => {
            &&& range.holds(port as int)
            &&& probe.ensures((port,), true)
            &&& in_use_above(probe, range, port)
        },
        None => none_free(probe, range),
    }
}

/// What a query for a free port chosen at random may return: a port of the
/// range that the probe calls free, or nothing once it has called the whole
/// range in use.
pub open spec fn any_found<F: Fn(usize) -> bool>(
    probe: &F,
    range: PortRange,
    port: Option<usize>,
) -> bool {
    match port {
        Some(port) => range.holds(port as int) && probe.ensures((port,), true),
        None => none_free(probe, range),
    }
}

/// Whether each of `ports` lies in `range` and is called free by the probe.
pub open spec fn all_free_in<F: Fn(usize) -> bool>(
    probe: &F,
    range: PortRange,
    ports: Seq<usize>,
) -> bool {
    forall|k: int|
        0 <= k < ports.len() ==> range.holds(#[trigger] ports[k] as int) && probe.ensures(
            (ports[k],),
            true,
        )
}

/// Whether each of `ports` is higher than the one before it.
pub open spec fn rising(ports: Seq<usize>) -> bool {
    forall|k: int, l: int| 0 <= k < l < ports.len() ==> ports[k] < ports[l]
}

/// Whether each of `ports` is lower than the one before it.
pub open spec fn falling(ports: Seq<usize>) -> bool {
    forall|k: int, l: int| 0 <= k < l < ports.len() ==> ports[k] > ports[l]
}

/// What a query for several ports may return when it walks `range` in
/// `order`.
///
/// It is the outcome of a walk over `order`. Asked for no port it returns
/// none. The ports it returns lie in the range and the probe calls them
/// free. When the answers of the probe are fixed by some `free`, the outcome
/// is fixed too: the first `wanted` free ports of `order`, and the error with
/// the number of free ports where there are fewer.
pub open spec fn walk_found<F: Fn(usize) -> bool>(
    probe: &F,
    range: PortRange,
    order: Seq<usize>,
    wanted: usize,
    outcome: Result<Seq<usize>, DynaportError>,
) -> bool {
    &&& walk_gives(probe, order, wanted, outcome)
    &&& wanted == 0 ==> outcome == Ok::<Seq<usize>, DynaportError>(Seq::empty())
    &&& wanted > range.size() ==> outcome is Err
    &&& outcome matches Ok(ports) ==> all_free_in(probe, range, ports)
    &&& forall|free: spec_fn(usize) -> bool| #[trigger]
        decided_by(probe, order, free) ==> outcome == first_n_of(order.filter(free), wanted)
}

/// What a query for the lowest free ports may return: what a walk from the
/// lowest port of the range up finds, which comes lowest first.
pub open spec fn lowest_n_found<F: Fn(usize) -> bool>(
    probe: &F,
    range: PortRange,
    wanted: usize,
    outcome: Result<Seq<usize>, DynaportError>,
) -> bool {
    &&& walk_found(probe, range, range.ascending(), wanted, outcome)
    &&& outcome matches Ok(ports) ==> rising(ports)
}

/// What a query for the highest free ports may return: what a walk from the
/// highest port of the range down finds, which comes highest first.
pub open spec fn highest_n_found<F: Fn(usize) -> bool>(
    probe: &F,
    range: PortRange,
    wanted: usize,
    outcome: Result<Seq<usize>, DynaportError>,
) -> bool {
    &&& walk_found(probe, range, range.descending(), wanted, outcome)
    &&& outcome matches Ok(ports) ==> falling(ports)
}

/// What a query for free ports chosen at random may return: what a walk over
/// some arrangement of the range finds, which holds no port twice.
pub open spec fn any_n_found<F: Fn(usize) -> bool>(
    probe: &F,
    range: PortRange,
    wanted: usize,
    outcome: Result<Seq<usize>, DynaportError>,
) -> bool {
    &&& exists|order: Seq<usize>| #[trigger]
        range.arranged_as(order) && walk_found(probe, range, order, wanted, outcome)
    &&& outcome matches Ok(ports) ==> ports.no_duplicates()
}

/// A walk over an arrangement of the range is a query on the range. The
/// positions returned say where in `order` each port of a successful outcome
/// stood; they rise.
proof fn walk_in_range<F: Fn(usize) -> bool>(
    probe: &F,
    range: PortRange,
    order: Seq<usize>,
    wanted: usize,
    outcome: Result<Seq<usize>, DynaportError>,
) -> (at: Seq<int>)
    requires
        range.arranged_as(order),
        walk_gives(probe, order, wanted, outcome),
        wanted == 0 ==> outcome == Ok::<Seq<usize>, DynaportError>(Seq::empty()),
        forall|free: spec_fn(usize) -> bool| #[trigger]
            decided_by(probe, order, free) ==> outcome == first_n_of(order.filter(free), wanted),
    ensures
        walk_found(probe, range, order, wanted, outcome),
        outcome matches Ok(ports) ==> {
            &&& at.len() == ports.len()
            &&& forall|k: int|
                0 <= k < at.len() ==> {
                    &&& 0 <= #[trigger] at[k] < order.len()
                    &&& ports[k] == order[at[k]]
                }
            &&& forall|k: int, l: int| 0 <= k < l < at.len() ==> at[k] < at[l]
        },
{
    let answers: Seq<bool> = choose|answers: Seq<bool>| #[trigger]
        answered(probe, order, answers) && walk_ends(order, answers, wanted, outcome);
    let at: Seq<int> = hits_positions(order, answers);
    range.arrangement_covers(order);
    to_multiset_len(order);
    to_multiset_len(range.ascending());
    if let Ok(ports) = outcome {
        assert forall|k: int| 0 <= k < ports.len() implies range.holds(
            #[trigger] ports[k] as int,
        ) && probe.ensures((ports[k],), true) by {
            assert(probe.ensures((order[at[k]],), answers[at[k]]));
        }
    }
    at
}

/// The lowest port of `range` that `probe` calls free. No higher port is
/// asked about.
pub fn lowest_port<F: Fn(usize) -> bool>(range: PortRange, probe: F) -> (port: Option<usize>)
    requires
        may_ask_upward(&probe, range),
    ensures
        lowest_found(&probe, range, port),
{
    let order: Vec<usize> = range.ports_ascending();
    proof {
        assert forall|at: int|
            0 <= at < order@.len() && in_use_before(&probe, order@, at) implies probe.requires(
            (#[trigger] order@[at],),
        ) by {
            assert forall|below: usize| range.first() <= below < order@[at] implies probe.ensures(
                (below,),
                false,
            ) by {
                assert(order@[below - range.first()] == below);
            }
        }
    }
    let port: Option<usize> = first_available(&order, &probe);
    proof {
        match port {
            Some(found) => {
                assert forall|below: usize| range.first() <= below < found implies probe.ensures(
                    (below,),
                    false,
                ) by {
                    assert(order@[below - range.first()] == below);
                }
            },
            None => {
                assert forall|any: usize| range.holds(any as int) implies probe.ensures(
                    (any,),
                    false,
                ) by {
                    assert(order@[any - range.first()] == any);
                }
            },
        }
    }
    port
}

/// The highest port of `range` that `probe` calls free. No lower port is
/// asked about.
pub fn highest_port<F: Fn(usize) -> bool>(range: PortRange, probe: F) -> (port: Option<usize>)
    requires
        may_ask_downward(&probe, range),
    ensures
        highest_found(&probe, range, port),
{
    let order: Vec<usize> = range.ports_descending();
    proof {
        assert forall|at: int|
            0 <= at < order@.len() && in_use_before(&probe, order@, at) implies probe.requires(
            (#[trigger] order@[at],),
        ) by {
            assert forall|above: usize| order@[at] < above <= range.last() implies probe.ensures(
                (above,),
                false,
            ) by {
                assert(order@[range.last() - above] == above);
            }
        }
    }
    let port: Option<usize> = first_available(&order, &probe);
    proof {
        match port {
            Some(found) => {
                assert forall|above: usize| found < above <= range.last() implies probe.ensures(
                    (above,),
                    false,
                ) by {
                    assert(order@[range.last() - above] == above);
                }
            },
            None => {
                assert forall|any: usize| range.holds(any as int) implies probe.ensures(
                    (any,),
                    false,
                ) by {
                    assert(order@[range.last() - any] == any);
                }
            },
        }
    }
    port
}

/// A port of `range` that `probe` calls free, the first such in a random
/// order of the range. Every call shuffles anew.
pub fn random_port<F: Fn(usize) -> bool>(range: PortRange, probe: F) -> (port: Option<usize>)
    requires
        may_ask_range(&probe, range),
    ensures
        any_found(&probe, range, port),
{
    let mut order: Vec<usize> = range.ports_ascending();
    shuffle(&mut order);
    proof {
        range.arrangement_covers(order@);
    }
    let port: Option<usize> = first_available(&order, &probe);
    proof {
        if port is None {
            assert forall|any: usize| range.holds(any as int) implies probe.ensures(
                (any,),
                false,
            ) by {
                assert(order@[order@.index_of(any)] == any);
            }
        }
    }
    port
}

/// The `wanted` lowest ports of `range` that `probe` calls free, lowest
/// first. No port is asked about once `wanted` ports are found; with
/// `wanted == 0` the probe is not asked at all.
pub fn lowest_n_ports<F: Fn(usize) -> bool>(
    range: PortRange,
    wanted: usize,
    probe: F,
) -> (outcome: Result<Vec<usize>, DynaportError>)
    requires
        may_ask_while_short(&probe, range.ascending(), wanted),
    ensures
        lowest_n_found(&probe, range, wanted, outcome_view(outcome)),
{
    let order: Vec<usize> = range.ports_ascending();
    let outcome: Result<Vec<usize>, DynaportError> = first_n_available(&order, wanted, &probe);
    proof {
        let at: Seq<int> = walk_in_range(&probe, range, order@, wanted, outcome_view(outcome));
        if let Ok(ports) = outcome_view(outcome) {
            assert forall|k: int, l: int| 0 <= k < l < ports.len() implies ports[k] < ports[l] by {
                assert(at[k] < at[l]);
            }
        }
    }
    outcome
}

/// The `wanted` highest ports of `range` that `probe` calls free, highest
/// first. No port is asked about once `wanted` ports are found; with
/// `wanted == 0` the probe is not asked at all.
pub fn highest_n_ports<F: Fn(usize) -> bool>(
    range: PortRange,
    wanted: usize,
    probe: F,
) -> (outcome: Result<Vec<usize>, DynaportError>)
    requires
        may_ask_while_short(&probe, range.descending(), wanted),
    ensures
        highest_n_found(&probe, range, wanted, outcome_view(outcome)),
{
    let order: Vec<usize> = range.ports_descending();
    proof {
        assert(order@ =~= range.ascending().reverse());
        range.ascending().lemma_reverse_to_multiset();
    }
    let outcome: Result<Vec<usize>, DynaportError> = first_n_available(&order, wanted, &probe);
    proof {
        let at: Seq<int> = walk_in_range(&probe, range, order@, wanted, outcome_view(outcome));
        if let Ok(ports) = outcome_view(outcome) {
            assert forall|k: int, l: int| 0 <= k < l < ports.len() implies ports[k] > ports[l] by {
                assert(at[k] < at[l]);
            }
        }
    }
    outcome
}

/// `wanted` ports of `range` that `probe` calls free, as they come in a
/// random order of the range. Every call shuffles anew; with `wanted == 0`
/// the probe is not asked at all.
pub fn random_n_ports<F: Fn(usize) -> bool>(
    range: PortRange,
    wanted: usize,
    probe: F,
) -> (outcome: Result<Vec<usize>, DynaportError>)
    requires
        wanted > 0 ==> may_ask_range(&probe, range),
    ensures
        any_n_found(&probe, range, wanted, outcome_view(outcome)),
{
    let mut order: Vec<usize> = range.ports_ascending();
    shuffle(&mut order);
    proof {
        range.arrangement_covers(order@);
    }
    let outcome: Result<Vec<usize>, DynaportError> = first_n_available(&order, wanted, &probe);
    proof {
        let at: Seq<int> = walk_in_range(&probe, range, order@, wanted, outcome_view(outcome));
        if let Ok(ports) = outcome_view(outcome) {
            assert forall|k: int, l: int|
                0 <= k < ports.len() && 0 <= l < ports.len() && k != l implies ports[k]
                != ports[l] by {
                assert(at[k] != at[l]);
            }
        }
    }
    outcome
}

} // verus!
