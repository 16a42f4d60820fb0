//! What holds of the queries beyond the contract of each.
//!
//! Most of it is about a probe whose answers are fixed: some `free` says of
//! every port of the range what the probe will say of it, as it does while
//! nobody opens or closes a listener. Then every query but the random ones
//! has one possible result, which these laws name, and asking twice gives
//! the same.

use vstd::multiset::Multiset;
use vstd::prelude::*;
use vstd::seq_lib::{to_multiset_build, to_multiset_len};
use crate::error::DynaportError;
use crate::query::{
    any_found,
    any_n_found,
    highest_found,
    highest_n_found,
    lowest_found,
    lowest_n_found,
    rising,
    walk_found,
};
use crate::range::PortRange;
use crate::scan::{
    answered,
    decided_by,
    first_found,
    first_free_at,
    hits_positions,
    walk_ends,
    walk_gives,
    walk_of_decided_probe,
};

verus! {

/// Whether the answers of `probe` for the ports of `range` are fixed by
/// `free`: whenever it is asked about one of them, it says what `free` says.
pub open spec fn decided_in<F: Fn(usize) -> bool>(
    probe: &F,
    range: PortRange,
    free: spec_fn(usize) -> bool,
) -> bool {
    forall|port: usize, answer: bool|
        range.holds(port as int) && #[trigger] probe.ensures((port,), answer) ==> answer == free(
            port,
        )
}

/// Whether `free` calls no port of `range` free.
pub open spec fn all_in_use(range: PortRange, free: spec_fn(usize) -> bool) -> bool {
    forall|port: usize| #[trigger] range.holds(port as int) ==> !free(port)
}

/// The free ports of `range`, lowest first.
pub open spec fn free_ports(range: PortRange, free: spec_fn(usize) -> bool) -> Seq<usize> {
    range.ascending().filter(free)
}

/// Filtering keeps the order: what is left of rising ports rises.
pub proof fn filter_keeps_rising(ports: Seq<usize>, free: spec_fn(usize) -> bool)
    requires
        rising(ports),
    ensures
        rising(ports.filter(free)),
    decreases ports.len(),
{
    reveal(Seq::filter);
    if ports.len() > 0 {
        let earlier: Seq<usize> = ports.drop_last();
        filter_keeps_rising(earlier, free);
        let kept: Seq<usize> = earlier.filter(free);
        assert forall|k: int| 0 <= k < kept.len() implies kept[k] < ports.last() by {
            assert(kept.contains(kept[k]));
            earlier.lemma_filter_contains_rev(free, kept[k]);
            let i: int = earlier.index_of(kept[k]);
            assert(ports[i] == kept[k]);
        }
    }
}

/// The free ports of a range are what the name says: they rise, and a port
/// is among them if and only if it lies in the range and is free.
pub proof fn free_ports_are_the_free_ports(range: PortRange, free: spec_fn(usize) -> bool)
    ensures
        rising(free_ports(range, free)),
        forall|port: usize|
            #[trigger] free_ports(range, free).contains(port) <==> range.holds(port as int)
                && free(port),
{
    let all: Seq<usize> = range.ascending();
    filter_keeps_rising(all, free);
    assert forall|port: usize| #[trigger]
        free_ports(range, free).contains(port) <==> range.holds(port as int) && free(port) by {
        if free_ports(range, free).contains(port) {
            all.lemma_filter_contains_rev(free, port);
            all.lemma_filter_pred(free, all.filter(free).index_of(port));
        }
        if range.holds(port as int) && free(port) {
            all.lemma_filter_contains(free, port - range.first());
        }
    }
}

/// Answers that are fixed for the ports of a range are fixed for the ports
/// of each of its arrangements.
pub proof fn decided_in_every_order<F: Fn(usize) -> bool>(
    probe: &F,
    range: PortRange,
    order: Seq<usize>,
    free: spec_fn(usize) -> bool,
)
    requires
        decided_in(probe, range, free),
        range.arranged_as(order),
    ensures
        decided_by(probe, order, free),
{
    range.arrangement_covers(order);
}

/// Filtering a sequence and counting what is left, value by value, is
/// counting in the sequence the values that pass the filter.
pub proof fn filter_counts_alike(ports: Seq<usize>, free: spec_fn(usize) -> bool)
    ensures
        ports.filter(free).to_multiset() == ports.to_multiset().filter(free),
    decreases ports.len(),
{
    reveal(Seq::filter);
    if ports.len() == 0 {
        assert(ports.to_multiset() =~= Multiset::<usize>::empty()) by {
            to_multiset_len(ports);
        }
    } else {
        let earlier: Seq<usize> = ports.drop_last();
        let port: usize = ports.last();
        filter_counts_alike(earlier, free);
        assert(ports =~= earlier.push(port));
        to_multiset_build(earlier, port);
        if free(port) {
            to_multiset_build(earlier.filter(free), port);
        }
    }
}

/// Every arrangement of a range holds as many free ports as the range.
pub proof fn arrangements_hold_as_many_free(
    range: PortRange,
    order: Seq<usize>,
    free: spec_fn(usize) -> bool,
)
    requires
        range.arranged_as(order),
    ensures
        order.filter(free).len() == free_ports(range, free).len(),
{
    filter_counts_alike(order, free);
    filter_counts_alike(range.ascending(), free);
    to_multiset_len(order.filter(free));
    to_multiset_len(range.ascending().filter(free));
}

/// Asking twice gives the same: when the answers of the probe are fixed, two
/// walks over one order for the same number of ports return the same.
pub proof fn walk_is_repeatable<F: Fn(usize) -> bool>(
    probe: &F,
    order: Seq<usize>,
    wanted: usize,
    free: spec_fn(usize) -> bool,
    once: Result<Seq<usize>, DynaportError>,
    again: Result<Seq<usize>, DynaportError>,
)
    requires
        decided_by(probe, order, free),
        walk_gives(probe, order, wanted, once),
        walk_gives(probe, order, wanted, again),
    ensures
        once == again,
{
    walk_of_decided_probe(probe, order, wanted, free, once);
    walk_of_decided_probe(probe, order, wanted, free, again);
}

/// Asking twice gives the same: when the answers of the probe are fixed, two
/// walks over one order that stop at the first free port return the same.
pub proof fn first_is_repeatable<F: Fn(usize) -> bool>(
    probe: &F,
    order: Seq<usize>,
    free: spec_fn(usize) -> bool,
    once: Option<usize>,
    again: Option<usize>,
)
    requires
        decided_by(probe, order, free),
        first_found(probe, order, once),
        first_found(probe, order, again),
    ensures
        once == again,
{
    if let Some(port) = once {
        let at: int = choose|at: int| #[trigger]
            first_free_at(probe, order, at) && order[at] == port;
        if let Some(other) = again {
            let there: int = choose|there: int| #[trigger]
                first_free_at(probe, order, there) && order[there] == other;
            assert(at == there);
        }
    }
}

/// The lowest free port: when the answers of the probe are fixed, the query
/// returns a free port of the range below which the range has no free port,
/// and it returns nothing only if the range has no free port at all.
pub proof fn lowest_is_least_free<F: Fn(usize) -> bool>(
    probe: &F,
    range: PortRange,
    free: spec_fn(usize) -> bool,
    port: Option<usize>,
)
    requires
        decided_in(probe, range, free),
        lowest_found(probe, range, port),
    ensures
        match port {
            Some(found) => {
                &&& range.holds(found as int)
                &&& free(found)
                &&& forall|below: usize| range.first() <= below < found ==> !#[trigger] free(below)
            },
            None => all_in_use(range, free),
        },
{
    if let Some(found) = port {
        assert forall|below: usize| range.first() <= below < found implies !#[trigger] free(
            below,
        ) by {
            assert(probe.ensures((below,), false));
        }
    } else {
        assert forall|any: usize| #[trigger] range.holds(any as int) implies !free(any) by {
            assert(probe.ensures((any,), false));
        }
    }
}

/// The highest free port: when the answers of the probe are fixed, the query
/// returns a free port of the range above which the range has no free port,
/// and it returns nothing only if the range has no free port at all.
pub proof fn highest_is_greatest_free<F: Fn(usize) -> bool>(
    probe: &F,
    range: PortRange,
    free: spec_fn(usize) -> bool,
    port: Option<usize>,
)
    requires
        decided_in(probe, range, free),
        highest_found(probe, range, port),
    ensures
        match port {
            Some(found) => {
                &&& range.holds(found as int)
                &&& free(found)
                &&& forall|above: usize| found < above <= range.last() ==> !#[trigger] free(above)
            },
            None => all_in_use(range, free),
        },
{
    if let Some(found) = port {
        assert forall|above: usize| found < above <= range.last() implies !#[trigger] free(
            above,
        ) by {
            assert(probe.ensures((above,), false));
        }
    } else {
        assert forall|any: usize| #[trigger] range.holds(any as int) implies !free(any) by {
            assert(probe.ensures((any,), false));
        }
    }
}

/// A free port at random: when the answers of the probe are fixed, the query
/// returns a free port of the range, and it returns nothing only if the
/// range has no free port at all.
pub proof fn random_is_free<F: Fn(usize) -> bool>(
    probe: &F,
    range: PortRange,
    free: spec_fn(usize) -> bool,
    port: Option<usize>,
)
    requires
        decided_in(probe, range, free),
        any_found(probe, range, port),
    ensures
        match port {
            Some(found) => range.holds(found as int) && free(found),
            None => all_in_use(range, free),
        },
{
    if port is None {
        assert forall|any: usize| #[trigger] range.holds(any as int) implies !free(any) by {
            assert(probe.ensures((any,), false));
        }
    }
}

/// Asking twice gives the same: when the answers of the probe are fixed, two
/// queries for the lowest free port of a range return the same.
pub proof fn lowest_is_repeatable<F: Fn(usize) -> bool>(
    probe: &F,
    range: PortRange,
    free: spec_fn(usize) -> bool,
    once: Option<usize>,
    again: Option<usize>,
)
    requires
        decided_in(probe, range, free),
        lowest_found(probe, range, once),
        lowest_found(probe, range, again),
    ensures
        once == again,
{
    lowest_is_least_free(probe, range, free, once);
    lowest_is_least_free(probe, range, free, again);
}

/// Asking twice gives the same: when the answers of the probe are fixed, two
/// queries for the highest free port of a range return the same.
pub proof fn highest_is_repeatable<F: Fn(usize) -> bool>(
    probe: &F,
    range: PortRange,
    free: spec_fn(usize) -> bool,
    once: Option<usize>,
    again: Option<usize>,
)
    requires
        decided_in(probe, range, free),
        highest_found(probe, range, once),
        highest_found(probe, range, again),
    ensures
        once == again,
{
    highest_is_greatest_free(probe, range, free, once);
    highest_is_greatest_free(probe, range, free, again);
}

/// Asking twice draws from the same ports: when the answers of the probe are
/// fixed, two queries for a free port at random either both return a free
/// port of the range, not always the same one, or both return nothing.
pub proof fn random_draws_alike<F: Fn(usize) -> bool>(
    probe: &F,
    range: PortRange,
    free: spec_fn(usize) -> bool,
    once: Option<usize>,
    again: Option<usize>,
)
    requires
        decided_in(probe, range, free),
        any_found(probe, range, once),
        any_found(probe, range, again),
    ensures
        once is Some <==> again is Some,
        once matches Some(port) ==> range.holds(port as int) && free(port),
        again matches Some(port) ==> range.holds(port as int) && free(port),
{
    random_is_free(probe, range, free, once);
    random_is_free(probe, range, free, again);
}

/// The lowest free ports: when the answers of the probe are fixed, the query
/// returns the `wanted` lowest free ports of the range, and where more are
/// wanted than the range has free, the error that holds both numbers.
pub proof fn lowest_n_counts_free_ports<F: Fn(usize) -> bool>(
    probe: &F,
    range: PortRange,
    wanted: usize,
    free: spec_fn(usize) -> bool,
    outcome: Result<Seq<usize>, DynaportError>,
)
    requires
        decided_in(probe, range, free),
        lowest_n_found(probe, range, wanted, outcome),
    ensures
        wanted <= free_ports(range, free).len() ==> outcome == Ok::<Seq<usize>, DynaportError>(
            free_ports(range, free).take(wanted as int),
        ),
        wanted > free_ports(range, free).len() ==> outcome == Err::<Seq<usize>, DynaportError>(
            DynaportError::NotEnoughPorts { wanted, got: free_ports(range, free).len() as usize },
        ),
{
    decided_in_every_order(probe, range, range.ascending(), free);
}

/// The highest free ports: when the answers of the probe are fixed, the
/// query returns the `wanted` highest free ports of the range, highest
/// first, and where more are wanted than the range has free, the error that
/// holds both numbers.
pub proof fn highest_n_counts_free_ports<F: Fn(usize) -> bool>(
    probe: &F,
    range: PortRange,
    wanted: usize,
    free: spec_fn(usize) -> bool,
    outcome: Result<Seq<usize>, DynaportError>,
)
    requires
        decided_in(probe, range, free),
        highest_n_found(probe, range, wanted, outcome),
    ensures
        wanted <= free_ports(range, free).len() ==> outcome == Ok::<Seq<usize>, DynaportError>(
            range.descending().filter(free).take(wanted as int),
        ),
        wanted > free_ports(range, free).len() ==> outcome == Err::<Seq<usize>, DynaportError>(
            DynaportError::NotEnoughPorts { wanted, got: free_ports(range, free).len() as usize },
        ),
{
    assert(range.descending() =~= range.ascending().reverse());
    range.ascending().lemma_reverse_to_multiset();
    decided_in_every_order(probe, range, range.descending(), free);
    arrangements_hold_as_many_free(range, range.descending(), free);
}

/// Free ports at random: when the answers of the probe are fixed, the query
/// succeeds if and only if the range has `wanted` free ports, and where it
/// has fewer, the error holds both numbers.
pub proof fn random_n_counts_free_ports<F: Fn(usize) -> bool>(
    probe: &F,
    range: PortRange,
    wanted: usize,
    free: spec_fn(usize) -> bool,
    outcome: Result<Seq<usize>, DynaportError>,
)
    requires
        decided_in(probe, range, free),
        any_n_found(probe, range, wanted, outcome),
    ensures
        wanted <= free_ports(range, free).len() ==> outcome is Ok,
        wanted > free_ports(range, free).len() ==> outcome == Err::<Seq<usize>, DynaportError>(
            DynaportError::NotEnoughPorts { wanted, got: free_ports(range, free).len() as usize },
        ),
        outcome matches Ok(ports) ==> {
            &&& ports.len() == wanted
            &&& ports.no_duplicates()
            &&& forall|k: int|
                0 <= k < ports.len() ==> range.holds(#[trigger] ports[k] as int) && free(ports[k])
        },
{
    let order: Seq<usize> = choose|order: Seq<usize>| #[trigger]
        range.arranged_as(order) && walk_found(probe, range, order, wanted, outcome);
    decided_in_every_order(probe, range, order, free);
    arrangements_hold_as_many_free(range, order, free);
}

/// No free port is passed over on the way up: of each port of the range up
/// to the last that the query returns, the query returns it or the probe has
/// called it in use.
pub proof fn lowest_n_skips_ports_in_use<F: Fn(usize) -> bool>(
    probe: &F,
    range: PortRange,
    wanted: usize,
    ports: Seq<usize>,
    port: usize,
)
    requires
        lowest_n_found(probe, range, wanted, Ok(ports)),
        ports.len() > 0,
        range.first() <= port <= ports.last(),
        !ports.contains(port),
    ensures
        probe.ensures((port,), false),
{
    let order: Seq<usize> = range.ascending();
    let outcome: Result<Seq<usize>, DynaportError> = Ok(ports);
    let answers: Seq<bool> = choose|answers: Seq<bool>| #[trigger]
        answered(probe, order, answers) && walk_ends(order, answers, wanted, outcome);
    let at: Seq<int> = hits_positions(order, answers);
    let asked: int = port - range.first();
    assert(order[at.last()] == ports.last());
    assert(order[asked] == port);
    if answers[asked] {
        let k: int = choose|k: int| 0 <= k < at.len() && at[k] == asked;
        assert(ports[k] == port);
    }
}

/// No free port is passed over on the way down: of each port of the range
/// down to the last that the query returns, the query returns it or the
/// probe has called it in use.
pub proof fn highest_n_skips_ports_in_use<F: Fn(usize) -> bool>(
    probe: &F,
    range: PortRange,
    wanted: usize,
    ports: Seq<usize>,
    port: usize,
)
    requires
        highest_n_found(probe, range, wanted, Ok(ports)),
        ports.len() > 0,
        ports.last() <= port <= range.last(),
        !ports.contains(port),
    ensures
        probe.ensures((port,), false),
{
    let order: Seq<usize> = range.descending();
    let outcome: Result<Seq<usize>, DynaportError> = Ok(ports);
    let answers: Seq<bool> = choose|answers: Seq<bool>| #[trigger]
        answered(probe, order, answers) && walk_ends(order, answers, wanted, outcome);
    let at: Seq<int> = hits_positions(order, answers);
    let asked: int = range.last() - port;
    assert(order[at.last()] == ports.last());
    assert(order[asked] == port);
    if answers[asked] {
        let k: int = choose|k: int| 0 <= k < at.len() && at[k] == asked;
        assert(ports[k] == port);
    }
}

/// Asking twice gives the same: when the answers of the probe are fixed, two
/// queries for the same number of lowest free ports return the same.
pub proof fn lowest_n_is_repeatable<F: Fn(usize) -> bool>(
    probe: &F,
    range: PortRange,
    wanted: usize,
    free: spec_fn(usize) -> bool,
    once: Result<Seq<usize>, DynaportError>,
    again: Result<Seq<usize>, DynaportError>,
)
    requires
        decided_in(probe, range, free),
        lowest_n_found(probe, range, wanted, once),
        lowest_n_found(probe, range, wanted, again),
    ensures
        once == again,
{
    lowest_n_counts_free_ports(probe, range, wanted, free, once);
    lowest_n_counts_free_ports(probe, range, wanted, free, again);
}

/// Asking twice gives the same: when the answers of the probe are fixed, two
/// queries for the same number of highest free ports return the same.
pub proof fn highest_n_is_repeatable<F: Fn(usize) -> bool>(
    probe: &F,
    range: PortRange,
    wanted: usize,
    free: spec_fn(usize) -> bool,
    once: Result<Seq<usize>, DynaportError>,
    again: Result<Seq<usize>, DynaportError>,
)
    requires
        decided_in(probe, range, free),
        highest_n_found(probe, range, wanted, once),
        highest_n_found(probe, range, wanted, again),
    ensures
        once == again,
{
    highest_n_counts_free_ports(probe, range, wanted, free, once);
    highest_n_counts_free_ports(probe, range, wanted, free, again);
}

/// Asking twice draws from the same ports: when the answers of the probe are
/// fixed, two queries for the same number of free ports at random either
/// both succeed, not always with the same ports, or both fail with the same
/// error.
pub proof fn random_n_draws_alike<F: Fn(usize) -> bool>(
    probe: &F,
    range: PortRange,
    wanted: usize,
    free: spec_fn(usize) -> bool,
    once: Result<Seq<usize>, DynaportError>,
    again: Result<Seq<usize>, DynaportError>,
)
    requires
        decided_in(probe, range, free),
        any_n_found(probe, range, wanted, once),
        any_n_found(probe, range, wanted, again),
    ensures
        once is Ok <==> again is Ok,
        once is Err ==> once == again,
{
    random_n_counts_free_ports(probe, range, wanted, free, once);
    random_n_counts_free_ports(probe, range, wanted, free, again);
}

} // verus!
