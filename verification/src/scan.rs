//! Walking a list of candidate ports and asking a probe about each in turn.
//!
//! A probe is any `Fn(usize) -> bool`: `true` says that the port is free.
//! Nothing is assumed of it but its own contract, so a probe whose answer for
//! a port may change from one call to the next is as welcome as one that
//! reads a fixed table. What a walk returns is therefore stated against the
//! answers that the probe may give: `probe.ensures((port,), answer)`.
//!
//! A walk asks about a port only while it still needs one. Its precondition
//! says so: the probe has to accept a port only if the answers that it may
//! give for the ports before leave the walk short of what is wanted.

use vstd::prelude::*;
use crate::error::DynaportError;

verus! {

/// Whether the probe may call every port of `order` before position `at`
/// in use.
pub open spec fn in_use_before<F: Fn(usize) -> bool>(
    probe: &F,
    order: Seq<usize>,
    at: int,
) -> bool {
    forall|j: int| 0 <= j < at ==> probe.ensures((#[trigger] order[j],), false)
}

/// Whether `order[at]` is the first port of `order` that the probe calls
/// free: the probe may say so of it, and may say of each port before it that
/// it is in use.
pub open spec fn first_free_at<F: Fn(usize) -> bool>(
    probe: &F,
    order: Seq<usize>,
    at: int,
) -> bool {
    &&& 0 <= at < order.len()
    &&& probe.ensures((order[at],), true)
    &&& in_use_before(probe, order, at)
}

/// Whether `probe` may be asked about every port that a walk for one port
/// comes to: each port of `order` such that the probe may call all ports
/// before it in use. A port behind one that the probe is bound to call free
/// is never asked about, so the probe need not accept it.
pub open spec fn may_ask_until_free<F: Fn(usize) -> bool>(probe: &F, order: Seq<usize>) -> bool {
    forall|at: int|
        0 <= at < order.len() && in_use_before(probe, order, at) ==> probe.requires(
            (#[trigger] order[at],),
        )
}

/// What a walk for one port may return: the first port of `order` that the
/// probe calls free, or nothing once the probe has called every port in use.
pub open spec fn first_found<F: Fn(usize) -> bool>(
    probe: &F,
    order: Seq<usize>,
    port: Option<usize>,
) -> bool {
    match port {
        Some(port) => exists|at: int| #[trigger]
            first_free_at(probe, order, at) && order[at] == port,
        None => in_use_before(probe, order, order.len() as int),
    }
}

/// Whether `answers` is a run of answers that the probe may give when it is
/// asked about the ports of `order` one after the other, from the first on.
pub open spec fn answered<F: Fn(usize) -> bool>(
    probe: &F,
    order: Seq<usize>,
    answers: Seq<bool>,
) -> bool {
    &&& answers.len() <= order.len()
    &&& forall|i: int| 0 <= i < answers.len() ==> probe.ensures((order[i],), #[trigger] answers[i])
}

/// The ports of `order` that were called free, in the order of the walk:
/// `order[i]` for each `i` with `answers[i]`.
pub open spec fn hits(order: Seq<usize>, answers: Seq<bool>) -> Seq<usize>
    decreases answers.len(),
{
    if answers.len() == 0 {
        Seq::empty()
    } else {
        let earlier = hits(order, answers.drop_last());
        if answers.last() {
            earlier.push(order[answers.len() - 1])
        } else {
            earlier
        }
    }
}

/// Whether `probe` may be asked about every port that a walk for `wanted`
/// ports comes to: each port of `order` that follows a run of answers which
/// leaves the walk short of `wanted` ports. With `wanted == 0` there is no
/// such port.
pub open spec fn may_ask_while_short<F: Fn(usize) -> bool>(
    probe: &F,
    order: Seq<usize>,
    wanted: usize,
) -> bool {
    forall|answers: Seq<bool>| #[trigger]
        answered(probe, order, answers) && answers.len() < order.len() && hits(
            order,
            answers,
        ).len() < wanted ==> probe.requires((order[answers.len() as int],))
}

/// What a walk for `wanted` ports returns once the probe has given
/// `answers`. It succeeds with the ports called free when the last answer
/// brought their number to `wanted` (for `wanted == 0`: when nothing was
/// asked), and it fails with their number when all of `order` was asked and
/// fewer than `wanted` were free.
pub open spec fn walk_ends(
    order: Seq<usize>,
    answers: Seq<bool>,
    wanted: usize,
    outcome: Result<Seq<usize>, DynaportError>,
) -> bool {
    let found = hits(order, answers);
    match outcome {
        Ok(ports) => {
            &&& ports == found
            &&& found.len() == wanted
            &&& if wanted == 0 { answers.len() == 0 } else { answers.len() > 0 && answers.last() }
        },
        Err(DynaportError::NotEnoughPorts { wanted: asked, got }) => {
            &&& asked == wanted
            &&& got == found.len()
            &&& found.len() < wanted
            &&& answers.len() == order.len()
        },
    }
}

/// What a walk for `wanted` ports may return: the outcome of some run of
/// answers that the probe may give.
pub open spec fn walk_gives<F: Fn(usize) -> bool>(
    probe: &F,
    order: Seq<usize>,
    wanted: usize,
    outcome: Result<Seq<usize>, DynaportError>,
) -> bool {
    exists|answers: Seq<bool>| #[trigger]
        answered(probe, order, answers) && walk_ends(order, answers, wanted, outcome)
}

/// The outcome of a walk with the ports as a sequence.
pub open spec fn outcome_view(outcome: Result<Vec<usize>, DynaportError>) -> Result<
    Seq<usize>,
    DynaportError,
> {
    match outcome {
        Ok(ports) => Ok(ports@),
        Err(error) => Err(error),
    }
}

/// Whether the answers of `probe` for the ports of `order` are fixed by
/// `free`: whenever it is asked about one of them, it says what `free` says.
pub open spec fn decided_by<F: Fn(usize) -> bool>(
    probe: &F,
    order: Seq<usize>,
    free: spec_fn(usize) -> bool,
) -> bool {
    forall|i: int, answer: bool|
        0 <= i < order.len() && #[trigger] probe.ensures((order[i],), answer) ==> answer == free(
            order[i],
        )
}

/// The first `wanted` of `free_ports`, or the error that says how many there
/// are.
pub open spec fn first_n_of(free_ports: Seq<usize>, wanted: usize) -> Result<
    Seq<usize>,
    DynaportError,
> {
    if wanted <= free_ports.len() {
        Ok(free_ports.take(wanted as int))
    } else {
        Err(DynaportError::NotEnoughPorts { wanted, got: free_ports.len() as usize })
    }
}

/// Asks `probe` about the ports of `order` in turn and returns the first one
/// that it calls free. No port behind that one is asked about.
pub fn first_available<F: Fn(usize) -> bool>(order: &Vec<usize>, probe: &F) -> (port: Option<usize>)
    requires
        may_ask_until_free(probe, order@),
    ensures
        first_found(probe, order@, port),
{
    let mut i: usize = 0;
    while i < order.len()
        invariant
            i <= order.len(),
            may_ask_until_free(probe, order@),
            in_use_before(probe, order@, i as int),
        decreases order.len() - i,
    {
        let candidate: usize = order[i];
        if probe(candidate) {
            assert(first_free_at(probe, order@, i as int));
            return Some(candidate);
        }
        i = i + 1;
    }
    None
}

/// Asks `probe` about the ports of `order` in turn until it has called
/// `wanted` of them free, and returns those in the order of the walk. Where
/// the probe calls fewer free, all of `order` is asked and the error says
/// how many were free.
///
/// No port is asked about once `wanted` ports are found; with `wanted == 0`
/// the probe is not asked at all, and so nothing is required of it.
pub fn first_n_available<F: Fn(usize) -> bool>(
    order: &Vec<usize>,
    wanted: usize,
    probe: &F,
) -> (outcome: Result<Vec<usize>, DynaportError>)
    requires
        may_ask_while_short(probe, order@, wanted),
    ensures
        walk_gives(probe, order@, wanted, outcome_view(outcome)),
        wanted == 0 ==> outcome_view(outcome) == Ok::<Seq<usize>, DynaportError>(Seq::empty()),
        forall|free: spec_fn(usize) -> bool| #[trigger]
            decided_by(probe, order@, free) ==> outcome_view(outcome) == first_n_of(
                order@.filter(free),
                wanted,
            ),
{
    let mut ports: Vec<usize> = Vec::new();
    let ghost mut answers: Seq<bool> = Seq::empty();
    let mut i: usize = 0;
    while ports.len() < wanted && i < order.len()
        invariant
            i <= order.len(),
            may_ask_while_short(probe, order@, wanted),
            answers.len() == i,
            answered(probe, order@, answers),
            ports@ == hits(order@, answers),
            ports.len() <= wanted,
            ports.len() == wanted ==> if wanted == 0 {
                i == 0
            } else {
                i > 0 && answers.last()
            },
        decreases order.len() - i,
    {
        let candidate: usize = order[i];
        let free: bool = probe(candidate);
        proof {
            assert(answers.push(free).drop_last() =~= answers);
            answers = answers.push(free);
        }
        if free {
            ports.push(candidate);
        }
        i = i + 1;
    }
    let outcome: Result<Vec<usize>, DynaportError> = if ports.len() == wanted {
        Ok(ports)
    } else {
        Err(DynaportError::NotEnoughPorts { wanted, got: ports.len() })
    };
    proof {
        assert(answered(probe, order@, answers) && walk_ends(
            order@,
            answers,
            wanted,
            outcome_view(outcome),
        ));
        assert forall|free: spec_fn(usize) -> bool| #[trigger]
            decided_by(probe, order@, free) implies outcome_view(outcome) == first_n_of(
            order@.filter(free),
            wanted,
        ) by {
            walk_of_decided_probe(probe, order@, wanted, free, outcome_view(outcome));
        }
    }
    outcome
}

/// Where the ports that a walk has called free stood in its order: the
/// positions returned rise, they are the positions that were answered with
/// `true`, and the ports at them are the ports found, one for one.
pub proof fn hits_positions(order: Seq<usize>, answers: Seq<bool>) -> (at: Seq<int>)
    requires
        answers.len() <= order.len(),
    ensures
        at.len() == hits(order, answers).len(),
        at.len() <= answers.len(),
        forall|k: int|
            0 <= k < at.len() ==> 0 <= #[trigger] at[k] < answers.len() && answers[at[k]]
                && hits(order, answers)[k] == order[at[k]],
        forall|k: int, l: int| 0 <= k < l < at.len() ==> at[k] < at[l],
        forall|i: int|
            0 <= i < answers.len() && #[trigger] answers[i] ==> exists|k: int|
                0 <= k < at.len() && at[k] == i,
    decreases answers.len(),
{
    if answers.len() == 0 {
        Seq::empty()
    } else {
        let earlier: Seq<int> = hits_positions(order, answers.drop_last());
        let at: Seq<int> = if answers.last() {
            earlier.push(answers.len() - 1)
        } else {
            earlier
        };
        assert forall|i: int| 0 <= i < answers.len() && #[trigger] answers[i] implies (exists|k: int|
            0 <= k < at.len() && at[k] == i) by {
            if i < answers.len() - 1 {
                assert(answers.drop_last()[i]);
                let k: int = choose|k: int| 0 <= k < earlier.len() && earlier[k] == i;
                assert(at[k] == i);
            } else {
                assert(at[earlier.len() as int] == i);
            }
        }
        at
    }
}

/// When the answers of the probe are fixed by `free`, the ports that a walk
/// has called free are the free ports among those it has asked about.
pub proof fn hits_of_decided_probe<F: Fn(usize) -> bool>(
    probe: &F,
    order: Seq<usize>,
    answers: Seq<bool>,
    free: spec_fn(usize) -> bool,
)
    requires
        answered(probe, order, answers),
        decided_by(probe, order, free),
    ensures
        hits(order, answers) == order.take(answers.len() as int).filter(free),
    decreases answers.len(),
{
    reveal(Seq::filter);
    let asked: int = answers.len() as int;
    if asked > 0 {
        hits_of_decided_probe(probe, order, answers.drop_last(), free);
        assert(order.take(asked).drop_last() =~= order.take(asked - 1));
    }
}

/// When the answers of the probe are fixed by `free`, a walk for `wanted`
/// ports returns the first `wanted` free ports of its order, and where the
/// order has fewer, the error that holds their number.
pub proof fn walk_of_decided_probe<F: Fn(usize) -> bool>(
    probe: &F,
    order: Seq<usize>,
    wanted: usize,
    free: spec_fn(usize) -> bool,
    outcome: Result<Seq<usize>, DynaportError>,
)
    requires
        decided_by(probe, order, free),
        walk_gives(probe, order, wanted, outcome),
    ensures
        outcome == first_n_of(order.filter(free), wanted),
{
    let answers: Seq<bool> = choose|answers: Seq<bool>| #[trigger]
        answered(probe, order, answers) && walk_ends(order, answers, wanted, outcome);
    let asked: int = answers.len() as int;
    hits_of_decided_probe(probe, order, answers, free);
    assert(order =~= order.take(asked) + order.skip(asked));
    let found: Seq<usize> = order.take(asked).filter(free);
    let beyond: Seq<usize> = order.skip(asked).filter(free);
    assert(order.filter(free) == found + beyond);
    match outcome {
        Ok(ports) => {
            assert(ports =~= (found + beyond).take(wanted as int));
        },
        Err(_) => {
            assert(beyond.len() == 0);
        },
    }
}

} // verus!
