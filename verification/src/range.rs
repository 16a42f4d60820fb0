//! The two ranges of port numbers and the orders in which they are walked.

use vstd::prelude::*;
use vstd::seq_lib::to_multiset_contains;

verus! {

/// The lowest registered port.
pub const REGISTERED_FIRST: usize = 1024;

/// The highest registered port.
pub const REGISTERED_LAST: usize = 49151;

/// The lowest dynamic port.
pub const DYNAMIC_FIRST: usize = 49152;

/// The highest dynamic port.
pub const DYNAMIC_LAST: usize = 65535;

/// A closed interval of port numbers.
#[derive(Debug, Clone, Copy, PartialEq, Eq, Structural)]
pub enum PortRange {
    /// The ports that applications and services may be assigned: 1024 to
    /// 49151.
    Registered,
    /// The dynamic or private ports: 49152 to 65535.
    Dynamic,
}

impl PortRange {
    /// The lowest port of the range.
    pub open spec fn first(self) -> int {
        match self {
            PortRange::Registered => 1024,
            PortRange::Dynamic => 49152,
        }
    }

    /// The highest port of the range.
    pub open spec fn last(self) -> int {
        match self {
            PortRange::Registered => 49151,
            PortRange::Dynamic => 65535,
        }
    }

    /// Whether `port` lies in the range.
    pub open spec fn holds(self, port: int) -> bool {
        self.first() <= port <= self.last()
    }

    /// How many ports the range has.
    pub open spec fn size(self) -> nat {
        (self.last() - self.first() + 1) as nat
    }

    /// The ports of the range from the lowest to the highest.
    pub open spec fn ascending(self) -> Seq<usize> {
        Seq::new(self.size(), |i: int| (self.first() + i) as usize)
    }

    /// The ports of the range from the highest to the lowest.
    pub open spec fn descending(self) -> Seq<usize> {
        Seq::new(self.size(), |i: int| (self.last() - i) as usize)
    }

    /// The two ranges share no port, between them they hold every port from
    /// 1024 to 65535, and they have 48128 and 16384 ports.
    pub proof fn ranges_part_the_ports(port: int)
        ensures
            !(PortRange::Registered.holds(port) && PortRange::Dynamic.holds(port)),
            1024 <= port <= 65535 <==> PortRange::Registered.holds(port)
                || PortRange::Dynamic.holds(port),
            PortRange::Registered.size() == 48128,
            PortRange::Dynamic.size() == 16384,
    {
    }

    /// Whether `order` holds the ports of the range, each of them once, in
    /// whatever order.
    pub open spec fn arranged_as(self, order: Seq<usize>) -> bool {
        order.to_multiset() == self.ascending().to_multiset()
    }

    /// An arrangement of the range holds no port twice, no port from outside
    /// the range, and every port of the range.
    pub proof fn arrangement_covers(self, order: Seq<usize>)
        requires
            self.arranged_as(order),
        ensures
            order.no_duplicates(),
            forall|i: int| 0 <= i < order.len() ==> self.holds(#[trigger] order[i] as int),
            forall|port: usize| self.holds(port as int) ==> order.contains(port),
    {
        let sorted: Seq<usize> = self.ascending();
        sorted.lemma_multiset_has_no_duplicates();
        order.lemma_multiset_has_no_duplicates_conv();
        assert forall|i: int| 0 <= i < order.len() implies self.holds(
            #[trigger] order[i] as int,
        ) by {
            to_multiset_contains(order, order[i]);
            to_multiset_contains(sorted, order[i]);
        }
        assert forall|port: usize| self.holds(port as int) implies order.contains(port) by {
            assert(sorted[port - self.first()] == port);
            to_multiset_contains(order, port);
            to_multiset_contains(sorted, port);
        }
    }

    /// The lowest port of the range.
    pub fn lower(&self) -> (port: usize)
        ensures
            port == self.first(),
    {
        match self {
            PortRange::Registered => REGISTERED_FIRST,
            PortRange::Dynamic => DYNAMIC_FIRST,
        }
    }

    /// The highest port of the range.
    pub fn upper(&self) -> (port: usize)
        ensures
            port == self.last(),
    {
        match self {
            PortRange::Registered => REGISTERED_LAST,
            PortRange::Dynamic => DYNAMIC_LAST,
        }
    }

    /// Whether `port` lies in the range.
    pub fn contains(&self, port: usize) -> (inside: bool)
        ensures
            inside == self.holds(port as int),
    {
        self.lower() <= port && port <= self.upper()
    }

    /// All ports of the range, lowest first.
    pub fn ports_ascending(&self) -> (ports: Vec<usize>)
        ensures
            ports@ == self.ascending(),
    {
        let lower: usize = self.lower();
        let upper: usize = self.upper();
        let mut ports: Vec<usize> = Vec::new();
        let mut port: usize = lower;
        while port <= upper
            invariant
                lower == self.first(),
                upper == self.last(),
                lower <= port <= upper + 1,
                ports@ == Seq::new((port - lower) as nat, |i: int| (self.first() + i) as usize),
            decreases upper + 1 - port,
        {
            ports.push(port);
            port = port + 1;
        }
        ports
    }

    /// All ports of the range, highest first.
    pub fn ports_descending(&self) -> (ports: Vec<usize>)
        ensures
            ports@ == self.descending(),
    {
        let lower: usize = self.lower();
        let upper: usize = self.upper();
        let mut ports: Vec<usize> = Vec::new();
        let mut port: usize = upper;
        while port >= lower
            invariant
                lower == self.first(),
                upper == self.last(),
                lower - 1 <= port <= upper,
                ports@ == Seq::new((upper - port) as nat, |i: int| (self.last() - i) as usize),
            decreases port,
        {
            ports.push(port);
            port = port - 1;
        }
        ports
    }
}

} // verus!
