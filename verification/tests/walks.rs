use std::cell::Cell;

use dynaport::range::{DYNAMIC_FIRST, DYNAMIC_LAST, REGISTERED_FIRST, REGISTERED_LAST};
use dynaport::scan::{first_available, first_n_available};
use dynaport::{
    highest_n_ports, highest_port, lowest_n_ports, lowest_port, random_n_ports, random_port,
    DynaportError, PortRange,
};

#[test]
fn ranges_have_their_bounds() {
    assert_eq!(1024, REGISTERED_FIRST);
    assert_eq!(49151, REGISTERED_LAST);
    assert_eq!(49152, DYNAMIC_FIRST);
    assert_eq!(65535, DYNAMIC_LAST);
    assert_eq!(1024, PortRange::Registered.lower());
    assert_eq!(49151, PortRange::Registered.upper());
    assert_eq!(49152, PortRange::Dynamic.lower());
    assert_eq!(65535, PortRange::Dynamic.upper());
}

#[test]
fn ranges_hold_their_ports_and_no_others() {
    assert!(!PortRange::Registered.contains(0));
    assert!(!PortRange::Registered.contains(1023));
    assert!(PortRange::Registered.contains(1024));
    assert!(PortRange::Registered.contains(49151));
    assert!(!PortRange::Registered.contains(49152));
    assert!(!PortRange::Dynamic.contains(49151));
    assert!(PortRange::Dynamic.contains(49152));
    assert!(PortRange::Dynamic.contains(65535));
    assert!(!PortRange::Dynamic.contains(65536));
}

#[test]
fn ranges_list_their_ports_in_both_directions() {
    let up = PortRange::Registered.ports_ascending();
    assert_eq!(48128, up.len());
    assert_eq!(1024, up[0]);
    assert_eq!(1025, up[1]);
    assert_eq!(49151, up[48127]);
    let down = PortRange::Dynamic.ports_descending();
    assert_eq!(16384, down.len());
    assert_eq!(65535, down[0]);
    assert_eq!(65534, down[1]);
    assert_eq!(49152, down[16383]);
    let mut back = PortRange::Dynamic.ports_ascending();
    back.reverse();
    assert_eq!(down, back);
}

#[test]
fn first_available_follows_the_order_it_is_given() {
    let order = vec![7, 3, 9, 3, 5];
    assert_eq!(Some(7), first_available(&order, &|_| true));
    assert_eq!(Some(9), first_available(&order, &|port| port > 7));
    assert_eq!(Some(3), first_available(&order, &|port| port < 6));
    assert_eq!(None, first_available(&order, &|port| port > 9));
    assert_eq!(None, first_available(&vec![], &|_| true));
}

#[test]
fn first_available_asks_no_further_than_it_must() {
    let order = vec![7, 3, 9, 3, 5];
    let asked = Cell::new(0usize);
    let port = first_available(&order, &|port| {
        asked.set(asked.get() + 1);
        port == 9
    });
    assert_eq!(Some(9), port);
    assert_eq!(3, asked.get());
}

#[test]
fn first_n_available_follows_the_order_it_is_given() {
    let order = vec![7, 3, 9, 3, 5];
    assert_eq!(Ok(vec![7, 3]), first_n_available(&order, 2, &|_| true));
    assert_eq!(Ok(vec![3, 3, 5]), first_n_available(&order, 3, &|port| port < 6));
    assert_eq!(Ok(vec![7, 3, 9, 3, 5]), first_n_available(&order, 5, &|_| true));
    assert_eq!(Ok(vec![]), first_n_available(&order, 0, &|_| false));
    assert_eq!(
        Err(DynaportError::NotEnoughPorts { wanted: 6, got: 5 }),
        first_n_available(&order, 6, &|_| true)
    );
    assert_eq!(
        Err(DynaportError::NotEnoughPorts { wanted: 3, got: 2 }),
        first_n_available(&order, 3, &|port| port > 6)
    );
    assert_eq!(
        Err(DynaportError::NotEnoughPorts { wanted: 1, got: 0 }),
        first_n_available(&vec![], 1, &|_| true)
    );
}

#[test]
fn first_n_available_asks_no_further_than_it_must() {
    let order = vec![7, 3, 9, 3, 5];
    let asked = Cell::new(0usize);
    let ports = first_n_available(&order, 2, &|port| {
        asked.set(asked.get() + 1);
        port != 7
    });
    assert_eq!(Ok(vec![3, 9]), ports);
    assert_eq!(3, asked.get());
}

#[test]
fn queries_on_a_range_agree_with_the_named_ones() {
    let held = [1024, 49151, 49152, 65535];
    let probe = |port: usize| !held.contains(&port);
    assert_eq!(Some(1025), lowest_port(PortRange::Registered, &probe));
    assert_eq!(Some(49150), highest_port(PortRange::Registered, &probe));
    assert_eq!(Some(49153), lowest_port(PortRange::Dynamic, &probe));
    assert_eq!(Some(65534), highest_port(PortRange::Dynamic, &probe));
    assert_eq!(Ok(vec![1025, 1026]), lowest_n_ports(PortRange::Registered, 2, &probe));
    assert_eq!(Ok(vec![49150, 49149]), highest_n_ports(PortRange::Registered, 2, &probe));
    assert_eq!(Ok(vec![49153, 49154]), lowest_n_ports(PortRange::Dynamic, 2, &probe));
    assert_eq!(Ok(vec![65534, 65533]), highest_n_ports(PortRange::Dynamic, 2, &probe));
}

#[test]
fn random_queries_on_a_range_stay_in_it() {
    for range in [PortRange::Registered, PortRange::Dynamic] {
        let port = random_port(range, |_| true).unwrap();
        assert!(range.contains(port));
        let ports = random_n_ports(range, 10, |_| true).unwrap();
        assert_eq!(10, ports.len());
        for port in ports {
            assert!(range.contains(port));
        }
    }
}

#[test]
fn random_queries_ask_about_each_port_at_most_once() {
    let asked = Cell::new(0usize);
    let port = random_port(PortRange::Dynamic, |_| {
        asked.set(asked.get() + 1);
        false
    });
    assert_eq!(None, port);
    assert_eq!(16384, asked.get());
}

#[test]
fn not_enough_ports_holds_what_was_wanted_and_got() {
    let error = lowest_n_ports(PortRange::Dynamic, 3, |port| port == 50000).unwrap_err();
    assert_eq!(DynaportError::NotEnoughPorts { wanted: 3, got: 1 }, error);
    assert_ne!(DynaportError::NotEnoughPorts { wanted: 3, got: 2 }, error);
    let DynaportError::NotEnoughPorts { wanted, got } = error;
    assert_eq!(3, wanted);
    assert_eq!(1, got);
}
