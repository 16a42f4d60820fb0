use std::cell::Cell;

use dynaport::{
    highest_n_registered_ports, highest_registered_port, lowest_n_registered_ports,
    lowest_registered_port, random_n_registered_ports, random_registered_port, DynaportError,
    PortRange,
};

#[test]
fn test_random_registered_port() {
    let port = random_registered_port(|_| true).unwrap();
    assert!(PortRange::Registered.contains(port));
    assert!((1024..=49151).contains(&port));
}

#[test]
fn test_lowest_registered_port() {
    let mut listeners: Vec<usize> = vec![];

    for expected_port in [1024, 1025, 1026] {
        assert_eq!(
            Some(expected_port),
            lowest_registered_port(|port| !listeners.contains(&port))
        );

        listeners.push(expected_port);
    }
}

#[test]
fn test_lowest_n_registered_ports() {
    assert_eq!(Ok(vec![1024, 1025, 1026]), lowest_n_registered_ports(3, |_| true));
}

#[test]
fn test_highest_registered_port() {
    let mut listeners: Vec<usize> = vec![];

    for expected_port in [49151, 49150, 49149] {
        assert_eq!(
            Some(expected_port),
            highest_registered_port(|port| !listeners.contains(&port))
        );

        listeners.push(expected_port);
    }
}

#[test]
fn test_highest_n_registered_ports() {
    assert_eq!(Ok(vec![49151, 49150, 49149]), highest_n_registered_ports(3, |_| true));
}

#[test]
fn lowest_registered_port_skips_held_ports() {
    let held = [1024, 1025, 1026];
    assert_eq!(Some(1027), lowest_registered_port(|port| !held.contains(&port)));
}

#[test]
fn highest_registered_port_skips_held_ports() {
    let held = [49151, 49150, 49149];
    assert_eq!(Some(49148), highest_registered_port(|port| !held.contains(&port)));
}

#[test]
fn single_port_queries_return_nothing_when_all_is_held() {
    assert_eq!(None, lowest_registered_port(|_| false));
    assert_eq!(None, highest_registered_port(|_| false));
    assert_eq!(None, random_registered_port(|_| false));
}

#[test]
fn single_port_queries_find_the_only_free_port() {
    assert_eq!(Some(30000), lowest_registered_port(|port| port == 30000));
    assert_eq!(Some(30000), highest_registered_port(|port| port == 30000));
    assert_eq!(Some(30000), random_registered_port(|port| port == 30000));
}

#[test]
fn lowest_registered_port_stops_at_the_first_free_port() {
    let asked = Cell::new(0usize);
    let port = lowest_registered_port(|port| {
        asked.set(asked.get() + 1);
        port >= 1030
    });
    assert_eq!(Some(1030), port);
    assert_eq!(7, asked.get());
}

#[test]
fn highest_registered_port_stops_at_the_first_free_port() {
    let asked = Cell::new(0usize);
    let port = highest_registered_port(|port| {
        asked.set(asked.get() + 1);
        port <= 49141
    });
    assert_eq!(Some(49141), port);
    assert_eq!(11, asked.get());
}

#[test]
fn lowest_n_registered_ports_skips_held_ports() {
    let held = [1024, 1026, 1027];
    assert_eq!(
        Ok(vec![1025, 1028, 1029, 1030]),
        lowest_n_registered_ports(4, |port| !held.contains(&port))
    );
}

#[test]
fn highest_n_registered_ports_skips_held_ports() {
    let held = [49151, 49149];
    assert_eq!(
        Ok(vec![49150, 49148, 49147]),
        highest_n_registered_ports(3, |port| !held.contains(&port))
    );
}

#[test]
fn lowest_n_registered_ports_reports_how_many_were_free() {
    let free = [2000, 3000, 40000];
    assert_eq!(
        Err(DynaportError::NotEnoughPorts { wanted: 4, got: 3 }),
        lowest_n_registered_ports(4, |port| free.contains(&port))
    );
    assert_eq!(
        Ok(vec![2000, 3000, 40000]),
        lowest_n_registered_ports(3, |port| free.contains(&port))
    );
}

#[test]
fn highest_n_registered_ports_reports_how_many_were_free() {
    let free = [2000, 3000, 40000];
    assert_eq!(
        Err(DynaportError::NotEnoughPorts { wanted: 5, got: 3 }),
        highest_n_registered_ports(5, |port| free.contains(&port))
    );
    assert_eq!(
        Ok(vec![40000, 3000, 2000]),
        highest_n_registered_ports(3, |port| free.contains(&port))
    );
}

#[test]
fn n_port_queries_fail_when_all_is_held() {
    let nothing = Err(DynaportError::NotEnoughPorts { wanted: 1, got: 0 });
    assert_eq!(nothing, lowest_n_registered_ports(1, |_| false));
    assert_eq!(nothing, highest_n_registered_ports(1, |_| false));
    assert_eq!(nothing, random_n_registered_ports(1, |_| false));
}

#[test]
fn asking_for_more_than_the_range_holds_fails() {
    let short = Err(DynaportError::NotEnoughPorts { wanted: 48129, got: 48128 });
    assert_eq!(short, lowest_n_registered_ports(48129, |_| true));
    assert_eq!(short, highest_n_registered_ports(48129, |_| true));
    assert_eq!(short, random_n_registered_ports(48129, |_| true));
    assert_eq!(
        Err(DynaportError::NotEnoughPorts { wanted: usize::MAX, got: 48128 }),
        lowest_n_registered_ports(usize::MAX, |_| true)
    );
}

#[test]
fn asking_for_the_whole_range_succeeds() {
    let lowest = lowest_n_registered_ports(48128, |_| true).unwrap();
    assert_eq!(48128, lowest.len());
    assert_eq!(1024, lowest[0]);
    assert_eq!(49151, lowest[48127]);
    let highest = highest_n_registered_ports(48128, |_| true).unwrap();
    assert_eq!(48128, highest.len());
    assert_eq!(49151, highest[0]);
    assert_eq!(1024, highest[48127]);
}

#[test]
fn the_last_port_of_the_walk_may_complete_the_request() {
    let free = [1024, 49151];
    assert_eq!(
        Ok(vec![1024, 49151]),
        lowest_n_registered_ports(2, |port| free.contains(&port))
    );
    assert_eq!(
        Ok(vec![49151, 1024]),
        highest_n_registered_ports(2, |port| free.contains(&port))
    );
}

#[test]
fn asking_for_no_port_asks_the_probe_nothing() {
    let asked = Cell::new(0usize);
    let probe = |_: usize| {
        asked.set(asked.get() + 1);
        true
    };
    assert_eq!(Ok(vec![]), lowest_n_registered_ports(0, &probe));
    assert_eq!(Ok(vec![]), highest_n_registered_ports(0, &probe));
    assert_eq!(Ok(vec![]), random_n_registered_ports(0, &probe));
    assert_eq!(0, asked.get());
}

#[test]
fn n_port_queries_stop_once_they_have_enough() {
    let asked = Cell::new(0usize);
    let ports = lowest_n_registered_ports(3, |port| {
        asked.set(asked.get() + 1);
        port % 2 == 1
    });
    assert_eq!(Ok(vec![1025, 1027, 1029]), ports);
    assert_eq!(6, asked.get());
}

#[test]
fn deterministic_queries_repeat_themselves() {
    let held = [1024, 1025, 49151, 30000];
    let probe = |port: usize| !held.contains(&port);
    assert_eq!(lowest_registered_port(&probe), lowest_registered_port(&probe));
    assert_eq!(highest_registered_port(&probe), highest_registered_port(&probe));
    assert_eq!(lowest_n_registered_ports(5, &probe), lowest_n_registered_ports(5, &probe));
    assert_eq!(highest_n_registered_ports(5, &probe), highest_n_registered_ports(5, &probe));
    assert_eq!(Some(1026), lowest_registered_port(&probe));
    assert_eq!(Some(49150), highest_registered_port(&probe));
}

#[test]
fn random_registered_port_draws_from_the_free_ports() {
    let free = [1500, 2500, 3500];
    for _ in 0..8 {
        let port = random_registered_port(|port| free.contains(&port)).unwrap();
        assert!(free.contains(&port));
    }
}

#[test]
fn random_registered_port_does_not_keep_the_order_of_the_range() {
    let mut moved = false;
    for _ in 0..16 {
        if random_registered_port(|_| true) != Some(1024) {
            moved = true;
        }
    }
    assert!(moved);
}

#[test]
fn random_n_registered_ports_returns_distinct_free_ports() {
    let ports = random_n_registered_ports(100, |port| port % 2 == 0).unwrap();
    assert_eq!(100, ports.len());
    for (at, port) in ports.iter().enumerate() {
        assert!(PortRange::Registered.contains(*port));
        assert_eq!(0, port % 2);
        assert!(!ports[..at].contains(port));
    }
}

#[test]
fn random_n_registered_ports_reports_how_many_were_free() {
    let free = [1024, 2048, 4096];
    assert_eq!(
        Err(DynaportError::NotEnoughPorts { wanted: 4, got: 3 }),
        random_n_registered_ports(4, |port| free.contains(&port))
    );
    let mut found = random_n_registered_ports(3, |port| free.contains(&port)).unwrap();
    found.sort();
    assert_eq!(vec![1024, 2048, 4096], found);
}

#[test]
fn random_n_registered_ports_does_not_keep_the_order_of_the_range() {
    let mut moved = false;
    for _ in 0..4 {
        if random_n_registered_ports(4, |_| true) != Ok(vec![1024, 1025, 1026, 1027]) {
            moved = true;
        }
    }
    assert!(moved);
}
