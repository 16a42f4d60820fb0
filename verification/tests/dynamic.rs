use dynaport::{
    highest_dynamic_port, highest_n_dynamic_ports, lowest_dynamic_port, lowest_n_dynamic_ports,
    random_dynamic_port, random_n_dynamic_ports, DynaportError, PortRange,
};

#[test]
fn test_random_dynamic_port() {
    let port = random_dynamic_port(|_| true).unwrap();
    assert!(PortRange::Dynamic.contains(port));
    assert!((49152..=65535).contains(&port));
}

#[test]
fn test_lowest_dynamic_port() {
    let mut listeners: Vec<usize> = vec![];

    for expected_port in [49152, 49153, 49154] {
        assert_eq!(Some(expected_port), lowest_dynamic_port(|port| !listeners.contains(&port)));

        listeners.push(expected_port);
    }
}

#[test]
fn test_lowest_n_dynamic_ports() {
    assert_eq!(Ok(vec![49152, 49153, 49154]), lowest_n_dynamic_ports(3, |_| true));
}

#[test]
fn test_highest_dynamic_port() {
    let mut listeners: Vec<usize> = vec![];

    for expected_port in [65535, 65534, 65533] {
        assert_eq!(Some(expected_port), highest_dynamic_port(|port| !listeners.contains(&port)));

        listeners.push(expected_port);
    }
}

#[test]
fn test_highest_n_dynamic_ports() {
    assert_eq!(Ok(vec![65535, 65534, 65533]), highest_n_dynamic_ports(3, |_| true));
}

#[test]
fn dynamic_queries_return_nothing_when_all_is_held() {
    assert_eq!(None, lowest_dynamic_port(|_| false));
    assert_eq!(None, highest_dynamic_port(|_| false));
    assert_eq!(None, random_dynamic_port(|_| false));
}

#[test]
fn dynamic_queries_never_ask_about_another_range() {
    let inside = |port: usize| {
        assert!((49152..=65535).contains(&port));
        false
    };
    assert_eq!(None, lowest_dynamic_port(&inside));
    assert_eq!(None, highest_dynamic_port(&inside));
    assert_eq!(None, random_dynamic_port(&inside));
    let nothing = Err(DynaportError::NotEnoughPorts { wanted: 2, got: 0 });
    assert_eq!(nothing, lowest_n_dynamic_ports(2, &inside));
    assert_eq!(nothing, highest_n_dynamic_ports(2, &inside));
    assert_eq!(nothing, random_n_dynamic_ports(2, &inside));
}

#[test]
fn dynamic_queries_skip_held_ports() {
    let held = [49152, 49153, 65535];
    let probe = |port: usize| !held.contains(&port);
    assert_eq!(Some(49154), lowest_dynamic_port(&probe));
    assert_eq!(Some(65534), highest_dynamic_port(&probe));
    assert_eq!(Ok(vec![49154, 49155]), lowest_n_dynamic_ports(2, &probe));
    assert_eq!(Ok(vec![65534, 65533]), highest_n_dynamic_ports(2, &probe));
}

#[test]
fn asking_for_more_than_the_dynamic_range_holds_fails() {
    let short = Err(DynaportError::NotEnoughPorts { wanted: 16385, got: 16384 });
    assert_eq!(short, lowest_n_dynamic_ports(16385, |_| true));
    assert_eq!(short, highest_n_dynamic_ports(16385, |_| true));
    assert_eq!(short, random_n_dynamic_ports(16385, |_| true));
    assert_eq!(16384, lowest_n_dynamic_ports(16384, |_| true).unwrap().len());
}

#[test]
fn random_dynamic_port_draws_from_the_free_ports() {
    let free = [50000, 60000];
    for _ in 0..8 {
        let port = random_dynamic_port(|port| free.contains(&port)).unwrap();
        assert!(free.contains(&port));
    }
}

#[test]
fn random_dynamic_port_does_not_keep_the_order_of_the_range() {
    let mut moved = false;
    for _ in 0..16 {
        if random_dynamic_port(|_| true) != Some(49152) {
            moved = true;
        }
    }
    assert!(moved);
}

#[test]
fn random_n_dynamic_ports_returns_distinct_free_ports() {
    let ports = random_n_dynamic_ports(50, |port| port % 3 == 0).unwrap();
    assert_eq!(50, ports.len());
    for (at, port) in ports.iter().enumerate() {
        assert!(PortRange::Dynamic.contains(*port));
        assert_eq!(0, port % 3);
        assert!(!ports[..at].contains(port));
    }
}
