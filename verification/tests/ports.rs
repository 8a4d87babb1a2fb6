use node_addr::ports::normalize;

#[test]
fn normalize_sorts_and_drops_repeats() {
    assert_eq!(normalize(&vec![9, 6]), vec![6, 9]);
    assert_eq!(normalize(&vec![5, 6, 5]), vec![5, 6]);
    assert_eq!(normalize(&vec![3, 3, 2, 2, 1, 1]), vec![1, 2, 3]);
}

#[test]
fn normalize_of_nothing_is_nothing() {
    assert_eq!(normalize(&vec![]), Vec::<u16>::new());
}

#[test]
fn normalize_of_one_port_is_that_port() {
    assert_eq!(normalize(&vec![543]), vec![543]);
}

#[test]
fn normalize_twice_is_normalize_once() {
    let once = normalize(&vec![40, 10, 30, 10, 20, 40]);
    let twice = normalize(&once);

    assert_eq!(once, vec![10, 20, 30, 40]);
    assert_eq!(twice, once);
}

#[test]
fn normalize_keeps_the_ends_of_the_port_range() {
    assert_eq!(normalize(&vec![65535, 0, 65535, 0, 1, 65534]), vec![0, 1, 65534, 65535]);
}

#[test]
fn normalize_of_an_odd_number_of_ports() {
    assert_eq!(normalize(&vec![7, 1, 5, 3, 9, 1, 7]), vec![1, 3, 5, 7, 9]);
}
