use block_import::hash::H256;
use block_import::route::{aggregate_routes, ImportRoute};

fn h(n: u64) -> H256 {
    H256::from_low_u64(n)
}

fn route(enacted: &[u64], retracted: &[u64]) -> ImportRoute {
    ImportRoute {
        enacted: enacted.iter().map(|n| h(*n)).collect(),
        retracted: retracted.iter().map(|n| h(*n)).collect(),
        omitted: vec![],
    }
}

#[test]
fn aggregate_of_nothing_is_empty() {
    let (enacted, retracted) = aggregate_routes(&[]);
    assert!(enacted.is_empty());
    assert!(retracted.is_empty());
}

#[test]
fn aggregate_of_one_route_is_the_route() {
    let r = route(&[4, 5, 6], &[2, 3]);
    let (enacted, retracted) = aggregate_routes(&[r]);
    assert_eq!(enacted, vec![h(4), h(5), h(6)]);
    assert_eq!(retracted, vec![h(2), h(3)]);
}

#[test]
fn later_label_wins() {
    // 2 is enacted and then retracted, 3 is retracted and then enacted.
    let routes = [route(&[1, 2], &[3]), route(&[3, 4], &[2])];
    let (enacted, retracted) = aggregate_routes(&routes);
    assert_eq!(enacted, vec![h(1), h(3), h(4)]);
    assert_eq!(retracted, vec![h(2)]);
}

#[test]
fn route_then_inverse_swaps_the_labels() {
    let routes = [route(&[1, 2], &[3]), route(&[3], &[1, 2])];
    let (enacted, retracted) = aggregate_routes(&routes);
    assert_eq!(enacted, vec![h(3)]);
    assert_eq!(retracted, vec![h(1), h(2)]);
}

#[test]
fn empty_route_then_inverse_is_empty() {
    let routes = [route(&[], &[]), route(&[], &[])];
    let (enacted, retracted) = aggregate_routes(&routes);
    assert!(enacted.is_empty());
    assert!(retracted.is_empty());
}

#[test]
fn aggregate_names_each_hash_once() {
    let routes = [route(&[1, 1, 2], &[]), route(&[2], &[1])];
    let (enacted, retracted) = aggregate_routes(&routes);
    assert_eq!(enacted, vec![h(2)]);
    assert_eq!(retracted, vec![h(1)]);
}

#[test]
fn omitted_takes_no_part() {
    let r = ImportRoute { enacted: vec![], retracted: vec![], omitted: vec![h(9)] };
    let (enacted, retracted) = aggregate_routes(&[r]);
    assert!(enacted.is_empty());
    assert!(retracted.is_empty());
}

#[test]
fn none_route_is_empty() {
    let r = ImportRoute::none();
    assert!(r.enacted.is_empty() && r.retracted.is_empty() && r.omitted.is_empty());
}
