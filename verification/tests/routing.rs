use minihttp::method::HttpMethod;
use minihttp::route::{Router, RoutingTreeNode};

#[test]
fn lookup_on_a_fresh_router_always_yields_the_not_found_action() {
    let r: Router<u32> = Router::new(0);
    assert_eq!(r.get(HttpMethod::Get, b"/"), 0);
    assert_eq!(r.get(HttpMethod::Post, b"/a/b/c"), 0);
    assert_eq!(r.get(HttpMethod::Delete, b""), 0);
}

#[test]
fn registration_is_idempotent_and_the_last_handler_wins() {
    let mut r: Router<u32> = Router::new(0);
    r.add(HttpMethod::Get, "/a/b", 1);
    r.add(HttpMethod::Get, "/a/c", 2);
    r.add(HttpMethod::Get, "/a/b", 3);
    // only the second registration of /a/b is reachable
    assert_eq!(r.get(HttpMethod::Get, b"/a/b"), 3);
    // the sibling path is unaffected
    assert_eq!(r.get(HttpMethod::Get, b"/a/c"), 2);
}

#[test]
fn routing_is_exact_with_no_prefix_matching() {
    let mut r: Router<u32> = Router::new(0);
    r.add(HttpMethod::Get, "/a/b", 7);
    assert_eq!(r.get(HttpMethod::Get, b"/a/b"), 7);
    // a trailing separator normalizes away
    assert_eq!(r.get(HttpMethod::Get, b"/a/b/"), 7);
    // an ancestor created along the way carries the not-found action
    assert_eq!(r.get(HttpMethod::Get, b"/a"), 0);
    // a longer path never partially matches a prefix
    assert_eq!(r.get(HttpMethod::Get, b"/a/b/c"), 0);
}

#[test]
fn each_verb_has_its_own_tree() {
    let mut r: Router<u32> = Router::new(0);
    r.add(HttpMethod::Get, "/x", 1);
    r.add(HttpMethod::Post, "/x", 2);
    assert_eq!(r.get(HttpMethod::Get, b"/x"), 1);
    assert_eq!(r.get(HttpMethod::Post, b"/x"), 2);
    assert_eq!(r.get(HttpMethod::Put, b"/x"), 0);
    assert_eq!(r.get(HttpMethod::Patch, b"/x"), 0);
    assert_eq!(r.get(HttpMethod::Delete, b"/x"), 0);
}

#[test]
fn the_root_path_is_routable() {
    let mut r: Router<u32> = Router::new(0);
    r.add(HttpMethod::Get, "/", 5);
    assert_eq!(r.get(HttpMethod::Get, b"/"), 5);
    assert_eq!(r.get(HttpMethod::Get, b""), 5);
    assert_eq!(r.get(HttpMethod::Get, b"/other"), 0);
}

#[test]
fn a_tree_node_resolves_its_own_action_or_misses() {
    let mut n: RoutingTreeNode<u32> = RoutingTreeNode::new(0);
    let segs: Vec<Vec<u8>> = vec![b"a".to_vec(), b"b".to_vec()];
    n.add(&segs, 0, 9, 0);
    assert_eq!(n.get(&segs, 0), Some(9));
    let other: Vec<Vec<u8>> = vec![b"a".to_vec(), b"z".to_vec()];
    assert_eq!(n.get(&other, 0), None);
    let ancestor: Vec<Vec<u8>> = vec![b"a".to_vec()];
    assert_eq!(n.get(&ancestor, 0), Some(0));
}
