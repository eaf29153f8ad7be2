use scylla_core::policy::{ClusterData, DcAwareRoundRobinPolicy, Node, Plan};

fn node(addr: &str, dc: Option<&str>) -> Node {
    Node {
        address: addr.to_string(),
        datacenter: dc.map(|d| d.to_string()),
        rack: None,
    }
}

fn three_nodes() -> ClusterData {
    ClusterData::new(vec![
        node("10.0.0.1:9042", Some("dc1")),
        node("10.0.0.2:9042", Some("dc1")),
        node("10.0.0.3:9042", Some("dc2")),
    ])
}

#[test]
fn two_calls_rotate_local_nodes() {
    let cluster = three_nodes();
    let mut policy = DcAwareRoundRobinPolicy::new("dc1".to_string());
    assert_eq!(policy.plan(&cluster), vec![0, 1, 2]);
    assert_eq!(policy.plan(&cluster), vec![1, 0, 2]);
    assert_eq!(policy.plan(&cluster), vec![0, 1, 2]);
}

#[test]
fn remote_nodes_left_out_when_disabled() {
    let cluster = three_nodes();
    let mut policy = DcAwareRoundRobinPolicy::new("dc1".to_string());
    policy.set_include_remote_nodes(false);
    assert_eq!(policy.plan(&cluster), vec![0, 1]);
    assert_eq!(policy.plan(&cluster), vec![1, 0]);
}

#[test]
fn remote_group_rotates_on_its_own() {
    let cluster = ClusterData::new(vec![
        node("a", Some("dc2")),
        node("b", Some("dc1")),
        node("c", Some("dc3")),
        node("d", None),
    ]);
    let mut policy = DcAwareRoundRobinPolicy::new("dc1".to_string());
    assert_eq!(policy.plan(&cluster), vec![1, 0, 2, 3]);
    assert_eq!(policy.plan(&cluster), vec![1, 2, 3, 0]);
    assert_eq!(policy.plan(&cluster), vec![1, 3, 0, 2]);
    assert_eq!(policy.plan(&cluster), vec![1, 0, 2, 3]);
}

#[test]
fn unlabelled_node_is_never_local() {
    let cluster = ClusterData::new(vec![node("a", None), node("b", Some("DC1")), node("c", Some("dc1"))]);
    let mut policy = DcAwareRoundRobinPolicy::new("dc1".to_string());
    for _ in 0..5 {
        let p = policy.plan(&cluster);
        assert_eq!(p[0], 2);
        assert_eq!(p.len(), 3);
    }
    policy.set_include_remote_nodes(false);
    assert_eq!(policy.plan(&cluster), vec![2]);
}

#[test]
fn no_local_nodes_gives_remote_only_or_empty() {
    let cluster = ClusterData::new(vec![node("a", Some("dc2")), node("b", Some("dc3"))]);
    let mut policy = DcAwareRoundRobinPolicy::new("dc1".to_string());
    assert_eq!(policy.plan(&cluster), vec![0, 1]);
    assert_eq!(policy.plan(&cluster), vec![1, 0]);
    policy.set_include_remote_nodes(false);
    assert!(policy.plan(&cluster).is_empty());
}

#[test]
fn empty_and_single_node_clusters() {
    let mut policy = DcAwareRoundRobinPolicy::new("dc1".to_string());
    assert!(policy.plan(&ClusterData::new(vec![])).is_empty());
    let one = ClusterData::new(vec![node("a", Some("dc1"))]);
    for _ in 0..4 {
        assert_eq!(policy.plan(&one), vec![0]);
    }
}

#[test]
fn first_position_is_shared_fairly() {
    let cluster = ClusterData::new(vec![
        node("a", Some("dc1")),
        node("b", Some("dc1")),
        node("c", Some("dc1")),
    ]);
    let mut policy = DcAwareRoundRobinPolicy::new("dc1".to_string());
    policy.set_include_remote_nodes(false);
    let mut counts = [0usize; 3];
    for _ in 0..7 {
        counts[policy.plan(&cluster)[0]] += 1;
    }
    assert_eq!(counts, [3, 2, 2]);
}

#[test]
fn child_policy_matches_direct_plan() {
    let cluster = three_nodes();
    let mut direct = DcAwareRoundRobinPolicy::new("dc1".to_string());
    let mut child = DcAwareRoundRobinPolicy::new("dc1".to_string());
    for _ in 0..4 {
        let expected = direct.plan(&cluster);
        assert_eq!(child.apply_child_policy(&cluster, vec![0, 1, 2]), expected);
    }
}

#[test]
fn child_policy_shares_the_counter() {
    let cluster = three_nodes();
    let mut policy = DcAwareRoundRobinPolicy::new("dc1".to_string());
    assert_eq!(policy.apply_child_policy(&cluster, vec![2, 1, 0]), vec![1, 0, 2]);
    assert_eq!(policy.plan(&cluster), vec![1, 0, 2]);
    assert_eq!(policy.apply_child_policy(&cluster, vec![2, 0, 1]), vec![0, 1, 2]);
}

#[test]
fn policy_name() {
    let policy = DcAwareRoundRobinPolicy::new("dc1".to_string());
    assert_eq!(policy.name(), "DcAwareRoundRobinPolicy");
}

#[test]
fn local_node_test() {
    let dc = "dc1".to_string();
    assert!(DcAwareRoundRobinPolicy::is_local_node(&node("a", Some("dc1")), &dc));
    assert!(!DcAwareRoundRobinPolicy::is_local_node(&node("a", Some("dc2")), &dc));
    assert!(!DcAwareRoundRobinPolicy::is_local_node(&node("a", None), &dc));
}

#[test]
fn plan_is_handed_out_once() {
    let cluster = three_nodes();
    let mut policy = DcAwareRoundRobinPolicy::new("dc1".to_string());
    policy.plan(&cluster);
    let mut plan = Plan::new(policy.plan(&cluster));
    assert_eq!(plan.next(), Some(1));
    assert_eq!(plan.next(), Some(0));
    assert_eq!(plan.next(), Some(2));
    assert_eq!(plan.next(), None);
    assert_eq!(plan.next(), None);
}

#[test]
fn plan_at_fixed_counter_values() {
    let cluster = three_nodes();
    let policy = DcAwareRoundRobinPolicy::new("dc1".to_string());
    assert_eq!(policy.plan_at(0, &cluster), vec![0, 1, 2]);
    assert_eq!(policy.plan_at(1, &cluster), vec![1, 0, 2]);
    assert_eq!(policy.plan_at(usize::MAX, &cluster), vec![1, 0, 2]);
    assert_eq!(policy.apply_child_policy_at(1, &cluster, vec![0, 1, 2]), vec![1, 0, 2]);
    assert_eq!(policy.local_dc(), "dc1");
    assert!(policy.include_remote_nodes());
}

#[test]
fn fairness_from_any_start() {
    let cluster = ClusterData::new(vec![
        node("a", Some("dc1")),
        node("b", Some("dc2")),
        node("c", Some("dc1")),
        node("d", Some("dc1")),
    ]);
    let policy = DcAwareRoundRobinPolicy::new("dc1".to_string());
    for start in [0usize, 5, 1000, usize::MAX - 20] {
        let mut counts = [0usize; 4];
        for i in 0..8usize {
            counts[policy.plan_at(start + i, &cluster)[0]] += 1;
        }
        assert_eq!(counts[1], 0);
        let mut firsts: Vec<usize> = vec![counts[0], counts[2], counts[3]];
        firsts.sort();
        assert_eq!(firsts, vec![2, 3, 3]);
        let mut window = [0usize; 4];
        for i in 0..3usize {
            window[policy.plan_at(start + 7 + i, &cluster)[0]] += 1;
        }
        assert_eq!(window, [1, 0, 1, 1]);
    }
}

#[test]
fn child_policy_without_local_nodes() {
    let cluster = ClusterData::new(vec![node("a", Some("dc2")), node("b", None), node("c", Some("dc3"))]);
    let mut policy = DcAwareRoundRobinPolicy::new("dc1".to_string());
    assert_eq!(policy.apply_child_policy_at(4, &cluster, vec![2, 0, 1]), vec![0, 1, 2]);
    policy.set_include_remote_nodes(false);
    assert!(policy.apply_child_policy_at(4, &cluster, vec![2, 0, 1]).is_empty());
}

#[test]
fn plan_holds_each_node_once() {
    let cluster = ClusterData::new(vec![
        node("a", Some("dc2")),
        node("b", Some("dc1")),
        node("c", None),
        node("d", Some("dc1")),
        node("e", Some("dc3")),
    ]);
    let policy = DcAwareRoundRobinPolicy::new("dc1".to_string());
    for i in 0..7usize {
        let mut p = policy.plan_at(i, &cluster);
        p.sort();
        assert_eq!(p, vec![0, 1, 2, 3, 4]);
    }
}
