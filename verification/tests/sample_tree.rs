use spinsample::sample_node::SampleNode;
use spinsample::sample_point::SamplePoint;
use spinsample::thread_sample::ThreadSample;

#[test]
fn test_empty_node() {
    let node = SampleNode::new(1, 2);

    assert_eq!(node.level, 1);
    assert_eq!(node.address, 2);
    assert_eq!(node.count, 1);
}

#[test]
fn test_root_node() {
    let root_node = SampleNode::root_node();

    assert_eq!(root_node.count, 0);
    assert_eq!(root_node.address, 0);
}

#[test]
fn test_empty_sample() {
    let sample = SamplePoint::new(1, 2);

    assert_eq!(sample.level, 1);
    assert_eq!(sample.address, 2);
    assert_eq!(sample.count, 1);
}

#[test]
fn test_root_sample() {
    let root_sample = SamplePoint::root_sample();

    assert_eq!(root_sample.count, 0);
    assert_eq!(root_sample.address, 0);
}

#[test]
fn test_empty_thread_sample() {
    let thread_sample = ThreadSample::new(1, 0, 0);

    assert_eq!(thread_sample.thread_id, 1);
    assert_eq!(
        format!("{:?}", thread_sample),
        "ThreadSample { thread_id: 1, user_cpu_time: 0, kernel_cpu_time: 0, sample_tree: \
            TreeNode { value: SamplePoint { level: 0, address: 0, count: 0 }, children: [] } }"
    );
}

#[test]
fn test_thread_sample_with_backtrace() {
    let mut thread_sample = ThreadSample::new(1, 0, 0);

    thread_sample.add_backtrace(&vec![1, 2, 3]);

    assert_eq!(
        format!("{:?}", thread_sample),
        "ThreadSample { thread_id: 1, user_cpu_time: 0, kernel_cpu_time: 0, sample_tree: \
            TreeNode { value: SamplePoint { level: 0, address: 0, count: 1 }, children: [\
                TreeNode { value: SamplePoint { level: 1, address: 1, count: 1 }, children: [\
                    TreeNode { value: SamplePoint { level: 2, address: 2, count: 1 }, children: [\
                        TreeNode { value: SamplePoint { level: 3, address: 3, count: 1 }, children: [] }] }] }] } }"
    );
}

#[test]
fn test_thread_sample_backtrace_double() {
    let mut thread_sample = ThreadSample::new(1, 0, 0);

    thread_sample.add_backtrace(&vec![1, 2]);
    thread_sample.add_backtrace(&vec![1, 2]);

    assert_eq!(
        format!("{:?}", thread_sample),
        "ThreadSample { thread_id: 1, user_cpu_time: 0, kernel_cpu_time: 0, sample_tree: \
            TreeNode { value: SamplePoint { level: 0, address: 0, count: 2 }, children: [\
                TreeNode { value: SamplePoint { level: 1, address: 1, count: 2 }, children: [\
                    TreeNode { value: SamplePoint { level: 2, address: 2, count: 2 }, children: [] }] }] } }"
    );
}

#[test]
fn test_thread_sample_backtrace_fork() {
    let mut thread_sample = ThreadSample::new(1, 0, 0);

    thread_sample.add_backtrace(&vec![1, 2]);
    thread_sample.add_backtrace(&vec![1, 3]);

    assert_eq!(
        format!("{:?}", thread_sample),
        "ThreadSample { thread_id: 1, user_cpu_time: 0, kernel_cpu_time: 0, sample_tree: \
            TreeNode { value: SamplePoint { level: 0, address: 0, count: 2 }, children: [\
                TreeNode { value: SamplePoint { level: 1, address: 1, count: 2 }, children: [\
                    TreeNode { value: SamplePoint { level: 2, address: 2, count: 1 }, children: [] }, \
                    TreeNode { value: SamplePoint { level: 2, address: 3, count: 1 }, children: [] }] }] } }"
    );
}

#[test]
fn test_same_path_twice_counts() {
    let mut thread_sample = ThreadSample::new(7, 0, 0);

    thread_sample.add_backtrace(&vec![10, 20, 30]);
    thread_sample.add_backtrace(&vec![10, 20, 30]);

    let points = thread_sample.sample_tree_dfs_iter();
    assert_eq!(points.len(), 3);
    for (depth, point) in points.iter().enumerate() {
        assert_eq!(point.level as usize, depth + 1);
        assert_eq!(point.count, 2);
    }
    assert_eq!(thread_sample.sample_tree.value.count, 2);
    assert_eq!(thread_sample.sample_tree.children.len(), 1);
}

#[test]
fn test_fork_shares_prefix() {
    let mut thread_sample = ThreadSample::new(7, 0, 0);

    thread_sample.add_backtrace(&vec![1, 2]);
    thread_sample.add_backtrace(&vec![1, 3]);

    let root = &thread_sample.sample_tree;
    assert_eq!(root.children.len(), 1);
    let shared = &root.children[0];
    assert_eq!(shared.value.level, 1);
    assert_eq!(shared.value.address, 1);
    assert_eq!(shared.value.count, 2);
    assert_eq!(shared.children.len(), 2);
    assert_eq!(shared.children[0].value.level, 2);
    assert_eq!(shared.children[0].value.address, 2);
    assert_eq!(shared.children[0].value.count, 1);
    assert_eq!(shared.children[1].value.level, 2);
    assert_eq!(shared.children[1].value.address, 3);
    assert_eq!(shared.children[1].value.count, 1);
}

#[test]
fn test_root_count_rises_once_per_sample() {
    let mut thread_sample = ThreadSample::new(3, 0, 0);
    assert_eq!(thread_sample.sample_tree.value.level, 0);
    assert_eq!(thread_sample.sample_tree.value.address, 0);
    assert_eq!(thread_sample.sample_tree.value.count, 0);
    assert!(thread_sample.sample_tree.children.is_empty());

    thread_sample.add_backtrace(&vec![]);
    assert_eq!(thread_sample.sample_tree.value.count, 1);
    assert!(thread_sample.sample_tree.children.is_empty());

    thread_sample.add_backtrace(&vec![5, 6]);
    assert_eq!(thread_sample.sample_tree.value.count, 2);

    thread_sample.add_backtrace(&vec![5]);
    assert_eq!(thread_sample.sample_tree.value.count, 3);
}

#[test]
fn test_dfs_preorder_discovery_order() {
    let mut thread_sample = ThreadSample::new(1, 0, 0);

    // The second child discovered at the root has a larger address than the
    // third: the traversal must keep discovery order, not address order.
    thread_sample.add_backtrace(&vec![9, 1]);
    thread_sample.add_backtrace(&vec![4]);
    thread_sample.add_backtrace(&vec![9, 2]);

    let points = thread_sample.sample_tree_dfs_iter();
    let listed: Vec<(u32, u64, u32)> =
        points.iter().map(|p| (p.level, p.address, p.count)).collect();
    assert_eq!(listed, vec![(1, 9, 2), (2, 1, 1), (2, 2, 1), (1, 4, 1)]);
}
