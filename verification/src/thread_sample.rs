use vstd::prelude::*;

use crate::sample_point::SamplePoint;
use crate::Tid;

verus! {

/// A node of a per-thread call tree: one sample point and its children in
/// discovery order.
#[derive(Debug)]
pub struct TreeNode {
    pub value: SamplePoint,
    pub children: Vec<TreeNode>,
}

/// Spec-level image of a call tree: the same shape with mathematical
/// integers for level and count.
#[verifier::ext_equal]
pub ghost struct Tree {
    pub level: int,
    pub address: u64,
    pub count: int,
    pub children: Seq<Tree>,
}

/// The mathematical tree that a `TreeNode` denotes.
pub open spec fn tree_view(t: TreeNode) -> Tree
    decreases t, 0int,
{
    Tree {
        level: t.value.level as int,
        address: t.value.address,
        count: t.value.count as int,
        children: forest_view(t.children@, t.children@.len() as int),
    }
}

/// The mathematical trees that the first `n` nodes of a forest denote.
pub open spec fn forest_view(s: Seq<TreeNode>, n: int) -> Seq<Tree>
    decreases s, n,
{
    if n <= 0 || n > s.len() {
        Seq::empty()
    } else {
        forest_view(s, n - 1).push(tree_view(s[n - 1]))
    }
}

impl View for TreeNode {
    type V = Tree;

    open spec fn view(&self) -> Tree {
        tree_view(*self)
    }
}

pub proof fn lemma_forest_view(s: Seq<TreeNode>, n: int)
    requires
        0 <= n <= s.len(),
    ensures
        forest_view(s, n).len() == n,
        forall|i: int| 0 <= i < n ==> forest_view(s, n)[i] == tree_view(s[i]),
    decreases n,
{
    if n > 0 {
        lemma_forest_view(s, n - 1);
    }
}

/// The views of a forest and of the same forest with one node replaced
/// differ exactly at the replaced position.
pub proof fn lemma_forest_view_update(s: Seq<TreeNode>, k: int, node: TreeNode)
    requires
        0 <= k < s.len(),
    ensures
        forest_view(s.update(k, node), s.len() as int) =~= forest_view(
            s,
            s.len() as int,
        ).update(k, tree_view(node)),
{
    lemma_forest_view(s, s.len() as int);
    lemma_forest_view(s.update(k, node), s.len() as int);
}

/// The view of a forest with one node appended is the view of the forest
/// with the node's view appended.
pub proof fn lemma_forest_view_push(s: Seq<TreeNode>, node: TreeNode)
    ensures
        forest_view(s.push(node), s.len() as int + 1) =~= forest_view(s, s.len() as int).push(
            tree_view(node),
        ),
{
    lemma_forest_view(s, s.len() as int);
    lemma_forest_view(s.push(node), s.len() as int + 1);
    assert(s.push(node)[s.len() as int] == node);
    assert(forall|i: int| 0 <= i < s.len() ==> s.push(node)[i] == s[i]);
}

/// Whether some tree in `s` carries the given address.
pub open spec fn has_child(s: Seq<Tree>, address: u64) -> bool {
    exists|i: int| 0 <= i < s.len() && s[i].address == address
}

/// The index of the tree in `s` that carries the given address; meaningful
/// only when the addresses in `s` are distinct and one of them matches.
pub open spec fn child_at(s: Seq<Tree>, address: u64) -> int {
    choose|i: int| 0 <= i < s.len() && s[i].address == address
}

impl Tree {
    /// Well-formedness of a call (sub)tree: every child sits one level below
    /// its parent, no two children of a node share an address, and every
    /// child is itself well formed.
    pub open spec fn wf(self) -> bool
        decreases self,
    {
        forall|i: int|
            0 <= i < self.children.len() ==> {
                &&& (#[trigger] self.children[i]).level == self.level + 1
                &&& self.children[i].wf()
                &&& forall|j: int|
                    0 <= j < i ==> self.children[j].address != self.children[i].address
            }
    }

    /// The tree of a freshly created call tree: the synthetic root alone.
    pub open spec fn empty_root() -> Tree {
        Tree { level: 0, address: 0, count: 0, children: Seq::empty() }
    }

    /// The same tree with its own hit count incremented.
    pub open spec fn bump(self) -> Tree {
        Tree { count: self.count + 1, ..self }
    }

    /// Every hit count in the tree, the root's included, is at most `b`.
    pub open spec fn counts_at_most(self, b: int) -> bool
        decreases self,
    {
        &&& self.count <= b
        &&& forall|i: int|
            0 <= i < self.children.len() ==> (#[trigger] self.children[i]).counts_at_most(b)
    }

    /// Every hit count strictly below the root is at most `b`.
    pub open spec fn descendant_counts_at_most(self, b: int) -> bool {
        forall|i: int|
            0 <= i < self.children.len() ==> (#[trigger] self.children[i]).counts_at_most(b)
    }
}

/// A fresh branch for the path `path`: one node per address, each one level
/// below the previous, all carrying the hit count `count`.
pub open spec fn chain(level: int, path: Seq<u64>, count: int) -> Tree
    recommends
        path.len() > 0,
    decreases path.len(),
{
    Tree {
        level,
        address: path[0],
        count,
        children: if path.len() <= 1 {
            Seq::empty()
        } else {
            seq![chain(level + 1, path.drop_first(), count)]
        },
    }
}

/// Insertion of one root-to-leaf address path into a call tree: along the
/// longest prefix of `path` that already exists below `t`, every node's hit
/// count rises by one; the remainder of the path is appended as a fresh
/// branch with hit count one. `t`'s own fields are untouched.
pub open spec fn tree_insert(t: Tree, path: Seq<u64>) -> Tree
    decreases path.len(),
{
    if path.len() == 0 {
        t
    } else {
        let a = path[0];
        if has_child(t.children, a) {
            let i = child_at(t.children, a);
            Tree {
                children: t.children.update(
                    i,
                    tree_insert(t.children[i].bump(), path.drop_first()),
                ),
                ..t
            }
        } else {
            Tree { children: t.children.push(chain(t.level + 1, path, 1)), ..t }
        }
    }
}

/// In a forest with distinct addresses, an index whose tree matches the
/// address is the one that `child_at` selects.
pub proof fn lemma_child_at_unique(s: Seq<Tree>, address: u64, k: int)
    requires
        forall|i: int, j: int|
            0 <= j < i < s.len() ==> (#[trigger] s[j]).address != (#[trigger] s[i]).address,
        0 <= k < s.len(),
        s[k].address == address,
    ensures
        has_child(s, address),
        child_at(s, address) == k,
{
    assert(has_child(s, address));
    let i = child_at(s, address);
    if i < k {
        assert(s[i].address != s[k].address);
    } else if i > k {
        assert(s[k].address != s[i].address);
    }
}

/// A fresh branch is well formed, starts at the requested level, and
/// carries the path's first address.
pub proof fn lemma_chain_wf(level: int, path: Seq<u64>, count: int)
    requires
        path.len() > 0,
    ensures
        chain(level, path, count).wf(),
        chain(level, path, count).level == level,
        chain(level, path, count).address == path[0],
        count >= 0 ==> chain(level, path, count).counts_at_most(count),
    decreases path.len(),
{
    if path.len() > 1 {
        lemma_chain_wf(level + 1, path.drop_first(), count);
    }
}

/// Insertion keeps a call tree well formed, never touches the fields of the
/// node it starts from, and raises no hit count below that node by more
/// than one.
pub proof fn lemma_tree_insert_wf(t: Tree, path: Seq<u64>, b: int)
    requires
        t.wf(),
        t.descendant_counts_at_most(b),
        b >= 0,
    ensures
        tree_insert(t, path).wf(),
        tree_insert(t, path).level == t.level,
        tree_insert(t, path).address == t.address,
        tree_insert(t, path).count == t.count,
        tree_insert(t, path).descendant_counts_at_most(b + 1),
    decreases path.len(),
{
    if path.len() == 0 {
        assert forall|i: int| 0 <= i < t.children.len() implies (#[trigger] t.children[i]).counts_at_most(
            b + 1,
        ) by {
            lemma_counts_at_most_mono(t.children[i], b, b + 1);
        }
    } else {
        let a = path[0];
        let r = tree_insert(t, path);
        if has_child(t.children, a) {
            let i = child_at(t.children, a);
            assert(0 <= i < t.children.len() && t.children[i].address == a);
            let child = t.children[i];
            assert(child.wf());
            assert(child.counts_at_most(b));
            let bumped = child.bump();
            assert(bumped.children =~= child.children);
            assert(bumped.wf());
            assert(bumped.descendant_counts_at_most(b));
            lemma_tree_insert_wf(bumped, path.drop_first(), b);
            let sub = tree_insert(bumped, path.drop_first());
            assert(sub.counts_at_most(b + 1));
            assert(r.children =~= t.children.update(i, sub));
            assert forall|p: int| 0 <= p < r.children.len() implies {
                &&& (#[trigger] r.children[p]).level == r.level + 1
                &&& r.children[p].wf()
                &&& r.children[p].counts_at_most(b + 1)
                &&& forall|q: int| 0 <= q < p ==> r.children[q].address != r.children[p].address
            } by {
                if p != i {
                    assert(r.children[p] == t.children[p]);
                    lemma_counts_at_most_mono(t.children[p], b, b + 1);
                }
                assert forall|q: int| 0 <= q < p implies r.children[q].address
                    != r.children[p].address by {
                    if q != i {
                        assert(r.children[q] == t.children[q]);
                    }
                }
            }
            assert(r.wf());
        } else {
            let fresh = chain(t.level + 1, path, 1);
            lemma_chain_wf(t.level + 1, path, 1);
            assert(fresh.counts_at_most(1));
            lemma_counts_at_most_mono(fresh, 1, b + 1);
            assert(r.children =~= t.children.push(fresh));
            assert forall|p: int| 0 <= p < r.children.len() implies {
                &&& (#[trigger] r.children[p]).level == r.level + 1
                &&& r.children[p].wf()
                &&& r.children[p].counts_at_most(b + 1)
                &&& forall|q: int| 0 <= q < p ==> r.children[q].address != r.children[p].address
            } by {
                if p < t.children.len() {
                    assert(r.children[p] == t.children[p]);
                    lemma_counts_at_most_mono(t.children[p], b, b + 1);
                } else {
                    assert(r.children[p] == fresh);
                }
                assert forall|q: int| 0 <= q < p implies r.children[q].address
                    != r.children[p].address by {
                    assert(r.children[q] == t.children[q]);
                    if p == t.children.len() {
                        assert(!has_child(t.children, a));
                        assert(t.children[q].address != a);
                    }
                }
            }
            assert(r.wf());
        }
    }
}

/// A hit-count bound is monotone in the bound.
pub proof fn lemma_counts_at_most_mono(t: Tree, b1: int, b2: int)
    requires
        t.counts_at_most(b1),
        b1 <= b2,
    ensures
        t.counts_at_most(b2),
    decreases t,
{
    assert forall|i: int| 0 <= i < t.children.len() implies (#[trigger] t.children[i]).counts_at_most(
        b2,
    ) by {
        lemma_counts_at_most_mono(t.children[i], b1, b2);
    }
}

/// The index of the first child of `node` whose address is `address`, if any.
fn find_child_index(children: &Vec<TreeNode>, address: u64) -> (r: Option<usize>)
    ensures
        match r {
            Some(k) => {
                &&& k < children@.len()
                &&& children@[k as int].value.address == address
                &&& forall|j: int| 0 <= j < k ==> children@[j].value.address != address
            },
            None => forall|j: int|
                0 <= j < children@.len() ==> children@[j].value.address != address,
        },
{
    let n = children.len();
    let mut k: usize = 0;
    while k < n
        invariant
            n == children@.len(),
            k <= n,
            forall|j: int| 0 <= j < k ==> children@[j].value.address != address,
        decreases n - k,
    {
        if children[k].value.address == address {
            return Some(k);
        }
        k = k + 1;
    }
    None
}

/// Inserts the tail of `backtrace` that starts at `i` below `node`,
/// merging with the existing children by address and appending a fresh
/// branch where no child matches.
pub fn add_backtrace(node: &mut TreeNode, backtrace: &Vec<u64>, i: usize)
    requires
        i <= backtrace@.len(),
        old(node)@.wf(),
        old(node)@.descendant_counts_at_most(u32::MAX - 1),
        old(node).value.level + backtrace@.len() - i <= u32::MAX,
    ensures
        final(node)@ == tree_insert(old(node)@, backtrace@.skip(i as int)),
    decreases backtrace@.len() - i,
{
    proof {
        lemma_forest_view(old(node).children@, old(node).children@.len() as int);
    }
    if i >= backtrace.len() {
        proof {
            assert(backtrace@.skip(i as int) =~= Seq::<u64>::empty());
        }
        return ;
    }
    let ghost path = backtrace@.skip(i as int);
    proof {
        assert(path.len() > 0);
        assert(path[0] == backtrace@[i as int]);
        assert(path.drop_first() =~= backtrace@.skip(i as int + 1));
    }
    let address = backtrace[i];
    match find_child_index(&node.children, address) {
        Some(k) => {
            proof {
                assert forall|p: int, q: int|
                    0 <= q < p < old(node)@.children.len() implies (#[trigger] old(
                    node,
                )@.children[q]).address != (#[trigger] old(node)@.children[p]).address by {
                    assert(old(node)@.children[q] == tree_view(old(node).children@[q]));
                }
                lemma_child_at_unique(old(node)@.children, address, k as int);
            }
            let child = &mut node.children[k];
            proof {
                assert(child@ == old(node)@.children[k as int]);
                assert(child@.wf());
                assert(child@.counts_at_most(u32::MAX - 1));
            }
            child.value.increment_count();
            proof {
                assert(child@ =~= tree_view(old(node).children@[k as int]).bump());
            }
            add_backtrace(child, backtrace, i + 1);
            proof {
                assert(node.children@[k as int]@ == tree_insert(
                    tree_view(old(node).children@[k as int]).bump(),
                    backtrace@.skip(i as int + 1),
                ));
                assert(node.children@ =~= old(node).children@.update(
                    k as int,
                    node.children@[k as int],
                ));
                lemma_forest_view_update(old(node).children@, k as int, node.children@[k as int]);
                assert(node@ =~= tree_insert(old(node)@, path));
            }
        },
        None => {
            proof {
                assert forall|p: int|
                    0 <= p < old(node)@.children.len() implies (#[trigger] old(
                    node,
                )@.children[p]).address != address by {
                    assert(old(node)@.children[p] == tree_view(old(node).children@[p]));
                }
                assert(!has_child(old(node)@.children, address));
            }
            let level = node.value.level;
            let mut fresh = TreeNode {
                value: SamplePoint::new(level + 1, address),
                children: Vec::new(),
            };
            proof {
                assert(fresh@ =~= Tree {
                    level: level + 1,
                    address,
                    count: 1,
                    children: Seq::empty(),
                });
                assert(fresh@.wf());
            }
            add_backtrace(&mut fresh, backtrace, i + 1);
            proof {
                lemma_insert_into_leaf(level as int + 1, address, backtrace@.skip(i as int + 1));
                assert(seq![address] + backtrace@.skip(i as int + 1) =~= path);
                assert(fresh@ == chain(level as int + 1, path, 1));
            }
            let ghost fresh_snap = fresh;
            node.children.push(fresh);
            proof {
                lemma_forest_view_push(old(node).children@, fresh_snap);
                assert(node@ =~= tree_insert(old(node)@, path));
            }
        },
    }
}

/// Inserting a path below a fresh leaf grows exactly the fresh branch for
/// the leaf's own address followed by that path.
pub proof fn lemma_insert_into_leaf(level: int, address: u64, path: Seq<u64>)
    ensures
        tree_insert(
            Tree { level, address, count: 1, children: Seq::empty() },
            path,
        ) =~= chain(level, seq![address] + path, 1),
{
    let full = seq![address] + path;
    assert(full[0] == address);
    if path.len() == 0 {
        assert(full.len() == 1);
    } else {
        assert(full.drop_first() =~= path);
        assert(!has_child(Seq::empty(), path[0]));
        assert(tree_insert(Tree { level, address, count: 1, children: Seq::empty() }, path)
            =~= Tree {
            level,
            address,
            count: 1,
            children: Seq::empty().push(chain(level + 1, path, 1)),
        });
        assert(Seq::empty().push(chain(level + 1, path, 1)) =~= seq![chain(level + 1, path, 1)]);
    }
}

/// Inserting a path into a node whose only child is the unbranched chain
/// for that same path raises every count along the chain by one and grows
/// no new node.
pub proof fn lemma_insert_into_chain(t: Tree, path: Seq<u64>, c: int)
    requires
        path.len() > 0,
        t.children =~= seq![chain(t.level + 1, path, c)],
    ensures
        tree_insert(t, path) =~= (Tree {
            children: seq![chain(t.level + 1, path, c + 1)],
            ..t
        }),
    decreases path.len(),
{
    let a = path[0];
    let ch = chain(t.level + 1, path, c);
    lemma_chain_wf(t.level + 1, path, c);
    assert(t.children[0] == ch);
    assert(ch.address == a);
    lemma_child_at_unique(t.children, a, 0);
    let bumped = ch.bump();
    assert(tree_insert(t, path) =~= (Tree {
        children: t.children.update(0, tree_insert(bumped, path.drop_first())),
        ..t
    }));
    if path.len() == 1 {
        assert(path.drop_first().len() == 0);
        assert(tree_insert(bumped, path.drop_first()) == bumped);
        assert(bumped =~= chain(t.level + 1, path, c + 1));
        assert(t.children.update(0, bumped) =~= seq![chain(t.level + 1, path, c + 1)]);
    } else {
        assert(bumped.level == t.level + 1);
        assert(bumped.children =~= seq![chain(t.level + 2, path.drop_first(), c)]);
        lemma_insert_into_chain(bumped, path.drop_first(), c);
        assert(tree_insert(bumped, path.drop_first()) =~= (Tree {
            children: seq![chain(t.level + 2, path.drop_first(), c + 1)],
            ..bumped
        }));
        assert(tree_insert(bumped, path.drop_first()) =~= chain(t.level + 1, path, c + 1));
        assert(t.children.update(0, tree_insert(bumped, path.drop_first())) =~= seq![
            chain(t.level + 1, path, c + 1),
        ]);
    }
}

/// A fresh call tree after `n` samples of one and the same path.
pub open spec fn insert_repeated(path: Seq<u64>, n: nat) -> Tree
    decreases n,
{
    if n == 0 {
        Tree::empty_root()
    } else {
        tree_insert(insert_repeated(path, (n - 1) as nat).bump(), path)
    }
}

/// Inserting one and the same address path `n` times into a fresh call
/// tree yields a single unbranched chain in which every node's hit count
/// is exactly `n`, the root's included — no branching ever appears.
pub proof fn lemma_same_path_repeated(path: Seq<u64>, n: nat)
    ensures
        insert_repeated(path, n).level == 0,
        insert_repeated(path, n).address == 0,
        insert_repeated(path, n).count == n,
        (n == 0 || path.len() == 0) ==> insert_repeated(path, n).children =~= Seq::<Tree>::empty(),
        n > 0 && path.len() > 0 ==> insert_repeated(path, n).children =~= seq![
            chain(1, path, n as int),
        ],
    decreases n,
{
    if n > 0 {
        lemma_same_path_repeated(path, (n - 1) as nat);
        let prev = insert_repeated(path, (n - 1) as nat);
        let bumped = prev.bump();
        if path.len() == 0 {
            assert(insert_repeated(path, n) == bumped);
        } else if n == 1 {
            assert(!has_child(bumped.children, path[0]));
            assert(insert_repeated(path, n).children =~= Seq::empty().push(chain(1, path, 1)));
        } else {
            assert(bumped.children =~= seq![chain(1, path, n - 1)]);
            assert(bumped.level == 0);
            lemma_insert_into_chain(bumped, path, n - 1);
        }
    }
}

/// Inserting the same address path twice into a fresh call tree yields a
/// single unbranched chain in which every node's hit count is exactly two,
/// the root's included.
pub proof fn lemma_same_path_twice(path: Seq<u64>)
    ensures
        ({
            let once = tree_insert(Tree::empty_root().bump(), path);
            let twice = tree_insert(once.bump(), path);
            &&& twice.level == 0
            &&& twice.address == 0
            &&& twice.count == 2
            &&& (path.len() == 0 ==> twice.children =~= Seq::<Tree>::empty())
            &&& (path.len() > 0 ==> twice.children =~= seq![chain(1, path, 2)])
        }),
{
    lemma_same_path_repeated(path, 2);
    reveal_with_fuel(insert_repeated, 3);
    assert(insert_repeated(path, 2) == tree_insert(
        tree_insert(insert_repeated(path, 0).bump(), path).bump(),
        path,
    ));
    assert(insert_repeated(path, 0) == Tree::empty_root());
}

/// The (level, address, count) triple of one sample point.
pub open spec fn frame_of(p: SamplePoint) -> (int, u64, int) {
    (p.level as int, p.address, p.count as int)
}

/// The triples of a whole listing of sample points.
pub open spec fn frames(s: Seq<SamplePoint>) -> Seq<(int, u64, int)> {
    s.map_values(|p: SamplePoint| frame_of(p))
}

/// The depth-first, pre-order listing of a call tree: the node's own
/// triple, then each child's listing, children in discovery order.
pub open spec fn preorder(t: Tree) -> Seq<(int, u64, int)>
    decreases t, 0int,
{
    seq![(t.level, t.address, t.count)] + preorder_forest(t.children, t.children.len() as int)
}

/// The concatenated pre-order listings of the first `n` trees of a forest.
pub open spec fn preorder_forest(s: Seq<Tree>, n: int) -> Seq<(int, u64, int)>
    decreases s, n,
{
    if n <= 0 || n > s.len() {
        Seq::empty()
    } else {
        preorder_forest(s, n - 1) + preorder(s[n - 1])
    }
}

/// Appends the pre-order listing of the subtree at `node` to `out`.
fn dfs_append(node: &TreeNode, out: &mut Vec<SamplePoint>)
    ensures
        frames(final(out)@) =~= frames(old(out)@) + preorder(node@),
    decreases *node,
{
    proof {
        lemma_forest_view(node.children@, node.children@.len() as int);
    }
    out.push(node.value);
    proof {
        assert(frames(out@) =~= frames(old(out)@) + seq![
            (node@.level, node@.address, node@.count),
        ]);
        assert(preorder_forest(node@.children, 0) =~= Seq::<(int, u64, int)>::empty());
    }
    let n = node.children.len();
    let mut k: usize = 0;
    while k < n
        invariant
            n == node.children@.len(),
            k <= n,
            node@.children.len() == n,
            forall|i: int| 0 <= i < n ==> node@.children[i] == tree_view(node.children@[i]),
            frames(out@) =~= frames(old(out)@) + seq![(node@.level, node@.address, node@.count)]
                + preorder_forest(node@.children, k as int),
        decreases n - k,
    {
        dfs_append(&node.children[k], out);
        k = k + 1;
    }
}

/// One thread's aggregated result: the thread id, the user and kernel
/// CPU-time deltas observed across the run (in the platform's time units),
/// and the merged call tree rooted at a synthetic node.
#[derive(Debug)]
pub struct ThreadSample {
    pub thread_id: Tid,
    pub user_cpu_time: u64,
    pub kernel_cpu_time: u64,
    pub sample_tree: TreeNode,
}

impl ThreadSample {
    /// The call tree hangs below a well-formed synthetic root at level 0,
    /// address 0.
    pub open spec fn wf(self) -> bool {
        &&& self.sample_tree@.wf()
        &&& self.sample_tree@.level == 0
        &&& self.sample_tree@.address == 0
    }

    pub fn new(thread_id: Tid, user_cpu_time: u64, kernel_cpu_time: u64) -> (r: Self)
        ensures
            r.thread_id == thread_id,
            r.user_cpu_time == user_cpu_time,
            r.kernel_cpu_time == kernel_cpu_time,
            r.sample_tree@ == Tree::empty_root(),
            r.wf(),
    {
        let r = Self {
            thread_id,
            user_cpu_time,
            kernel_cpu_time,
            sample_tree: TreeNode { value: SamplePoint::root_sample(), children: Vec::new() },
        };
        proof {
            assert(r.sample_tree@ =~= Tree::empty_root());
        }
        r
    }

    pub fn get_thread_id(&self) -> (r: Tid)
        ensures
            r == self.thread_id,
    {
        self.thread_id
    }

    pub fn get_user_cpu_time(&self) -> (r: u64)
        ensures
            r == self.user_cpu_time,
    {
        self.user_cpu_time
    }

    pub fn get_kernel_cpu_time(&self) -> (r: u64)
        ensures
            r == self.kernel_cpu_time,
    {
        self.kernel_cpu_time
    }

    /// Records one captured sample: the root's count rises by exactly one —
    /// whatever the length of `path`, the empty path included — and `path`
    /// (given root-to-leaf) is merged into the tree.
    pub fn add_backtrace(&mut self, path: &Vec<u64>)
        requires
            old(self).wf(),
            old(self).sample_tree@.counts_at_most(u32::MAX - 1),
            path@.len() <= u32::MAX,
        ensures
            final(self).thread_id == old(self).thread_id,
            final(self).user_cpu_time == old(self).user_cpu_time,
            final(self).kernel_cpu_time == old(self).kernel_cpu_time,
            final(self).sample_tree@ == tree_insert(old(self).sample_tree@.bump(), path@),
            final(self).sample_tree@.count == old(self).sample_tree@.count + 1,
            final(self).wf(),
    {
        self.sample_tree.value.increment_count();
        proof {
            assert(self.sample_tree@ =~= old(self).sample_tree@.bump());
            assert(self.sample_tree@.wf());
            lemma_tree_insert_wf(self.sample_tree@, path@, u32::MAX - 1);
        }
        add_backtrace(&mut self.sample_tree, path, 0);
        proof {
            assert(path@.skip(0) =~= path@);
        }
    }

    /// The depth-first, pre-order listing of the call tree, the synthetic
    /// root skipped, children visited in discovery order.
    pub fn sample_tree_dfs_iter(&self) -> (r: Vec<SamplePoint>)
        ensures
            frames(r@) =~= preorder_forest(
                self.sample_tree@.children,
                self.sample_tree@.children.len() as int,
            ),
    {
        proof {
            lemma_forest_view(
                self.sample_tree.children@,
                self.sample_tree.children@.len() as int,
            );
        }
        let mut out: Vec<SamplePoint> = Vec::new();
        let n = self.sample_tree.children.len();
        let mut k: usize = 0;
        while k < n
            invariant
                n == self.sample_tree.children@.len(),
                k <= n,
                self.sample_tree@.children.len() == n,
                forall|i: int|
                    0 <= i < n ==> self.sample_tree@.children[i] == tree_view(
                        self.sample_tree.children@[i],
                    ),
                frames(out@) =~= preorder_forest(self.sample_tree@.children, k as int),
            decreases n - k,
        {
            dfs_append(&self.sample_tree.children[k], &mut out);
            k = k + 1;
        }
        out
    }
}

} // verus!
