//! Search trees that are stored, without pointers, in breadth first order.
//!
//! The children of the node at position `i` stand at the positions `2 * i + 1` and `2 * i + 2`.
use vstd::prelude::*;

verus! {

/// How many of the first `len` positions are not before `node`.
pub open spec fn positions_from(len: nat, node: nat) -> nat {
    if node < len {
        (len - node) as nat
    } else {
        0
    }
}

/// The elements of the subtree below `node`, read from left to right.
pub open spec fn inorder<T>(tree: Seq<T>, node: nat) -> Seq<T>
    decreases positions_from(tree.len(), node),
{
    if node >= tree.len() {
        Seq::empty()
    } else {
        inorder(tree, 2 * node + 1) + seq![tree[node as int]] + inorder(tree, 2 * node + 2)
    }
}

/// Does `node` belong to the subtree below `root`
pub open spec fn in_subtree(root: nat, node: nat) -> bool
    decreases node,
{
    node == root || (node > root && in_subtree(root, ((node - 1) / 2) as nat))
}

/// The last position with a key that is not above `key`.
pub open spec fn last_at_or_below(keys: Seq<u64>, key: u64) -> Option<int>
    decreases keys.len(),
{
    if keys.len() == 0 {
        None
    } else if keys.last() <= key {
        Some(keys.len() - 1)
    } else {
        last_at_or_below(keys.drop_last(), key)
    }
}

/// Do the keys stand in ascending order
pub open spec fn ascending(keys: Seq<u64>) -> bool {
    forall|i: int, j: int| 0 <= i <= j < keys.len() ==> #[trigger] keys[i] <= #[trigger] keys[j]
}

/// The positions `start, start + 1, ..`, `count` of them.
pub open spec fn consecutive(start: int, count: nat) -> Seq<usize> {
    Seq::new(count, |i: int| (start + i) as usize)
}

proof fn lemma_subtree_split(root: nat, node: nat)
    requires
        node > root,
    ensures
        in_subtree(root, node) == (in_subtree(2 * root + 1, node) || in_subtree(
            2 * root + 2,
            node,
        )),
        !(in_subtree(2 * root + 1, node) && in_subtree(2 * root + 2, node)),
    decreases node,
{
    reveal_with_fuel(in_subtree, 2);
    let parent = ((node - 1) / 2) as nat;
    if parent > root {
        lemma_subtree_split(root, parent);
    }
}

proof fn lemma_everything_below_zero(node: nat)
    ensures
        in_subtree(0, node),
    decreases node,
{
    if node > 0 {
        lemma_everything_below_zero(((node - 1) / 2) as nat);
    }
}

/// The number of nodes below `node` depends on the size of the tree alone.
pub proof fn lemma_inorder_len<S, T>(a: Seq<S>, b: Seq<T>, node: nat)
    requires
        a.len() == b.len(),
    ensures
        inorder(a, node).len() == inorder(b, node).len(),
    decreases positions_from(a.len(), node),
{
    if node < a.len() {
        lemma_inorder_len(a, b, 2 * node + 1);
        lemma_inorder_len(a, b, 2 * node + 2);
    }
}

proof fn lemma_inorder_frame<T>(a: Seq<T>, b: Seq<T>, node: nat)
    requires
        a.len() == b.len(),
        forall|i: int| 0 <= i < a.len() && in_subtree(node, i as nat) ==> a[i] == b[i],
    ensures
        inorder(a, node) == inorder(b, node),
    decreases positions_from(a.len(), node),
{
    if node < a.len() {
        assert(in_subtree(node, node));
        assert forall|i: int|
            0 <= i < a.len() && (in_subtree(2 * node + 1, i as nat) || in_subtree(
                2 * node + 2,
                i as nat,
            )) implies a[i] == b[i] by {
            if i > node {
                lemma_subtree_split(node, i as nat);
            }
        }
        lemma_inorder_frame(a, b, 2 * node + 1);
        lemma_inorder_frame(a, b, 2 * node + 2);
    }
}

proof fn lemma_inorder_push<T>(tree: Seq<T>, element: T, node: nat)
    ensures
        inorder(tree.push(element), node).len() == inorder(tree, node).len() + (if in_subtree(
            node,
            tree.len(),
        ) {
            1int
        } else {
            0int
        }),
    decreases positions_from(tree.len() + 1, node),
{
    if node < tree.len() {
        lemma_inorder_push(tree, element, 2 * node + 1);
        lemma_inorder_push(tree, element, 2 * node + 2);
        lemma_subtree_split(node, tree.len());
    } else if node == tree.len() {
        assert(inorder(tree.push(element), 2 * node + 1).len() == 0);
        assert(inorder(tree.push(element), 2 * node + 2).len() == 0);
    }
}

/// Reading the whole tree visits every node once.
pub proof fn lemma_inorder_complete<T>(tree: Seq<T>)
    ensures
        inorder(tree, 0).len() == tree.len(),
    decreases tree.len(),
{
    if tree.len() > 0 {
        lemma_inorder_complete(tree.drop_last());
        lemma_inorder_push(tree.drop_last(), tree.last(), 0);
        lemma_everything_below_zero((tree.len() - 1) as nat);
        assert(tree.drop_last().push(tree.last()) =~= tree);
    }
}

/// In ascending keys, the searched position splits those at or below from those above.
pub proof fn lemma_last_at_or_below(keys: Seq<u64>, key: u64, count: int)
    requires
        0 <= count <= keys.len(),
        count > 0 ==> keys[count - 1] <= key,
        forall|i: int| count <= i < keys.len() ==> key < #[trigger] keys[i],
    ensures
        last_at_or_below(keys, key) == (if count == 0 {
            None
        } else {
            Some(count - 1)
        }),
    decreases keys.len(),
{
    if count < keys.len() {
        lemma_last_at_or_below(keys.drop_last(), key, count);
    }
}

/// The searched position holds a key at or below the given one, and no later position does.
pub proof fn law_last_at_or_below(keys: Seq<u64>, key: u64)
    ensures
        match last_at_or_below(keys, key) {
            None => forall|i: int| 0 <= i < keys.len() ==> key < #[trigger] keys[i],
            Some(found) => {
                &&& 0 <= found < keys.len()
                &&& keys[found] <= key
                &&& forall|i: int| found < i < keys.len() ==> key < #[trigger] keys[i]
            },
        },
    decreases keys.len(),
{
    if keys.len() > 0 && keys.last() > key {
        law_last_at_or_below(keys.drop_last(), key);
        assert forall|i: int|
            0 <= i < keys.len() && (last_at_or_below(keys, key) matches Some(found) ==> found
                < i) implies key < #[trigger] keys[i] by {
            if i < keys.len() - 1 {
                assert(keys[i] == keys.drop_last()[i]);
            }
        }
    }
}

/// Stores the keys from `in_index` on in the subtree below `out_index`, and beside each key its
/// position. Returns the position behind the last stored key.
pub fn construct_eytzinger_order(
    keys: &Vec<u64>,
    tree: &mut Vec<u64>,
    positions: &mut Vec<usize>,
    in_index: usize,
    out_index: usize,
) -> (next: usize)
    requires
        old(tree)@.len() == keys@.len(),
        old(positions)@.len() == keys@.len(),
        in_index + inorder(keys@, out_index as nat).len() <= keys@.len(),
    ensures
        final(tree)@.len() == keys@.len(),
        final(positions)@.len() == keys@.len(),
        next == in_index + inorder(keys@, out_index as nat).len(),
        inorder(final(tree)@, out_index as nat) == keys@.subrange(in_index as int, next as int),
        inorder(final(positions)@, out_index as nat) == consecutive(
            in_index as int,
            (next - in_index) as nat,
        ),
        forall|i: int|
            0 <= i < keys@.len() && !in_subtree(out_index as nat, i as nat) ==> final(tree)@[i]
                == old(tree)@[i] && final(positions)@[i] == old(positions)@[i],
    decreases positions_from(keys@.len(), out_index as nat),
{
    if out_index >= keys.len() {
        proof {
            assert(keys@.subrange(in_index as int, in_index as int) =~= Seq::<u64>::empty());
            assert(consecutive(in_index as int, 0) =~= Seq::<usize>::empty());
        }
        return in_index;
    }
    let ghost node = out_index as nat;
    let ghost left = 2 * node + 1;
    let ghost right = 2 * node + 2;
    let ghost tree0 = tree@;
    let ghost positions0 = positions@;
    // A child beyond the machine range is beyond the end of the tree.
    let (left_index, right_index): (usize, usize) = if out_index <= (usize::MAX - 2) / 2 {
        (2 * out_index + 1, 2 * out_index + 2)
    } else {
        (keys.len(), keys.len())
    };
    let middle: usize = construct_eytzinger_order(keys, tree, positions, in_index, left_index);
    let ghost tree1 = tree@;
    let ghost positions1 = positions@;
    tree.set(out_index, keys[middle]);
    positions.set(out_index, middle);
    let ghost tree2 = tree@;
    let ghost positions2 = positions@;
    let next: usize = construct_eytzinger_order(keys, tree, positions, middle + 1, right_index);
    proof {
        lemma_construct(tree0, tree1, tree2, tree@, node);
        lemma_construct(positions0, positions1, positions2, positions@, node);
        assert(keys@.subrange(in_index as int, middle as int) + seq![keys@[middle as int]]
            + keys@.subrange(middle + 1, next as int) =~= keys@.subrange(
            in_index as int,
            next as int,
        ));
        assert(consecutive(in_index as int, (middle - in_index) as nat) + seq![middle]
            + consecutive(middle + 1, (next - middle - 1) as nat) =~= consecutive(
            in_index as int,
            (next - in_index) as nat,
        ));
    }
    next
}

/// Filling the left subtree, then the node, then the right subtree, keeps what was filled before.
proof fn lemma_construct<T>(s0: Seq<T>, s1: Seq<T>, s2: Seq<T>, s3: Seq<T>, node: nat)
    requires
        node < s0.len(),
        s0.len() == s1.len() == s2.len() == s3.len(),
        forall|i: int| 0 <= i < s0.len() && !in_subtree(2 * node + 1, i as nat) ==> s1[i] == s0[i],
        forall|i: int| 0 <= i < s0.len() && i != node ==> s2[i] == s1[i],
        forall|i: int| 0 <= i < s0.len() && !in_subtree(2 * node + 2, i as nat) ==> s3[i] == s2[i],
    ensures
        inorder(s3, node) == inorder(s1, 2 * node + 1) + seq![s2[node as int]] + inorder(
            s3,
            2 * node + 2,
        ),
        forall|i: int| 0 <= i < s0.len() && !in_subtree(node, i as nat) ==> s3[i] == s0[i],
{
    assert(!in_subtree(2 * node + 2, node));
    assert forall|i: int| 0 <= i < s0.len() && in_subtree(2 * node + 1, i as nat) implies s3[i]
        == s1[i] by {
        if i > node {
            lemma_subtree_split(node, i as nat);
        }
    }
    lemma_inorder_frame(s3, s1, 2 * node + 1);
    assert forall|i: int| 0 <= i < s0.len() && !in_subtree(node, i as nat) implies s3[i]
        == s0[i] by {
        if i > node {
            lemma_subtree_split(node, i as nat);
        }
    }
}

/// Searches the tree of the ascending `keys` for the last position with a key that is not above
/// `key`.
pub fn search(
    tree: &Vec<u64>,
    positions: &Vec<usize>,
    key: u64,
) -> (found: Option<usize>)
    requires
        tree@.len() == positions@.len(),
        ascending(inorder(tree@, 0)),
        inorder(positions@, 0) == consecutive(0, tree@.len()),
    ensures
        match found {
            None => last_at_or_below(inorder(tree@, 0), key) is None,
            Some(index) => last_at_or_below(inorder(tree@, 0), key) == Some(index as int),
        },
{
    let mut found: Option<usize> = None;
    let mut node: usize = 0;
    let ghost keys = inorder(tree@, 0);
    let ghost count = tree@.len();
    let ghost mut low: int = 0;
    let ghost mut high: int = count as int;
    proof {
        lemma_inorder_complete(tree@);
        assert(keys.subrange(0, count as int) =~= keys);
    }
    while node < tree.len()
        invariant
            tree@.len() == positions@.len() == count,
            keys == inorder(tree@, 0),
            keys.len() == count,
            ascending(keys),
            0 <= low <= high <= count,
            inorder(tree@, node as nat) == keys.subrange(low, high),
            inorder(positions@, node as nat) == consecutive(low, (high - low) as nat),
            low == 0 ==> found is None,
            low > 0 ==> keys[low - 1] <= key && found == Some((low - 1) as usize),
            forall|i: int| high <= i < count ==> key < #[trigger] keys[i],
        decreases positions_from(tree@.len(), node as nat),
    {
        let ghost left = inorder(tree@, 2 * node as nat + 1);
        let ghost right = inorder(tree@, 2 * node as nat + 2);
        let ghost left_positions = inorder(positions@, 2 * node as nat + 1);
        let ghost right_positions = inorder(positions@, 2 * node as nat + 2);
        let ghost middle = low + left.len();
        proof {
            lemma_inorder_len(tree@, positions@, 2 * node as nat + 1);
            lemma_inorder_len(tree@, positions@, 2 * node as nat + 2);
            let whole = keys.subrange(low, high);
            let whole_positions = consecutive(low, (high - low) as nat);
            assert(whole == left + seq![tree@[node as int]] + right);
            assert(whole_positions == left_positions + seq![positions@[node as int]]
                + right_positions);
            assert(whole.len() == high - low);
            assert(whole[left.len() as int] == keys[middle]);
            assert(whole_positions[left.len() as int] == positions@[node as int]);
            assert(left =~= whole.subrange(0, left.len() as int));
            assert(right =~= whole.subrange(left.len() as int + 1, whole.len() as int));
            assert(left =~= keys.subrange(low, middle));
            assert(right =~= keys.subrange(middle + 1, high));
            assert(left_positions =~= whole_positions.subrange(0, left.len() as int));
            assert(right_positions =~= whole_positions.subrange(
                left.len() as int + 1,
                whole_positions.len() as int,
            ));
            assert(left_positions =~= consecutive(low, (middle - low) as nat));
            assert(right_positions =~= consecutive(middle + 1, (high - middle - 1) as nat));
        }
        let fits: bool = node <= (usize::MAX - 2) / 2;
        if tree[node] <= key {
            found = Some(positions[node]);
            proof {
                low = middle + 1;
            }
            node = if fits { 2 * node + 2 } else { tree.len() };
        } else {
            proof {
                high = middle;
            }
            node = if fits { 2 * node + 1 } else { tree.len() };
        }
    }
    proof {
        lemma_last_at_or_below(keys, key, low);
    }
    found
}

/// A search finds the last key, from left to right, that is not above the searched one.
pub proof fn law_search_finds_the_last(
    tree: &Vec<u64>,
    positions: &Vec<usize>,
    key: u64,
    found: Option<usize>,
)
    requires
        call_ensures(search, (tree, positions, key), found),
    ensures
        ({
            let keys = inorder(tree@, 0);
            match found {
                Some(index) => {
                    &&& index < keys.len()
                    &&& keys[index as int] <= key
                    &&& forall|i: int| index < i < keys.len() ==> key < #[trigger] keys[i]
                },
                None => forall|i: int| 0 <= i < keys.len() ==> key < #[trigger] keys[i],
            }
        }),
{
    law_last_at_or_below(inorder(tree@, 0), key);
}

/// Read from left to right, a tree has the left subtree of a node, the node, and its right subtree.
/// The children of a node stand behind two times as many nodes as the node itself.
pub proof fn law_reading_order<T>(tree: Seq<T>, node: nat)
    ensures
        node < tree.len() ==> {
            let left = inorder(tree, 2 * node + 1);
            let all = inorder(tree, node);
            &&& left == all.take(left.len() as int)
            &&& all[left.len() as int] == tree[node as int]
            &&& inorder(tree, 2 * node + 2) == all.skip(left.len() as int + 1)
        },
        node >= tree.len() ==> inorder(tree, node).len() == 0,
        inorder(tree, 0).len() == tree.len(),
{
    lemma_inorder_complete(tree);
    if node < tree.len() {
        let left = inorder(tree, 2 * node + 1);
        let all = inorder(tree, node);
        assert(left =~= all.take(left.len() as int));
        assert(inorder(tree, 2 * node + 2) =~= all.skip(left.len() as int + 1));
    }
}

} // verus!
