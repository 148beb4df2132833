use vstd::prelude::*;

verus! {

/// A code tree as a mathematical value: a leaf stands for one symbol, an
/// internal node for the two subtrees merged under it. Every node carries a
/// weight.
pub enum Tree {
    Leaf { symbol: char, weight: nat },
    Internal { weight: nat, left: Box<Tree>, right: Box<Tree> },
}

impl Tree {
    /// The weight stored at the root of the tree.
    pub open spec fn weight(self) -> nat {
        match self {
            Tree::Leaf { weight, .. } => weight,
            Tree::Internal { weight, .. } => weight,
        }
    }

    /// The symbols at the leaves of the tree, from left to right.
    pub open spec fn letters(self) -> Seq<char>
        decreases self,
    {
        match self {
            Tree::Leaf { symbol, .. } => seq![symbol],
            Tree::Internal { left, right, .. } => left.letters() + right.letters(),
        }
    }

    /// The symbols at the leaves of the tree.
    pub open spec fn symbols(self) -> Set<char>
        decreases self,
    {
        match self {
            Tree::Leaf { symbol, .. } => set![symbol],
            Tree::Internal { left, right, .. } => left.symbols().union(right.symbols()),
        }
    }
}

/// The tree that joins `a` (left) and `b` (right); its weight is the sum of theirs.
pub open spec fn join(a: Tree, b: Tree) -> Tree {
    Tree::Internal { weight: a.weight() + b.weight(), left: Box::new(a), right: Box::new(b) }
}

/// A node of the code tree under construction.
pub enum Node {
    Leaf { frequency: u64, letter: char },
    Internal { frequency: u64, left: Box<Node>, right: Box<Node> },
}

/// The mathematical tree that a node stands for.
pub open spec fn tree_of(node: Node) -> Tree
    decreases node,
{
    match node {
        Node::Leaf { frequency, letter } => Tree::Leaf { symbol: letter, weight: frequency as nat },
        Node::Internal { frequency, left, right } => Tree::Internal {
            weight: frequency as nat,
            left: Box::new(tree_of(*left)),
            right: Box::new(tree_of(*right)),
        },
    }
}

impl View for Node {
    type V = Tree;

    open spec fn view(&self) -> Tree {
        tree_of(*self)
    }
}

impl Node {
    /// A leaf for `letter` with the weight `frequency`.
    pub fn leaf(letter: char, frequency: u64) -> (node: Node)
        ensures
            node@ == (Tree::Leaf { symbol: letter, weight: frequency as nat }),
    {
        Node::Leaf { frequency, letter }
    }

    /// The frequency weight that the node carries.
    pub fn frequency(&self) -> (f: u64)
        ensures
            f == self@.weight(),
    {
        match self {
            Node::Leaf { frequency, .. } => *frequency,
            Node::Internal { frequency, .. } => *frequency,
        }
    }
}

/// The trees that a working list of nodes stands for, in the same order.
pub open spec fn forest_of(nodes: Seq<Node>) -> Seq<Tree> {
    nodes.map_values(|n: Node| n@)
}

/// The sum of the root weights of a forest.
pub open spec fn total_weight(forest: Seq<Tree>) -> nat
    decreases forest.len(),
{
    if forest.len() == 0 {
        0
    } else {
        total_weight(forest.drop_last()) + forest.last().weight()
    }
}

/// `i` is the position of the lightest tree of the forest and, among trees
/// of equal weight, of the one that comes first.
pub open spec fn is_first_lightest(forest: Seq<Tree>, i: int) -> bool {
    &&& 0 <= i < forest.len()
    &&& forall|j: int| 0 <= j < forest.len() ==> forest[i].weight() <= (#[trigger] forest[j]).weight()
    &&& forall|j: int| 0 <= j < i ==> forest[i].weight() < (#[trigger] forest[j]).weight()
}

/// The position that `is_first_lightest` singles out.
pub open spec fn first_lightest(forest: Seq<Tree>) -> int {
    choose|i: int| is_first_lightest(forest, i)
}

/// A position that `is_first_lightest` holds of is the one that `first_lightest` names.
pub proof fn lemma_first_lightest_unique(forest: Seq<Tree>, i: int)
    requires
        is_first_lightest(forest, i),
    ensures
        first_lightest(forest) == i,
{
    let k = first_lightest(forest);
    if k < i {
        assert(forest[i].weight() < forest[k].weight());
    } else if i < k {
        assert(forest[k].weight() < forest[i].weight());
    }
}

/// Every forest with a tree in it has a first lightest tree.
pub proof fn lemma_first_lightest_exists(forest: Seq<Tree>)
    requires
        forest.len() > 0,
    ensures
        is_first_lightest(forest, first_lightest(forest)),
    decreases forest.len(),
{
    if forest.len() == 1 {
        assert(is_first_lightest(forest, 0));
    } else {
        let shorter = forest.drop_last();
        lemma_first_lightest_exists(shorter);
        let m = first_lightest(shorter);
        let last = forest.len() - 1;
        assert(forall|j: int| 0 <= j < shorter.len() ==> shorter[j] == forest[j]);
        if forest[last].weight() < forest[m].weight() {
            assert(is_first_lightest(forest, last));
        } else {
            assert(is_first_lightest(forest, m));
        }
    }
}

/// Taking a tree out of a forest lowers the total weight by the tree's weight.
pub proof fn lemma_total_weight_remove(forest: Seq<Tree>, i: int)
    requires
        0 <= i < forest.len(),
    ensures
        total_weight(forest.remove(i)) + forest[i].weight() == total_weight(forest),
    decreases forest.len(),
{
    if i < forest.len() - 1 {
        lemma_total_weight_remove(forest.drop_last(), i);
        assert(forest.remove(i).drop_last() =~= forest.drop_last().remove(i));
    }
}

/// One round of the construction: the first lightest tree and then the first
/// lightest of the rest leave the forest, and their join is put at its end,
/// the tree that left first on the left.
pub open spec fn merge_step(forest: Seq<Tree>) -> Seq<Tree>
    recommends
        forest.len() >= 2,
{
    let i = first_lightest(forest);
    let rest = forest.remove(i);
    let j = first_lightest(rest);
    rest.remove(j).push(join(forest[i], rest[j]))
}

/// A round shortens the forest by one tree and keeps its total weight.
pub proof fn lemma_merge_step(forest: Seq<Tree>)
    requires
        forest.len() >= 2,
    ensures
        merge_step(forest).len() == forest.len() - 1,
        total_weight(merge_step(forest)) == total_weight(forest),
{
    lemma_first_lightest_exists(forest);
    let i = first_lightest(forest);
    let rest = forest.remove(i);
    lemma_first_lightest_exists(rest);
    let j = first_lightest(rest);
    lemma_total_weight_remove(forest, i);
    lemma_total_weight_remove(rest, j);
    let joined = join(forest[i], rest[j]);
    assert(rest.remove(j).push(joined).drop_last() =~= rest.remove(j));
}

/// The symbols at the leaves of the trees of a forest.
pub open spec fn forest_symbols(forest: Seq<Tree>) -> Set<char> {
    Set::new(|c: char| exists|i: int| 0 <= i < forest.len() && (#[trigger] forest[i]).symbols().contains(c))
}

/// A forest holds the symbols of any one of its trees and those of the rest.
pub proof fn lemma_forest_symbols_remove(forest: Seq<Tree>, i: int)
    requires
        0 <= i < forest.len(),
    ensures
        forest_symbols(forest) == forest_symbols(forest.remove(i)).union(forest[i].symbols()),
{
    let rest = forest.remove(i);
    assert forall|c: char| forest_symbols(forest).contains(c) <==> forest_symbols(rest).union(
        forest[i].symbols(),
    ).contains(c) by {
        if forest_symbols(forest).contains(c) {
            let k = choose|k: int| 0 <= k < forest.len() && (#[trigger] forest[k]).symbols().contains(c);
            if k < i {
                assert(rest[k] == forest[k]);
            } else if k > i {
                assert(rest[k - 1] == forest[k]);
            }
        }
    }
}

/// A forest with one more tree holds the symbols of that tree as well.
pub proof fn lemma_forest_symbols_push(forest: Seq<Tree>, tree: Tree)
    ensures
        forest_symbols(forest.push(tree)) == forest_symbols(forest).union(tree.symbols()),
{
    let more = forest.push(tree);
    assert forall|c: char| forest_symbols(more).contains(c) <==> forest_symbols(forest).union(
        tree.symbols(),
    ).contains(c) by {
        if forest_symbols(forest).contains(c) {
            let k = choose|k: int| 0 <= k < forest.len() && (#[trigger] forest[k]).symbols().contains(c);
            assert(more[k] == forest[k]);
        }
        if tree.symbols().contains(c) {
            assert(more[forest.len() as int] == tree);
        }
    }
}

/// A round keeps the symbols of the forest.
pub proof fn lemma_merge_step_symbols(forest: Seq<Tree>)
    requires
        forest.len() >= 2,
    ensures
        forest_symbols(merge_step(forest)) == forest_symbols(forest),
{
    lemma_first_lightest_exists(forest);
    let i = first_lightest(forest);
    let rest = forest.remove(i);
    lemma_first_lightest_exists(rest);
    let j = first_lightest(rest);
    lemma_forest_symbols_remove(forest, i);
    lemma_forest_symbols_remove(rest, j);
    lemma_forest_symbols_push(rest.remove(j), join(forest[i], rest[j]));
}

/// The code tree of a forest: rounds of `merge_step` until one tree is left.
pub open spec fn huffman_tree(forest: Seq<Tree>) -> Tree
    recommends
        forest.len() >= 1,
    decreases forest.len(),
{
    if forest.len() <= 1 {
        forest[0]
    } else {
        proof {
            lemma_merge_step(forest);
        }
        huffman_tree(merge_step(forest))
    }
}

/// Determinism: forests that hold the same trees in the same order have the
/// same code tree, in shape, in the weight of every node and in the symbol
/// of every leaf, whatever ties the weights hold.
pub proof fn lemma_same_forest_same_tree(first: Seq<Tree>, second: Seq<Tree>)
    requires
        first.len() == second.len(),
        forall|i: int| 0 <= i < first.len() ==> first[i] == second[i],
    ensures
        huffman_tree(first) == huffman_tree(second),
{
    assert(first =~= second);
}

/// The code tree has at its leaves the symbols of the forest it was built from.
pub proof fn lemma_huffman_tree_symbols(forest: Seq<Tree>)
    requires
        forest.len() >= 1,
    ensures
        huffman_tree(forest).symbols() == forest_symbols(forest),
    decreases forest.len(),
{
    if forest.len() > 1 {
        lemma_merge_step(forest);
        lemma_merge_step_symbols(forest);
        lemma_huffman_tree_symbols(merge_step(forest));
    }
}

/// Builds code trees from working lists of weighted nodes, and codeword
/// tables from the trees.
pub struct Compressor {
    pub text: String,
}

impl Compressor {
    /// Finds the node of lowest frequency; of several with that frequency,
    /// the one that comes first in the list.
    pub fn find_smallest_item<'a>(&self, nodes: &'a Vec<Node>) -> (found: (usize, &'a Node))
        requires
            nodes.len() > 0,
        ensures
            is_first_lightest(forest_of(nodes@), found.0 as int),
            *found.1 == nodes@[found.0 as int],
    {
        let mut smallest_index: usize = 0;
        let mut i: usize = 1;
        while i < nodes.len()
            invariant
                1 <= i <= nodes.len(),
                is_first_lightest(forest_of(nodes@).take(i as int), smallest_index as int),
            decreases nodes.len() - i,
        {
            if nodes[i].frequency() < nodes[smallest_index].frequency() {
                smallest_index = i;
            }
            i += 1;
        }
        assert(forest_of(nodes@).take(i as int) =~= forest_of(nodes@));
        (smallest_index, &nodes[smallest_index])
    }

    /// Merges the two lightest nodes again and again until one node is left,
    /// and returns it: the root of the code tree.
    pub fn merge_smallest_branches(&self, nodes: Vec<Node>) -> (root: Node)
        requires
            nodes.len() > 0,
            total_weight(forest_of(nodes@)) <= u64::MAX,
        ensures
            root@ == huffman_tree(forest_of(nodes@)),
    {
        let ghost start = forest_of(nodes@);
        let mut nodes = nodes;
        while nodes.len() > 1
            invariant
                nodes.len() > 0,
                start.len() > 0,
                total_weight(forest_of(nodes@)) <= u64::MAX,
                huffman_tree(forest_of(nodes@)) == huffman_tree(start),
            decreases nodes.len(),
        {
            let ghost forest = forest_of(nodes@);
            let (first_index, _) = self.find_smallest_item(&nodes);
            let first_smallest = nodes.remove(first_index);
            let ghost rest = forest_of(nodes@);
            let (second_index, _) = self.find_smallest_item(&nodes);
            let second_smallest = nodes.remove(second_index);
            proof {
                lemma_first_lightest_unique(forest, first_index as int);
                assert(rest =~= forest.remove(first_index as int));
                lemma_first_lightest_unique(rest, second_index as int);
                lemma_total_weight_remove(forest, first_index as int);
                lemma_total_weight_remove(rest, second_index as int);
                lemma_merge_step(forest);
            }
            let merged_node = Node::Internal {
                frequency: first_smallest.frequency() + second_smallest.frequency(),
                left: Box::new(first_smallest),
                right: Box::new(second_smallest),
            };
            nodes.push(merged_node);
            assert(forest_of(nodes@) =~= merge_step(forest));
        }
        nodes.pop().unwrap()
    }
}

} // verus!
