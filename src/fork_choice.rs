//! LMD-GHOST fork choice: a block tree, each validator's latest vote, and the
//! head found by descending into the heaviest subtree.
use vstd::prelude::*;
use crate::root::{Hash256, lex_gt, root_gt, roots_equal};
use crate::types::{Epoch, Slot};

verus! {

/// A block known to fork choice. Parents always stand at smaller indices.
#[derive(Clone, Copy, Debug)]
pub struct ProtoNode {
    pub root: Hash256,
    pub parent: Option<usize>,
    pub slot: Slot,
}

/// A validator's latest message: the block it voted for and the epoch of the vote.
#[derive(Clone, Copy, Debug, PartialEq, Eq, Structural)]
pub struct Vote {
    pub node: usize,
    pub epoch: Epoch,
}

/// Why fork choice refused an update.
#[derive(Debug, PartialEq, Eq, Structural)]
pub enum ForkChoiceError {
    /// The block named is not in the tree.
    UnknownBlock,
    /// The parent of a new block is not in the tree.
    UnknownParent,
    /// The block is already in the tree.
    DuplicateBlock,
    /// No validator has this index.
    UnknownValidator,
}

/// The fork-choice store.
pub struct ForkChoice {
    pub nodes: Vec<ProtoNode>,
    /// The latest vote of each validator, by index.
    pub votes: Vec<Option<Vote>>,
    /// The effective balance of each validator, by index.
    pub balances: Vec<u64>,
}

/// The mathematical value of a `ForkChoice`.
pub ghost struct ForkChoiceModel {
    pub nodes: Seq<ProtoNode>,
    pub votes: Seq<Option<Vote>>,
    pub balances: Seq<u64>,
}

impl View for ForkChoice {
    type V = ForkChoiceModel;

    open spec fn view(&self) -> ForkChoiceModel {
        ForkChoiceModel { nodes: self.nodes@, votes: self.votes@, balances: self.balances@ }
    }
}

/// Whether node `a` is `d` or one of its ancestors.
pub open spec fn is_ancestor(nodes: Seq<ProtoNode>, a: int, d: int) -> bool
    decreases d,
{
    if d < 0 || d >= nodes.len() {
        false
    } else if a == d {
        true
    } else {
        match nodes[d].parent {
            Some(p) => if p < d {
                is_ancestor(nodes, a, p as int)
            } else {
                false
            },
            None => false,
        }
    }
}

/// The index of the first node with root `root`, if any.
pub open spec fn index_of(nodes: Seq<ProtoNode>, root: Hash256) -> Option<int> {
    if exists|i: int| 0 <= i < nodes.len() && nodes[i].root == root {
        Some(choose|i: int| 0 <= i < nodes.len() && nodes[i].root == root
            && forall|j: int| 0 <= j < i ==> nodes[j].root != root)
    } else {
        None
    }
}

/// Whether the node at index `i` has a parent at a smaller index.
pub open spec fn parent_below(node: ProtoNode, i: int) -> bool {
    match node.parent {
        Some(p) => p < i,
        None => false,
    }
}

/// Whether a vote, if any, names one of the first `n` nodes.
pub open spec fn vote_within(vote: Option<Vote>, n: int) -> bool {
    match vote {
        Some(vt) => vt.node < n,
        None => true,
    }
}

/// When some node has root `root`, `index_of` names the first of them.
pub proof fn lemma_index_of_some(nodes: Seq<ProtoNode>, root: Hash256, i: int)
    requires
        0 <= i < nodes.len(),
        nodes[i].root == root,
    ensures
        index_of(nodes, root) matches Some(k) && 0 <= k <= i && nodes[k].root == root,
    decreases i,
{
    if exists|j: int| 0 <= j < i && nodes[j].root == root {
        let j = choose|j: int| 0 <= j < i && nodes[j].root == root;
        lemma_index_of_some(nodes, root, j);
    } else {
        assert(0 <= i < nodes.len() && nodes[i].root == root && forall|j: int| 0 <= j < i ==> nodes[j].root
            != root);
    }
}

impl ForkChoice {
    /// Parents precede children, node 0 is the root of the tree, votes and
    /// balances cover the same validators, and every vote names a node.
    pub open spec fn wf(&self) -> bool {
        &&& 1 <= self.nodes@.len() <= usize::MAX
        &&& self.nodes@[0].parent is None
        &&& forall|i: int| 0 < i < self.nodes@.len() ==> parent_below(#[trigger] self.nodes@[i], i)
        &&& self.votes@.len() == self.balances@.len()
        &&& forall|v: int| 0 <= v < self.votes@.len() ==> vote_within(#[trigger] self.votes@[v], self.nodes@.len() as int)
    }

    /// The summed balance of validators below `upto` whose vote lies in the
    /// subtree of node `n`.
    pub open spec fn weight_upto(&self, n: int, upto: int) -> int
        decreases upto,
    {
        if upto <= 0 {
            0
        } else {
            let rest = self.weight_upto(n, upto - 1);
            match self.votes@[upto - 1] {
                Some(vt) => if is_ancestor(self.nodes@, n, vt.node as int) {
                    rest + self.balances@[upto - 1]
                } else {
                    rest
                },
                None => rest,
            }
        }
    }

    /// The summed balance of the validators whose latest vote lies in the
    /// subtree of node `n`.
    pub open spec fn weight(&self, n: int) -> int {
        self.weight_upto(n, self.votes@.len() as int)
    }

    /// Whether node `i` beats node `j`: it is heavier, or as heavy with the
    /// greater root.
    pub open spec fn beats(&self, i: int, j: int) -> bool {
        self.weight(i) > self.weight(j) || (self.weight(i) == self.weight(j) && lex_gt(
            self.nodes@[i].root@,
            self.nodes@[j].root@,
        ))
    }

    /// The best child of `n` among the nodes below index `upto`.
    pub open spec fn best_child_upto(&self, n: int, upto: int) -> Option<int>
        decreases upto,
    {
        if upto <= 0 {
            None
        } else {
            let c = upto - 1;
            let rest = self.best_child_upto(n, c);
            if self.nodes@[c].parent == Some(n as usize) {
                match rest {
                    None => Some(c),
                    Some(b) => if self.beats(c, b) {
                        Some(c)
                    } else {
                        Some(b)
                    },
                }
            } else {
                rest
            }
        }
    }

    /// The best child of `n`, if it has children.
    pub open spec fn best_child_of(&self, n: int) -> Option<int> {
        self.best_child_upto(n, self.nodes@.len() as int)
    }

    /// The head reached from `n` by descending into the best child until a
    /// leaf.
    pub open spec fn head_from(&self, n: int) -> int
        decreases self.nodes@.len() - n,
    {
        match self.best_child_of(n) {
            Some(c) => if n < c < self.nodes@.len() {
                self.head_from(c)
            } else {
                n
            },
            None => n,
        }
    }
}

/// A validator's summed weight is never negative, and at most `u64::MAX`
/// for each validator counted.
pub proof fn lemma_weight_bounds(fc: &ForkChoice, n: int, upto: int)
    requires
        fc.wf(),
        0 <= upto <= fc.votes@.len(),
    ensures
        0 <= fc.weight_upto(n, upto) <= upto * (u64::MAX as int),
    decreases upto,
{
    if upto > 0 {
        lemma_weight_bounds(fc, n, upto - 1);
        assert((upto - 1) * (u64::MAX as int) + u64::MAX as int == upto * (u64::MAX as int)) by (nonlinear_arith);
    }
}

impl ForkChoice {
    /// A tree holding only the block `root`, with no votes yet from the
    /// validators whose balances are given.
    pub fn new(root: Hash256, slot: Slot, balances: Vec<u64>) -> (r: ForkChoice)
        ensures
            r.wf(),
            r.nodes@ == seq![ProtoNode { root, parent: None, slot }],
            r.balances@ == balances@,
            r.votes@ == Seq::new(balances@.len(), |v: int| None::<Vote>),
    {
        let mut votes: Vec<Option<Vote>> = Vec::new();
        let mut i: usize = 0;
        while i < balances.len()
            invariant
                i <= balances@.len(),
                votes@ == Seq::new(i as nat, |v: int| None::<Vote>),
            decreases balances@.len() - i,
        {
            votes.push(None);
            assert(votes@ =~= Seq::new((i + 1) as nat, |v: int| None::<Vote>));
            i = i + 1;
        }
        let mut nodes: Vec<ProtoNode> = Vec::new();
        nodes.push(ProtoNode { root, parent: None, slot });
        assert(nodes@ =~= seq![ProtoNode { root, parent: None, slot }]);
        ForkChoice { nodes, votes, balances }
    }

    /// The index of the first node with root `root`.
    pub fn node_index(&self, root: &Hash256) -> (r: Option<usize>)
        ensures
            r matches Some(i) ==> index_of(self.nodes@, *root) == Some(i as int) && i < self.nodes@.len()
                && self.nodes@[i as int].root == *root,
            r is None ==> index_of(self.nodes@, *root) is None,
    {
        let mut i: usize = 0;
        while i < self.nodes.len()
            invariant
                i <= self.nodes@.len(),
                forall|j: int| 0 <= j < i ==> self.nodes@[j].root != *root,
            decreases self.nodes@.len() - i,
        {
            if roots_equal(&self.nodes[i].root, root) {
                let ghost c = choose|k: int| 0 <= k < self.nodes@.len() && self.nodes@[k].root == *root
                    && forall|j: int| 0 <= j < k ==> self.nodes@[j].root != *root;
                assert(0 <= i < self.nodes@.len() && self.nodes@[i as int].root == *root
                    && forall|j: int| 0 <= j < i ==> self.nodes@[j].root != *root);
                assert(c == i) by {
                    if c < i {
                        assert(self.nodes@[c].root != *root);
                    } else if c > i {
                        assert(self.nodes@[i as int].root != *root);
                    }
                }
                return Some(i);
            }
            i = i + 1;
        }
        None
    }

    /// Whether node `a` is `d` or one of its ancestors.
    pub fn is_descendant(&self, a: usize, d: usize) -> (r: bool)
        requires
            self.wf(),
            d < self.nodes@.len(),
        ensures
            r == is_ancestor(self.nodes@, a as int, d as int),
    {
        let mut cur = d;
        while cur > a
            invariant
                self.wf(),
                cur < self.nodes@.len(),
                is_ancestor(self.nodes@, a as int, d as int) == is_ancestor(self.nodes@, a as int, cur as int),
            decreases cur,
        {
            assert(parent_below(self.nodes@[cur as int], cur as int));
            match self.nodes[cur].parent {
                Some(p) => {
                    cur = p;
                },
                None => {
                    return false;
                },
            }
        }
        if cur == a {
            true
        } else {
            proof {
                lemma_not_ancestor_below(self.nodes@, a as int, cur as int);
            }
            false
        }
    }
}

/// A node is never the ancestor of a node with a smaller index.
pub proof fn lemma_not_ancestor_below(nodes: Seq<ProtoNode>, a: int, d: int)
    requires
        d < a,
    ensures
        !is_ancestor(nodes, a, d),
    decreases d,
{
    if 0 <= d < nodes.len() {
        match nodes[d].parent {
            Some(p) => if p < d {
                lemma_not_ancestor_below(nodes, a, p as int);
            },
            None => {},
        }
    }
}

impl ForkChoice {
    /// The summed balance of the validators whose latest vote lies in the
    /// subtree of node `n`.
    pub fn subtree_weight(&self, n: usize) -> (r: u128)
        requires
            self.wf(),
        ensures
            r == self.weight(n as int),
    {
        let mut acc: u128 = 0;
        let mut v: usize = 0;
        while v < self.votes.len()
            invariant
                self.wf(),
                v <= self.votes@.len(),
                acc == self.weight_upto(n as int, v as int),
            decreases self.votes@.len() - v,
        {
            proof {
                lemma_weight_bounds(self, n as int, v as int);
                assert(v * (u64::MAX as int) + u64::MAX as int <= u128::MAX) by (nonlinear_arith)
                    requires
                        v <= usize::MAX,
                ;
            }
            assert(vote_within(self.votes@[v as int], self.nodes@.len() as int));
            match self.votes[v] {
                Some(vt) => {
                    if self.is_descendant(n, vt.node) {
                        acc = acc + self.balances[v] as u128;
                    }
                },
                None => {},
            }
            v = v + 1;
        }
        acc
    }

    /// The best child of node `n`, if it has children.
    pub fn best_child(&self, n: usize) -> (r: Option<usize>)
        requires
            self.wf(),
        ensures
            r matches Some(c) ==> self.best_child_of(n as int) == Some(c as int),
            r is None ==> self.best_child_of(n as int) is None,
    {
        let mut best: Option<usize> = None;
        let mut best_weight: u128 = 0;
        let mut c: usize = 0;
        while c < self.nodes.len()
            invariant
                self.wf(),
                c <= self.nodes@.len(),
                best matches Some(b) ==> self.best_child_upto(n as int, c as int) == Some(b as int)
                    && b < c && best_weight == self.weight(b as int),
                best is None ==> self.best_child_upto(n as int, c as int) is None,
            decreases self.nodes@.len() - c,
        {
            if self.nodes[c].parent == Some(n) {
                let w = self.subtree_weight(c);
                match best {
                    None => {
                        best = Some(c);
                        best_weight = w;
                    },
                    Some(b) => {
                        if w > best_weight || (w == best_weight && root_gt(
                            &self.nodes[c].root,
                            &self.nodes[b].root,
                        )) {
                            best = Some(c);
                            best_weight = w;
                        }
                    },
                }
            }
            c = c + 1;
        }
        best
    }

    /// The head reached from node `start`: descend into the best child until
    /// a leaf.
    pub fn find_head(&self, start: usize) -> (r: usize)
        requires
            self.wf(),
            start < self.nodes@.len(),
        ensures
            r as int == self.head_from(start as int),
            r < self.nodes@.len(),
    {
        let mut cur = start;
        loop
            invariant
                self.wf(),
                cur < self.nodes@.len(),
                self.head_from(start as int) == self.head_from(cur as int),
            decreases self.nodes@.len() - cur,
        {
            match self.best_child(cur) {
                Some(c) => {
                    proof {
                        lemma_best_child_is_child(self, cur as int, self.nodes@.len() as int);
                    }
                    cur = c;
                },
                None => {
                    return cur;
                },
            }
        }
    }
}

/// The best child found among the first `upto` nodes is one of them, and a
/// child of `n`, so it stands after `n`.
pub proof fn lemma_best_child_is_child(fc: &ForkChoice, n: int, upto: int)
    requires
        fc.wf(),
        0 <= n <= usize::MAX,
        0 <= upto <= fc.nodes@.len(),
    ensures
        fc.best_child_upto(n, upto) matches Some(c) ==> 0 <= c < upto && fc.nodes@[c].parent == Some(
            n as usize,
        ) && n < c,
    decreases upto,
{
    if upto > 0 {
        lemma_best_child_is_child(fc, n, upto - 1);
        let c = upto - 1;
        if fc.nodes@[c].parent == Some(n as usize) {
            if c > 0 {
                assert(parent_below(fc.nodes@[c], c));
            }
        }
    }
}

impl ForkChoice {
    /// Records block `root`, a child of `parent_root`.
    pub fn process_block(&mut self, root: &Hash256, parent_root: &Hash256, slot: Slot) -> (r: Result<
        (),
        ForkChoiceError,
    >)
        requires
            old(self).wf(),
        ensures
            final(self).wf(),
            r == (if index_of(old(self).nodes@, *root) is Some {
                Err(ForkChoiceError::DuplicateBlock)
            } else if index_of(old(self).nodes@, *parent_root) is None {
                Err(ForkChoiceError::UnknownParent)
            } else {
                Ok(())
            }),
            r is Err ==> final(self)@ == old(self)@,
            r is Ok ==> final(self)@ == (ForkChoiceModel {
                nodes: old(self).nodes@.push(
                    ProtoNode {
                        root: *root,
                        parent: Some(index_of(old(self).nodes@, *parent_root).unwrap() as usize),
                        slot,
                    },
                ),
                ..old(self)@
            }),
    {
        if self.node_index(root).is_some() {
            return Err(ForkChoiceError::DuplicateBlock);
        }
        let parent = match self.node_index(parent_root) {
            Some(p) => p,
            None => {
                return Err(ForkChoiceError::UnknownParent);
            },
        };
        let ghost old_nodes = self.nodes@;
        self.nodes.push(ProtoNode { root: *root, parent: Some(parent), slot });
        // A vector's length is a `usize`: reading it bounds the node count.
        let count = self.nodes.len();
        assert(count == self.nodes@.len());
        assert forall|i: int| 0 < i < self.nodes@.len() implies parent_below(#[trigger] self.nodes@[i], i) by {
            if i < old_nodes.len() {
                assert(self.nodes@[i] == old_nodes[i]);
            }
        }
        assert forall|v: int| 0 <= v < self.votes@.len() implies vote_within(#[trigger] self.votes@[v], self.nodes@.len() as int) by {
            assert(vote_within(self.votes@[v], old_nodes.len() as int));
        }
        Ok(())
    }

    /// Records that validator `validator` voted for block `block_root` in
    /// epoch `epoch`. A vote replaces the stored one only if its epoch is
    /// strictly greater.
    pub fn process_attestation(&mut self, validator: usize, block_root: &Hash256, epoch: Epoch) -> (r:
        Result<(), ForkChoiceError>)
        requires
            old(self).wf(),
        ensures
            final(self).wf(),
            r == (if validator >= old(self).votes@.len() {
                Err(ForkChoiceError::UnknownValidator)
            } else if index_of(old(self).nodes@, *block_root) is None {
                Err(ForkChoiceError::UnknownBlock)
            } else {
                Ok(())
            }),
            r is Err ==> final(self)@ == old(self)@,
            r is Ok ==> final(self)@ == (if old(self).votes@[validator as int] matches Some(vt) && epoch <= vt.epoch {
                old(self)@
            } else {
                ForkChoiceModel {
                    votes: old(self).votes@.update(
                        validator as int,
                        Some(Vote { node: index_of(old(self).nodes@, *block_root).unwrap() as usize, epoch }),
                    ),
                    ..old(self)@
                }
            }),
    {
        if validator >= self.votes.len() {
            return Err(ForkChoiceError::UnknownValidator);
        }
        let node = match self.node_index(block_root) {
            Some(i) => i,
            None => {
                return Err(ForkChoiceError::UnknownBlock);
            },
        };
        match self.votes[validator] {
            Some(vt) => {
                if epoch <= vt.epoch {
                    return Ok(());
                }
            },
            None => {},
        }
        let ghost old_votes = self.votes@;
        self.votes.set(validator, Some(Vote { node, epoch }));
        assert forall|v: int| 0 <= v < self.votes@.len() implies vote_within(#[trigger] self.votes@[v], self.nodes@.len() as int) by {
            if v != validator {
                assert(self.votes@[v] == old_votes[v]);
            }
        }
        Ok(())
    }
}

/// If every other child of `n` is lighter than its child `b`, the best
/// child of `n` is `b`.
pub proof fn lemma_heaviest_child_is_best(fc: &ForkChoice, n: int, b: int, upto: int)
    requires
        fc.wf(),
        0 <= n <= usize::MAX,
        0 <= b < fc.nodes@.len(),
        0 <= upto <= fc.nodes@.len(),
        fc.nodes@[b].parent == Some(n as usize),
        forall|c: int|
            0 <= c < fc.nodes@.len() && c != b && fc.nodes@[c].parent == Some(n as usize) ==> fc.weight(c)
                < fc.weight(b),
    ensures
        upto > b ==> fc.best_child_upto(n, upto) == Some(b),
        upto <= b ==> (fc.best_child_upto(n, upto) matches Some(c) ==> c != b && 0 <= c < fc.nodes@.len()
            && fc.nodes@[c].parent == Some(n as usize)),
    decreases upto,
{
    if upto > 0 {
        lemma_heaviest_child_is_best(fc, n, b, upto - 1);
        lemma_best_child_is_child(fc, n, upto - 1);
    }
}

/// Fork choice follows the heaviest chain: let every child of `j` other
/// than `chain[0]` be lighter than it, and let `chain` run from there down
/// to a leaf, each node's only child being the next. Then the head found
/// from `j` is the tip of `chain`.
pub proof fn lemma_heaviest_chain_wins(fc: &ForkChoice, j: int, chain: Seq<int>)
    requires
        fc.wf(),
        fc.nodes@.len() <= usize::MAX,
        0 <= j < fc.nodes@.len(),
        chain.len() >= 1,
        forall|k: int| 0 <= k < chain.len() ==> 0 <= #[trigger] chain[k] < fc.nodes@.len(),
        fc.nodes@[chain[0]].parent == Some(j as usize),
        forall|k: int|
            0 <= k < chain.len() - 1 ==> fc.nodes@[#[trigger] chain[k + 1]].parent == Some(chain[k] as usize),
        forall|k: int, c: int|
            #![trigger chain[k], fc.nodes@[c]]
            0 <= k < chain.len() && 0 <= c < fc.nodes@.len() && fc.nodes@[c].parent == Some(
                chain[k] as usize,
            ) ==> k + 1 < chain.len() && c == chain[k + 1],
        forall|c: int|
            0 <= c < fc.nodes@.len() && c != chain[0] && fc.nodes@[c].parent == Some(j as usize)
                ==> fc.weight(c) < fc.weight(chain[0]),
    ensures
        fc.head_from(j) == chain.last(),
{
    lemma_heaviest_child_is_best(fc, j, chain[0], fc.nodes@.len() as int);
    lemma_best_child_is_child(fc, j, fc.nodes@.len() as int);
    lemma_chain_head(fc, chain, 0);
}

/// Along a chain whose nodes each have one child, the next, down to a leaf,
/// the head found from any of its nodes is its tip.
proof fn lemma_chain_head(fc: &ForkChoice, chain: Seq<int>, k: int)
    requires
        fc.wf(),
        fc.nodes@.len() <= usize::MAX,
        0 <= k < chain.len(),
        forall|i: int| 0 <= i < chain.len() ==> 0 <= #[trigger] chain[i] < fc.nodes@.len(),
        forall|i: int|
            0 <= i < chain.len() - 1 ==> fc.nodes@[#[trigger] chain[i + 1]].parent == Some(chain[i] as usize),
        forall|i: int, c: int|
            #![trigger chain[i], fc.nodes@[c]]
            0 <= i < chain.len() && 0 <= c < fc.nodes@.len() && fc.nodes@[c].parent == Some(
                chain[i] as usize,
            ) ==> i + 1 < chain.len() && c == chain[i + 1],
    ensures
        fc.head_from(chain[k]) == chain.last(),
    decreases chain.len() - k,
{
    let x = chain[k];
    lemma_best_child_is_child(fc, x, fc.nodes@.len() as int);
    if k + 1 < chain.len() {
        let y = chain[k + 1];
        assert(fc.nodes@[y].parent == Some(x as usize));
        assert forall|c: int|
            0 <= c < fc.nodes@.len() && c != y && fc.nodes@[c].parent == Some(x as usize) implies fc.weight(c)
                < fc.weight(y) by {
            assert(fc.nodes@[c].parent == Some(chain[k] as usize));
        }
        lemma_heaviest_child_is_best(fc, x, y, fc.nodes@.len() as int);
        lemma_chain_head(fc, chain, k + 1);
    } else {
        if fc.best_child_of(x) is Some {
            let c = fc.best_child_of(x).unwrap();
            assert(fc.nodes@[c].parent == Some(chain[k] as usize));
        }
    }
}

impl ForkChoice {
    /// A copy of the store.
    pub fn duplicate(&self) -> (r: ForkChoice)
        ensures
            r@ == self@,
    {
        let nodes = self.nodes.clone();
        let votes = self.votes.clone();
        let balances = self.balances.clone();
        assert(nodes@ =~= self.nodes@);
        assert(votes@ =~= self.votes@);
        assert(balances@ =~= self.balances@);
        ForkChoice { nodes, votes, balances }
    }
}

/// Ancestry is transitive.
pub proof fn lemma_ancestor_transitive(nodes: Seq<ProtoNode>, a: int, b: int, c: int)
    requires
        is_ancestor(nodes, a, b),
        is_ancestor(nodes, b, c),
    ensures
        is_ancestor(nodes, a, c),
    decreases c,
{
    if b != c {
        match nodes[c].parent {
            Some(p) => if p < c {
                lemma_ancestor_transitive(nodes, a, b, p as int);
            },
            None => {},
        }
    }
}

/// The head found from `n` lies in the subtree of `n`.
pub proof fn lemma_head_in_subtree(fc: &ForkChoice, n: int)
    requires
        fc.wf(),
        0 <= n < fc.nodes@.len(),
        fc.nodes@.len() <= usize::MAX,
    ensures
        0 <= fc.head_from(n) < fc.nodes@.len(),
        is_ancestor(fc.nodes@, n, fc.head_from(n)),
    decreases fc.nodes@.len() - n,
{
    lemma_best_child_is_child(fc, n, fc.nodes@.len() as int);
    match fc.best_child_of(n) {
        Some(c) => if n < c < fc.nodes@.len() {
            lemma_head_in_subtree(fc, c);
            assert(is_ancestor(fc.nodes@, n, n));
            assert(fc.nodes@[c].parent == Some(n as usize));
            assert(is_ancestor(fc.nodes@, n, c));
            lemma_ancestor_transitive(fc.nodes@, n, c, fc.head_from(c));
        },
        None => {},
    }
}

} // verus!
