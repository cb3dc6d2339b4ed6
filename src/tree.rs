//! An immutable-shape binary search tree of integers: values are only ever
//! added, each at the leaf where a search for it ends.

use vstd::prelude::*;

verus! {

/// A binary search tree: a leaf holds a value and two subtrees.
#[derive(PartialEq, Debug)]
pub enum Tree<T> {
    Leaf { val: T, l: Box<Tree<T>>, r: Box<Tree<T>> },
    Empty,
}

impl Tree<i64> {
    /// The values in the tree.
    pub open spec fn contents(self) -> Set<i64>
        decreases self,
    {
        match self {
            Tree::Leaf { val, l, r } => l.contents().union(r.contents()).insert(val),
            Tree::Empty => Set::empty(),
        }
    }

    /// Whether every value in a left subtree is below its leaf's value and
    /// every value in a right subtree above it.
    pub open spec fn is_bst(self) -> bool
        decreases self,
    {
        match self {
            Tree::Leaf { val, l, r } => {
                &&& forall|x: i64| #[trigger] l.contents().contains(x) ==> x < val
                &&& forall|x: i64| #[trigger] r.contents().contains(x) ==> x > val
                &&& l.is_bst()
                &&& r.is_bst()
            },
            Tree::Empty => true,
        }
    }

    /// The subtree where a search for `v` ends: the leaf holding `v`, or
    /// `Empty` when `v` is absent.
    pub open spec fn search(self, v: i64) -> Tree<i64>
        decreases self,
    {
        match self {
            Tree::Leaf { val, l, r } => if v < val {
                l.search(v)
            } else if v > val {
                r.search(v)
            } else {
                self
            },
            Tree::Empty => Tree::Empty,
        }
    }

    /// The tree after adding `v`: the `Empty` where a search for `v` ends
    /// becomes a leaf holding `v`; a tree that holds `v` on that path stays
    /// as it is.
    pub open spec fn inserted(self, v: i64) -> Tree<i64>
        decreases self,
    {
        match self {
            Tree::Leaf { val, l, r } => if v < val {
                Tree::Leaf { val, l: Box::new(l.inserted(v)), r }
            } else if v > val {
                Tree::Leaf { val, l, r: Box::new(r.inserted(v)) }
            } else {
                self
            },
            Tree::Empty => Tree::Leaf { val: v, l: Box::new(Tree::Empty), r: Box::new(Tree::Empty) },
        }
    }

    /// In a search tree, the search for `v` ends at a leaf holding `v`
    /// exactly when `v` is in the tree.
    pub proof fn lemma_search(self, v: i64)
        requires
            self.is_bst(),
        ensures
            self.contents().contains(v) <==> self.search(v) is Leaf,
            self.search(v) is Leaf ==> self.search(v)->Leaf_val == v,
        decreases self,
    {
        match self {
            Tree::Leaf { val, l, r } => {
                l.lemma_search(v);
                r.lemma_search(v);
            },
            Tree::Empty => {},
        }
    }

    /// An empty tree.
    pub fn new() -> (r: Tree<i64>)
        ensures
            r == Tree::<i64>::Empty,
    {
        Tree::Empty
    }

    /// Adds a value at the leaf where a search for it ends; a value already
    /// present leaves the tree as it is.
    pub fn insert(&mut self, nval: i64)
        ensures
            *final(self) == old(self).inserted(nval),
            final(self).contents() == old(self).contents().insert(nval),
            old(self).is_bst() ==> final(self).is_bst(),
            old(self).is_bst() && old(self).contents().contains(nval) ==> *final(self) == *old(self),
        decreases *old(self),
    {
        let ghost bst = self.is_bst();
        match self {
            Tree::Leaf { val, l, r } => {
                proof {
                    if bst && l.contents().contains(nval) {
                        assert(nval < *val);
                    }
                    if bst && r.contents().contains(nval) {
                        assert(nval > *val);
                    }
                }
                if nval < *val {
                    l.insert(nval);
                } else if nval > *val {
                    r.insert(nval);
                }
            },
            Tree::Empty => {
                *self = Tree::Leaf { val: nval, l: Box::new(Tree::Empty), r: Box::new(Tree::Empty) };
            },
        }
        assert(final(self).contents() =~= old(self).contents().insert(nval));
    }

    /// Whether the tree is empty.
    pub fn is_empty(&self) -> (r: bool)
        ensures
            r == (*self is Empty),
            r == (self.contents() == Set::<i64>::empty()),
    {
        match self {
            Tree::Empty => true,
            Tree::Leaf { val, .. } => {
                assert(self.contents().contains(*val));
                false
            },
        }
    }

    /// The subtree whose root holds `fval`, if the value is in the tree.
    pub fn find(&self, fval: i64) -> (r: Option<&Tree<i64>>)
        ensures
            r is Some <==> self.search(fval) is Leaf,
            r matches Some(t) ==> *t == self.search(fval) && t->Leaf_val == fval,
            self.is_bst() ==> (r is Some <==> self.contents().contains(fval)),
        decreases *self,
    {
        proof {
            if self.is_bst() {
                self.lemma_search(fval);
            }
        }
        match self {
            Tree::Empty => None,
            Tree::Leaf { val, l, r } => {
                proof {
                    if self.is_bst() && l.contents().contains(fval) {
                        assert(fval < *val);
                    }
                    if self.is_bst() && r.contents().contains(fval) {
                        assert(fval > *val);
                    }
                }
                if fval < *val {
                    l.find(fval)
                } else if fval > *val {
                    r.find(fval)
                } else {
                    Some(self)
                }
            },
        }
    }
}

} // verus!
