//! The tree that stores the attributes of a table: a leaf holds a value, a
//! branch holds named children, and a path of keys leads from the root to a
//! node.

use vstd::prelude::*;
use crate::vm::utils::str_equal;

verus! {

/// A tree of named children with values at the leaves. A branch holds no key
/// twice; children stand in the order in which their keys first came.
#[derive(Debug)]
pub enum Tree<T> {
    Leaf(Option<T>),
    Branchs(Vec<(String, Tree<T>)>),
}

/// What a tree holds, as a mathematical value.
pub enum TreeModel<V> {
    Leaf(Option<V>),
    Branchs(Seq<(Seq<char>, TreeModel<V>)>),
}

#[derive(Debug, PartialEq)]
pub struct TreeActionError {
    pub error: String,
}

/// The first place from `from` on at which `key` stands among the entries, or
/// their number where it stands at none.
pub open spec fn index_from<V>(
    entries: Seq<(Seq<char>, TreeModel<V>)>,
    key: Seq<char>,
    from: int,
) -> int
    decreases entries.len() - from,
{
    if from < 0 || from >= entries.len() {
        entries.len() as int
    } else if entries[from].0 == key {
        from
    } else {
        index_from(entries, key, from + 1)
    }
}

/// The place of `key` among the entries, or their number where it is not
/// among them.
pub open spec fn entry_index<V>(entries: Seq<(Seq<char>, TreeModel<V>)>, key: Seq<char>) -> int {
    index_from(entries, key, 0)
}

/// Whether no key stands twice among the entries.
pub open spec fn distinct_keys<V>(entries: Seq<(Seq<char>, TreeModel<V>)>) -> bool {
    forall|i: int, j: int|
        0 <= i < j < entries.len() ==> (#[trigger] entries[i]).0 != (#[trigger] entries[j]).0
}

/// The keys of a path, each as the text it holds.
pub open spec fn path_model(keys: Seq<&str>) -> Seq<Seq<char>> {
    Seq::new(keys.len(), |i: int| keys[i]@)
}

impl<V> TreeModel<V> {
    /// Whether no branch of the tree holds a key twice.
    pub open spec fn wf(self) -> bool
        decreases self,
    {
        match self {
            TreeModel::Leaf(_) => true,
            TreeModel::Branchs(entries) => {
                &&& distinct_keys(entries)
                &&& forall|i: int| 0 <= i < entries.len() ==> (#[trigger] entries[i]).1.wf()
            },
        }
    }

    /// Follows the keys down from this node. A leaf answers with its value
    /// where no key is left, and names nothing where one is; a branch answers
    /// only through the child that the next key names.
    pub open spec fn walk(self, path: Seq<Seq<char>>) -> Option<V>
        decreases path.len(),
    {
        match self {
            TreeModel::Leaf(value) => if path.len() == 0 {
                value
            } else {
                None
            },
            TreeModel::Branchs(entries) => {
                if path.len() == 0 {
                    None
                } else {
                    let idx = entry_index(entries, path[0]);
                    if idx < entries.len() {
                        entries[idx].1.walk(path.drop_first())
                    } else {
                        None
                    }
                }
            },
        }
    }

    /// The value that a path leads to from the root: the value of the leaf
    /// at which the path ends, if it ends at one.
    pub open spec fn get(self, path: Seq<Seq<char>>) -> Option<V> {
        self.walk(path)
    }

    /// The tree after `value` was stored at `path`. A leaf on the way turns
    /// into a branch with the next key as its one child, and what it held is
    /// gone; a key that a branch lacks is added after the others. Where the
    /// path ends at a leaf, the leaf takes the value; where it ends at a
    /// branch, nothing is stored.
    pub open spec fn insert(self, path: Seq<Seq<char>>, value: V) -> TreeModel<V>
        decreases path.len(),
    {
        if path.len() == 0 {
            match self {
                TreeModel::Leaf(_) => TreeModel::Leaf(Some(value)),
                TreeModel::Branchs(_) => self,
            }
        } else {
            let entries = match self {
                TreeModel::Leaf(_) => Seq::empty(),
                TreeModel::Branchs(entries) => entries,
            };
            let idx = entry_index(entries, path[0]);
            let grown = if idx < entries.len() {
                entries
            } else {
                entries.push((path[0], TreeModel::Leaf(None)))
            };
            TreeModel::Branchs(
                grown.update(idx, (grown[idx].0, grown[idx].1.insert(path.drop_first(), value))),
            )
        }
    }
}

/// The search for a key gives a place that holds the key, or the number of
/// entries; no earlier place holds the key.
pub proof fn lemma_index_from<V>(entries: Seq<(Seq<char>, TreeModel<V>)>, key: Seq<char>, from: int)
    requires
        0 <= from <= entries.len(),
    ensures
        from <= index_from(entries, key, from) <= entries.len(),
        index_from(entries, key, from) < entries.len() ==> entries[index_from(
            entries,
            key,
            from,
        )].0 == key,
        forall|j: int| from <= j < index_from(entries, key, from) ==> entries[j].0 != key,
    decreases entries.len() - from,
{
    if from < entries.len() && entries[from].0 != key {
        lemma_index_from(entries, key, from + 1);
    }
}

/// Storing a value keeps the keys of every branch distinct.
pub proof fn lemma_insert_wf<V>(tree: TreeModel<V>, path: Seq<Seq<char>>, value: V)
    requires
        tree.wf(),
    ensures
        tree.insert(path, value).wf(),
    decreases path.len(),
{
    if path.len() > 0 {
        let entries = match tree {
            TreeModel::Leaf(_) => Seq::empty(),
            TreeModel::Branchs(entries) => entries,
        };
        let idx = entry_index(entries, path[0]);
        lemma_index_from(entries, path[0], 0);
        let grown = if idx < entries.len() {
            entries
        } else {
            entries.push((path[0], TreeModel::Leaf(None)))
        };
        assert(distinct_keys(grown));
        assert(grown[idx].1.wf());
        lemma_insert_wf(grown[idx].1, path.drop_first(), value);
        let child = grown[idx].1.insert(path.drop_first(), value);
        let after = grown.update(idx, (grown[idx].0, child));
        assert(distinct_keys(after)) by {
            assert forall|i: int, j: int| 0 <= i < j < after.len() implies (#[trigger] after[i]).0
                != (#[trigger] after[j]).0 by {
                assert(after[i].0 == grown[i].0);
                assert(after[j].0 == grown[j].0);
            }
        }
        assert forall|i: int| 0 <= i < after.len() implies (#[trigger] after[i]).1.wf() by {
            if i != idx {
                assert(after[i] == grown[i]);
            }
        }
    }
}

/// After a value was stored at a non-empty path that did not end at a
/// branch, the path leads to the value.
pub proof fn lemma_get_after_insert<V>(tree: TreeModel<V>, path: Seq<Seq<char>>, value: V)
    requires
        path.len() > 0,
        !tree.ends_at_branch(path),
    ensures
        tree.insert(path, value).get(path) == Some(value),
{
    lemma_walk_after_insert(tree, path, value);
}

proof fn lemma_walk_after_insert<V>(tree: TreeModel<V>, path: Seq<Seq<char>>, value: V)
    requires
        !tree.ends_at_branch(path),
    ensures
        tree.insert(path, value).walk(path) == Some(value),
    decreases path.len(),
{
    if path.len() > 0 {
        let entries = match tree {
            TreeModel::Leaf(_) => Seq::empty(),
            TreeModel::Branchs(entries) => entries,
        };
        let idx = entry_index(entries, path[0]);
        lemma_index_from(entries, path[0], 0);
        let grown = if idx < entries.len() {
            entries
        } else {
            entries.push((path[0], TreeModel::Leaf(None)))
        };
        let child = grown[idx].1.insert(path.drop_first(), value);
        let after = grown.update(idx, (grown[idx].0, child));
        lemma_walk_after_insert(grown[idx].1, path.drop_first(), value);
        lemma_index_from(after, path[0], 0);
        assert(entry_index(after, path[0]) == idx) by {
            let got = entry_index(after, path[0]);
            if got < idx {
                assert(after[got].0 == grown[got].0);
                assert(grown[got].0 == entries[got].0);
            }
            assert(after[idx].0 == path[0]);
        }
    }
}

/// The place of a key among entries that were changed only at another key:
/// it stays where it was, and a key that was not there is still not there.
proof fn lemma_index_elsewhere<V>(
    entries: Seq<(Seq<char>, TreeModel<V>)>,
    after: Seq<(Seq<char>, TreeModel<V>)>,
    key: Seq<char>,
)
    requires
        entries.len() <= after.len(),
        forall|i: int| 0 <= i < entries.len() ==> (#[trigger] after[i]).0 == entries[i].0,
        forall|i: int| entries.len() <= i < after.len() ==> (#[trigger] after[i]).0 != key,
    ensures
        entry_index(after, key) == (if entry_index(entries, key) < entries.len() {
            entry_index(entries, key)
        } else {
            after.len() as int
        }),
{
    lemma_index_from(entries, key, 0);
    lemma_index_from(after, key, 0);
    let was = entry_index(entries, key);
    let now = entry_index(after, key);
    if was < entries.len() {
        assert(after[was].0 == key);
        if now < was {
            assert(after[now].0 == entries[now].0);
        }
    } else if now < after.len() {
        if now < entries.len() {
            assert(after[now].0 == entries[now].0);
        }
    }
}

/// Storing a value at one path leaves alone what every other path finds,
/// unless one of the two paths starts with the other.
pub proof fn lemma_insert_frame<V>(
    tree: TreeModel<V>,
    path: Seq<Seq<char>>,
    value: V,
    other: Seq<Seq<char>>,
)
    requires
        !path.is_prefix_of(other),
        !other.is_prefix_of(path),
    ensures
        tree.insert(path, value).get(other) == tree.get(other),
    decreases path.len(),
{
    assert(path.len() > 0) by {
        if path.len() == 0 {
            assert(path =~= other.subrange(0, 0));
        }
    }
    assert(other.len() > 0) by {
        if other.len() == 0 {
            assert(other =~= path.subrange(0, 0));
        }
    }
    let entries = match tree {
        TreeModel::Leaf(_) => Seq::empty(),
        TreeModel::Branchs(entries) => entries,
    };
    let idx = entry_index(entries, path[0]);
    lemma_index_from(entries, path[0], 0);
    let grown = if idx < entries.len() {
        entries
    } else {
        entries.push((path[0], TreeModel::Leaf(None)))
    };
    let child = grown[idx].1.insert(path.drop_first(), value);
    let after = grown.update(idx, (grown[idx].0, child));
    if other[0] == path[0] {
        lemma_index_from(after, path[0], 0);
        assert(entry_index(after, path[0]) == idx) by {
            let got = entry_index(after, path[0]);
            if got < idx {
                assert(after[got].0 == grown[got].0);
                assert(grown[got].0 == entries[got].0);
            }
            assert(after[idx].0 == path[0]);
        }
        let path_rest = path.drop_first();
        let other_rest = other.drop_first();
        assert(!path_rest.is_prefix_of(other_rest)) by {
            if path_rest.is_prefix_of(other_rest) {
                let front = other_rest.subrange(0, path_rest.len() as int);
                assert forall|i: int| 0 <= i < path.len() implies path[i] == other[i] by {
                    if i > 0 {
                        assert(path[i] == path_rest[i - 1]);
                        assert(front[i - 1] == other_rest[i - 1]);
                    }
                }
                assert(path =~= other.subrange(0, path.len() as int));
            }
        }
        assert(!other_rest.is_prefix_of(path_rest)) by {
            if other_rest.is_prefix_of(path_rest) {
                let front = path_rest.subrange(0, other_rest.len() as int);
                assert forall|i: int| 0 <= i < other.len() implies other[i] == path[i] by {
                    if i > 0 {
                        assert(other[i] == other_rest[i - 1]);
                        assert(front[i - 1] == path_rest[i - 1]);
                    }
                }
                assert(other =~= path.subrange(0, other.len() as int));
            }
        }
        lemma_insert_frame(grown[idx].1, path_rest, value, other_rest);
        assert(other_rest.len() > 0) by {
            if other_rest.len() == 0 {
                assert(other_rest =~= path_rest.subrange(0, 0));
            }
        }
    } else {
        assert forall|i: int| 0 <= i < entries.len() implies (#[trigger] after[i]).0
            == entries[i].0 by {
            assert(after[i].0 == grown[i].0);
        }
        lemma_index_elsewhere(entries, after, other[0]);
        let at = entry_index(entries, other[0]);
        lemma_index_from(entries, other[0], 0);
        if at < entries.len() {
            assert(at != idx);
            assert(after[at] == entries[at]);
        }
    }
}

/// After a value was stored at a path, every path that the path starts with
/// and that is shorter leads to a branch.
pub proof fn lemma_insert_branches<V>(
    tree: TreeModel<V>,
    path: Seq<Seq<char>>,
    value: V,
    k: int,
)
    requires
        0 <= k < path.len(),
    ensures
        tree.insert(path, value).ends_at_branch(path.take(k)),
    decreases path.len(),
{
    if k > 0 {
        let entries = match tree {
            TreeModel::Leaf(_) => Seq::empty(),
            TreeModel::Branchs(entries) => entries,
        };
        let idx = entry_index(entries, path[0]);
        lemma_index_from(entries, path[0], 0);
        let grown = if idx < entries.len() {
            entries
        } else {
            entries.push((path[0], TreeModel::Leaf(None)))
        };
        let child = grown[idx].1.insert(path.drop_first(), value);
        let after = grown.update(idx, (grown[idx].0, child));
        lemma_index_from(after, path[0], 0);
        assert(entry_index(after, path[0]) == idx) by {
            let got = entry_index(after, path[0]);
            if got < idx {
                assert(after[got].0 == grown[got].0);
                assert(grown[got].0 == entries[got].0);
            }
            assert(after[idx].0 == path[0]);
        }
        lemma_insert_branches(grown[idx].1, path.drop_first(), value, k - 1);
        assert(path.take(k).drop_first() =~= path.drop_first().take(k - 1));
        assert(path.take(k)[0] == path[0]);
    }
}

impl<V> TreeModel<V> {
    /// Whether the path leads through existing children to a branch.
    pub open spec fn ends_at_branch(self, path: Seq<Seq<char>>) -> bool
        decreases path.len(),
    {
        match self {
            TreeModel::Leaf(_) => false,
            TreeModel::Branchs(entries) => {
                if path.len() == 0 {
                    true
                } else {
                    let idx = entry_index(entries, path[0]);
                    idx < entries.len() && entries[idx].1.ends_at_branch(path.drop_first())
                }
            },
        }
    }
}

impl<T> Tree<T> {
    /// What the tree holds.
    pub open spec fn model(self) -> TreeModel<T>
        decreases self,
    {
        match self {
            Tree::Leaf(value) => TreeModel::Leaf(value),
            Tree::Branchs(entries) => TreeModel::Branchs(
                Seq::new(
                    entries@.len(),
                    |i: int|
                        if 0 <= i < entries@.len() {
                            (entries@[i].0@, entries@[i].1.model())
                        } else {
                            (Seq::empty(), TreeModel::Leaf(None))
                        },
                ),
            ),
        }
    }

    /// Whether no branch of the tree holds a key twice.
    pub open spec fn wf(self) -> bool {
        self.model().wf()
    }

    /// An empty leaf.
    pub fn new() -> (r: Self)
        ensures
            r == Tree::<T>::Leaf(None),
            r.wf(),
    {
        Tree::Leaf(None)
    }

    /// A leaf that holds `value`.
    pub fn new_with_value(value: Option<T>) -> (r: Self)
        ensures
            r == Tree::Leaf(value),
            r.wf(),
    {
        Tree::Leaf(value)
    }

    /// Stores `value` at the path `arr_of_key`, making the branches that the
    /// path needs. Always succeeds.
    pub fn insert(&mut self, arr_of_key: Vec<&str>, value: T) -> (r: Result<(), TreeActionError>)
        ensures
            r is Ok,
            final(self).model() == old(self).model().insert(path_model(arr_of_key@), value),
            old(self).wf() ==> final(self).wf(),
    {
        proof {
            if self.wf() {
                lemma_insert_wf(self.model(), path_model(arr_of_key@), value);
            }
            assert(path_model(arr_of_key@).skip(0) =~= path_model(arr_of_key@));
        }
        self.insert_from(&arr_of_key, 0, value);
        Ok(())
    }

    fn insert_from(&mut self, keys: &Vec<&str>, from: usize, value: T)
        requires
            from <= keys@.len(),
        ensures
            final(self).model() == old(self).model().insert(
                path_model(keys@).skip(from as int),
                value,
            ),
        decreases keys@.len() - from,
    {
        let ghost path = path_model(keys@).skip(from as int);
        if from == keys.len() {
            if let Tree::Leaf(_) = self {
                *self = Tree::Leaf(Some(value));
            }
            return ;
        }
        let key: &str = keys[from];
        assert(path[0] == key@);
        assert(path.drop_first() =~= path_model(keys@).skip(from + 1));
        if let Tree::Leaf(_) = self {
            *self = Tree::Branchs(Vec::new());
        }
        let ghost entries = match old(self).model() {
            TreeModel::Leaf(_) => Seq::empty(),
            TreeModel::Branchs(entries) => entries,
        };
        assert(self.model() == TreeModel::Branchs(entries)) by {
            if *old(self) is Leaf {
                assert(self.model()->Branchs_0 =~= entries);
            }
        }
        match self {
            Tree::Branchs(children) => {
                assert(Tree::Branchs(*children).model()->Branchs_0 == entries);
                let idx = find_entry(children, key);
                let ghost first = *children;
                if idx == children.len() {
                    let fresh: Tree<T> = Tree::Leaf(None);
                    assert(fresh.model() == TreeModel::<T>::Leaf(None));
                    children.push((key.to_owned(), fresh));
                    assert(children@ == first@.push(children@[idx as int]));
                }
                let ghost grown = if idx < entries.len() {
                    entries
                } else {
                    entries.push((path[0], TreeModel::Leaf(None)))
                };
                let ghost before = *children;
                assert(Tree::Branchs(before).model()->Branchs_0 =~= grown);
                proof {
                    vstd::std_specs::vec::axiom_vec_index_decreases(before, idx as int);
                }
                let child = &mut children[idx];
                child.1.insert_from(keys, from + 1, value);
                assert(Tree::Branchs(*children).model()->Branchs_0 =~= grown.update(
                    idx as int,
                    (grown[idx as int].0, grown[idx as int].1.insert(path.drop_first(), value)),
                ));
            },
            _ => {},
        }
    }
}

impl<T: Clone> Tree<T> {
    /// The value that the path `arr_of_key` leads to, if it leads to a leaf
    /// that holds one.
    pub fn get(&self, arr_of_key: Vec<&str>) -> (r: Option<T>)
        ensures
            match self.model().get(path_model(arr_of_key@)) {
                Some(value) => r matches Some(copy) && cloned(value, copy),
                None => r is None,
            },
    {
        let ghost path = path_model(arr_of_key@);
        let mut travel = self;
        let mut i: usize = 0;
        assert(path.skip(0) =~= path);
        while i < arr_of_key.len()
            invariant
                i <= arr_of_key@.len(),
                path == path_model(arr_of_key@),
                self.model().walk(path) == travel.model().walk(path.skip(i as int)),
            decreases arr_of_key@.len() - i,
        {
            let ghost rest = path.skip(i as int);
            assert(rest[0] == arr_of_key@[i as int]@);
            assert(rest.drop_first() =~= path.skip(i + 1));
            match travel {
                Tree::Leaf(_) => {
                    return None;
                },
                Tree::Branchs(children) => {
                    let idx = find_entry(children, arr_of_key[i]);
                    if idx < children.len() {
                        travel = &children[idx].1;
                    } else {
                        return None;
                    }
                },
            }
            i += 1;
        }
        assert(path.skip(i as int).len() == 0);
        if let Tree::Leaf(leaf) = travel {
            leaf.clone()
        } else {
            None
        }
    }
}

/// The first place at which `key` stands among the children, or their number
/// where it stands at none.
pub(crate) fn find_entry<T>(children: &Vec<(String, Tree<T>)>, key: &str) -> (idx: usize)
    ensures
        idx == entry_index(Tree::Branchs(*children).model()->Branchs_0, key@),
        idx <= children@.len(),
        idx < children@.len() ==> children@[idx as int].0@ == key@,
{
    let ghost entries = Tree::Branchs(*children).model()->Branchs_0;
    let mut i: usize = 0;
    while i < children.len()
        invariant
            i <= children@.len(),
            entries == Tree::Branchs(*children).model()->Branchs_0,
            index_from(entries, key@, 0) == index_from(entries, key@, i as int),
        decreases children@.len() - i,
    {
        if str_equal(children[i].0.as_str(), key) {
            return i;
        }
        i += 1;
    }
    i
}

/// Whether `copy` has the shape and the keys of `tree`, with a clone of each
/// value in the place of the value.
pub open spec fn model_cloned<T: Clone>(tree: TreeModel<T>, copy: TreeModel<T>) -> bool
    decreases tree,
{
    match tree {
        TreeModel::Leaf(None) => copy == TreeModel::<T>::Leaf(None),
        TreeModel::Leaf(Some(value)) => copy matches TreeModel::Leaf(Some(other)) && cloned(
            value,
            other,
        ),
        TreeModel::Branchs(entries) => {
            &&& copy is Branchs
            &&& copy->Branchs_0.len() == entries.len()
            &&& forall|i: int|
                0 <= i < entries.len() ==> (#[trigger] copy->Branchs_0[i]).0 == entries[i].0
                    && model_cloned(entries[i].1, copy->Branchs_0[i].1)
        },
    }
}

impl<T: Clone> Clone for Tree<T> {
    fn clone(&self) -> (r: Self)
        ensures
            model_cloned(self.model(), r.model()),
        decreases self,
    {
        match self {
            Tree::Leaf(value) => Tree::Leaf(value.clone()),
            Tree::Branchs(children) => {
                let mut out: Vec<(String, Tree<T>)> = Vec::new();
                let mut i: usize = 0;
                while i < children.len()
                    invariant
                        i <= children@.len(),
                        out@.len() == i,
                        *self == Tree::Branchs(*children),
                        forall|j: int|
                            0 <= j < i ==> (#[trigger] out@[j]).0@ == children@[j].0@
                                && model_cloned(children@[j].1.model(), out@[j].1.model()),
                    decreases children@.len() - i,
                {
                    proof {
                        vstd::std_specs::vec::axiom_vec_index_decreases(*children, i as int);
                        assert(decreases_to!(*self => self->Branchs_0));
                        assert(decreases_to!(children[i as int] => children[i as int].1));
                    }
                    let key = children[i].0.clone();
                    let child = children[i].1.clone();
                    out.push((key, child));
                    i += 1;
                }
                let r = Tree::Branchs(out);
                assert(model_cloned(self.model(), r.model())) by {
                    let entries = self.model()->Branchs_0;
                    let copies = r.model()->Branchs_0;
                    assert forall|i: int| 0 <= i < entries.len() implies (#[trigger] copies[i]).0
                        == entries[i].0 && model_cloned(entries[i].1, copies[i].1) by {
                        assert(out@[i].0@ == children@[i].0@);
                    }
                }
                r
            },
        }
    }
}

impl<T> Default for Tree<T> {
    fn default() -> (r: Self)
        ensures
            r == Tree::<T>::Leaf(None),
    {
        Tree::Leaf(None)
    }
}

} // verus!
