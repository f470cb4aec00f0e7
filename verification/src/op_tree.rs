//! The augmented operation tree: a multiway tree holding operations in
//! canonical order, where each node caches, per object, which elements have a
//! currently unoverwritten write in its subtree. The cached counts let a
//! positional query skip whole subtrees instead of scanning every operation.

use vstd::prelude::*;
use crate::types::{ElemId, ObjId, Op, OpView};

verus! {

/// Per-object summary inside one node: the elements of that object with at
/// least one unoverwritten, non-delete operation in the subtree, in first
/// appearance order. The count of visible elements is the length of that
/// list; membership of a caller-carried element tells the caller the element
/// is already reflected in the count, so a run of writes straddling a node
/// boundary is not counted twice.
#[derive(Debug)]
pub struct IndexEntry {
    /// The object summarised.
    pub obj: ObjId,
    /// Elements with a visible operation in the subtree, each once.
    pub visible: Vec<ElemId>,
}

/// Mathematical model of one per-object summary.
#[verifier::ext_equal]
pub ghost struct IndexEntryView {
    pub obj: ObjId,
    pub visible: Seq<ElemId>,
}

impl View for IndexEntry {
    type V = IndexEntryView;

    open spec fn view(&self) -> IndexEntryView {
        IndexEntryView { obj: self.obj, visible: self.visible@ }
    }
}

/// The objects summarised, in entry order.
pub open spec fn idx_objs(s: Seq<IndexEntryView>) -> Seq<ObjId> {
    s.map_values(|e: IndexEntryView| e.obj)
}

/// An index is well formed when each object has one entry and each entry
/// lists each element once.
pub open spec fn idx_wf(s: Seq<IndexEntryView>) -> bool {
    &&& idx_objs(s).no_duplicates()
    &&& forall|i: int| 0 <= i < s.len() ==> (#[trigger] s[i]).visible.no_duplicates()
}

/// Whether the index holds an entry for this object.
pub open spec fn idx_has(s: Seq<IndexEntryView>, obj: ObjId) -> bool {
    exists|i: int| 0 <= i < s.len() && s[i].obj == obj
}

/// The index of this object's entry (unique in a well-formed index).
pub open spec fn idx_at(s: Seq<IndexEntryView>, obj: ObjId) -> int {
    choose|i: int| 0 <= i < s.len() && s[i].obj == obj
}

/// The count of visible elements this index holds for an object.
pub open spec fn idx_vis_len(s: Seq<IndexEntryView>, obj: ObjId) -> nat {
    s[idx_at(s, obj)].visible.len()
}

/// Whether a caller-carried marker element is already reflected in the count
/// the index holds for an object.
pub open spec fn idx_counted(s: Seq<IndexEntryView>, obj: ObjId, marker: Option<ElemId>) -> bool {
    &&& marker is Some
    &&& idx_has(s, obj)
    &&& s[idx_at(s, obj)].visible.contains(marker->0)
}

/// In a well-formed index, an entry's position is the one `idx_at` picks.
pub proof fn lemma_idx_at_of(s: Seq<IndexEntryView>, i: int)
    requires
        idx_wf(s),
        0 <= i < s.len(),
    ensures
        idx_has(s, s[i].obj),
        idx_at(s, s[i].obj) == i,
{
    assert(idx_objs(s)[i] == s[i].obj);
    let j = idx_at(s, s[i].obj);
    assert(idx_objs(s)[j] == s[j].obj);
}

/// Whether an element is listed.
fn elem_in(v: &Vec<ElemId>, e: ElemId) -> (r: bool)
    ensures
        r == v@.contains(e),
{
    let mut i: usize = 0;
    while i < v.len()
        invariant
            i <= v@.len(),
            forall|j: int| 0 <= j < i ==> v@[j] != e,
        decreases v@.len() - i,
    {
        if v[i] == e {
            return true;
        }
        i += 1;
    }
    false
}

/// The augmented index of one node: a per-object summary list.
#[derive(Debug)]
pub struct Index {
    /// One summary per object with operations in the subtree.
    pub entries: Vec<IndexEntry>,
}

impl View for Index {
    type V = Seq<IndexEntryView>;

    open spec fn view(&self) -> Seq<IndexEntryView> {
        self.entries@.map_values(|e: IndexEntry| e@)
    }
}

impl Index {
    /// An index with no entries.
    pub fn new() -> (r: Self)
        ensures
            r@ == Seq::<IndexEntryView>::empty(),
    {
        let r = Index { entries: Vec::new() };
        proof {
            assert(r@ =~= Seq::<IndexEntryView>::empty());
        }
        r
    }

    /// The position of this object's entry, if the subtree holds any of its
    /// operations.
    fn find(&self, obj: ObjId) -> (r: Option<usize>)
        ensures
            match r {
                Some(i) => i < self@.len() && self@[i as int].obj == obj,
                None => !idx_has(self@, obj),
            },
    {
        let mut i: usize = 0;
        while i < self.entries.len()
            invariant
                i <= self.entries@.len(),
                self@.len() == self.entries@.len(),
                forall|j: int| 0 <= j < i ==> self@[j].obj != obj,
                forall|j: int| 0 <= j < self.entries@.len() ==> self@[j] == self.entries@[j]@,
            decreases self.entries@.len() - i,
        {
            if self.entries[i].obj == obj {
                return Some(i);
            }
            i += 1;
        }
        None
    }

    /// The count of visible elements of an object in this subtree, or `None`
    /// when the subtree holds nothing for the object.
    pub fn visible_len(&self, obj: ObjId) -> (r: Option<usize>)
        requires
            idx_wf(self@),
        ensures
            match r {
                Some(n) => idx_has(self@, obj) && n as nat == idx_vis_len(self@, obj),
                None => !idx_has(self@, obj),
            },
    {
        let found = self.find(obj);
        match found {
            Some(i) => {
                proof {
                    lemma_idx_at_of(self@, i as int);
                }
                Some(self.entries[i].visible.len())
            },
            None => None,
        }
    }

    /// Whether the marker element is already reflected in the count this
    /// index holds for the object.
    pub fn has(&self, obj: ObjId, marker: &Option<ElemId>) -> (r: bool)
        requires
            idx_wf(self@),
        ensures
            r == idx_counted(self@, obj, *marker),
    {
        match marker {
            None => false,
            Some(e) => {
                let found = self.find(obj);
                match found {
                    Some(i) => {
                        proof {
                            lemma_idx_at_of(self@, i as int);
                        }
                        elem_in(&self.entries[i].visible, *e)
                    },
                    None => false,
                }
            },
        }
    }
}

/// Whether an operation contributes a visible element to the index: nothing
/// has overwritten it and it is not a delete. Counter folding is resolved by
/// the scan itself, not by the index.
pub open spec fn index_visible(op: OpView) -> bool {
    op.succ.len() == 0 && !(op.action is Del)
}

/// One operation folded into an index summary: a visible operation adds its
/// element to its object's entry, once.
pub open spec fn add_to_index(s: Seq<IndexEntryView>, op: OpView) -> Seq<IndexEntryView> {
    if !index_visible(op) {
        s
    } else {
        match op.elemid_spec() {
            None => s,
            Some(e) => if idx_has(s, op.obj) {
                let i = idx_at(s, op.obj);
                if s[i].visible.contains(e) {
                    s
                } else {
                    s.update(i, IndexEntryView { visible: s[i].visible.push(e), ..s[i] })
                }
            } else {
                s.push(IndexEntryView { obj: op.obj, visible: seq![e] })
            },
        }
    }
}

/// The index a leaf derives from its operations, scanned left to right.
pub open spec fn leaf_index(ops: Seq<OpView>) -> Seq<IndexEntryView>
    decreases ops.len(),
{
    if ops.len() == 0 {
        Seq::empty()
    } else {
        add_to_index(leaf_index(ops.drop_last()), ops.last())
    }
}

/// One node of the augmented operation tree. A leaf holds operations; an
/// inner node holds children with one separating operation between each
/// neighbouring pair. `length` counts every operation in the subtree, and
/// `index` summarises per object which elements have a visible write here.
/// Maintenance of the index as operations arrive is the change-application
/// layer's job; this core specifies and uses its read contract.
#[derive(Debug)]
pub struct OpTreeNode {
    pub children: Vec<OpTreeNode>,
    pub elements: Vec<Op>,
    pub index: Index,
    pub length: usize,
}

/// What a positional query reads of a node before deciding to descend, skip
/// or stop: its size, its per-object summaries, and the element of its
/// rightmost operation.
#[verifier::ext_equal]
pub ghost struct NodeSummary {
    pub len: nat,
    pub index: Seq<IndexEntryView>,
    pub last_elem: Option<ElemId>,
}

/// The operations a subtree rooted at position `i` of an inner node still
/// holds: the children from `i` on and the separators between them.
pub open spec fn rest_len(children: Seq<OpTreeNode>, elements: Seq<Op>, i: int) -> nat
    decreases children.len() - i,
{
    if i < 0 || i >= children.len() {
        0
    } else {
        children[i].length as nat + (if i < elements.len() {
            1nat
        } else {
            0nat
        }) + rest_len(children, elements, i + 1)
    }
}

impl OpTreeNode {
    /// Structural consistency: the index is well formed with counts bounded
    /// by the subtree size, a leaf's length counts its operations, and an
    /// inner node separates n nonempty well-formed children with n - 1
    /// operations, its length counting both.
    pub open spec fn wf(self) -> bool
        decreases self,
    {
        &&& idx_wf(self.index@)
        &&& forall|i: int|
            0 <= i < self.index@.len() ==> (#[trigger] self.index@[i]).visible.len()
                <= self.length as nat
        &&& if self.children@.len() == 0 {
            self.length as nat == self.elements@.len()
        } else {
            &&& self.children@.len() == self.elements@.len() + 1
            &&& self.length as nat == rest_len(self.children@, self.elements@, 0)
            &&& forall|i: int|
                0 <= i < self.children@.len() ==> (#[trigger] self.children@[i]).wf()
                    && self.children@[i].length >= 1
        }
    }

    /// The rightmost operation of the subtree.
    pub open spec fn last_op(self) -> OpView
        decreases self,
    {
        if self.children@.len() == 0 {
            self.elements@.last()@
        } else {
            self.children@.last().last_op()
        }
    }

    /// What a query reads of this node.
    pub open spec fn summary(self) -> NodeSummary {
        NodeSummary {
            len: self.length as nat,
            index: self.index@,
            last_elem: self.last_op().elemid_spec(),
        }
    }

    /// The number of operations in the subtree.
    pub fn len(&self) -> (r: usize)
        ensures
            r == self.length,
    {
        self.length
    }

    /// The rightmost operation of a nonempty subtree.
    pub fn last(&self) -> (r: &Op)
        requires
            self.wf(),
            self.length >= 1,
        ensures
            r@ == self.last_op(),
        decreases *self,
    {
        if self.children.len() == 0 {
            &self.elements[self.elements.len() - 1]
        } else {
            let c = &self.children[self.children.len() - 1];
            c.last()
        }
    }

    /// A leaf holding the given operations in order, with the index they
    /// derive.
    pub fn leaf(elements: Vec<Op>) -> (r: OpTreeNode)
        ensures
            r.wf(),
            r.children@.len() == 0,
            r.elements@ == elements@,
            r.index@ == leaf_index(elements@.map_values(|o: Op| o@)),
            r.length == elements@.len(),
    {
        let ghost views = elements@.map_values(|o: Op| o@);
        let length = elements.len();
        let mut index = Index::new();
        let mut i: usize = 0;
        proof {
            assert(views.take(0) =~= Seq::<OpView>::empty());
            assert(idx_objs(index@) =~= Seq::<ObjId>::empty());
        }
        while i < elements.len()
            invariant
                i <= elements@.len(),
                views == elements@.map_values(|o: Op| o@),
                views.len() == elements@.len(),
                index@ == leaf_index(views.take(i as int)),
                idx_wf(index@),
                forall|j: int|
                    0 <= j < index@.len() ==> (#[trigger] index@[j]).visible.len() <= i as nat,
            decreases elements@.len() - i,
        {
            proof {
                assert(views.take(i + 1).drop_last() =~= views.take(i as int));
                assert(views.take(i + 1).last() == views[i as int]);
                assert(views[i as int] == elements@[i as int]@);
            }
            let op = &elements[i];
            let del = op.is_del();
            if op.succ.len() == 0 && !del {
                let eid = op.elemid();
                match eid {
                    Some(e) => {
                        let found = index.find(op.obj);
                        match found {
                            Some(k) => {
                                proof {
                                    lemma_idx_at_of(index@, k as int);
                                }
                                if !elem_in(&index.entries[k].visible, e) {
                                    let ghost pre = index@;
                                    let mut entry = index.entries.remove(k);
                                    entry.visible.push(e);
                                    index.entries.insert(k, entry);
                                    proof {
                                        assert(index@ =~~= pre.update(
                                            idx_at(pre, op@.obj),
                                            IndexEntryView {
                                                visible: pre[idx_at(pre, op@.obj)].visible.push(e),
                                                ..pre[idx_at(pre, op@.obj)]
                                            },
                                        ));
                                        assert(idx_objs(index@) =~= idx_objs(pre));
                                    }
                                }
                            },
                            None => {
                                let ghost pre = index@;
                                index.entries.push(IndexEntry { obj: op.obj, visible: vec![e] });
                                proof {
                                    assert(index@ =~~= pre.push(
                                        IndexEntryView { obj: op@.obj, visible: seq![e] },
                                    ));
                                    assert(idx_objs(index@) =~= idx_objs(pre).push(op@.obj));
                                }
                            },
                        }
                    },
                    None => {},
                }
            }
            i += 1;
        }
        proof {
            assert(views.take(views.len() as int) =~= views);
        }
        OpTreeNode { children: Vec::new(), elements, index, length }
    }
}

/// Whether an index lists element `e` under object `obj`.
pub open spec fn idx_member(s: Seq<IndexEntryView>, obj: ObjId, e: ElemId) -> bool {
    idx_has(s, obj) && s[idx_at(s, obj)].visible.contains(e)
}

/// Folding one operation into a well-formed index keeps it well formed.
pub proof fn lemma_add_to_index_wf(s: Seq<IndexEntryView>, op: OpView)
    requires
        idx_wf(s),
    ensures
        idx_wf(add_to_index(s, op)),
{
    let r = add_to_index(s, op);
    if index_visible(op) && op.elemid_spec() is Some {
        let e = op.elemid_spec()->0;
        if idx_has(s, op.obj) {
            let i = idx_at(s, op.obj);
            if s[i].visible.contains(e) {
            } else {
                assert(idx_objs(r) =~= idx_objs(s));
                let nv = s[i].visible.push(e);
                assert forall|a: int, b: int|
                    0 <= a < nv.len() && 0 <= b < nv.len() && a != b implies nv[a] != nv[b] by {
                    if a < nv.len() - 1 && b < nv.len() - 1 {
                    } else {
                        assert(!s[i].visible.contains(e));
                    }
                }
                assert(forall|j: int| 0 <= j < r.len() ==> (#[trigger] r[j]).visible.no_duplicates());
            }
        } else {
            assert forall|j: int| 0 <= j < s.len() implies idx_objs(s)[j] != op.obj by {
                assert(idx_objs(s)[j] == s[j].obj);
            }
            assert(idx_objs(r) =~= idx_objs(s).push(op.obj));
            assert(seq![e].no_duplicates());
        }
    }
}

/// A leaf's derived index is well formed.
pub proof fn lemma_leaf_index_wf(ops: Seq<OpView>)
    ensures
        idx_wf(leaf_index(ops)),
    decreases ops.len(),
{
    if ops.len() == 0 {
        assert(idx_objs(leaf_index(ops)) =~= Seq::<ObjId>::empty());
    } else {
        lemma_leaf_index_wf(ops.drop_last());
        lemma_add_to_index_wf(leaf_index(ops.drop_last()), ops.last());
    }
}

/// Folding one operation into a well-formed index adds exactly the element
/// the operation introduces visibly, and keeps every earlier listing.
pub proof fn lemma_add_to_index_members(s: Seq<IndexEntryView>, op: OpView, obj: ObjId, e: ElemId)
    requires
        idx_wf(s),
    ensures
        idx_member(add_to_index(s, op), obj, e) <==> (idx_member(s, obj, e) || (index_visible(op)
            && op.obj == obj && op.elemid_spec() == Some(e))),
{
    let r = add_to_index(s, op);
    lemma_add_to_index_wf(s, op);
    if index_visible(op) && op.elemid_spec() is Some {
        let ae = op.elemid_spec()->0;
        if idx_has(s, op.obj) {
            let i = idx_at(s, op.obj);
            lemma_idx_at_of(s, i);
            if s[i].visible.contains(ae) {
            } else {
                let nv = s[i].visible.push(ae);
                assert(r =~= s.update(i, IndexEntryView { visible: nv, ..s[i] }));
                assert(nv.contains(e) <==> (s[i].visible.contains(e) || e == ae)) by {
                    if nv.contains(e) {
                        let x = choose|x: int| 0 <= x < nv.len() && nv[x] == e;
                        if x < s[i].visible.len() {
                            assert(s[i].visible[x] == e);
                        }
                    }
                    if s[i].visible.contains(e) {
                        let x = choose|x: int|
                            0 <= x < s[i].visible.len() && s[i].visible[x] == e;
                        assert(nv[x] == e);
                    }
                    if e == ae {
                        assert(nv[s[i].visible.len() as int] == e);
                    }
                }
                if obj == op.obj {
                    assert(r[i].obj == obj);
                    lemma_idx_at_of(r, i);
                    assert(idx_member(r, obj, e) <==> nv.contains(e));
                } else {
                    if idx_has(s, obj) {
                        let j = idx_at(s, obj);
                        lemma_idx_at_of(s, j);
                        assert(j != i);
                        assert(r[j].obj == obj);
                        lemma_idx_at_of(r, j);
                        assert(r[j] == s[j]);
                    }
                    if idx_has(r, obj) {
                        let j = idx_at(r, obj);
                        assert(0 <= j < s.len() && r[j].obj == obj);
                        assert(j != i);
                        assert(s[j].obj == obj);
                    }
                }
            }
        } else {
            let ne = IndexEntryView { obj: op.obj, visible: seq![ae] };
            assert(r =~= s.push(ne));
            if obj == op.obj {
                assert(r[s.len() as int].obj == obj);
                lemma_idx_at_of(r, s.len() as int);
                assert(idx_member(r, obj, e) <==> seq![ae].contains(e));
                assert(seq![ae].contains(e) <==> e == ae) by {
                    if seq![ae].contains(e) {
                        let x = choose|x: int| 0 <= x < 1 && seq![ae][x] == e;
                    }
                    if e == ae {
                        assert(seq![ae][0] == e);
                    }
                }
            } else {
                if idx_has(s, obj) {
                    let j = idx_at(s, obj);
                    lemma_idx_at_of(s, j);
                    assert(r[j].obj == obj);
                    lemma_idx_at_of(r, j);
                    assert(r[j] == s[j]);
                }
                if idx_has(r, obj) {
                    let j = idx_at(r, obj);
                    assert(0 <= j < r.len() && r[j].obj == obj);
                    assert(j < s.len());
                    assert(s[j].obj == obj);
                }
            }
        }
    }
}

/// The augmented index a leaf derives is faithful: it lists an element under
/// an object exactly when some operation of that object in the leaf
/// introduces it and nothing has overwritten that operation.
pub proof fn lemma_leaf_index_faithful(ops: Seq<OpView>, obj: ObjId, e: ElemId)
    ensures
        idx_member(leaf_index(ops), obj, e) <==> exists|k: int|
            0 <= k < ops.len() && #[trigger] index_visible(ops[k]) && ops[k].obj == obj
                && ops[k].elemid_spec() == Some(e),
    decreases ops.len(),
{
    if ops.len() == 0 {
        assert(!idx_has(leaf_index(ops), obj));
    } else {
        let pre = ops.drop_last();
        lemma_leaf_index_faithful(pre, obj, e);
        lemma_leaf_index_wf(pre);
        lemma_add_to_index_members(leaf_index(pre), ops.last(), obj, e);
        if idx_member(leaf_index(ops), obj, e) {
            if idx_member(leaf_index(pre), obj, e) {
                let k = choose|k: int|
                    0 <= k < pre.len() && #[trigger] index_visible(pre[k]) && pre[k].obj == obj
                        && pre[k].elemid_spec() == Some(e);
                assert(ops[k] == pre[k]);
                assert(index_visible(ops[k]));
            } else {
                assert(ops[ops.len() - 1] == ops.last());
                assert(index_visible(ops[ops.len() - 1]));
            }
        }
        if exists|k: int|
            0 <= k < ops.len() && #[trigger] index_visible(ops[k]) && ops[k].obj == obj
                && ops[k].elemid_spec() == Some(e) {
            let k = choose|k: int|
                0 <= k < ops.len() && #[trigger] index_visible(ops[k]) && ops[k].obj == obj
                    && ops[k].elemid_spec() == Some(e);
            if k < ops.len() - 1 {
                assert(pre[k] == ops[k]);
                assert(index_visible(pre[k]));
            }
        }
    }
}

} // verus!
