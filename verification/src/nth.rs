//! The positional query: resolve "the operations visible at list position k
//! of one object" against the augmented tree, carrying a cross-boundary
//! de-duplication marker, a counter accumulation state, and the accumulating
//! answer. Several concurrently visible writes at one position are all
//! recorded: collapsing them would discard a conflict the document layer must
//! surface.

use vstd::prelude::*;
use crate::op_tree::{idx_counted, idx_has, idx_vis_len, rest_len, NodeSummary, OpTreeNode};
use crate::query::{
    is_visible, pairs_view, pred_ctr_ops, visible_op, vis_step, visible_ops_spec, ctr_wf, firsts,
    seconds, Counters, CounterDataView, QueryResult,
};
use crate::types::{AutomergeError, ElemId, Key, ObjId, Op, OpId, OpType, OpView, ScalarValue};

verus! {

/// Mathematical state of a positional query.
#[verifier::ext_equal]
pub ghost struct NthView {
    /// The object whose visible elements are counted.
    pub obj: ObjId,
    /// The position asked for, over visible elements.
    pub target: nat,
    /// Visible elements counted so far.
    pub seen: nat,
    /// The element already counted, if the current run may continue.
    pub last_seen: Option<ElemId>,
    /// The element the scan is currently inside.
    pub last_elem: Option<ElemId>,
    /// Counter accumulation state.
    pub counters: Seq<CounterDataView>,
    /// The matched operations.
    pub ops: Seq<OpView>,
    /// Their absolute positions.
    pub ops_pos: Seq<nat>,
    /// Absolute position cursor over all operations, visible or not.
    pub pos: nat,
}

/// A positional query over the visible elements of one object.
#[derive(Debug)]
pub struct Nth {
    obj: ObjId,
    target: usize,
    seen: usize,
    last_seen: Option<ElemId>,
    last_elem: Option<ElemId>,
    counters: Counters,
    /// The matched operations: every write concurrently visible at the
    /// resolved position.
    pub ops: Vec<Op>,
    /// The absolute position of each matched operation.
    pub ops_pos: Vec<usize>,
    /// Absolute position cursor, just past the scanned prefix.
    pub pos: usize,
}

impl View for Nth {
    type V = NthView;

    closed spec fn view(&self) -> NthView {
        NthView {
            obj: self.obj,
            target: self.target as nat,
            seen: self.seen as nat,
            last_seen: self.last_seen,
            last_elem: self.last_elem,
            counters: self.counters@,
            ops: self.ops@.map_values(|o: Op| o@),
            ops_pos: self.ops_pos@.map_values(|p: usize| p as nat),
            pos: self.pos as nat,
        }
    }
}

/// The query's decision at one node, over what it reads of the node: skip a
/// subtree holding nothing of the object; otherwise count its visible
/// elements, minus one when the carried marker is already reflected, and
/// descend exactly when the target falls inside; skipping carries the
/// rightmost element as the new marker.
pub open spec fn nth_node_step(q: NthView, node: NodeSummary) -> (NthView, QueryResult) {
    if idx_has(node.index, q.obj) {
        let nv0 = idx_vis_len(node.index, q.obj);
        let nv = if idx_counted(node.index, q.obj, q.last_seen) {
            (nv0 - 1) as nat
        } else {
            nv0
        };
        if q.seen + nv > q.target {
            (q, QueryResult::Descend)
        } else {
            (
                NthView {
                    pos: q.pos + node.len,
                    seen: q.seen + nv,
                    last_seen: node.last_elem,
                    ..q
                },
                QueryResult::Next,
            )
        }
    } else {
        (NthView { pos: q.pos + node.len, ..q }, QueryResult::Next)
    }
}

/// The query's decision at one operation: a foreign operation stops the scan
/// once the target has been passed; an insert begins a new element (stopping
/// likewise once past the target); a visible operation of an uncounted
/// element counts it; and every visible operation at the target position is
/// recorded, with the counters it completes folded in.
pub open spec fn nth_elem_step(q: NthView, op: OpView) -> (NthView, QueryResult) {
    if op.obj != q.obj {
        if q.seen > q.target {
            (q, QueryResult::Finish)
        } else {
            (NthView { pos: q.pos + 1, ..q }, QueryResult::Next)
        }
    } else if op.insert && q.seen > q.target {
        (q, QueryResult::Finish)
    } else {
        let q1 = if op.insert {
            NthView { last_elem: op.elemid_spec(), last_seen: None, ..q }
        } else {
            q
        };
        let vs = vis_step(q1.counters, op, q1.pos);
        let visible = vs.1;
        let counted = visible && q1.last_seen is None;
        let q2 = NthView {
            counters: vs.0,
            seen: if counted {
                q1.seen + 1
            } else {
                q1.seen
            },
            last_seen: if counted {
                op.elemid_spec()
            } else {
                q1.last_seen
            },
            ..q1
        };
        let recorded = if visible && q2.seen == q2.target + 1 {
            visible_ops_spec(q2.counters, op, q1.pos)
        } else {
            Seq::empty()
        };
        let q3 = NthView {
            ops: q2.ops + seconds(recorded),
            ops_pos: q2.ops_pos + firsts(recorded),
            pos: q2.pos + 1,
            ..q2
        };
        (q3, QueryResult::Next)
    }
}

impl Nth {
    /// Validity of the query state: the counter state holds one entry per id,
    /// the target leaves room for the count to pass it, and the count never
    /// outruns the cursor.
    pub open spec fn wf(self) -> bool {
        &&& ctr_wf(self@.counters)
        &&& self@.target < usize::MAX as nat
        &&& self@.seen <= self@.pos
    }

    /// A fresh query for the visible element at `target` of `obj`.
    pub fn new(obj: ObjId, target: usize) -> (r: Nth)
        requires
            target < usize::MAX,
        ensures
            r.wf(),
            r@ == (NthView {
                obj: obj,
                target: target as nat,
                seen: 0,
                last_seen: None,
                last_elem: None,
                counters: Seq::empty(),
                ops: Seq::empty(),
                ops_pos: Seq::empty(),
                pos: 0,
            }),
    {
        let r = Nth {
            obj,
            target,
            seen: 0,
            last_seen: None,
            ops: vec![],
            ops_pos: vec![],
            pos: 0,
            last_elem: None,
            counters: Counters::new(),
        };
        proof {
            assert(r@.ops =~= Seq::<OpView>::empty());
            assert(r@.ops_pos =~= Seq::<nat>::empty());
        }
        r
    }

    /// Whether the scan has passed the target, so the answer is complete.
    pub fn done(&self) -> (r: bool)
        ensures
            r == (self@.seen > self@.target),
    {
        self.seen > self.target
    }

    /// The resolved key, `Seq` of the element found at the target position;
    /// or, when no element was reached, the failure naming the requested
    /// index.
    pub fn key(&self) -> (r: Result<Key, AutomergeError>)
        ensures
            match self@.last_elem {
                Some(e) => r == Ok::<Key, AutomergeError>(Key::Elem(e)),
                None => r == Err::<Key, AutomergeError>(
                    AutomergeError::InvalidIndex(self@.target as usize),
                ),
            },
    {
        match self.last_elem {
            Some(e) => Ok(Key::Elem(e)),
            None => Err(AutomergeError::InvalidIndex(self.target)),
        }
    }

    /// The query's outcome: once the scan has passed the target, the resolved
    /// key names the element found there; otherwise the query failed and
    /// reports the requested index.
    pub fn result(&self) -> (r: Result<Key, AutomergeError>)
        ensures
            self@.seen > self@.target && self@.last_elem is Some ==> r == Ok::<
                Key,
                AutomergeError,
            >(Key::Elem(self@.last_elem->0)),
            !(self@.seen > self@.target && self@.last_elem is Some) ==> r == Err::<
                Key,
                AutomergeError,
            >(AutomergeError::InvalidIndex(self@.target as usize)),
    {
        if self.seen > self.target {
            match self.last_elem {
                Some(e) => Ok(Key::Elem(e)),
                None => Err(AutomergeError::InvalidIndex(self.target)),
            }
        } else {
            Err(AutomergeError::InvalidIndex(self.target))
        }
    }

    /// The query's decision at one node: exactly `nth_node_step` of what the
    /// node summary shows.
    pub fn query_node(&mut self, child: &OpTreeNode) -> (r: QueryResult)
        requires
            child.wf(),
            child.length >= 1,
            old(self).wf(),
            old(self)@.pos + child.length as nat <= usize::MAX as nat,
        ensures
            final(self).wf(),
            final(self)@ == nth_node_step(old(self)@, child.summary()).0,
            r == nth_node_step(old(self)@, child.summary()).1,
            final(self)@.pos <= old(self)@.pos + child.length as nat,
    {
        let vl = child.index.visible_len(self.obj);
        match vl {
            Some(full) => {
                proof {
                    let k = crate::op_tree::idx_at(child.index@, self@.obj);
                    assert(child.index@[k].visible.len() <= child.length as nat);
                }
                let num_vis: usize = if child.index.has(self.obj, &self.last_seen) {
                    full - 1
                } else {
                    full
                };
                if self.seen + num_vis > self.target {
                    proof {
                        assert(self@ =~= nth_node_step(old(self)@, child.summary()).0);
                    }
                    QueryResult::Descend
                } else {
                    self.pos += child.len();
                    self.seen += num_vis;
                    self.last_seen = child.last().elemid();
                    proof {
                        assert(self@ =~= nth_node_step(old(self)@, child.summary()).0);
                    }
                    QueryResult::Next
                }
            },
            None => {
                self.pos += child.len();
                proof {
                    assert(self@ =~= nth_node_step(old(self)@, child.summary()).0);
                }
                QueryResult::Next
            },
        }
    }

    /// The query's decision at one operation: exactly `nth_elem_step`.
    pub fn query_element(&mut self, element: &Op) -> (r: QueryResult)
        requires
            old(self).wf(),
            old(self)@.pos < usize::MAX as nat,
        ensures
            final(self).wf(),
            final(self)@ == nth_elem_step(old(self)@, element@).0,
            r == nth_elem_step(old(self)@, element@).1,
            final(self)@.pos <= old(self)@.pos + 1,
    {
        let ghost q0 = old(self)@;
        let ghost step = nth_elem_step(q0, element@);
        if element.obj != self.obj {
            if self.seen > self.target {
                proof {
                    assert(self@ =~= step.0);
                }
                return QueryResult::Finish;
            }
            self.pos += 1;
            proof {
                assert(self@ =~= step.0);
            }
            return QueryResult::Next;
        }
        if element.insert {
            if self.seen > self.target {
                proof {
                    assert(self@ =~= step.0);
                }
                return QueryResult::Finish;
            }
            self.last_elem = element.elemid();
            self.last_seen = None;
        }
        let ghost q1 = if element@.insert {
            NthView { last_elem: element@.elemid_spec(), last_seen: None, ..q0 }
        } else {
            q0
        };
        proof {
            assert(self@ =~= q1);
        }
        let visible = is_visible(element, self.pos, &mut self.counters);
        if visible && self.last_seen.is_none() {
            self.seen += 1;
            self.last_seen = element.elemid();
        }
        let ghost vs = vis_step(q1.counters, element@, q1.pos);
        let ghost counted = vs.1 && q1.last_seen is None;
        let ghost q2 = NthView {
            counters: vs.0,
            seen: if counted {
                q1.seen + 1
            } else {
                q1.seen
            },
            last_seen: if counted {
                element@.elemid_spec()
            } else {
                q1.last_seen
            },
            ..q1
        };
        proof {
            assert(self@ =~= q2);
        }
        let ghost recorded = if vs.1 && q2.seen == q2.target + 1 {
            visible_ops_spec(q2.counters, element@, q1.pos)
        } else {
            Seq::empty()
        };
        if visible && self.seen == self.target + 1 {
            let vops = visible_op(element, self.pos, &self.counters);
            proof {
                assert(pairs_view(vops@) == recorded);
            }
            let mut j: usize = 0;
            proof {
                assert(self@.ops =~= q2.ops + seconds(recorded).take(0));
                assert(self@.ops_pos =~= q2.ops_pos + firsts(recorded).take(0));
            }
            while j < vops.len()
                invariant
                    j <= vops@.len(),
                    pairs_view(vops@) == recorded,
                    ctr_wf(self@.counters),
                    self@.counters == q2.counters,
                    self@.obj == q2.obj,
                    self@.target == q2.target,
                    self@.seen == q2.seen,
                    self@.last_seen == q2.last_seen,
                    self@.last_elem == q2.last_elem,
                    self@.pos == q2.pos,
                    self@.ops =~= q2.ops + seconds(recorded).take(j as int),
                    self@.ops_pos =~= q2.ops_pos + firsts(recorded).take(j as int),
                decreases vops@.len() - j,
            {
                let vpos = vops[j].0;
                let vop = vops[j].1.clone();
                let ghost before_ops = self@.ops;
                let ghost before_pos = self@.ops_pos;
                self.ops.push(vop);
                self.ops_pos.push(vpos);
                proof {
                    assert(recorded[j as int] == (vops@[j as int].0 as nat, vops@[j as int].1@));
                    assert(self@.ops =~= before_ops.push(vop@));
                    assert(self@.ops_pos =~= before_pos.push(vpos as nat));
                    assert(seconds(recorded).take(j + 1) =~= seconds(recorded).take(
                        j as int,
                    ).push(recorded[j as int].1));
                    assert(firsts(recorded).take(j + 1) =~= firsts(recorded).take(j as int).push(
                        recorded[j as int].0,
                    ));
                    assert(self@.ops =~= q2.ops + seconds(recorded).take(j + 1));
                    assert(self@.ops_pos =~= q2.ops_pos + firsts(recorded).take(j + 1));
                }
                j += 1;
            }
            proof {
                assert(seconds(recorded).take(vops@.len() as int) =~= seconds(recorded));
                assert(firsts(recorded).take(vops@.len() as int) =~= firsts(recorded));
            }
        } else {
            proof {
                assert(recorded =~= Seq::<(nat, OpView)>::empty());
                assert(self@.ops =~= q2.ops + seconds(recorded));
                assert(self@.ops_pos =~= q2.ops_pos + firsts(recorded));
            }
        }
        self.pos += 1;
        proof {
            assert(self@ =~= step.0);
        }
        QueryResult::Next
    }
}

impl OpTreeNode {
    /// The walk's outcome over a leaf's operations from position `i` on:
    /// each operation is offered to the query until one decision is `Finish`.
    pub open spec fn elems_steps(elems: Seq<Op>, q: NthView, i: int) -> (NthView, bool)
        decreases elems.len() - i,
    {
        if i < 0 || i >= elems.len() {
            (q, false)
        } else {
            let r = nth_elem_step(q, elems[i]@);
            if r.1 is Finish {
                (r.0, true)
            } else {
                Self::elems_steps(elems, r.0, i + 1)
            }
        }
    }

    /// The walk's outcome over an inner node from child `i` on: the query
    /// decides per child whether to descend, skip, or stop, and sees the
    /// separating operation after each child.
    pub open spec fn walk(self, q: NthView, i: int) -> (NthView, bool)
        decreases self, 0int, self.children@.len() - i,
    {
        if i < 0 || i >= self.children@.len() {
            (q, false)
        } else {
            let rn = nth_node_step(q, self.children@[i].summary());
            if rn.1 is Finish {
                (rn.0, true)
            } else {
                let rq = if rn.1 is Descend {
                    self.children@[i].search_spec(rn.0)
                } else {
                    (rn.0, false)
                };
                if rq.1 {
                    (rq.0, true)
                } else if i < self.elements@.len() {
                    let re = nth_elem_step(rq.0, self.elements@[i]@);
                    if re.1 is Finish {
                        (re.0, true)
                    } else {
                        self.walk(re.0, i + 1)
                    }
                } else {
                    self.walk(rq.0, i + 1)
                }
            }
        }
    }

    /// The whole walk's outcome on this subtree.
    pub open spec fn search_spec(self, q: NthView) -> (NthView, bool)
        decreases self, 1int, 0int,
    {
        if self.children@.len() == 0 {
            Self::elems_steps(self.elements@, q, 0)
        } else {
            self.walk(q, 0)
        }
    }

    /// The mechanical walk: offer every node and operation, in canonical
    /// order, to the query until it declares the answer determined. The walk
    /// carries no query knowledge; every decision is the query's. Its result
    /// is a pure function of the tree and the query's starting state, so
    /// repeated searches return identical results.
    pub fn search(&self, q: &mut Nth) -> (finished: bool)
        requires
            self.wf(),
            old(q).wf(),
            old(q)@.pos + self.length as nat <= usize::MAX as nat,
        ensures
            final(q).wf(),
            final(q)@ == self.search_spec(old(q)@).0,
            finished == self.search_spec(old(q)@).1,
            final(q)@.pos <= old(q)@.pos + self.length as nat,
        decreases *self,
    {
        let ghost q00 = old(q)@;
        if self.children.len() == 0 {
            let mut i: usize = 0;
            while i < self.elements.len()
                invariant
                    q00 == old(q)@,
                    self.wf(),
                    self.children@.len() == 0,
                    self.length as nat == self.elements@.len(),
                    i <= self.elements@.len(),
                    q.wf(),
                    q@.pos + (self.elements@.len() - i) <= q00.pos + self.length as nat,
                    q00.pos + self.length as nat <= usize::MAX as nat,
                    Self::elems_steps(self.elements@, q00, 0) == Self::elems_steps(
                        self.elements@,
                        q@,
                        i as int,
                    ),
                decreases self.elements@.len() - i,
            {
                let ghost qpre = q@;
                let r = q.query_element(&self.elements[i]);
                if matches!(r, QueryResult::Finish) {
                    proof {
                        assert(Self::elems_steps(self.elements@, qpre, i as int) == (q@, true));
                    }
                    return true;
                }
                proof {
                    assert(Self::elems_steps(self.elements@, qpre, i as int)
                        == Self::elems_steps(self.elements@, q@, i + 1));
                }
                i += 1;
            }
            proof {
                assert(Self::elems_steps(self.elements@, q@, self.elements@.len() as int)
                    == (q@, false));
            }
            false
        } else {
            let mut i: usize = 0;
            while i < self.children.len()
                invariant
                    q00 == old(q)@,
                    self.wf(),
                    self.children@.len() > 0,
                    self.children@.len() == self.elements@.len() + 1,
                    self.length as nat == rest_len(self.children@, self.elements@, 0),
                    i <= self.children@.len(),
                    q.wf(),
                    q@.pos + rest_len(self.children@, self.elements@, i as int) <= q00.pos
                        + self.length as nat,
                    q00.pos + self.length as nat <= usize::MAX as nat,
                    self.walk(q00, 0) == self.walk(q@, i as int),
                decreases self.children@.len() - i,
            {
                let ghost qpre = q@;
                let child = &self.children[i];
                proof {
                    assert(self.children@[i as int].wf());
                    assert(rest_len(self.children@, self.elements@, i as int)
                        == child.length as nat + (if (i as int) < self.elements@.len() {
                        1nat
                    } else {
                        0nat
                    }) + rest_len(self.children@, self.elements@, i + 1));
                }
                let r = q.query_node(child);
                let ghost rn = nth_node_step(qpre, child.summary());
                match r {
                    QueryResult::Finish => {
                        proof {
                            assert(self.walk(qpre, i as int) == (q@, true));
                        }
                        return true;
                    },
                    QueryResult::Descend => {
                        let fin = child.search(q);
                        if fin {
                            proof {
                                assert(self.walk(qpre, i as int) == (q@, true));
                            }
                            return true;
                        }
                    },
                    QueryResult::Next => {},
                }
                let ghost rq = if rn.1 is Descend {
                    self.children@[i as int].search_spec(rn.0)
                } else {
                    (rn.0, false)
                };
                proof {
                    assert(q@ == rq.0 && !rq.1);
                }
                if i < self.elements.len() {
                    let ghost qmid = q@;
                    let r2 = q.query_element(&self.elements[i]);
                    if matches!(r2, QueryResult::Finish) {
                        proof {
                            assert(self.walk(qpre, i as int) == (q@, true));
                        }
                        return true;
                    }
                    proof {
                        assert(self.walk(qpre, i as int) == self.walk(q@, i + 1));
                    }
                } else {
                    proof {
                        assert(self.walk(qpre, i as int) == self.walk(q@, i + 1));
                    }
                }
                i += 1;
            }
            proof {
                assert(self.walk(q@, self.children@.len() as int) == (q@, false));
            }
            false
        }
    }
}

/// Conflict surfacing: two writes to one element, neither named among the
/// other's predecessors or successors, reached with the scan exactly at the
/// target, are both recorded in the answer at consecutive absolute positions,
/// while the element itself is counted only once.
pub proof fn lemma_conflict_surfacing(
    q: NthView,
    op1: OpView,
    op2: OpView,
    sv1: ScalarValue,
    sv2: ScalarValue,
)
    requires
        q.seen == q.target,
        op1.obj == q.obj,
        op1.insert,
        op1.action == OpType::Assign(sv1),
        !(sv1 is Counter),
        op1.succ.len() == 0,
        op1.pred.len() == 0,
        op2.obj == q.obj,
        !op2.insert,
        op2.action == OpType::Assign(sv2),
        !(sv2 is Counter),
        op2.succ.len() == 0,
        op2.pred.len() == 0,
    ensures
        ({
            let r1 = nth_elem_step(q, op1);
            let r2 = nth_elem_step(r1.0, op2);
            &&& r1.1 is Next
            &&& r2.1 is Next
            &&& r2.0.seen == q.seen + 1
            &&& r2.0.ops == q.ops + seq![op1, op2]
            &&& r2.0.ops_pos == q.ops_pos + seq![q.pos, q.pos + 1]
            &&& r2.0.last_elem == Some(ElemId(op1.id))
            &&& r2.0.pos == q.pos + 2
        }),
{
    let r1 = nth_elem_step(q, op1);
    assert(op1.pred =~= Seq::<OpId>::empty());
    assert(pred_ctr_ops(q.counters, op1.pred) =~= Seq::<(nat, OpView)>::empty());
    let rec1 = seq![(q.pos, op1)];
    assert(visible_ops_spec(q.counters, op1, q.pos) =~= rec1);
    assert(seconds(rec1) =~= seq![op1]);
    assert(firsts(rec1) =~= seq![q.pos]);
    assert(r1.0.ops =~= q.ops + seq![op1]);
    assert(r1.0.ops_pos =~= q.ops_pos + seq![q.pos]);
    assert(r1.0.seen == q.seen + 1);
    assert(r1.0.pos == q.pos + 1);
    assert(r1.0.last_seen == Some(ElemId(op1.id)));

    let r2 = nth_elem_step(r1.0, op2);
    assert(op2.pred =~= Seq::<OpId>::empty());
    assert(pred_ctr_ops(r1.0.counters, op2.pred) =~= Seq::<(nat, OpView)>::empty());
    let rec2 = seq![(q.pos + 1, op2)];
    assert(visible_ops_spec(r1.0.counters, op2, r1.0.pos) =~= rec2);
    assert(seconds(rec2) =~= seq![op2]);
    assert(firsts(rec2) =~= seq![q.pos + 1]);
    assert(r2.0.ops =~= q.ops + seq![op1] + seq![op2]);
    assert(q.ops + seq![op1] + seq![op2] =~= q.ops + seq![op1, op2]);
    assert(r2.0.ops_pos =~= q.ops_pos + seq![q.pos] + seq![q.pos + 1]);
    assert(q.ops_pos + seq![q.pos] + seq![q.pos + 1] =~= q.ops_pos + seq![q.pos, q.pos + 1]);
}

/// A plain insertion into one object: a non-counter write that nothing
/// overwrites and that overwrites nothing.
pub open spec fn plain_insert(op: Op, obj: ObjId) -> bool {
    &&& op@.obj == obj
    &&& op@.insert
    &&& op@.succ.len() == 0
    &&& op@.pred.len() == 0
    &&& (op@.action matches OpType::Assign(sv) && !(sv is Counter))
}

/// A log of plain insertions into one object, with no deletions.
pub open spec fn plain_inserts(ops: Seq<Op>, obj: ObjId) -> bool {
    forall|k: int| 0 <= k < ops.len() ==> #[trigger] plain_insert(ops[k], obj)
}

/// The state of a fresh query for position `t` of `obj`.
pub open spec fn fresh_nth(obj: ObjId, t: nat) -> NthView {
    NthView {
        obj: obj,
        target: t,
        seen: 0,
        last_seen: None,
        last_elem: None,
        counters: Seq::empty(),
        ops: Seq::empty(),
        ops_pos: Seq::empty(),
        pos: 0,
    }
}

/// The query state after scanning the first `k` operations of a log of plain
/// insertions: `k` elements counted, the cursor at `k`, and the answer
/// recorded exactly once the count has passed the target.
pub open spec fn insert_scan_state(ops: Seq<Op>, obj: ObjId, t: nat, k: nat) -> NthView {
    NthView {
        obj: obj,
        target: t,
        seen: k,
        last_seen: if k == 0 {
            None
        } else {
            Some(ElemId(ops[k - 1]@.id))
        },
        last_elem: if k == 0 {
            None
        } else {
            Some(ElemId(ops[k - 1]@.id))
        },
        counters: Seq::empty(),
        ops: if k == t + 1 {
            seq![ops[t as int]@]
        } else {
            Seq::empty()
        },
        ops_pos: if k == t + 1 {
            seq![t]
        } else {
            Seq::empty()
        },
        pos: k,
    }
}

/// Scanning a log of plain insertions from position `k` on carries the scan
/// state to its final shape; the scan stops early exactly when an insertion
/// follows the answered position.
pub proof fn lemma_plain_insert_scan(ops: Seq<Op>, obj: ObjId, t: nat, k: nat)
    requires
        plain_inserts(ops, obj),
        t <= ops.len(),
        k <= t + 1,
        k <= ops.len(),
    ensures
        OpTreeNode::elems_steps(ops, insert_scan_state(ops, obj, t, k), k as int) == (
            insert_scan_state(ops, obj, t, if t + 1 <= ops.len() {
                t + 1
            } else {
                ops.len()
            }),
            t + 1 < ops.len(),
        ),
    decreases ops.len() - k,
{
    let q = insert_scan_state(ops, obj, t, k);
    if k == ops.len() {
        assert(OpTreeNode::elems_steps(ops, q, k as int) == (q, false));
    } else {
        let op = ops[k as int];
        assert(plain_insert(op, obj));
        let step = nth_elem_step(q, op@);
        if k == t + 1 {
            assert(step == (q, QueryResult::Finish));
            assert(OpTreeNode::elems_steps(ops, q, k as int) == (q, true));
        } else {
            assert(q.seen <= q.target);
            let q1 = NthView { last_elem: op@.elemid_spec(), last_seen: None, ..q };
            assert(vis_step(q1.counters, op@, q1.pos) == (q1.counters, true));
            assert(op@.pred =~= Seq::<OpId>::empty());
            assert(pred_ctr_ops(q1.counters, op@.pred) =~= Seq::<(nat, OpView)>::empty());
            let rec1 = seq![(k, op@)];
            assert(seconds(rec1) =~= seq![op@]);
            assert(firsts(rec1) =~= seq![k]);
            if k == t {
                assert(visible_ops_spec(q1.counters, op@, q1.pos) =~= rec1);
                assert(Seq::<OpView>::empty() + seq![op@] =~= seq![op@]);
                assert(Seq::<nat>::empty() + seq![k] =~= seq![k]);
            } else {
                assert(Seq::<OpView>::empty() + seconds(Seq::<(nat, OpView)>::empty())
                    =~= Seq::<OpView>::empty());
                assert(Seq::<nat>::empty() + firsts(Seq::<(nat, OpView)>::empty())
                    =~= Seq::<nat>::empty());
            }
            assert(step.0 =~= insert_scan_state(ops, obj, t, k + 1));
            assert(step.1 is Next);
            lemma_plain_insert_scan(ops, obj, t, k + 1);
            assert(OpTreeNode::elems_steps(ops, q, k as int) == OpTreeNode::elems_steps(
                ops,
                insert_scan_state(ops, obj, t, k + 1),
                k + 1 as int,
            ));
        }
    }
}

/// Visibility conservation: over `n` plain insertions and no deletions,
/// querying any position below `n` finds exactly one operation - the
/// insertion at that position, recorded at absolute position equal to its
/// index, so absolute positions strictly increase across targets - while
/// querying position `n` counts every element without passing the target, so
/// the query fails and reports the requested index.
pub proof fn lemma_visibility_conservation(ops: Seq<Op>, obj: ObjId, t: nat)
    requires
        plain_inserts(ops, obj),
        t <= ops.len(),
    ensures
        ({
            let r = OpTreeNode::elems_steps(ops, fresh_nth(obj, t), 0);
            &&& t < ops.len() ==> {
                &&& r.0.seen == t + 1
                &&& r.0.seen > r.0.target
                &&& r.0.ops == seq![ops[t as int]@]
                &&& r.0.ops_pos == seq![t]
                &&& r.0.last_elem == Some(ElemId(ops[t as int]@.id))
            }
            &&& t == ops.len() ==> {
                &&& r.0.seen == t
                &&& !(r.0.seen > r.0.target)
                &&& r.0.ops == Seq::<OpView>::empty()
            }
        }),
{
    assert(fresh_nth(obj, t) =~= insert_scan_state(ops, obj, t, 0));
    lemma_plain_insert_scan(ops, obj, t, 0);
}

/// Tombstone correctness: a write overwritten by a delete, followed by that
/// delete, leaves the visible count, the recorded answer and the markers
/// untouched - the element has disappeared from the visible sequence, and
/// every later element is counted two scan positions later, renumbering the
/// positions after it.
pub proof fn lemma_tombstone(q: NthView, wr: OpView, del: OpView, sv: ScalarValue)
    requires
        wr.obj == q.obj,
        wr.insert,
        wr.action == OpType::Assign(sv),
        !(sv is Counter),
        wr.succ == seq![del.id],
        del.obj == q.obj,
        !del.insert,
        del.action is Del,
        del.pred == seq![wr.id],
        q.seen <= q.target,
    ensures
        ({
            let r1 = nth_elem_step(q, wr);
            let r2 = nth_elem_step(r1.0, del);
            &&& r1.1 is Next
            &&& r2.1 is Next
            &&& r2.0.seen == q.seen
            &&& r2.0.ops == q.ops
            &&& r2.0.ops_pos == q.ops_pos
            &&& r2.0.last_seen is None
            &&& r2.0.counters == q.counters
            &&& r2.0.pos == q.pos + 2
        }),
{
    let r1 = nth_elem_step(q, wr);
    assert(wr.succ.len() == 1);
    assert(vis_step(q.counters, wr, q.pos) == (q.counters, false));
    assert(Seq::<OpView>::empty() =~= seconds(Seq::<(nat, OpView)>::empty()));
    assert(Seq::<nat>::empty() =~= firsts(Seq::<(nat, OpView)>::empty()));
    assert(q.ops + seconds(Seq::<(nat, OpView)>::empty()) =~= q.ops);
    assert(q.ops_pos + firsts(Seq::<(nat, OpView)>::empty()) =~= q.ops_pos);
    assert(r1.0.seen == q.seen && r1.0.ops == q.ops && r1.0.last_seen is None);

    let r2 = nth_elem_step(r1.0, del);
    assert(vis_step(r1.0.counters, del, r1.0.pos) == (r1.0.counters, false));
    assert(r1.0.ops + seconds(Seq::<(nat, OpView)>::empty()) =~= r1.0.ops);
    assert(r1.0.ops_pos + firsts(Seq::<(nat, OpView)>::empty()) =~= r1.0.ops_pos);
}

} // verus!
