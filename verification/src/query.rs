//! Visibility resolution: decides whether an operation's effect is currently
//! live at a scan point, folding causally chained counter increments into one
//! running total and suppressing deleted or shadowed operations. Concurrent
//! writes that neither supersede the other stay visible together; surfacing
//! them is the caller's job.

use vstd::prelude::*;
use crate::types::{Op, OpId, OpType, OpView, ScalarValue};

verus! {

/// The three-way outcome a query hands back to the tree walk at each node or
/// operation: go into the node's children, skip the whole node and carry its
/// summary, or stop because the answer is already determined.
#[derive(Debug, Clone, Copy, PartialEq, Eq, Structural)]
pub enum QueryResult {
    /// Continue with the next sibling, after aggregating this node's summary.
    Next,
    /// The answer lies inside this node: walk its children.
    Descend,
    /// The answer is already determined: stop the walk.
    Finish,
}

/// Running accumulation state for one counter-establishing operation: where
/// it sits, the total folded so far, which successors are still unresolved,
/// and the operation itself.
#[derive(Debug)]
pub struct CounterData {
    /// Id of the counter-establishing operation.
    pub id: OpId,
    /// Its absolute position at registration.
    pub pos: usize,
    /// Base value with every folded increment added.
    pub val: i64,
    /// Successor operations not yet folded into the total.
    pub succ: Vec<OpId>,
    /// The counter-establishing operation.
    pub op: Op,
}

/// Mathematical model of one counter accumulation entry.
#[verifier::ext_equal]
pub ghost struct CounterDataView {
    pub id: OpId,
    pub pos: nat,
    pub val: i64,
    pub succ: Seq<OpId>,
    pub op: OpView,
}

impl View for CounterData {
    type V = CounterDataView;

    open spec fn view(&self) -> CounterDataView {
        CounterDataView {
            id: self.id,
            pos: self.pos as nat,
            val: self.val,
            succ: self.succ@,
            op: self.op@,
        }
    }
}

/// The ids of the entries of a counter state, in registration order.
pub open spec fn ctr_ids(s: Seq<CounterDataView>) -> Seq<OpId> {
    s.map_values(|e: CounterDataView| e.id)
}

/// A counter state is well formed when no id has two entries.
pub open spec fn ctr_wf(s: Seq<CounterDataView>) -> bool {
    ctr_ids(s).no_duplicates()
}

/// Whether the state holds an entry for this id.
pub open spec fn ctr_has(s: Seq<CounterDataView>, id: OpId) -> bool {
    exists|i: int| 0 <= i < s.len() && s[i].id == id
}

/// The index of this id's entry (unique in a well-formed state).
pub open spec fn ctr_idx(s: Seq<CounterDataView>, id: OpId) -> int {
    choose|i: int| 0 <= i < s.len() && s[i].id == id
}

/// In a well-formed state, an entry's index is the one `ctr_idx` picks.
pub proof fn lemma_ctr_idx_of(s: Seq<CounterDataView>, i: int)
    requires
        ctr_wf(s),
        0 <= i < s.len(),
    ensures
        ctr_has(s, s[i].id),
        ctr_idx(s, s[i].id) == i,
{
    assert(ctr_ids(s)[i] == s[i].id);
    let j = ctr_idx(s, s[i].id);
    assert(ctr_ids(s)[j] == s[j].id);
}

/// The edge list with every occurrence of one id removed.
pub open spec fn remove_id(s: Seq<OpId>, id: OpId) -> Seq<OpId>
    decreases s.len(),
{
    if s.len() == 0 {
        Seq::empty()
    } else {
        let rest = remove_id(s.drop_last(), id);
        if s.last() == id {
            rest
        } else {
            rest.push(s.last())
        }
    }
}

/// Registering a counter-establishing operation: a fresh entry for its id,
/// overwriting a stale entry for the same id if one is present.
pub open spec fn ctr_register(
    s: Seq<CounterDataView>,
    op: OpView,
    pos: nat,
    v: i64,
) -> Seq<CounterDataView> {
    let e = CounterDataView { id: op.id, pos: pos, val: v, succ: op.succ, op: op };
    if ctr_has(s, op.id) {
        s.update(ctr_idx(s, op.id), e)
    } else {
        s.push(e)
    }
}

/// One increment folded into one entry: the amount joins the running total
/// and the increment stops being an unresolved successor.
pub open spec fn fold_inc(e: CounterDataView, inc_id: OpId, d: i64) -> CounterDataView {
    CounterDataView { val: e.val.wrapping_add(d), succ: remove_id(e.succ, inc_id), ..e }
}

/// An increment applied across its predecessor list, left to right: each
/// predecessor that is a registered counter absorbs the amount. The increment
/// itself becomes visible exactly when it resolves some counter's last
/// unresolved successor.
pub open spec fn ctr_apply_inc(
    s: Seq<CounterDataView>,
    preds: Seq<OpId>,
    inc_id: OpId,
    d: i64,
) -> (Seq<CounterDataView>, bool)
    decreases preds.len(),
{
    if preds.len() == 0 {
        (s, false)
    } else {
        let r = ctr_apply_inc(s, preds.drop_last(), inc_id, d);
        let p = preds.last();
        if ctr_has(r.0, p) {
            let i = ctr_idx(r.0, p);
            let e2 = fold_inc(r.0[i], inc_id, d);
            (r.0.update(i, e2), r.1 || e2.succ.len() == 0)
        } else {
            r
        }
    }
}

/// Visibility of one operation at a scan point, together with the counter
/// state the scan carries forward. An operation is visible unless a successor
/// has overwritten it, except that deletes are never themselves visible and
/// increments are visible only through the counter they complete.
pub open spec fn vis_step(s: Seq<CounterDataView>, op: OpView, pos: nat) -> (
    Seq<CounterDataView>,
    bool,
) {
    match op.action {
        OpType::Assign(ScalarValue::Counter(v)) => (
            ctr_register(s, op, pos, v),
            op.succ.len() == 0,
        ),
        OpType::Inc(d) => ctr_apply_inc(s, op.pred, op.id, d),
        OpType::Del => (s, false),
        _ => (s, op.succ.len() == 0),
    }
}

/// A counter entry surfaced as one visible operation: the establishing
/// operation carrying the folded total.
pub open spec fn folded_op(e: CounterDataView) -> OpView {
    OpView { action: OpType::Assign(ScalarValue::Counter(e.val)), ..e.op }
}

/// The counter entries named by a predecessor list, each surfaced at its own
/// registration position.
pub open spec fn pred_ctr_ops(s: Seq<CounterDataView>, preds: Seq<OpId>) -> Seq<(nat, OpView)>
    decreases preds.len(),
{
    if preds.len() == 0 {
        Seq::empty()
    } else {
        let rest = pred_ctr_ops(s, preds.drop_last());
        let p = preds.last();
        if ctr_has(s, p) {
            rest.push((s[ctr_idx(s, p)].pos, folded_op(s[ctr_idx(s, p)])))
        } else {
            rest
        }
    }
}

/// What a visible operation contributes to a query answer: the folded
/// counters it completes, or, when it completes none, the operation itself at
/// the scan position.
pub open spec fn visible_ops_spec(s: Seq<CounterDataView>, op: OpView, pos: nat) -> Seq<
    (nat, OpView),
> {
    let c = pred_ctr_ops(s, op.pred);
    if c.len() == 0 {
        seq![(pos, op)]
    } else {
        c
    }
}

/// The positions of an answer list.
pub open spec fn firsts(s: Seq<(nat, OpView)>) -> Seq<nat> {
    s.map_values(|t: (nat, OpView)| t.0)
}

/// The operations of an answer list.
pub open spec fn seconds(s: Seq<(nat, OpView)>) -> Seq<OpView> {
    s.map_values(|t: (nat, OpView)| t.1)
}

/// The mathematical value of a position/operation answer list.
pub open spec fn pairs_view(v: Seq<(usize, Op)>) -> Seq<(nat, OpView)> {
    v.map_values(|t: (usize, Op)| (t.0 as nat, t.1@))
}

/// Counter accumulation state: one entry per counter-establishing operation
/// met so far, keyed by its id.
#[derive(Debug)]
pub struct Counters {
    entries: Vec<CounterData>,
}

impl View for Counters {
    type V = Seq<CounterDataView>;

    closed spec fn view(&self) -> Seq<CounterDataView> {
        self.entries@.map_values(|e: CounterData| e@)
    }
}

impl Counters {
    /// Internal consistency: one entry per id.
    pub open spec fn wf(self) -> bool {
        ctr_wf(self@)
    }

    /// An empty accumulation state.
    pub fn new() -> (r: Self)
        ensures
            r.wf(),
            r@ == Seq::<CounterDataView>::empty(),
    {
        let r = Counters { entries: Vec::new() };
        proof {
            assert(r@ =~= Seq::<CounterDataView>::empty());
        }
        r
    }

    /// The index of the entry for this id, if one is registered.
    fn find(&self, id: OpId) -> (r: Option<usize>)
        ensures
            match r {
                Some(i) => i < self@.len() && self@[i as int].id == id,
                None => !ctr_has(self@, id),
            },
    {
        let mut i: usize = 0;
        while i < self.entries.len()
            invariant
                i <= self.entries@.len(),
                self@.len() == self.entries@.len(),
                forall|j: int| 0 <= j < i ==> self@[j].id != id,
                forall|j: int| 0 <= j < self.entries@.len() ==> self@[j] == self.entries@[j]@,
            decreases self.entries@.len() - i,
        {
            if self.entries[i].id == id {
                return Some(i);
            }
            i += 1;
        }
        None
    }
}

/// The edge list with every occurrence of one id removed.
fn remove_id_vec(v: &Vec<OpId>, id: OpId) -> (r: Vec<OpId>)
    ensures
        r@ == remove_id(v@, id),
{
    let mut r: Vec<OpId> = Vec::new();
    let mut k: usize = 0;
    while k < v.len()
        invariant
            k <= v@.len(),
            r@ == remove_id(v@.take(k as int), id),
        decreases v@.len() - k,
    {
        proof {
            assert(v@.take(k + 1).drop_last() =~= v@.take(k as int));
            assert(v@.take(k + 1).last() == v@[k as int]);
        }
        if v[k] != id {
            r.push(v[k]);
        }
        k += 1;
    }
    proof {
        assert(v@.take(v@.len() as int) =~= v@);
    }
    r
}

/// Whether the operation's effect is live at this scan point, updating the
/// carried counter state: a counter-establishing write registers itself, an
/// increment folds into every registered counter it succeeds, a delete is
/// never itself visible, and anything else is visible exactly when nothing
/// has overwritten it.
pub fn is_visible(op: &Op, pos: usize, counters: &mut Counters) -> (vis: bool)
    requires
        old(counters).wf(),
    ensures
        final(counters).wf(),
        final(counters)@ == vis_step(old(counters)@, op@, pos as nat).0,
        vis == vis_step(old(counters)@, op@, pos as nat).1,
{
    match op.action {
        OpType::Assign(sv) => {
            match sv {
                ScalarValue::Counter(v) => {
                    let e = CounterData {
                        id: op.id,
                        pos: pos,
                        val: v,
                        succ: op.succ.clone(),
                        op: op.clone(),
                    };
                    proof {
                        assert(e@ =~= (CounterDataView {
                            id: op@.id,
                            pos: pos as nat,
                            val: v,
                            succ: op@.succ,
                            op: op@,
                        }));
                    }
                    let found = counters.find(op.id);
                    match found {
                        Some(i) => {
                            proof {
                                lemma_ctr_idx_of(counters@, i as int);
                            }
                            counters.entries.remove(i);
                            counters.entries.insert(i, e);
                            proof {
                                assert(counters@ =~= ctr_register(
                                    old(counters)@,
                                    op@,
                                    pos as nat,
                                    v,
                                ));
                                assert(ctr_ids(counters@) =~= ctr_ids(old(counters)@));
                            }
                        },
                        None => {
                            counters.entries.push(e);
                            proof {
                                assert(counters@ =~= ctr_register(
                                    old(counters)@,
                                    op@,
                                    pos as nat,
                                    v,
                                ));
                                assert(ctr_ids(counters@) =~= ctr_ids(old(counters)@).push(
                                    op@.id,
                                ));
                            }
                        },
                    }
                    op.succ.len() == 0
                },
                _ => op.succ.len() == 0,
            }
        },
        OpType::Inc(d) => {
            let mut vis = false;
            let mut k: usize = 0;
            while k < op.pred.len()
                invariant
                    k <= op.pred@.len(),
                    counters.wf(),
                    counters@ == ctr_apply_inc(
                        old(counters)@,
                        op.pred@.take(k as int),
                        op@.id,
                        d,
                    ).0,
                    vis == ctr_apply_inc(old(counters)@, op.pred@.take(k as int), op@.id, d).1,
                decreases op.pred@.len() - k,
            {
                proof {
                    assert(op.pred@.take(k + 1).drop_last() =~= op.pred@.take(k as int));
                    assert(op.pred@.take(k + 1).last() == op.pred@[k as int]);
                }
                let p = op.pred[k];
                let ghost pre = counters@;
                let found = counters.find(p);
                match found {
                    Some(i) => {
                        proof {
                            lemma_ctr_idx_of(counters@, i as int);
                        }
                        let mut e = counters.entries.remove(i);
                        e.val = e.val.wrapping_add(d);
                        let ns = remove_id_vec(&e.succ, op.id);
                        e.succ = ns;
                        if e.succ.len() == 0 {
                            vis = true;
                        }
                        counters.entries.insert(i, e);
                        proof {
                            assert(counters@ =~= pre.update(
                                ctr_idx(pre, p),
                                fold_inc(pre[ctr_idx(pre, p)], op@.id, d),
                            ));
                            assert(ctr_ids(counters@) =~= ctr_ids(pre));
                        }
                    },
                    None => {},
                }
                k += 1;
            }
            proof {
                assert(op.pred@.take(op.pred@.len() as int) =~= op.pred@);
            }
            vis
        },
        OpType::Del => false,
        OpType::Make => op.succ.len() == 0,
    }
}

/// The operations a visible operation surfaces in a query answer, each with
/// its absolute position: the folded counters it completes, or the operation
/// itself when it completes none.
pub fn visible_op(op: &Op, pos: usize, counters: &Counters) -> (r: Vec<(usize, Op)>)
    requires
        counters.wf(),
    ensures
        pairs_view(r@) == visible_ops_spec(counters@, op@, pos as nat),
{
    let mut result: Vec<(usize, Op)> = Vec::new();
    proof {
        assert(pairs_view(result@) =~= Seq::<(nat, OpView)>::empty());
    }
    let mut k: usize = 0;
    while k < op.pred.len()
        invariant
            k <= op.pred@.len(),
            counters.wf(),
            pairs_view(result@) == pred_ctr_ops(counters@, op.pred@.take(k as int)),
        decreases op.pred@.len() - k,
    {
        proof {
            assert(op.pred@.take(k + 1).drop_last() =~= op.pred@.take(k as int));
            assert(op.pred@.take(k + 1).last() == op.pred@[k as int]);
        }
        let p = op.pred[k];
        let found = counters.find(p);
        match found {
            Some(i) => {
                proof {
                    lemma_ctr_idx_of(counters@, i as int);
                }
                let e = &counters.entries[i];
                let fop = Op {
                    change: e.op.change,
                    id: e.op.id,
                    action: OpType::Assign(ScalarValue::Counter(e.val)),
                    obj: e.op.obj,
                    key: e.op.key,
                    succ: e.op.succ.clone(),
                    pred: e.op.pred.clone(),
                    insert: e.op.insert,
                };
                proof {
                    assert(fop@ =~= folded_op(counters@[i as int]));
                }
                result.push((e.pos, fop));
                proof {
                    assert(pairs_view(result@) =~= pred_ctr_ops(
                        counters@,
                        op.pred@.take(k as int),
                    ).push(
                        (
                            counters@[ctr_idx(counters@, p)].pos,
                            folded_op(counters@[ctr_idx(counters@, p)]),
                        ),
                    ));
                }
            },
            None => {
                proof {
                    assert(pairs_view(result@) =~= pred_ctr_ops(
                        counters@,
                        op.pred@.take(k + 1),
                    ));
                }
            },
        }
        k += 1;
    }
    proof {
        assert(op.pred@.take(op.pred@.len() as int) =~= op.pred@);
    }
    if result.len() == 0 {
        result.push((pos, op.clone()));
        proof {
            assert(pairs_view(result@) =~= seq![(pos as nat, op@)]);
        }
    }
    result
}

/// Counter folding: a counter-establishing write of value `v`, followed in
/// scan order by two increments `d1` and `d2` causally chained to it (each
/// names the write as predecessor, and together they make up its successor
/// set), leaves the write invisible until the last increment, which resolves
/// to exactly one visible operation: the write itself, surfaced at its own
/// position, carrying `v + d1 + d2`.
pub proof fn lemma_counter_folding(
    base: OpView,
    inc1: OpView,
    inc2: OpView,
    v: i64,
    d1: i64,
    d2: i64,
    p0: nat,
    p1: nat,
    p2: nat,
)
    requires
        base.action == OpType::Assign(ScalarValue::Counter(v)),
        base.succ == seq![inc1.id, inc2.id],
        inc1.action == OpType::Inc(d1),
        inc2.action == OpType::Inc(d2),
        inc1.pred == seq![base.id],
        inc2.pred == seq![base.id],
        inc1.id != inc2.id,
        i64::MIN <= v + d1 <= i64::MAX,
        i64::MIN <= v + d1 + d2 <= i64::MAX,
    ensures
        ({
            let s0 = vis_step(Seq::empty(), base, p0);
            let s1 = vis_step(s0.0, inc1, p1);
            let s2 = vis_step(s1.0, inc2, p2);
            &&& !s0.1
            &&& !s1.1
            &&& s2.1
            &&& visible_ops_spec(s2.0, inc2, p2) == seq![
                (
                    p0,
                    OpView {
                        action: OpType::Assign(ScalarValue::Counter((v + d1 + d2) as i64)),
                        ..base
                    },
                ),
            ]
        }),
{
    let s0 = vis_step(Seq::empty(), base, p0);
    let e0 = CounterDataView { id: base.id, pos: p0, val: v, succ: base.succ, op: base };
    assert(!ctr_has(Seq::empty(), base.id));
    assert(s0.0 =~= seq![e0]);
    assert(base.succ.len() == 2);

    let s1 = vis_step(s0.0, inc1, p1);
    assert(inc1.pred.drop_last() =~= Seq::<OpId>::empty());
    assert(ctr_apply_inc(s0.0, Seq::<OpId>::empty(), inc1.id, d1) == (s0.0, false));
    assert(s0.0[0].id == base.id);
    assert(ctr_has(s0.0, base.id));
    let i1x = ctr_idx(s0.0, base.id);
    assert(0 <= i1x < 1);
    assert(base.succ.drop_last() =~= seq![inc1.id]);
    assert(seq![inc1.id].drop_last() =~= Seq::<OpId>::empty());
    assert(remove_id(Seq::<OpId>::empty(), inc1.id) =~= Seq::<OpId>::empty());
    assert(remove_id(seq![inc1.id], inc1.id) =~= Seq::<OpId>::empty());
    assert(base.succ.last() == inc2.id);
    assert(remove_id(base.succ, inc1.id) =~= seq![inc2.id]);
    let e1 = fold_inc(e0, inc1.id, d1);
    assert(e1.val == v + d1);
    assert(e1.succ =~= seq![inc2.id]);
    assert(s1.0 =~= seq![e1]);
    assert(!s1.1);

    let s2 = vis_step(s1.0, inc2, p2);
    assert(inc2.pred.drop_last() =~= Seq::<OpId>::empty());
    assert(ctr_apply_inc(s1.0, Seq::<OpId>::empty(), inc2.id, d2) == (s1.0, false));
    assert(inc2.pred.last() == base.id);
    assert(s1.0[0].id == base.id);
    assert(ctr_has(s1.0, base.id));
    let i2x = ctr_idx(s1.0, base.id);
    assert(0 <= i2x < 1);
    assert(seq![inc2.id].drop_last() =~= Seq::<OpId>::empty());
    assert(remove_id(Seq::<OpId>::empty(), inc2.id) =~= Seq::<OpId>::empty());
    assert(seq![inc2.id].last() == inc2.id);
    assert(remove_id(seq![inc2.id], inc2.id) =~= Seq::<OpId>::empty());
    let e2 = fold_inc(e1, inc2.id, d2);
    assert(e2.val == v + d1 + d2);
    assert(e2.succ.len() == 0);
    assert(s2.0 =~= seq![e2]);
    assert(s2.1);

    assert(s2.0[0].id == base.id);
    assert(ctr_has(s2.0, base.id));
    let i3x = ctr_idx(s2.0, base.id);
    assert(0 <= i3x < 1);
    assert(pred_ctr_ops(s2.0, Seq::<OpId>::empty()) =~= Seq::<(nat, OpView)>::empty());
    assert(e2.pos == p0);
    assert(pred_ctr_ops(s2.0, inc2.pred) =~= seq![(p0, folded_op(e2))]);
    assert(folded_op(e2) =~= (OpView {
        action: OpType::Assign(ScalarValue::Counter((v + d1 + d2) as i64)),
        ..base
    }));
    assert(visible_ops_spec(s2.0, inc2, p2) =~= seq![
        (
            p0,
            OpView {
                action: OpType::Assign(ScalarValue::Counter((v + d1 + d2) as i64)),
                ..base
            },
        ),
    ]);
}

} // verus!
