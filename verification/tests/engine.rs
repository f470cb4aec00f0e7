use automerge::nth::Nth;
use automerge::op_tree::{Index, IndexEntry, OpTreeNode};
use automerge::types::{
    AutomergeError, ElemId, Key, ObjId, Op, OpId, OpType, ScalarValue,
};

fn root_obj() -> ObjId {
    ObjId(OpId(0, 0))
}

fn insert_op(counter: u64, actor: usize, value: ScalarValue, succ: Vec<OpId>) -> Op {
    Op {
        change: 0,
        id: OpId(counter, actor),
        action: OpType::Assign(value),
        obj: root_obj(),
        key: Key::Elem(ElemId(OpId(0, 0))),
        succ,
        pred: vec![],
        insert: true,
    }
}

fn assign_op(counter: u64, actor: usize, elem: ElemId, value: ScalarValue, pred: Vec<OpId>) -> Op {
    Op {
        change: 0,
        id: OpId(counter, actor),
        action: OpType::Assign(value),
        obj: root_obj(),
        key: Key::Elem(elem),
        succ: vec![],
        pred,
        insert: false,
    }
}

fn del_op(counter: u64, actor: usize, elem: ElemId, pred: Vec<OpId>) -> Op {
    Op {
        change: 0,
        id: OpId(counter, actor),
        action: OpType::Del,
        obj: root_obj(),
        key: Key::Elem(elem),
        succ: vec![],
        pred,
        insert: false,
    }
}

fn inc_op(counter: u64, actor: usize, elem: ElemId, amount: i64, pred: Vec<OpId>) -> Op {
    Op {
        change: 0,
        id: OpId(counter, actor),
        action: OpType::Inc(amount),
        obj: root_obj(),
        key: Key::Elem(elem),
        succ: vec![],
        pred,
        insert: false,
    }
}

fn query(tree: &OpTreeNode, target: usize) -> Nth {
    let mut q = Nth::new(root_obj(), target);
    tree.search(&mut q);
    q
}

#[test]
fn worked_example() {
    // insert "a" at head with id (1,0), insert "b" after it with id (2,0).
    let tree = OpTreeNode::leaf(vec![
        insert_op(1, 0, ScalarValue::Str(0), vec![]),
        insert_op(2, 0, ScalarValue::Str(1), vec![]),
    ]);
    let q0 = query(&tree, 0);
    assert!(q0.done());
    assert_eq!(q0.result(), Ok(Key::Elem(ElemId(OpId(1, 0)))));
    assert_eq!(q0.ops.len(), 1);
    assert_eq!(q0.ops[0].id, OpId(1, 0));

    let q1 = query(&tree, 1);
    assert_eq!(q1.result(), Ok(Key::Elem(ElemId(OpId(2, 0)))));

    let q2 = query(&tree, 2);
    assert!(!q2.done());
    assert_eq!(q2.result(), Err(AutomergeError::InvalidIndex(2)));
}

#[test]
fn repeated_queries_are_deterministic() {
    let tree = OpTreeNode::leaf(vec![
        insert_op(1, 0, ScalarValue::Int(1), vec![]),
        insert_op(2, 0, ScalarValue::Int(2), vec![]),
        insert_op(3, 1, ScalarValue::Int(3), vec![]),
    ]);
    let a = query(&tree, 1);
    let b = query(&tree, 1);
    assert_eq!(a.result(), b.result());
    assert_eq!(a.ops_pos, b.ops_pos);
    assert_eq!(a.pos, b.pos);
    assert_eq!(a.ops.len(), b.ops.len());
    for i in 0..a.ops.len() {
        assert_eq!(a.ops[i].id, b.ops[i].id);
    }
}

#[test]
fn visibility_conservation() {
    let n: usize = 4;
    let tree = OpTreeNode::leaf(vec![
        insert_op(1, 0, ScalarValue::Int(10), vec![]),
        insert_op(2, 0, ScalarValue::Int(20), vec![]),
        insert_op(3, 0, ScalarValue::Int(30), vec![]),
        insert_op(4, 0, ScalarValue::Int(40), vec![]),
    ]);
    let mut last_pos: Option<usize> = None;
    for i in 0..n {
        let q = query(&tree, i);
        assert!(q.done());
        assert_eq!(q.ops.len(), 1);
        assert_eq!(q.ops_pos.len(), 1);
        // Absolute positions are strictly increasing across targets.
        if let Some(p) = last_pos {
            assert!(q.ops_pos[0] > p);
        }
        last_pos = Some(q.ops_pos[0]);
        assert_eq!(q.result(), Ok(Key::Elem(ElemId(OpId(i as u64 + 1, 0)))));
    }
    let q = query(&tree, n);
    assert_eq!(q.result(), Err(AutomergeError::InvalidIndex(4)));
}

#[test]
fn tombstone_removes_element_and_renumbers() {
    // Element (1,0) is written, then deleted; element (3,0) follows it.
    let a = insert_op(1, 0, ScalarValue::Int(1), vec![OpId(2, 0)]);
    let d = del_op(2, 0, ElemId(OpId(1, 0)), vec![OpId(1, 0)]);
    let b = insert_op(3, 0, ScalarValue::Int(2), vec![]);
    let tree = OpTreeNode::leaf(vec![a, d, b]);
    // The deleted element disappears: position 0 now resolves to (3,0).
    let q0 = query(&tree, 0);
    assert_eq!(q0.result(), Ok(Key::Elem(ElemId(OpId(3, 0)))));
    assert_eq!(q0.ops.len(), 1);
    assert_eq!(q0.ops[0].id, OpId(3, 0));
    // Later positions renumber accordingly: there is no position 1.
    let q1 = query(&tree, 1);
    assert_eq!(q1.result(), Err(AutomergeError::InvalidIndex(1)));
}

#[test]
fn conflict_surfacing() {
    // Two writes to element (1,0), neither in the other's edges: both stay
    // visible at position 0 and both are reported.
    let a = insert_op(1, 0, ScalarValue::Int(1), vec![]);
    let c = assign_op(2, 1, ElemId(OpId(1, 0)), ScalarValue::Int(9), vec![]);
    let tree = OpTreeNode::leaf(vec![a, c]);
    let q0 = query(&tree, 0);
    assert!(q0.done());
    assert_eq!(q0.ops.len(), 2);
    assert_eq!(q0.ops[0].id, OpId(1, 0));
    assert_eq!(q0.ops[1].id, OpId(2, 1));
    assert_eq!(q0.ops_pos, vec![0, 1]);
    // The element is counted once: there is no position 1.
    let q1 = query(&tree, 1);
    assert_eq!(q1.result(), Err(AutomergeError::InvalidIndex(1)));
}

#[test]
fn counter_folding() {
    // A counter established at 10, with two causally chained increments 5
    // and 7, resolves to one visible operation carrying 22.
    let base = insert_op(1, 0, ScalarValue::Counter(10), vec![OpId(2, 0), OpId(3, 1)]);
    let i1 = inc_op(2, 0, ElemId(OpId(1, 0)), 5, vec![OpId(1, 0)]);
    let i2 = inc_op(3, 1, ElemId(OpId(1, 0)), 7, vec![OpId(1, 0)]);
    let tree = OpTreeNode::leaf(vec![base, i1, i2]);
    let q0 = query(&tree, 0);
    assert!(q0.done());
    assert_eq!(q0.result(), Ok(Key::Elem(ElemId(OpId(1, 0)))));
    assert_eq!(q0.ops.len(), 1);
    assert_eq!(q0.ops[0].id, OpId(1, 0));
    assert_eq!(q0.ops[0].action, OpType::Assign(ScalarValue::Counter(22)));
    // The folded operation is surfaced at the counter's own position.
    assert_eq!(q0.ops_pos, vec![0]);
}

#[test]
fn walk_skips_subtrees_using_the_index() {
    // A two-level tree: leaf [a, b], separator c, leaf [d]. Querying
    // position 3 skips the first leaf entirely via its index.
    let a = insert_op(1, 0, ScalarValue::Int(1), vec![]);
    let b = insert_op(2, 0, ScalarValue::Int(2), vec![]);
    let c = insert_op(3, 0, ScalarValue::Int(3), vec![]);
    let d = insert_op(4, 0, ScalarValue::Int(4), vec![]);
    let left = OpTreeNode::leaf(vec![a, b]);
    let right = OpTreeNode::leaf(vec![d]);
    let root = OpTreeNode {
        children: vec![left, right],
        elements: vec![c],
        index: Index {
            entries: vec![IndexEntry {
                obj: root_obj(),
                visible: vec![
                    ElemId(OpId(1, 0)),
                    ElemId(OpId(2, 0)),
                    ElemId(OpId(3, 0)),
                    ElemId(OpId(4, 0)),
                ],
            }],
        },
        length: 4,
    };
    for i in 0..4usize {
        let q = query(&root, i);
        assert!(q.done());
        assert_eq!(q.result(), Ok(Key::Elem(ElemId(OpId(i as u64 + 1, 0)))));
        assert_eq!(q.ops_pos, vec![i]);
    }
    let q = query(&root, 4);
    assert_eq!(q.result(), Err(AutomergeError::InvalidIndex(4)));
}

#[test]
fn overwritten_write_is_invisible() {
    // A second write that names the first among its predecessors shadows it:
    // only the newer write is reported.
    let a = insert_op(1, 0, ScalarValue::Int(1), vec![OpId(2, 0)]);
    let w = assign_op(2, 0, ElemId(OpId(1, 0)), ScalarValue::Int(5), vec![OpId(1, 0)]);
    let tree = OpTreeNode::leaf(vec![a, w]);
    let q0 = query(&tree, 0);
    assert_eq!(q0.ops.len(), 1);
    assert_eq!(q0.ops[0].id, OpId(2, 0));
    assert_eq!(q0.result(), Ok(Key::Elem(ElemId(OpId(1, 0)))));
}
