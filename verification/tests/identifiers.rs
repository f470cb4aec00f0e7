use automerge::types::{
    ElemId, Export, Exportable, Importable, Key, ObjId, Op, OpId, OpType, Prop, ScalarValue,
};

#[test]
fn opid_components() {
    let id = OpId(7, 3);
    assert_eq!(id.counter(), 7);
    assert_eq!(id.actor(), 3);
}

#[test]
fn root_exports_as_reserved_name() {
    let root = ObjId(OpId(0, 0));
    assert!(matches!(root.export(), Export::Special(s) if s == "_root"));
    let other = ObjId(OpId(4, 2));
    assert!(matches!(other.export(), Export::Id(OpId(4, 2))));
}

#[test]
fn head_exports_as_reserved_name() {
    let head = ElemId(OpId(0, 0));
    assert!(matches!(head.export(), Export::Special(s) if s == "_head"));
    let other = ElemId(OpId(9, 1));
    assert!(matches!(other.export(), Export::Id(OpId(9, 1))));
}

#[test]
fn opid_exports_itself() {
    assert!(matches!(OpId(5, 6).export(), Export::Id(OpId(5, 6))));
}

#[test]
fn key_exports_prop_or_element() {
    assert!(matches!(Key::Field(4).export(), Export::Prop(4)));
    assert!(matches!(
        Key::Elem(ElemId(OpId(2, 2))).export(),
        Export::Id(OpId(2, 2))
    ));
}

#[test]
fn import_recognises_only_reserved_names() {
    assert_eq!(ObjId::import("_root"), Some(ObjId(OpId(0, 0))));
    assert_eq!(ObjId::import("_head"), None);
    assert_eq!(OpId::import("_root"), Some(OpId(0, 0)));
    assert_eq!(OpId::import("other"), None);
    assert_eq!(ElemId::import("_head"), Some(ElemId(OpId(0, 0))));
    assert_eq!(ElemId::import("_root"), None);
}

#[test]
fn wrap_builds_each_identifier_kind() {
    assert_eq!(ObjId::wrap(OpId(1, 2)), ObjId(OpId(1, 2)));
    assert_eq!(OpId::wrap(OpId(1, 2)), OpId(1, 2));
    assert_eq!(ElemId::wrap(OpId(1, 2)), ElemId(OpId(1, 2)));
}

#[test]
fn key_elemid() {
    assert_eq!(Key::Field(3).elemid(), None);
    assert_eq!(
        Key::Elem(ElemId(OpId(8, 0))).elemid(),
        Some(ElemId(OpId(8, 0)))
    );
}

#[test]
fn op_predicates() {
    let del = Op {
        change: 0,
        id: OpId(2, 0),
        action: OpType::Del,
        obj: ObjId(OpId(0, 0)),
        key: Key::Elem(ElemId(OpId(1, 0))),
        succ: vec![],
        pred: vec![OpId(1, 0)],
        insert: false,
    };
    let set = Op {
        change: 0,
        id: OpId(1, 0),
        action: OpType::Assign(ScalarValue::Int(5)),
        obj: ObjId(OpId(0, 0)),
        key: Key::Elem(ElemId(OpId(1, 0))),
        succ: vec![OpId(2, 0)],
        pred: vec![],
        insert: true,
    };
    assert!(del.is_del());
    assert!(!set.is_del());
    assert!(del.overwrites(&set));
    assert!(!set.overwrites(&del));
    // An insert introduces its own element; another operation belongs to the
    // element its key names.
    assert_eq!(set.elemid(), Some(ElemId(OpId(1, 0))));
    assert_eq!(del.elemid(), Some(ElemId(OpId(1, 0))));
}

#[test]
fn prop_forms() {
    let p = Prop::Field(String::from("title"));
    let q = Prop::Index(3);
    assert_eq!(p, Prop::Field(String::from("title")));
    assert_ne!(q, Prop::Index(4));
}
