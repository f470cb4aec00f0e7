//! Identifier vocabulary: operation ids, object ids, list-element ids, keys
//! and user-facing properties, the operation record itself, and the
//! export/import boundary that turns identifiers into their wire-facing form.

use vstd::prelude::*;

verus! {

/// Operation identifier: a Lamport-style pair of (counter, actor index).
/// The total order on `OpId`s is lexicographic by counter, then actor; it is
/// the deterministic arbitration order used wherever two operations must be
/// compared.
#[derive(Debug, Clone, Copy, PartialEq, Eq, Hash, Structural)]
pub struct OpId(pub u64, pub usize);

/// Identity of an object: the id of the operation that created it. The root
/// object uses the sentinel id `(0, 0)`.
#[derive(Debug, Clone, Copy, PartialEq, Eq, Hash, Structural)]
pub struct ObjId(pub OpId);

/// Identity of a list element: the id of the operation that inserted it. The
/// sentinel `(0, 0)` marks "before the first element" (the list head).
#[derive(Debug, Clone, Copy, PartialEq, Eq, Hash, Structural)]
pub struct ElemId(pub OpId);

/// Address of an operation's target inside its object: either a map property
/// (an index into the interning cache holding the property string) or a list
/// element.
#[derive(Debug, Clone, Copy, PartialEq, Eq, Hash, Structural)]
pub enum Key {
    /// A map property, as an index into the interning cache.
    Field(usize),
    /// A list element.
    Elem(ElemId),
}

/// User-facing, uninterned address form: a map property by name or a list
/// position by index.
#[derive(Debug, Clone, PartialEq, Eq)]
pub enum Prop {
    /// A map property by its string name.
    Field(String),
    /// A list position.
    Index(usize),
}

/// Placeholder for the document layer's patch record; its design is decided
/// at that boundary, not here.
#[derive(Debug, Clone, PartialEq, Eq, Structural)]
pub struct Patch {}

/// Placeholder for the synchronization layer's peer record; its design is
/// decided at that boundary, not here.
#[derive(Debug, Clone, PartialEq, Eq, Structural)]
pub struct Peer {}

/// A scalar payload carried by a set operation. String payloads are held as
/// indices into the interning cache, keeping every payload a plain value.
#[derive(Debug, Clone, Copy, PartialEq, Eq, Structural)]
pub enum ScalarValue {
    /// A counter-establishing value: later causally chained increments fold
    /// into it.
    Counter(i64),
    Int(i64),
    Uint(u64),
    Boolean(bool),
    /// An interned string payload (index into the interning cache).
    Str(usize),
    Null,
}

/// The effect of an operation.
#[derive(Debug, Clone, Copy, PartialEq, Eq, Structural)]
pub enum OpType {
    /// Write a scalar value at the addressed key or element.
    Assign(ScalarValue),
    /// Create a child object.
    Make,
    /// Withdraw visibility from the operations named in the predecessor set.
    Del,
    /// Add the amount to a causally preceding counter-establishing operation.
    Inc(i64),
}

/// The one core-level failure: a positional query whose target lies outside
/// the visible range, reported with the requested index.
#[derive(Debug, Clone, Copy, PartialEq, Eq, Structural)]
pub enum AutomergeError {
    InvalidIndex(usize),
}

/// The sentinel id `(0, 0)`: id of the root object and of the list-head
/// marker.
pub open spec fn root_spec() -> OpId {
    OpId(0u64, 0usize)
}

/// The root object's id, `(0, 0)`.
pub fn root_id() -> (r: OpId)
    ensures
        r == root_spec(),
{
    OpId(0, 0)
}

/// The list-head sentinel, "before the first element".
pub fn head_elem() -> (r: ElemId)
    ensures
        r == ElemId(root_spec()),
{
    ElemId(OpId(0, 0))
}

impl OpId {
    /// The Lamport counter component.
    #[inline]
    pub fn counter(&self) -> (c: u64)
        ensures
            c == self.0,
    {
        self.0
    }

    /// The actor-index component.
    #[inline]
    pub fn actor(&self) -> (a: usize)
        ensures
            a == self.1,
    {
        self.1
    }
}

impl Key {
    /// The element id a key addresses, if it addresses a list element.
    pub open spec fn elemid_spec(self) -> Option<ElemId> {
        match self {
            Key::Field(_) => None,
            Key::Elem(e) => Some(e),
        }
    }

    /// The element id this key addresses, or `None` for a map property.
    pub fn elemid(&self) -> (r: Option<ElemId>)
        ensures
            r == self.elemid_spec(),
    {
        match self {
            Key::Field(_) => None,
            Key::Elem(id) => Some(*id),
        }
    }
}

/// An immutable atomic edit record. Predecessor and successor edges are dual
/// overwrite relations established by the change-application layer before any
/// query runs; this core assumes their consistency but does not enforce it.
/// `insert == true` always introduces a new element whose id equals the
/// operation's own id.
#[derive(Debug)]
pub struct Op {
    /// Index of the change this operation arrived in.
    pub change: usize,
    pub id: OpId,
    pub action: OpType,
    /// The object this operation edits.
    pub obj: ObjId,
    /// The key or element it addresses.
    pub key: Key,
    /// Operations that overwrite this one.
    pub succ: Vec<OpId>,
    /// Operations this one overwrites.
    pub pred: Vec<OpId>,
    /// Whether this operation introduces a new list element.
    pub insert: bool,
}

/// Mathematical model of an operation: the same record with sequence views
/// for the edge lists.
#[verifier::ext_equal]
pub ghost struct OpView {
    pub change: nat,
    pub id: OpId,
    pub action: OpType,
    pub obj: ObjId,
    pub key: Key,
    pub succ: Seq<OpId>,
    pub pred: Seq<OpId>,
    pub insert: bool,
}

impl View for Op {
    type V = OpView;

    open spec fn view(&self) -> OpView {
        OpView {
            change: self.change as nat,
            id: self.id,
            action: self.action,
            obj: self.obj,
            key: self.key,
            succ: self.succ@,
            pred: self.pred@,
            insert: self.insert,
        }
    }
}

impl Clone for Op {
    fn clone(&self) -> (r: Self)
        ensures
            r@ == self@,
    {
        let r = Op {
            change: self.change,
            id: self.id,
            action: self.action,
            obj: self.obj,
            key: self.key,
            succ: self.succ.clone(),
            pred: self.pred.clone(),
            insert: self.insert,
        };
        proof {
            assert(r.succ@ =~= self.succ@);
            assert(r.pred@ =~= self.pred@);
            assert(r@ =~= self@);
        }
        r
    }
}

impl OpView {
    /// Whether the operation is a delete.
    pub open spec fn is_del_spec(self) -> bool {
        self.action is Del
    }

    /// The element this operation belongs to: its own id when it inserts a
    /// new element, otherwise the element its key addresses.
    pub open spec fn elemid_spec(self) -> Option<ElemId> {
        if self.insert {
            Some(ElemId(self.id))
        } else {
            self.key.elemid_spec()
        }
    }

    /// Whether this operation names `other` among the operations it
    /// overwrites.
    pub open spec fn overwrites_spec(self, other: OpView) -> bool {
        self.pred.contains(other.id)
    }
}

impl Op {
    /// Whether this operation is a delete.
    pub fn is_del(&self) -> (r: bool)
        ensures
            r == self@.is_del_spec(),
    {
        matches!(self.action, OpType::Del)
    }

    /// Whether this operation names `other` among the operations it
    /// overwrites.
    pub fn overwrites(&self, other: &Op) -> (r: bool)
        ensures
            r == self@.overwrites_spec(other@),
    {
        let mut i: usize = 0;
        while i < self.pred.len()
            invariant
                i <= self.pred.len(),
                forall|j: int| 0 <= j < i ==> self.pred@[j] != other.id,
            decreases self.pred.len() - i,
        {
            if self.pred[i] == other.id {
                return true;
            }
            i += 1;
        }
        false
    }

    /// The element this operation belongs to, or `None` for a map operation.
    pub fn elemid(&self) -> (r: Option<ElemId>)
        ensures
            r == self@.elemid_spec(),
    {
        if self.insert {
            Some(ElemId(self.id))
        } else {
            self.key.elemid()
        }
    }
}

/// The wire-facing form of an identifier: a concrete operation id, one of the
/// two reserved names, or a property index.
#[derive(Debug)]
pub enum Export {
    Id(OpId),
    /// One of the reserved names `"_root"` or `"_head"`.
    Special(String),
    /// An interned map-property index.
    Prop(usize),
}

/// Conversion of an internal identifier to its wire-facing form.
pub trait Exportable {
    /// What the exported form of this value must be.
    spec fn export_ok(&self, e: Export) -> bool;

    /// Produce the wire-facing form.
    fn export(&self) -> (e: Export)
        ensures
            self.export_ok(e),
    ;
}

/// Conversion of a wire-facing name back into an internal identifier.
pub trait Importable where Self: Sized {
    /// The identifier that wrapping a raw operation id must produce.
    spec fn wrap_spec(id: OpId) -> Self;

    /// What importing the given name must return: `Some` exactly on the
    /// reserved name this identifier kind recognises.
    spec fn import_ok(s: Seq<char>, r: Option<Self>) -> bool;

    /// Wrap a raw operation id as this identifier kind.
    fn wrap(id: OpId) -> (r: Self)
        ensures
            r == Self::wrap_spec(id),
    ;

    /// Import a reserved name, or `None` when the name is not recognised.
    fn import(s: &str) -> (r: Option<Self>)
        ensures
            Self::import_ok(s@, r),
    ;
}

impl Exportable for ObjId {
    open spec fn export_ok(&self, e: Export) -> bool {
        if self.0 == root_spec() {
            e matches Export::Special(s) && s@ == "_root"@
        } else {
            e matches Export::Id(i) && i == self.0
        }
    }

    fn export(&self) -> (e: Export)
        ensures
            self.export_ok(e),
    {
        if self.0 == root_id() {
            Export::Special("_root".to_owned())
        } else {
            Export::Id(self.0)
        }
    }
}

impl Exportable for ElemId {
    open spec fn export_ok(&self, e: Export) -> bool {
        if self.0 == root_spec() {
            e matches Export::Special(s) && s@ == "_head"@
        } else {
            e matches Export::Id(i) && i == self.0
        }
    }

    fn export(&self) -> (e: Export)
        ensures
            self.export_ok(e),
    {
        if self.0 == root_id() {
            Export::Special("_head".to_owned())
        } else {
            Export::Id(self.0)
        }
    }
}

impl Exportable for OpId {
    open spec fn export_ok(&self, e: Export) -> bool {
        e matches Export::Id(i) && i == *self
    }

    fn export(&self) -> (e: Export)
        ensures
            self.export_ok(e),
    {
        Export::Id(*self)
    }
}

impl Exportable for Key {
    open spec fn export_ok(&self, e: Export) -> bool {
        match *self {
            Key::Field(p) => e matches Export::Prop(q) && q == p,
            Key::Elem(el) => el.export_ok(e),
        }
    }

    fn export(&self) -> (e: Export)
        ensures
            self.export_ok(e),
    {
        match self {
            Key::Field(p) => Export::Prop(*p),
            Key::Elem(el) => el.export(),
        }
    }
}

impl Importable for ObjId {
    open spec fn wrap_spec(id: OpId) -> ObjId {
        ObjId(id)
    }

    open spec fn import_ok(s: Seq<char>, r: Option<ObjId>) -> bool {
        if s == "_root"@ {
            r == Some(ObjId(root_spec()))
        } else {
            r is None
        }
    }

    fn wrap(id: OpId) -> (r: ObjId)
        ensures
            r == Self::wrap_spec(id),
    {
        ObjId(id)
    }

    fn import(s: &str) -> (r: Option<ObjId>)
        ensures
            Self::import_ok(s@, r),
    {
        if s.to_owned() == "_root".to_owned() {
            Some(ObjId(root_id()))
        } else {
            None
        }
    }
}

impl Importable for OpId {
    open spec fn wrap_spec(id: OpId) -> OpId {
        id
    }

    open spec fn import_ok(s: Seq<char>, r: Option<OpId>) -> bool {
        if s == "_root"@ {
            r == Some(root_spec())
        } else {
            r is None
        }
    }

    fn wrap(id: OpId) -> (r: OpId)
        ensures
            r == Self::wrap_spec(id),
    {
        id
    }

    fn import(s: &str) -> (r: Option<OpId>)
        ensures
            Self::import_ok(s@, r),
    {
        if s.to_owned() == "_root".to_owned() {
            Some(root_id())
        } else {
            None
        }
    }
}

impl Importable for ElemId {
    open spec fn wrap_spec(id: OpId) -> ElemId {
        ElemId(id)
    }

    open spec fn import_ok(s: Seq<char>, r: Option<ElemId>) -> bool {
        if s == "_head"@ {
            r == Some(ElemId(root_spec()))
        } else {
            r is None
        }
    }

    fn wrap(id: OpId) -> (r: ElemId)
        ensures
            r == Self::wrap_spec(id),
    {
        ElemId(id)
    }

    fn import(s: &str) -> (r: Option<ElemId>)
        ensures
            Self::import_ok(s@, r),
    {
        if s.to_owned() == "_head".to_owned() {
            Some(head_elem())
        } else {
            None
        }
    }
}

} // verus!
