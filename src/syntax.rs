//! The syntax constructs that the rewrite engine visits, each as the semantic
//! engine hands it over: the identifier's text and range, and the declaration
//! that the construct resolves to, if any.
use vstd::prelude::*;

verus! {

/// An identifier (or, for shorthand fields, a whole binding) and its range in
/// the unedited text, in characters.
#[derive(Debug, Clone)]
pub struct Ident {
    pub text: Vec<char>,
    pub start: usize,
    pub end: usize,
}

/// What a path expression resolves to.
#[derive(Debug, Clone, Copy, PartialEq, Eq)]
pub enum PathTarget {
    /// An enum variant, by declaration identity.
    Variant(u64),
    /// An associated function, by declaration identity.
    Function(u64),
    /// Anything else, or nothing.
    Other,
}

/// A field of a record literal or of a record pattern.
#[derive(Debug, Clone)]
pub struct RecordField {
    /// The field's name, as written or as implied by shorthand.
    pub name: Ident,
    /// For shorthand syntax: the binding that stands for both field and value.
    pub shorthand: Option<Ident>,
    /// The field declaration that the construct resolves to.
    pub target: Option<u64>,
}

/// One occurrence of a construct that rules can act on.
#[derive(Debug, Clone)]
pub enum Node {
    MethodCall { name: Ident, callee: Option<u64> },
    Call,
    Path { name: Ident, target: PathTarget },
    Field { name: Ident, target: Option<u64> },
    RecordPat,
    RecordExpr,
    RecordExprField(RecordField),
    RecordPatField(RecordField),
}

/// The kinds of construct, by which hooks are registered.
#[derive(Debug, Clone, Copy, PartialEq, Eq, Structural)]
pub enum NodeKind {
    MethodCall,
    Call,
    Path,
    Field,
    RecordPat,
    RecordExpr,
    RecordExprField,
    RecordPatField,
}

pub open spec fn kind_of(n: &Node) -> NodeKind {
    match n {
        Node::MethodCall { .. } => NodeKind::MethodCall,
        Node::Call => NodeKind::Call,
        Node::Path { .. } => NodeKind::Path,
        Node::Field { .. } => NodeKind::Field,
        Node::RecordPat => NodeKind::RecordPat,
        Node::RecordExpr => NodeKind::RecordExpr,
        Node::RecordExprField(_) => NodeKind::RecordExprField,
        Node::RecordPatField(_) => NodeKind::RecordPatField,
    }
}

impl Node {
    pub fn kind(&self) -> (r: NodeKind)
        ensures
            r == kind_of(self),
    {
        match self {
            Node::MethodCall { .. } => NodeKind::MethodCall,
            Node::Call => NodeKind::Call,
            Node::Path { .. } => NodeKind::Path,
            Node::Field { .. } => NodeKind::Field,
            Node::RecordPat => NodeKind::RecordPat,
            Node::RecordExpr => NodeKind::RecordExpr,
            Node::RecordExprField(_) => NodeKind::RecordExprField,
            Node::RecordPatField(_) => NodeKind::RecordPatField,
        }
    }
}

} // verus!
