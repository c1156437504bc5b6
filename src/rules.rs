//! The rule table: for each target version, the renames keyed by owner and
//! old identifier, the peer libraries to preload, and the custom hooks.
use vstd::prelude::*;
use crate::edits::{lemma_insert_keeps, EditView, Upgrader};
use crate::runner::with_edit;
use crate::syntax::{kind_of, Node, NodeKind};
use crate::versioning::{chars_eq, chars_of, SemVer};

verus! {

/// Within `owner`, the identifier `from` becomes `to`.
#[derive(Debug, Clone)]
pub struct Rename {
    pub owner: Vec<char>,
    pub from: Vec<char>,
    pub to: Vec<char>,
}

pub ghost struct RenameView {
    pub owner: Seq<char>,
    pub from: Seq<char>,
    pub to: Seq<char>,
}

impl View for Rename {
    type V = RenameView;

    open spec fn view(&self) -> RenameView {
        RenameView { owner: self.owner@, from: self.from@, to: self.to@ }
    }
}

/// The new name that `s` gives to `name` within `owner`; a later entry
/// overrides an earlier one for the same owner and name.
pub open spec fn lookup(s: Seq<RenameView>, owner: Seq<char>, name: Seq<char>) -> Option<Seq<char>>
    decreases s.len(),
{
    if s.len() == 0 {
        None
    } else if s.last().owner == owner && s.last().from == name {
        Some(s.last().to)
    } else {
        lookup(s.drop_last(), owner, name)
    }
}

proof fn lemma_lookup_mentions(s: Seq<RenameView>, owner: Seq<char>, name: Seq<char>)
    requires
        lookup(s, owner, name) is Some,
    ensures
        exists|i: int| 0 <= i < s.len() && (#[trigger] s[i]).from == name,
    decreases s.len(),
{
    if !(s.last().owner == owner && s.last().from == name) {
        lemma_lookup_mentions(s.drop_last(), owner, name);
        let i = choose|i: int| 0 <= i < s.drop_last().len() && (#[trigger] s.drop_last()[i]).from
            == name;
        assert(s[i] == s.drop_last()[i]);
    } else {
        assert(s[s.len() - 1].from == name);
    }
}

/// A map from owner and old identifier to new identifier.
pub struct RenameMap {
    entries: Vec<Rename>,
}

impl RenameMap {
    pub closed spec fn view(&self) -> Seq<RenameView> {
        self.entries@.map_values(|r: Rename| r@)
    }

    pub open spec fn get_spec(&self, owner: Seq<char>, name: Seq<char>) -> Option<Seq<char>> {
        lookup(self.view(), owner, name)
    }

    pub fn new() -> (r: RenameMap)
        ensures
            forall|o: Seq<char>, n: Seq<char>| #[trigger] r.get_spec(o, n) is None,
    {
        let r = RenameMap { entries: Vec::new() };
        assert(r.view() =~= Seq::<RenameView>::empty());
        r
    }

    /// Within `owner`, `from` becomes `to`, replacing any earlier entry for them.
    pub fn insert(&mut self, owner: &str, from: &str, to: &str)
        ensures
            forall|o: Seq<char>, n: Seq<char>| #[trigger]
                final(self).get_spec(o, n) == if o == owner@ && n == from@ {
                    Some(to@)
                } else {
                    old(self).get_spec(o, n)
                },
    {
        let r = Rename { owner: chars_of(owner), from: chars_of(from), to: chars_of(to) };
        let ghost before = self.view();
        self.entries.push(r);
        assert(self.view().drop_last() =~= before);
    }

    /// The new name for `name` within `owner`, if there is one.
    pub fn get(&self, owner: &Vec<char>, name: &Vec<char>) -> (r: Option<&Vec<char>>)
        ensures
            match r {
                Some(v) => self.get_spec(owner@, name@) == Some(v@),
                None => self.get_spec(owner@, name@) is None,
            },
    {
        let ghost s = self.view();
        let mut i: usize = self.entries.len();
        assert(s.take(i as int) =~= s);
        while i > 0
            invariant
                i <= self.entries.len(),
                s == self.view(),
                lookup(s, owner@, name@) == lookup(s.take(i as int), owner@, name@),
            decreases i,
        {
            let e = &self.entries[i - 1];
            assert(s.take(i as int).last() == s[i - 1]);
            if chars_eq(&e.owner, owner) && chars_eq(&e.from, name) {
                return Some(&e.to);
            }
            assert(s.take(i as int).drop_last() =~= s.take(i - 1));
            i = i - 1;
        }
        None
    }

    /// Whether any owner has an entry for the old identifier `name`.
    pub fn mentions(&self, name: &Vec<char>) -> (r: bool)
        ensures
            r == exists|i: int| 0 <= i < self.view().len() && (#[trigger] self.view()[i]).from
                == name@,
    {
        let mut i: usize = 0;
        while i < self.entries.len()
            invariant
                0 <= i <= self.entries.len(),
                forall|j: int| 0 <= j < i ==> (#[trigger] self.view()[j]).from != name@,
            decreases self.entries.len() - i,
        {
            if chars_eq(&self.entries[i].from, name) {
                assert(self.view()[i as int].from == name@);
                return true;
            }
            i = i + 1;
        }
        false
    }
}

/// Every entry for `name` is found by `mentions`.
pub proof fn lemma_get_implies_mentions(m: &RenameMap, owner: Seq<char>, name: Seq<char>)
    requires
        m.get_spec(owner, name) is Some,
    ensures
        exists|i: int| 0 <= i < m.view().len() && (#[trigger] m.view()[i]).from == name,
{
    lemma_lookup_mentions(m.view(), owner, name);
}

/// A transformation that no rename can express, run on every occurrence of
/// its kind of construct. It receives the edit buffer and hands back the one
/// to keep, which holds every edit it was given.
pub trait Hook {
    /// The kind of construct the hook acts on.
    spec fn kind_spec(&self) -> NodeKind;

    /// The buffer the hook hands back for a buffer and a construct.
    spec fn effect(&self, before: Seq<EditView>, node: Node) -> Seq<EditView>;

    fn kind(&self) -> (r: NodeKind)
        ensures
            r == self.kind_spec(),
    ;

    fn call(&self, upgrader: Upgrader, node: &Node) -> (r: Upgrader)
        ensures
            r.view() == self.effect(upgrader.view(), *node),
            forall|k: int|
                0 <= k < upgrader.view().len() ==> r.view().contains(#[trigger] upgrader.view()[k]),
    ;
}

/// The buffer after each hook of `hs` whose kind is that of `n` ran on it,
/// in order.
pub open spec fn hooks_applied<H: Hook>(hs: Seq<H>, s: Seq<EditView>, n: Node) -> Seq<EditView>
    decreases hs.len(),
{
    if hs.len() == 0 {
        s
    } else {
        let prev = hooks_applied(hs.drop_last(), s, n);
        if hs.last().kind_spec() == kind_of(&n) {
            hs.last().effect(prev, n)
        } else {
            prev
        }
    }
}

/// Where the identifier of a construct starts, for constructs that have one.
pub open spec fn ident_start(n: Node) -> Option<nat> {
    match n {
        Node::MethodCall { name, .. } => Some(name.start as nat),
        Node::Path { name, .. } => Some(name.start as nat),
        Node::Field { name, .. } => Some(name.start as nat),
        Node::RecordExprField(f) => Some(f.name.start as nat),
        Node::RecordPatField(f) => Some(f.name.start as nat),
        _ => None,
    }
}

/// A hook that inserts `text` just before the identifier of every construct
/// of kind `kind`, where that place is free.
pub struct InsertBefore {
    pub kind: NodeKind,
    pub text: Vec<char>,
}

impl Hook for InsertBefore {
    open spec fn kind_spec(&self) -> NodeKind {
        self.kind
    }

    open spec fn effect(&self, before: Seq<EditView>, node: Node) -> Seq<EditView> {
        match ident_start(node) {
            Some(p) => with_edit(before, Some(EditView { start: p, end: p, text: self.text@ })),
            None => before,
        }
    }

    fn kind(&self) -> (r: NodeKind) {
        self.kind
    }

    fn call(&self, upgrader: Upgrader, node: &Node) -> (r: Upgrader) {
        let at = match node {
            Node::MethodCall { name, .. } => Some(name.start),
            Node::Path { name, .. } => Some(name.start),
            Node::Field { name, .. } => Some(name.start),
            Node::RecordExprField(f) => Some(f.name.start),
            Node::RecordPatField(f) => Some(f.name.start),
            _ => None,
        };
        match at {
            Some(p) => {
                let ghost before = upgrader.view();
                let ghost e = EditView { start: p as nat, end: p as nat, text: self.text@ };
                let (r, ok) = upgrader.replace(p, p, self.text.clone());
                proof {
                    if ok {
                        lemma_insert_keeps(before, e);
                    }
                }
                r
            },
            None => upgrader,
        }
    }
}

/// The changes that upgrade to one target version.
pub struct Version<H> {
    pub target: SemVer,
    pub peers: Vec<Vec<char>>,
    pub rename_methods: RenameMap,
    pub rename_members: RenameMap,
    pub rename_variants: RenameMap,
    pub hooks: Vec<H>,
}

impl<H: Hook> Version<H> {
    pub fn new(target: SemVer) -> (r: Version<H>)
        ensures
            r.target@ == target@,
            r.peers@.len() == 0,
            r.hooks@.len() == 0,
            forall|o: Seq<char>, n: Seq<char>| #[trigger] r.rename_methods.get_spec(o, n) is None,
            forall|o: Seq<char>, n: Seq<char>| #[trigger] r.rename_members.get_spec(o, n) is None,
            forall|o: Seq<char>, n: Seq<char>| #[trigger] r.rename_variants.get_spec(o, n) is None,
    {
        Version {
            target,
            peers: Vec::new(),
            rename_methods: RenameMap::new(),
            rename_members: RenameMap::new(),
            rename_variants: RenameMap::new(),
            hooks: Vec::new(),
        }
    }

    /// Also preload the library `name`.
    pub fn peer(self, name: &str) -> (r: Version<H>)
        ensures
            r.peers@.map_values(|p: Vec<char>| p@) == self.peers@.map_values(|p: Vec<char>| p@).push(
                name@,
            ),
            r.target@ == self.target@,
            r.rename_methods == self.rename_methods,
            r.rename_members == self.rename_members,
            r.rename_variants == self.rename_variants,
            r.hooks@ == self.hooks@,
    {
        let mut v = self;
        let ghost before = v.peers@;
        v.peers.push(chars_of(name));
        assert(v.peers@.map_values(|p: Vec<char>| p@) =~= before.map_values(|p: Vec<char>| p@).push(
            name@,
        ));
        v
    }

    /// Within `owner`, the method `from` becomes `to`.
    pub fn rename_method(self, owner: &str, from: &str, to: &str) -> (r: Version<H>)
        ensures
            forall|o: Seq<char>, n: Seq<char>| #[trigger]
                r.rename_methods.get_spec(o, n) == if o == owner@ && n == from@ {
                    Some(to@)
                } else {
                    self.rename_methods.get_spec(o, n)
                },
            r.target@ == self.target@,
            r.peers@ == self.peers@,
            r.rename_members == self.rename_members,
            r.rename_variants == self.rename_variants,
            r.hooks@ == self.hooks@,
    {
        let mut v = self;
        v.rename_methods.insert(owner, from, to);
        v
    }

    /// Within `owner`, the field `from` becomes `to`.
    pub fn rename_member(self, owner: &str, from: &str, to: &str) -> (r: Version<H>)
        ensures
            forall|o: Seq<char>, n: Seq<char>| #[trigger]
                r.rename_members.get_spec(o, n) == if o == owner@ && n == from@ {
                    Some(to@)
                } else {
                    self.rename_members.get_spec(o, n)
                },
            r.target@ == self.target@,
            r.peers@ == self.peers@,
            r.rename_methods == self.rename_methods,
            r.rename_variants == self.rename_variants,
            r.hooks@ == self.hooks@,
    {
        let mut v = self;
        v.rename_members.insert(owner, from, to);
        v
    }

    /// Within the enum `owner`, the variant `from` becomes `to`.
    pub fn rename_variant(self, owner: &str, from: &str, to: &str) -> (r: Version<H>)
        ensures
            forall|o: Seq<char>, n: Seq<char>| #[trigger]
                r.rename_variants.get_spec(o, n) == if o == owner@ && n == from@ {
                    Some(to@)
                } else {
                    self.rename_variants.get_spec(o, n)
                },
            r.target@ == self.target@,
            r.peers@ == self.peers@,
            r.rename_methods == self.rename_methods,
            r.rename_members == self.rename_members,
            r.hooks@ == self.hooks@,
    {
        let mut v = self;
        v.rename_variants.insert(owner, from, to);
        v
    }

    /// Adds a hook, run on each construct of its kind.
    pub fn hook(self, hook: H) -> (r: Version<H>)
        ensures
            r.hooks@ == self.hooks@.push(hook),
            r.target@ == self.target@,
            r.peers@ == self.peers@,
            r.rename_methods == self.rename_methods,
            r.rename_members == self.rename_members,
            r.rename_variants == self.rename_variants,
    {
        let mut v = self;
        v.hooks.push(hook);
        v
    }
}

} // verus!
