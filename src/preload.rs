//! The preloaded symbols of the upgraded library and its peers: for each
//! declaration identity, the logical owner its renames are keyed by.
use vstd::prelude::*;

verus! {

/// The class of a preloaded declaration.
#[derive(Debug, Clone, Copy, PartialEq, Eq, Structural)]
pub enum DeclKind {
    /// A method or associated function.
    Method,
    /// A field of a struct.
    Member,
    /// A variant of an enum.
    Variant,
}

/// A publicly visible declaration of a library, as the semantic engine lists it.
#[derive(Debug, Clone)]
pub struct Decl {
    pub id: u64,
    pub kind: DeclKind,
    /// The type, enum or trait it belongs to.
    pub owner: Vec<char>,
}

/// An external library and its declarations.
#[derive(Debug, Clone)]
pub struct Library {
    pub name: Vec<char>,
    pub decls: Vec<Decl>,
}

/// What the preloader holds: for each class, identities paired with owners.
pub ghost struct PreloadView {
    pub methods: Seq<(u64, Seq<char>)>,
    pub members: Seq<(u64, Seq<char>)>,
    pub variants: Seq<(u64, Seq<char>)>,
}

pub open spec fn table(p: PreloadView, k: DeclKind) -> Seq<(u64, Seq<char>)> {
    match k {
        DeclKind::Method => p.methods,
        DeclKind::Member => p.members,
        DeclKind::Variant => p.variants,
    }
}

/// The owner recorded first for `id`.
pub open spec fn owner_of(s: Seq<(u64, Seq<char>)>, id: u64) -> Option<Seq<char>>
    decreases s.len(),
{
    if s.len() == 0 {
        None
    } else if s[0].0 == id {
        Some(s[0].1)
    } else {
        owner_of(s.drop_first(), id)
    }
}

/// The declarations of `d` of class `k`, in order, as identity and owner.
pub open spec fn decls_of(d: Seq<Decl>, k: DeclKind) -> Seq<(u64, Seq<char>)>
    decreases d.len(),
{
    if d.len() == 0 {
        Seq::empty()
    } else if d.last().kind == k {
        decls_of(d.drop_last(), k).push((d.last().id, d.last().owner@))
    } else {
        decls_of(d.drop_last(), k)
    }
}

/// A crate name as written in a manifest, with `-` read as `_`.
pub open spec fn normalized(s: Seq<char>) -> Seq<char> {
    s.map_values(|c: char| if c == '-' { '_' } else { c })
}

/// The library names that a run preloads: the upgraded one and its peers.
pub open spec fn wanted(dep: Seq<char>, peers: Seq<Vec<char>>) -> Seq<Seq<char>> {
    seq![dep] + peers.map_values(|p: Vec<char>| p@)
}

/// What preloading the libraries of `libs` that `names` lists gives, in order.
pub open spec fn preload_of(libs: Seq<Library>, names: Seq<Seq<char>>) -> PreloadView
    decreases libs.len(),
{
    if libs.len() == 0 {
        PreloadView { methods: Seq::empty(), members: Seq::empty(), variants: Seq::empty() }
    } else {
        let p = preload_of(libs.drop_last(), names);
        let l = libs.last();
        if names.contains(normalized(l.name@)) {
            PreloadView {
                methods: p.methods + decls_of(l.decls@, DeclKind::Method),
                members: p.members + decls_of(l.decls@, DeclKind::Member),
                variants: p.variants + decls_of(l.decls@, DeclKind::Variant),
            }
        } else {
            p
        }
    }
}

/// Replaces each `-` of a crate name by `_`.
pub fn normalize(name: &Vec<char>) -> (r: Vec<char>)
    ensures
        r@ == normalized(name@),
{
    let mut r: Vec<char> = Vec::new();
    let mut i: usize = 0;
    while i < name.len()
        invariant
            0 <= i <= name.len(),
            r@ == normalized(name@.take(i as int)),
        decreases name.len() - i,
    {
        let c = name[i];
        if c == '-' {
            r.push('_');
        } else {
            r.push(c);
        }
        i = i + 1;
        assert(r@ =~= normalized(name@.take(i as int)));
    }
    assert(name@.take(i as int) =~= name@);
    r
}

/// Whether the library called `name` is one that a run upgrading `dep` with
/// these peers preloads.
pub fn is_wanted(name: &Vec<char>, dep: &Vec<char>, peers: &Vec<Vec<char>>) -> (r: bool)
    ensures
        r == wanted(dep@, peers@).contains(normalized(name@)),
{
    let n = normalize(name);
    let ghost w = wanted(dep@, peers@);
    if crate::versioning::chars_eq(dep, &n) {
        assert(w[0] == dep@);
        return true;
    }
    let mut i: usize = 0;
    while i < peers.len()
        invariant
            0 <= i <= peers.len(),
            w == wanted(dep@, peers@),
            n@ == normalized(name@),
            forall|j: int| 0 <= j < i + 1 ==> w[j] != n@,
        decreases peers.len() - i,
    {
        if crate::versioning::chars_eq(&peers[i], &n) {
            assert(w[i + 1] == n@);
            return true;
        }
        i = i + 1;
    }
    false
}

/// The position of the first package whose name, normalized, is that of
/// `dep` normalized.
pub fn find_package(names: &Vec<Vec<char>>, dep: &Vec<char>) -> (r: Option<usize>)
    ensures
        match r {
            Some(i) => i < names@.len() && normalized(names@[i as int]@) == normalized(dep@)
                && forall|j: int|
                0 <= j < i ==> normalized((#[trigger] names@[j])@) != normalized(dep@),
            None => forall|j: int|
                0 <= j < names@.len() ==> normalized((#[trigger] names@[j])@) != normalized(dep@),
        },
{
    let d = normalize(dep);
    let mut i: usize = 0;
    while i < names.len()
        invariant
            0 <= i <= names.len(),
            d@ == normalized(dep@),
            forall|j: int| 0 <= j < i ==> normalized((#[trigger] names@[j])@) != normalized(dep@),
        decreases names.len() - i,
    {
        let n = normalize(&names[i]);
        if crate::versioning::chars_eq(&n, &d) {
            return Some(i);
        }
        i = i + 1;
    }
    None
}

pub struct Preloader {
    methods: Vec<(u64, Vec<char>)>,
    members: Vec<(u64, Vec<char>)>,
    variants: Vec<(u64, Vec<char>)>,
}

pub open spec fn pairs_view(v: Seq<(u64, Vec<char>)>) -> Seq<(u64, Seq<char>)> {
    v.map_values(|p: (u64, Vec<char>)| (p.0, p.1@))
}

impl Preloader {
    pub closed spec fn view(&self) -> PreloadView {
        PreloadView {
            methods: pairs_view(self.methods@),
            members: pairs_view(self.members@),
            variants: pairs_view(self.variants@),
        }
    }

    pub fn new() -> (r: Preloader)
        ensures
            r.view() == (PreloadView {
                methods: Seq::empty(),
                members: Seq::empty(),
                variants: Seq::empty(),
            }),
    {
        let r = Preloader { methods: Vec::new(), members: Vec::new(), variants: Vec::new() };
        assert(r.view().methods =~= Seq::<(u64, Seq<char>)>::empty());
        assert(r.view().members =~= Seq::<(u64, Seq<char>)>::empty());
        assert(r.view().variants =~= Seq::<(u64, Seq<char>)>::empty());
        r
    }

    /// Records every declaration of one library under its class.
    pub fn load(&mut self, decls: &Vec<Decl>)
        ensures
            final(self).view().methods == old(self).view().methods + decls_of(
                decls@,
                DeclKind::Method,
            ),
            final(self).view().members == old(self).view().members + decls_of(
                decls@,
                DeclKind::Member,
            ),
            final(self).view().variants == old(self).view().variants + decls_of(
                decls@,
                DeclKind::Variant,
            ),
    {
        let ghost start = self.view();
        let mut i: usize = 0;
        while i < decls.len()
            invariant
                0 <= i <= decls.len(),
                self.view().methods == start.methods + decls_of(
                    decls@.take(i as int),
                    DeclKind::Method,
                ),
                self.view().members == start.members + decls_of(
                    decls@.take(i as int),
                    DeclKind::Member,
                ),
                self.view().variants == start.variants + decls_of(
                    decls@.take(i as int),
                    DeclKind::Variant,
                ),
            decreases decls.len() - i,
        {
            let d = &decls[i];
            let ghost before = self.view();
            let entry = (d.id, d.owner.clone());
            match d.kind {
                DeclKind::Method => self.methods.push(entry),
                DeclKind::Member => self.members.push(entry),
                DeclKind::Variant => self.variants.push(entry),
            }
            i = i + 1;
            proof {
                assert(decls@.take(i as int).drop_last() =~= decls@.take(i - 1));
                assert(pairs_view(self.methods@) =~= if d.kind == DeclKind::Method {
                    before.methods.push((d.id, d.owner@))
                } else {
                    before.methods
                });
                assert(pairs_view(self.members@) =~= if d.kind == DeclKind::Member {
                    before.members.push((d.id, d.owner@))
                } else {
                    before.members
                });
                assert(pairs_view(self.variants@) =~= if d.kind == DeclKind::Variant {
                    before.variants.push((d.id, d.owner@))
                } else {
                    before.variants
                });
                assert(self.view().methods =~= start.methods + decls_of(
                    decls@.take(i as int),
                    DeclKind::Method,
                ));
                assert(self.view().members =~= start.members + decls_of(
                    decls@.take(i as int),
                    DeclKind::Member,
                ));
                assert(self.view().variants =~= start.variants + decls_of(
                    decls@.take(i as int),
                    DeclKind::Variant,
                ));
            }
        }
        assert(decls@.take(i as int) =~= decls@);
    }

    /// The owner that the declaration `id` of class `k` was preloaded with.
    pub fn owner(&self, k: DeclKind, id: u64) -> (r: Option<&Vec<char>>)
        ensures
            match r {
                Some(o) => owner_of(table(self.view(), k), id) == Some(o@),
                None => owner_of(table(self.view(), k), id) is None,
            },
    {
        let v = match k {
            DeclKind::Method => &self.methods,
            DeclKind::Member => &self.members,
            DeclKind::Variant => &self.variants,
        };
        let ghost s = pairs_view(v@);
        assert(s == table(self.view(), k));
        let mut i: usize = 0;
        assert(s.skip(0) =~= s);
        while i < v.len()
            invariant
                0 <= i <= v.len(),
                s == pairs_view(v@),
                s == table(self.view(), k),
                owner_of(s, id) == owner_of(s.skip(i as int), id),
            decreases v.len() - i,
        {
            assert(s.skip(i as int)[0] == s[i as int]);
            assert(s[i as int] == (v@[i as int].0, v@[i as int].1@));
            let pair = &v[i];
            if pair.0 == id {
                assert(owner_of(s.skip(i as int), id) == Some(s[i as int].1));
                assert(pair.1@ == s[i as int].1);
                return Some(&pair.1);
            }
            assert(s.skip(i as int).drop_first() =~= s.skip(i + 1));
            i = i + 1;
        }
        None
    }
}

} // verus!
