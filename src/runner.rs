//! The migration run: select the target version, check the minimum, preload
//! the relevant libraries, visit every construct of every file, and hand back
//! one patch per file.
use vstd::prelude::*;
use crate::edits::{applied, compatible, insert_sorted, lemma_insert_keeps, sorted_edits, Edit, EditView, Patch, Upgrader};
use crate::preload::{
    is_wanted, owner_of, preload_of, wanted, DeclKind, Library, PreloadView, Preloader,
};
use crate::rules::{hooks_applied, lemma_get_implies_mentions, Hook, RenameMap, Version};
use crate::syntax::{kind_of, Ident, Node, PathTarget, RecordField};
use crate::versioning::{chars_of, hyphens, semver_parse, version_lt, SemVer, SemVerView};

verus! {

/// The edit that renames `name`, where its declaration was preloaded under
/// `owner` and the map has an entry for it.
pub open spec fn name_edit(owner: Option<Seq<char>>, m: RenameMap, name: Ident) -> Option<EditView> {
    match owner {
        Some(o) => match m.get_spec(o, name.text@) {
            Some(to) => Some(EditView { start: name.start as nat, end: name.end as nat, text: to }),
            None => None,
        },
        None => None,
    }
}

/// As `name_edit`, for a record field: shorthand becomes `new: binding`.
pub open spec fn field_edit(owner: Option<Seq<char>>, m: RenameMap, f: RecordField) -> Option<
    EditView,
> {
    match owner {
        Some(o) => match m.get_spec(o, f.name.text@) {
            Some(to) => match f.shorthand {
                Some(sh) => Some(
                    EditView {
                        start: sh.start as nat,
                        end: sh.end as nat,
                        text: to + seq![':', ' '] + sh.text@,
                    },
                ),
                None => Some(
                    EditView { start: f.name.start as nat, end: f.name.end as nat, text: to },
                ),
            },
            None => None,
        },
        None => None,
    }
}

pub open spec fn record_edit(p: PreloadView, m: RenameMap, f: RecordField) -> Option<EditView> {
    match f.target {
        Some(id) => field_edit(owner_of(p.members, id), m, f),
        None => None,
    }
}

/// The rename that the rule table asks for at one construct, if any.
pub open spec fn rename_edit<H>(v: Version<H>, p: PreloadView, n: Node) -> Option<EditView> {
    match n {
        Node::MethodCall { name, callee: Some(id) } => name_edit(
            owner_of(p.methods, id),
            v.rename_methods,
            name,
        ),
        Node::Path { name, target: PathTarget::Variant(id) } => name_edit(
            owner_of(p.variants, id),
            v.rename_variants,
            name,
        ),
        Node::Path { name, target: PathTarget::Function(id) } => name_edit(
            owner_of(p.methods, id),
            v.rename_methods,
            name,
        ),
        Node::Field { name, target: Some(id) } => name_edit(
            owner_of(p.members, id),
            v.rename_members,
            name,
        ),
        Node::RecordExprField(f) => record_edit(p, v.rename_members, f),
        Node::RecordPatField(f) => record_edit(p, v.rename_members, f),
        _ => None,
    }
}

/// The buffer `s` after offering it the edit `e`.
pub open spec fn with_edit(s: Seq<EditView>, e: Option<EditView>) -> Seq<EditView> {
    match e {
        Some(e) => if e.start <= e.end && compatible(s, e) {
            insert_sorted(s, e)
        } else {
            s
        },
        None => s,
    }
}

/// What visiting one construct does to the buffer: the hooks of its kind,
/// in order, then the rename the rules ask for.
pub open spec fn visited<H: Hook>(v: Version<H>, p: PreloadView, n: Node, s: Seq<EditView>) -> Seq<
    EditView,
> {
    with_edit(hooks_applied(v.hooks@, s, n), rename_edit(v, p, n))
}

/// The edits that visiting the constructs of one file in order gives.
pub open spec fn renamed_file<H: Hook>(v: Version<H>, p: PreloadView, nodes: Seq<Node>) -> Seq<
    EditView,
>
    decreases nodes.len(),
{
    if nodes.len() == 0 {
        Seq::empty()
    } else {
        visited(v, p, nodes.last(), renamed_file(v, p, nodes.drop_last()))
    }
}

/// The identifier a construct's renames would be looked up by, if it has one.
pub open spec fn node_name(n: Node) -> Option<Seq<char>> {
    match n {
        Node::MethodCall { name, .. } => Some(name.text@),
        Node::Path { name, .. } => Some(name.text@),
        Node::Field { name, .. } => Some(name.text@),
        Node::RecordExprField(f) => Some(f.name.text@),
        Node::RecordPatField(f) => Some(f.name.text@),
        _ => None,
    }
}

/// The construct resolves to a declaration that was preloaded for its class.
pub open spec fn resolves_to_preloaded(p: PreloadView, n: Node) -> bool {
    match n {
        Node::MethodCall { callee: Some(id), .. } => owner_of(p.methods, id) is Some,
        Node::Path { target: PathTarget::Variant(id), .. } => owner_of(p.variants, id) is Some,
        Node::Path { target: PathTarget::Function(id), .. } => owner_of(p.methods, id) is Some,
        Node::Field { target: Some(id), .. } => owner_of(p.members, id) is Some,
        Node::RecordExprField(f) => f.target is Some && owner_of(p.members, f.target->Some_0) is Some,
        Node::RecordPatField(f) => f.target is Some && owner_of(p.members, f.target->Some_0) is Some,
        _ => false,
    }
}

/// A migration with no hooks whose rename maps hold no entry, under any
/// owner, for the identifier of any construct of a file leaves that file's
/// text unchanged.
pub proof fn lemma_no_match_unchanged<H: Hook>(
    v: Version<H>,
    p: PreloadView,
    nodes: Seq<Node>,
    t: Seq<char>,
)
    requires
        v.hooks@.len() == 0,
        forall|k: int, o: Seq<char>|
            0 <= k < nodes.len() && (#[trigger] node_name(nodes[k])) is Some ==> {
                &&& (#[trigger] v.rename_methods.get_spec(o, node_name(nodes[k])->Some_0)) is None
                &&& v.rename_members.get_spec(o, node_name(nodes[k])->Some_0) is None
                &&& v.rename_variants.get_spec(o, node_name(nodes[k])->Some_0) is None
            },
    ensures
        renamed_file(v, p, nodes) == Seq::<EditView>::empty(),
        applied(t, renamed_file(v, p, nodes)) == t,
    decreases nodes.len(),
{
    if nodes.len() > 0 {
        let init = nodes.drop_last();
        assert forall|k: int, o: Seq<char>|
            0 <= k < init.len() && (#[trigger] node_name(init[k])) is Some implies {
                &&& (#[trigger] v.rename_methods.get_spec(o, node_name(init[k])->Some_0)) is None
                &&& v.rename_members.get_spec(o, node_name(init[k])->Some_0) is None
                &&& v.rename_variants.get_spec(o, node_name(init[k])->Some_0) is None
            } by {
            assert(init[k] == nodes[k]);
        }
        lemma_no_match_unchanged(v, p, init, t);
        let n = nodes.last();
        assert(node_name(nodes[nodes.len() - 1]) == node_name(n));
        if let Some(x) = node_name(n) {
            let o = match n {
                Node::MethodCall { callee: Some(id), .. } => owner_of(p.methods, id),
                Node::Path { target: PathTarget::Variant(id), .. } => owner_of(p.variants, id),
                Node::Path { target: PathTarget::Function(id), .. } => owner_of(p.methods, id),
                Node::Field { target: Some(id), .. } => owner_of(p.members, id),
                Node::RecordExprField(f) => match f.target {
                    Some(id) => owner_of(p.members, id),
                    None => None,
                },
                Node::RecordPatField(f) => match f.target {
                    Some(id) => owner_of(p.members, id),
                    None => None,
                },
                _ => None,
            };
            if let Some(o) = o {
                assert(v.rename_methods.get_spec(o, x) is None);
            }
        }
        assert(rename_edit(v, p, n) is None);
        assert(hooks_applied(v.hooks@, Seq::<EditView>::empty(), n) == Seq::<EditView>::empty());
    }
}

/// A construct is renamed only where it resolves to a preloaded declaration:
/// sharing an old identifier's text is not enough.
pub proof fn lemma_scope_restricted<H>(v: Version<H>, p: PreloadView, n: Node)
    ensures
        rename_edit(v, p, n) is Some ==> resolves_to_preloaded(p, n),
{
}

/// A renamed record field written in shorthand becomes `new: binding` over
/// the binding's range; written out in full, only its name is replaced.
pub proof fn lemma_shorthand_expansion<H>(v: Version<H>, p: PreloadView, f: RecordField, to: Seq<
    char,
>)
    requires
        f.target is Some,
        owner_of(p.members, f.target->Some_0) is Some,
        v.rename_members.get_spec(owner_of(p.members, f.target->Some_0)->Some_0, f.name.text@)
            == Some(to),
    ensures
        rename_edit(v, p, Node::RecordExprField(f)) == rename_edit(v, p, Node::RecordPatField(f)),
        f.shorthand matches Some(sh) ==> rename_edit(v, p, Node::RecordExprField(f)) == Some(
            EditView { start: sh.start as nat, end: sh.end as nat, text: to + seq![':', ' '] + sh.text@ },
        ),
        f.shorthand is None ==> rename_edit(v, p, Node::RecordExprField(f)) == Some(
            EditView { start: f.name.start as nat, end: f.name.end as nat, text: to },
        ),
{
}

pub open spec fn edit_view(e: Option<Edit>) -> Option<EditView> {
    match e {
        Some(e) => Some(e@),
        None => None,
    }
}

pub open spec fn owner_view(o: Option<&Vec<char>>) -> Option<Seq<char>> {
    match o {
        Some(o) => Some(o@),
        None => None,
    }
}

fn name_edit_of(owner: Option<&Vec<char>>, m: &RenameMap, name: &Ident) -> (r: Option<Edit>)
    ensures
        edit_view(r) == name_edit(owner_view(owner), *m, *name),
{
    match owner {
        None => None,
        Some(o) => match m.get(o, &name.text) {
            Some(to) => Some(Edit { start: name.start, end: name.end, text: to.clone() }),
            None => None,
        },
    }
}

fn field_edit_of(owner: Option<&Vec<char>>, m: &RenameMap, f: &RecordField) -> (r: Option<Edit>)
    ensures
        edit_view(r) == field_edit(owner_view(owner), *m, *f),
{
    match owner {
        None => None,
        Some(o) => match m.get(o, &f.name.text) {
            Some(to) => match &f.shorthand {
                Some(sh) => {
                    let mut text = to.clone();
                    text.push(':');
                    text.push(' ');
                    let ghost head = text@;
                    let mut i: usize = 0;
                    while i < sh.text.len()
                        invariant
                            0 <= i <= sh.text.len(),
                            text@ == head + sh.text@.take(i as int),
                        decreases sh.text.len() - i,
                    {
                        text.push(sh.text[i]);
                        i = i + 1;
                        assert(text@ =~= head + sh.text@.take(i as int));
                    }
                    assert(sh.text@.take(i as int) =~= sh.text@);
                    assert(head =~= to@ + seq![':', ' ']);
                    Some(Edit { start: sh.start, end: sh.end, text })
                },
                None => Some(Edit { start: f.name.start, end: f.name.end, text: to.clone() }),
            },
            None => None,
        },
    }
}

/// A rename for `name` needs an entry for its old text under some owner.
fn name_edit_checked(pre: &Preloader, k: DeclKind, id: u64, m: &RenameMap, name: &Ident) -> (r:
    Option<Edit>)
    ensures
        edit_view(r) == name_edit(
            owner_of(crate::preload::table(pre.view(), k), id),
            *m,
            *name,
        ),
{
    if !m.mentions(&name.text) {
        proof {
            let o = owner_of(crate::preload::table(pre.view(), k), id);
            if o is Some && m.get_spec(o->Some_0, name.text@) is Some {
                lemma_get_implies_mentions(m, o->Some_0, name.text@);
            }
        }
        return None;
    }
    name_edit_of(pre.owner(k, id), m, name)
}

fn record_edit_of(pre: &Preloader, m: &RenameMap, f: &RecordField) -> (r: Option<Edit>)
    ensures
        edit_view(r) == record_edit(pre.view(), *m, *f),
{
    match f.target {
        None => None,
        Some(id) => {
            if !m.mentions(&f.name.text) {
                proof {
                    let o = owner_of(pre.view().members, id);
                    if o is Some && m.get_spec(o->Some_0, f.name.text@) is Some {
                        lemma_get_implies_mentions(m, o->Some_0, f.name.text@);
                    }
                }
                return None;
            }
            field_edit_of(pre.owner(DeclKind::Member, id), m, f)
        },
    }
}

impl<H: Hook> Version<H> {
    /// The rename edit for one construct, if the rules ask for one.
    pub fn rename_edit(&self, pre: &Preloader, node: &Node) -> (r: Option<Edit>)
        ensures
            edit_view(r) == rename_edit(*self, pre.view(), *node),
    {
        match node {
            Node::MethodCall { name, callee: Some(id) } => name_edit_checked(
                pre,
                DeclKind::Method,
                *id,
                &self.rename_methods,
                name,
            ),
            Node::Path { name, target: PathTarget::Variant(id) } => name_edit_checked(
                pre,
                DeclKind::Variant,
                *id,
                &self.rename_variants,
                name,
            ),
            Node::Path { name, target: PathTarget::Function(id) } => name_edit_checked(
                pre,
                DeclKind::Method,
                *id,
                &self.rename_methods,
                name,
            ),
            Node::Field { name, target: Some(id) } => name_edit_checked(
                pre,
                DeclKind::Member,
                *id,
                &self.rename_members,
                name,
            ),
            Node::RecordExprField(f) => record_edit_of(pre, &self.rename_members, f),
            Node::RecordPatField(f) => record_edit_of(pre, &self.rename_members, f),
            _ => None,
        }
    }

    /// Visits one construct: every hook of its kind runs on the buffer in
    /// turn, then the rename that the rules ask for, if any, is registered.
    /// No edit already in the buffer is lost.
    pub fn visit(&self, pre: &Preloader, node: &Node, up: Upgrader) -> (r: Upgrader)
        ensures
            r.view() == visited(*self, pre.view(), *node, up.view()),
            forall|k: int| 0 <= k < up.view().len() ==> r.view().contains(#[trigger] up.view()[k]),
            sorted_edits(r.view()),
    {
        let ghost start = up.view();
        let kind = node.kind();
        let mut up = up;
        let mut i: usize = 0;
        assert(self.hooks@.take(0) =~= Seq::<H>::empty());
        while i < self.hooks.len()
            invariant
                0 <= i <= self.hooks.len(),
                kind == kind_of(node),
                up.view() == hooks_applied(self.hooks@.take(i as int), start, *node),
                forall|k: int| 0 <= k < start.len() ==> up.view().contains(#[trigger] start[k]),
            decreases self.hooks.len() - i,
        {
            let hook = &self.hooks[i];
            let ghost before = up.view();
            if hook.kind() == kind {
                up = hook.call(up, node);
                proof {
                    assert forall|k: int| 0 <= k < start.len() implies up.view().contains(
                        #[trigger] start[k],
                    ) by {
                        let j = choose|j: int| 0 <= j < before.len() && before[j] == start[k];
                        assert(up.view().contains(before[j]));
                    }
                }
            }
            assert(self.hooks@.take(i + 1).drop_last() =~= self.hooks@.take(i as int));
            i = i + 1;
        }
        assert(self.hooks@.take(i as int) =~= self.hooks@);
        let ghost hooked = up.view();
        let _ = up.len();
        match self.rename_edit(pre, node) {
            Some(e) => {
                let ghost ev = e@;
                let (r, ok) = up.replace(e.start, e.end, e.text);
                proof {
                    if ok {
                        lemma_insert_keeps(hooked, ev);
                        assert forall|k: int| 0 <= k < start.len() implies r.view().contains(
                            #[trigger] start[k],
                        ) by {
                            let j = choose|j: int| 0 <= j < hooked.len() && hooked[j] == start[k];
                            assert(r.view().contains(hooked[j]));
                        }
                    }
                }
                r
            },
            None => up,
        }
    }
}

/// One source file of the project, its constructs in document order.
#[derive(Debug, Clone)]
pub struct SourceFile {
    pub nodes: Vec<Node>,
}

/// How a run ends when it does not fail.
#[derive(Debug)]
pub enum Outcome {
    /// No rules are registered for the requested version.
    NoChanges,
    /// One patch for each file, in the order of the files.
    Rewrite(Vec<Patch>),
}

#[derive(Debug)]
pub enum RunError {
    /// The version upgraded from lies below the supported minimum.
    NotMinimum { dep: Vec<char>, minimum: SemVer },
}

pub open spec fn distinct_targets<H>(vs: Seq<Version<H>>) -> bool {
    forall|i: int, j: int|
        0 <= i < j < vs.len() ==> (#[trigger] vs[i]).target@ != (#[trigger] vs[j]).target@
}

pub struct Runner<H: Hook> {
    minimum: Option<SemVer>,
    versions: Vec<Version<H>>,
}

impl<H: Hook> Runner<H> {
    #[verifier::type_invariant]
    spec fn well_formed(&self) -> bool {
        distinct_targets(self.versions@)
    }

    pub closed spec fn minimum_spec(&self) -> Option<SemVerView> {
        match self.minimum {
            Some(m) => Some(m@),
            None => None,
        }
    }

    pub closed spec fn versions_spec(&self) -> Seq<Version<H>> {
        self.versions@
    }

    pub fn new() -> (r: Runner<H>)
        ensures
            r.minimum_spec() is None,
            r.versions_spec().len() == 0,
    {
        Runner { minimum: None, versions: Vec::new() }
    }

    /// Refuses upgrades from below the version that `version` reads as.
    pub fn minimum(self, version: &str) -> (r: Result<Runner<H>, semver::SemVerError>)
        requires
            hyphens(version@) <= 255,
        ensures
            match r {
                Ok(n) => semver_parse(version@) == Some(n.minimum_spec()->Some_0)
                    && n.minimum_spec() is Some && n.versions_spec() == self.versions_spec(),
                Err(_) => semver_parse(version@) is None,
            },
    {
        proof {
            use_type_invariant(&self);
        }
        match SemVer::parse(version) {
            Ok(v) => Ok(Runner { minimum: Some(v), versions: self.versions }),
            Err(e) => Err(e),
        }
    }

    /// Registers the rules for one target version, in place of any rules
    /// registered before for the same target.
    pub fn version(self, version: Version<H>) -> (r: Runner<H>)
        ensures
            r.minimum_spec() == self.minimum_spec(),
            distinct_targets(r.versions_spec()),
            (forall|i: int|
                0 <= i < self.versions_spec().len() ==> (#[trigger] self.versions_spec()[i]).target@
                    != version.target@) ==> r.versions_spec() == self.versions_spec().push(version),
            forall|i: int|
                0 <= i < self.versions_spec().len() && (#[trigger] self.versions_spec()[i]).target@
                    == version.target@ ==> r.versions_spec() == self.versions_spec().update(
                    i,
                    version,
                ),
    {
        proof {
            use_type_invariant(&self);
        }
        let ghost old_min = self.minimum;
        let Runner { minimum, mut versions } = self;
        let ghost old_vs = versions@;
        let mut i: usize = 0;
        while i < versions.len()
            invariant
                0 <= i <= versions.len(),
                versions@ == old_vs,
                minimum == old_min,
                old_min == self.minimum,
                old_vs == self.versions_spec(),
                distinct_targets(old_vs),
                forall|j: int| 0 <= j < i ==> (#[trigger] old_vs[j]).target@ != version.target@,
            decreases versions.len() - i,
        {
            if versions[i].target.same(&version.target) {
                versions.set(i, version);
                proof {
                    assert(old_vs[i as int].target@ == version.target@);
                    assert(versions@ == old_vs.update(i as int, version));
                    assert forall|a: int, b: int|
                        0 <= a < b < versions@.len() implies (#[trigger] versions@[a]).target@
                        != (#[trigger] versions@[b]).target@ by {
                        assert(old_vs[a].target@ != old_vs[b].target@);
                    }
                    assert forall|j: int|
                        0 <= j < old_vs.len() && (#[trigger] old_vs[j]).target@
                            == version.target@ implies j == i by {
                        if j < i {
                            assert(old_vs[j].target@ != old_vs[i as int].target@);
                        } else if j > i {
                            assert(old_vs[i as int].target@ != old_vs[j].target@);
                        }
                    }
                }
                return Runner { minimum, versions };
            }
            i = i + 1;
        }
        versions.push(version);
        proof {
            assert forall|a: int, b: int|
                0 <= a < b < versions@.len() implies (#[trigger] versions@[a]).target@
                != (#[trigger] versions@[b]).target@ by {
                if b < old_vs.len() {
                    assert(old_vs[a].target@ != old_vs[b].target@);
                }
            }
        }
        Runner { minimum, versions }
    }

    /// The position of the rules for `to`, if any are registered.
    fn get_version(&self, to: &SemVer) -> (r: Option<usize>)
        ensures
            match r {
                Some(i) => i < self.versions_spec().len() && self.versions_spec()[i as int].target@
                    == to@,
                None => forall|i: int|
                    0 <= i < self.versions_spec().len() ==> (#[trigger] self.versions_spec()[i]).target@
                        != to@,
            },
    {
        let mut i: usize = 0;
        while i < self.versions.len()
            invariant
                0 <= i <= self.versions.len(),
                forall|j: int| 0 <= j < i ==> (#[trigger] self.versions@[j]).target@ != to@,
            decreases self.versions.len() - i,
        {
            if self.versions[i].target.same(to) {
                return Some(i);
            }
            i = i + 1;
        }
        None
    }

    /// Upgrades the project from `from` to `to`. Nothing is produced for a
    /// target with no rules, and an upgrade from below the minimum fails;
    /// otherwise the libraries named `dep` or a peer of the selected rules
    /// are preloaded and each file's constructs visited in order, giving one
    /// patch per file.
    pub fn run(
        &self,
        dep: &str,
        from: &SemVer,
        to: &SemVer,
        libraries: &Vec<Library>,
        files: &Vec<SourceFile>,
    ) -> (r: Result<Outcome, RunError>)
        ensures
            (r matches Ok(Outcome::NoChanges)) <==> (forall|i: int|
                0 <= i < self.versions_spec().len() ==> (#[trigger] self.versions_spec()[i]).target@
                    != to@),
            (r is Err) <==> ((exists|i: int|
                0 <= i < self.versions_spec().len() && (#[trigger] self.versions_spec()[i]).target@
                    == to@) && self.minimum_spec() is Some && version_lt(
                from@,
                self.minimum_spec()->Some_0,
            )),
            r matches Err(RunError::NotMinimum { dep: d, minimum: m }) ==> d@ == dep@ && Some(m@)
                == self.minimum_spec(),
            r matches Ok(Outcome::Rewrite(ps)) ==> ps@.len() == files@.len() && forall|i: int|
                0 <= i < self.versions_spec().len() && (#[trigger] self.versions_spec()[i]).target@
                    == to@ ==> forall|f: int|
                    0 <= f < files@.len() ==> (#[trigger] ps@[f]).view() == renamed_file(
                        self.versions_spec()[i],
                        preload_of(libraries@, wanted(dep@, self.versions_spec()[i].peers@)),
                        files@[f].nodes@,
                    ),
    {
        proof {
            use_type_invariant(self);
        }
        let vi = match self.get_version(to) {
            None => return Ok(Outcome::NoChanges),
            Some(i) => i,
        };
        if let Some(min) = &self.minimum {
            if from.is_before(min) {
                return Err(RunError::NotMinimum { dep: chars_of(dep), minimum: min.copy() });
            }
        }
        let version = &self.versions[vi];
        let depv = chars_of(dep);
        let ghost names = wanted(dep@, version.peers@);
        let mut pre = Preloader::new();
        let mut l: usize = 0;
        while l < libraries.len()
            invariant
                0 <= l <= libraries.len(),
                depv@ == dep@,
                names == wanted(dep@, version.peers@),
                pre.view() == preload_of(libraries@.take(l as int), names),
            decreases libraries.len() - l,
        {
            let lib = &libraries[l];
            if is_wanted(&lib.name, &depv, &version.peers) {
                pre.load(&lib.decls);
            }
            l = l + 1;
            proof {
                assert(libraries@.take(l as int).drop_last() =~= libraries@.take(l - 1));
            }
        }
        assert(libraries@.take(l as int) =~= libraries@);
        let mut patches: Vec<Patch> = Vec::new();
        let mut f: usize = 0;
        while f < files.len()
            invariant
                0 <= f <= files.len(),
                patches@.len() == f,
                version == self.versions_spec()[vi as int],
                pre.view() == preload_of(libraries@, names),
                names == wanted(dep@, version.peers@),
                forall|g: int|
                    0 <= g < f ==> (#[trigger] patches@[g]).view() == renamed_file(
                        *version,
                        pre.view(),
                        files@[g].nodes@,
                    ),
            decreases files.len() - f,
        {
            let nodes = &files[f].nodes;
            let mut up = Upgrader::new();
            let mut j: usize = 0;
            while j < nodes.len()
                invariant
                    0 <= j <= nodes.len(),
                    up.view() == renamed_file(
                        *version,
                        pre.view(),
                        nodes@.take(j as int),
                    ),
                decreases nodes.len() - j,
            {
                up = version.visit(&pre, &nodes[j], up);
                j = j + 1;
                proof {
                    assert(nodes@.take(j as int).drop_last() =~= nodes@.take(j - 1));
                }
            }
            assert(nodes@.take(j as int) =~= nodes@);
            patches.push(up.finish());
            f = f + 1;
        }
        proof {
            assert forall|i: int|
                0 <= i < self.versions_spec().len() && (#[trigger] self.versions_spec()[i]).target@
                    == to@ implies i == vi by {
                if i != vi {
                    assert(!distinct_targets(self.versions@));
                }
            }
        }
        Ok(Outcome::Rewrite(patches))
    }
}

} // verus!
