//! The per-file edit buffer and the patches it produces.
//!
//! Offsets are character positions in the text of the file as it was read.
//! Edits are kept sorted, and no two of them overlap; an insertion may stand
//! at the start of a replacement, and comes before it. An edit that would
//! overlap one already registered is refused and the buffer stays as it was.
//! Because every edit is indexed against the text as read, the finished patch
//! does not depend on the order in which compatible edits came in.
use vstd::prelude::*;

verus! {

/// Replace the characters `start..end` of the file's unedited text by `text`.
#[derive(Clone, Debug)]
pub struct Edit {
    pub start: usize,
    pub end: usize,
    pub text: Vec<char>,
}

/// What an edit means: a range of the unedited text and its replacement.
pub ghost struct EditView {
    pub start: nat,
    pub end: nat,
    pub text: Seq<char>,
}

impl View for Edit {
    type V = EditView;

    open spec fn view(&self) -> EditView {
        EditView { start: self.start as nat, end: self.end as nat, text: self.text@ }
    }
}

pub open spec fn edits_view(v: Seq<Edit>) -> Seq<EditView> {
    v.map_values(|e: Edit| e@)
}

/// `a` lies wholly before `b`: it starts strictly before it, or it is an
/// insertion at the start of a replacement that is not.
pub open spec fn precedes(a: EditView, b: EditView) -> bool {
    a.end <= b.start && (a.start < b.start || (a.start == a.end && b.start < b.end))
}

/// Lying before is transitive over proper ranges.
pub proof fn lemma_precedes_trans(a: EditView, b: EditView, c: EditView)
    requires
        a.start <= a.end,
        b.start <= b.end,
        c.start <= c.end,
        precedes(a, b),
        precedes(b, c),
    ensures
        precedes(a, c),
{
}

/// Every edit is a proper range and each one lies before all that follow it.
pub open spec fn sorted_edits(s: Seq<EditView>) -> bool {
    &&& forall|i: int| 0 <= i < s.len() ==> #[trigger] s[i].start <= s[i].end
    &&& forall|i: int, j: int| 0 <= i < j < s.len() ==> precedes(#[trigger] s[i], #[trigger] s[j])
}

/// `e` can join `s` without touching any of its edits.
pub open spec fn compatible(s: Seq<EditView>, e: EditView) -> bool {
    forall|i: int| 0 <= i < s.len() ==> precedes(#[trigger] s[i], e) || precedes(e, s[i])
}

/// `s` with `e` placed at its position by start.
pub open spec fn insert_sorted(s: Seq<EditView>, e: EditView) -> Seq<EditView>
    decreases s.len(),
{
    if s.len() == 0 {
        seq![e]
    } else if precedes(e, s[0]) {
        seq![e] + s
    } else {
        seq![s[0]] + insert_sorted(s.drop_first(), e)
    }
}

/// The edits all lie inside a text of length `len`.
pub open spec fn fits(s: Seq<EditView>, len: nat) -> bool {
    s.len() > 0 ==> s.last().end <= len
}

/// The text that results from replacing each range of `t` named in `s` by its
/// replacement, all ranges taken against `t` itself.
pub open spec fn applied(t: Seq<char>, s: Seq<EditView>) -> Seq<char>
    decreases s.len(),
{
    if s.len() == 0 {
        t
    } else {
        let e = s.last();
        applied(t.subrange(0, e.start as int), s.drop_last()) + e.text + t.subrange(
            e.end as int,
            t.len() as int,
        )
    }
}

/// `t` with the one range of `e` replaced.
pub open spec fn replaced(t: Seq<char>, e: EditView) -> Seq<char> {
    t.subrange(0, e.start as int) + e.text + t.subrange(e.end as int, t.len() as int)
}

/// The edits of `s` performed one at a time on the running text, the one that
/// starts last first.
pub open spec fn applied_descending(t: Seq<char>, s: Seq<EditView>) -> Seq<char>
    decreases s.len(),
{
    if s.len() == 0 {
        t
    } else {
        applied_descending(replaced(t, s.last()), s.drop_last())
    }
}

proof fn lemma_sorted_prefix(s: Seq<EditView>, n: int)
    requires
        sorted_edits(s),
        0 <= n <= s.len(),
    ensures
        sorted_edits(s.take(n)),
        n > 0 ==> s.take(n).last() == s[n - 1],
        n > 0 ==> s.take(n).drop_last() =~= s.take(n - 1),
{
    let p = s.take(n);
    assert forall|i: int, j: int| 0 <= i < j < p.len() implies precedes(p[i], p[j]) by {
        assert(p[i] == s[i] && p[j] == s[j]);
    }
}

/// Text beyond the last edit is carried over unchanged.
proof fn lemma_applied_split(t: Seq<char>, s: Seq<EditView>, k: nat)
    requires
        sorted_edits(s),
        fits(s, k),
        k <= t.len(),
    ensures
        applied(t, s) == applied(t.subrange(0, k as int), s) + t.subrange(k as int, t.len() as int),
{
    if s.len() == 0 {
        assert(t =~= t.subrange(0, k as int) + t.subrange(k as int, t.len() as int));
    } else {
        let e = s.last();
        let tk = t.subrange(0, k as int);
        assert(tk.subrange(0, e.start as int) =~= t.subrange(0, e.start as int));
        assert(tk.subrange(e.end as int, tk.len() as int) + t.subrange(k as int, t.len() as int)
            =~= t.subrange(e.end as int, t.len() as int));
        assert(applied(t, s) =~= applied(tk, s) + t.subrange(k as int, t.len() as int));
    }
}

proof fn lemma_descending_split(t: Seq<char>, s: Seq<EditView>, k: nat)
    requires
        sorted_edits(s),
        fits(s, k),
        k <= t.len(),
    ensures
        applied_descending(t, s) == applied_descending(t.subrange(0, k as int), s) + t.subrange(
            k as int,
            t.len() as int,
        ),
    decreases s.len(),
{
    let rest = t.subrange(k as int, t.len() as int);
    if s.len() == 0 {
        assert(t =~= t.subrange(0, k as int) + rest);
    } else {
        let e = s.last();
        let init = s.drop_last();
        let tk = t.subrange(0, k as int);
        let r = replaced(t, e);
        let rk = replaced(tk, e);
        assert(r =~= rk + rest);
        lemma_sorted_prefix(s, s.len() - 1);
        assert(init =~= s.take(s.len() - 1));
        if init.len() > 0 {
            assert(precedes(s[s.len() - 2], s[s.len() - 1]));
        }
        lemma_descending_split(r, init, rk.len());
        assert(r.subrange(0, rk.len() as int) =~= rk);
        assert(r.subrange(rk.len() as int, r.len() as int) =~= rest);
    }
}

/// Applying a sorted patch in one pass gives the same text as performing its
/// edits one by one on the running text, in descending order of range.
pub proof fn lemma_applied_is_descending(t: Seq<char>, s: Seq<EditView>)
    requires
        sorted_edits(s),
        fits(s, t.len()),
    ensures
        applied(t, s) == applied_descending(t, s),
    decreases s.len(),
{
    if s.len() > 0 {
        let e = s.last();
        let init = s.drop_last();
        let r = replaced(t, e);
        lemma_sorted_prefix(s, s.len() - 1);
        assert(init =~= s.take(s.len() - 1));
        if init.len() > 0 {
            assert(precedes(s[s.len() - 2], s[s.len() - 1]));
        }
        lemma_descending_split(r, init, e.start);
        assert(r.subrange(0, e.start as int) =~= t.subrange(0, e.start as int));
        assert(r.subrange(e.start as int, r.len() as int) =~= e.text + t.subrange(
            e.end as int,
            t.len() as int,
        ));
        lemma_applied_is_descending(t.subrange(0, e.start as int), init);
        assert(applied_descending(t, s) =~= applied(t, s));
    }
}

/// Two compatible edits land at the same places whichever is registered first.
pub proof fn lemma_insert_commutes(s: Seq<EditView>, a: EditView, b: EditView)
    requires
        sorted_edits(s),
        a.start <= a.end,
        b.start <= b.end,
        precedes(a, b) || precedes(b, a),
    ensures
        insert_sorted(insert_sorted(s, a), b) == insert_sorted(insert_sorted(s, b), a),
    decreases s.len(),
{
    if s.len() == 0 {
        let e = Seq::<EditView>::empty();
        assert(seq![a].drop_first() =~= e);
        assert(seq![b].drop_first() =~= e);
        assert(insert_sorted(e, a) == seq![a]);
        assert(insert_sorted(e, b) == seq![b]);
        assert(insert_sorted(seq![a], b) =~= insert_sorted(seq![b], a));
    } else {
        let x = s[0];
        let t = s.drop_first();
        assert(sorted_edits(t)) by {
            assert forall|p: int, q: int| 0 <= p < q < t.len() implies precedes(t[p], t[q]) by {
                assert(precedes(s[p + 1], s[q + 1]));
            }
        }
        assert(x.start <= x.end);
        lemma_insert_commutes(t, a, b);
        if precedes(b, a) && precedes(a, x) {
            lemma_precedes_trans(b, a, x);
        }
        if precedes(a, b) && precedes(b, x) {
            lemma_precedes_trans(a, b, x);
        }
        if precedes(a, x) && precedes(b, x) {
            assert((seq![a] + s).drop_first() =~= s);
            assert((seq![b] + s).drop_first() =~= s);
            assert((seq![a] + seq![b] + s).drop_first() =~= seq![b] + s);
            assert((seq![b] + seq![a] + s).drop_first() =~= seq![a] + s);
            assert(insert_sorted(insert_sorted(s, a), b) =~= insert_sorted(
                insert_sorted(s, b),
                a,
            ));
        } else if precedes(a, x) {
            assert((seq![a] + s).drop_first() =~= s);
            assert((seq![x] + insert_sorted(t, b)).drop_first() =~= insert_sorted(t, b));
            assert(insert_sorted(insert_sorted(s, a), b) =~= insert_sorted(
                insert_sorted(s, b),
                a,
            ));
        } else if precedes(b, x) {
            assert((seq![b] + s).drop_first() =~= s);
            assert((seq![x] + insert_sorted(t, a)).drop_first() =~= insert_sorted(t, a));
            assert(insert_sorted(insert_sorted(s, a), b) =~= insert_sorted(
                insert_sorted(s, b),
                a,
            ));
        } else {
            assert((seq![x] + insert_sorted(t, a)).drop_first() =~= insert_sorted(t, a));
            assert((seq![x] + insert_sorted(t, b)).drop_first() =~= insert_sorted(t, b));
            assert(insert_sorted(insert_sorted(s, a), b) =~= insert_sorted(
                insert_sorted(s, b),
                a,
            ));
        }
    }
}

proof fn lemma_insert_contents(s: Seq<EditView>, e: EditView)
    ensures
        insert_sorted(s, e).len() == s.len() + 1,
        forall|k: int|
            0 <= k < insert_sorted(s, e).len() ==> #[trigger] insert_sorted(s, e)[k] == e
                || s.contains(insert_sorted(s, e)[k]),
    decreases s.len(),
{
    if s.len() > 0 && !precedes(e, s[0]) {
        let t = s.drop_first();
        lemma_insert_contents(t, e);
        let r = insert_sorted(s, e);
        assert forall|k: int| 0 <= k < r.len() implies #[trigger] r[k] == e || s.contains(r[k]) by {
            if k == 0 {
                assert(s[0] == r[0]);
            } else {
                assert(r[k] == insert_sorted(t, e)[k - 1]);
                if r[k] != e {
                    let j = choose|j: int| 0 <= j < t.len() && t[j] == r[k];
                    assert(s[j + 1] == r[k]);
                }
            }
        }
    } else if s.len() > 0 {
        let r = insert_sorted(s, e);
        assert forall|k: int| 0 <= k < r.len() implies #[trigger] r[k] == e || s.contains(r[k]) by {
            if k > 0 {
                assert(s[k - 1] == r[k]);
            }
        }
    }
}

/// Inserting an edit loses none of those already there.
pub proof fn lemma_insert_keeps(s: Seq<EditView>, e: EditView)
    ensures
        forall|k: int| 0 <= k < s.len() ==> insert_sorted(s, e).contains(#[trigger] s[k]),
    decreases s.len(),
{
    if s.len() > 0 {
        let r = insert_sorted(s, e);
        if precedes(e, s[0]) {
            assert forall|k: int| 0 <= k < s.len() implies r.contains(#[trigger] s[k]) by {
                assert(r[k + 1] == s[k]);
            }
        } else {
            let t = s.drop_first();
            lemma_insert_keeps(t, e);
            assert forall|k: int| 0 <= k < s.len() implies r.contains(#[trigger] s[k]) by {
                if k == 0 {
                    assert(r[0] == s[0]);
                } else {
                    assert(t[k - 1] == s[k]);
                    assert(insert_sorted(t, e).contains(t[k - 1]));
                    let j = choose|j: int|
                        0 <= j < insert_sorted(t, e).len() && insert_sorted(t, e)[j] == t[k - 1];
                    assert(r[j + 1] == s[k]);
                }
            }
        }
    }
}

/// Inserting a compatible edit keeps the edits sorted.
proof fn lemma_insert_sorted(s: Seq<EditView>, e: EditView)
    requires
        sorted_edits(s),
        e.start <= e.end,
        compatible(s, e),
    ensures
        sorted_edits(insert_sorted(s, e)),
    decreases s.len(),
{
    let r = insert_sorted(s, e);
    if s.len() == 0 {
    } else if precedes(e, s[0]) {
        assert forall|a: int, b: int| 0 <= a < b < r.len() implies precedes(r[a], r[b]) by {
            if a == 0 {
                if b > 1 {
                    assert(precedes(s[0], s[b - 1]));
                    lemma_precedes_trans(e, s[0], s[b - 1]);
                }
            } else {
                assert(precedes(s[a - 1], s[b - 1]));
            }
        }
    } else {
        let t = s.drop_first();
        assert(sorted_edits(t)) by {
            assert forall|a: int, b: int| 0 <= a < b < t.len() implies precedes(t[a], t[b]) by {
                assert(precedes(s[a + 1], s[b + 1]));
            }
        }
        assert(compatible(t, e)) by {
            assert forall|a: int| 0 <= a < t.len() implies precedes(#[trigger] t[a], e) || precedes(
                e,
                t[a],
            ) by {
                assert(t[a] == s[a + 1]);
            }
        }
        lemma_insert_sorted(t, e);
        lemma_insert_contents(t, e);
        let it = insert_sorted(t, e);
        assert(precedes(s[0], e) || precedes(e, s[0]));
        assert forall|a: int, b: int| 0 <= a < b < r.len() implies precedes(r[a], r[b]) by {
            if a == 0 {
                assert(r[b] == it[b - 1]);
                if it[b - 1] != e {
                    let j = choose|j: int| 0 <= j < t.len() && t[j] == it[b - 1];
                    assert(precedes(s[0], s[j + 1]));
                }
            } else {
                assert(r[a] == it[a - 1] && r[b] == it[b - 1]);
            }
        }
    }
}

/// Two compatible edits may be registered in either order: the buffer ends
/// up the same, and applying it in one pass gives what applying its edits one
/// by one in descending order of range gives.
pub proof fn lemma_batch_order(t: Seq<char>, s: Seq<EditView>, a: EditView, b: EditView)
    requires
        sorted_edits(s),
        fits(s, t.len()),
        a.start <= a.end <= t.len(),
        b.start <= b.end <= t.len(),
        compatible(s, a),
        compatible(s, b),
        precedes(a, b) || precedes(b, a),
    ensures
        insert_sorted(insert_sorted(s, a), b) == insert_sorted(insert_sorted(s, b), a),
        sorted_edits(insert_sorted(insert_sorted(s, a), b)),
        applied(t, insert_sorted(insert_sorted(s, a), b)) == applied_descending(
            t,
            insert_sorted(insert_sorted(s, a), b),
        ),
{
    lemma_insert_commutes(s, a, b);
    lemma_insert_sorted(s, a);
    lemma_insert_contents(s, a);
    let sa = insert_sorted(s, a);
    assert(compatible(sa, b)) by {
        assert forall|k: int| 0 <= k < sa.len() implies precedes(#[trigger] sa[k], b) || precedes(
            b,
            sa[k],
        ) by {
            if sa[k] != a {
                let j = choose|j: int| 0 <= j < s.len() && s[j] == sa[k];
            }
        }
    }
    lemma_insert_sorted(sa, b);
    lemma_insert_contents(sa, b);
    let r = insert_sorted(sa, b);
    assert(fits(r, t.len())) by {
        let x = r[r.len() - 1];
        if x != b {
            let j = choose|j: int| 0 <= j < sa.len() && sa[j] == x;
            if sa[j] != a {
                let m = choose|m: int| 0 <= m < s.len() && s[m] == sa[j];
                if m < s.len() - 1 {
                    assert(precedes(s[m], s[s.len() - 1]));
                }
            }
        }
    }
    lemma_applied_is_descending(t, r);
}

/// The edits registered so far for the file under traversal.
#[derive(Debug)]
pub struct Upgrader {
    edits: Vec<Edit>,
}

/// The finished, sorted and disjoint edits of one file.
#[derive(Debug)]
pub struct Patch {
    edits: Vec<Edit>,
}

impl Upgrader {
    pub closed spec fn view(&self) -> Seq<EditView> {
        edits_view(self.edits@)
    }

    #[verifier::type_invariant]
    spec fn well_formed(&self) -> bool {
        sorted_edits(edits_view(self.edits@))
    }

    pub fn new() -> (r: Upgrader)
        ensures
            r.view() == Seq::<EditView>::empty(),
    {
        let r = Upgrader { edits: Vec::new() };
        assert(r.view() =~= Seq::<EditView>::empty());
        r
    }

    /// The number of edits registered; they are always sorted and disjoint.
    pub fn len(&self) -> (n: usize)
        ensures
            n == self.view().len(),
            sorted_edits(self.view()),
    {
        proof {
            use_type_invariant(self);
        }
        self.edits.len()
    }

    /// Registers the replacement of `start..end` by `text`. The edit is refused,
    /// and the buffer handed back as it was, where the range is reversed or
    /// touches an edit already registered.
    pub fn replace(self, start: usize, end: usize, text: Vec<char>) -> (r: (Upgrader, bool))
        ensures
            r.1 == (start <= end && compatible(
                self.view(),
                EditView { start: start as nat, end: end as nat, text: text@ },
            )),
            r.1 ==> r.0.view() == insert_sorted(
                self.view(),
                EditView { start: start as nat, end: end as nat, text: text@ },
            ),
            !r.1 ==> r.0.view() == self.view(),
            sorted_edits(self.view()),
            sorted_edits(r.0.view()),
    {
        proof {
            use_type_invariant(&self);
        }
        let ghost s = self.view();
        let ghost e = EditView { start: start as nat, end: end as nat, text: text@ };
        if start > end {
            return (self, false);
        }
        let n = self.edits.len();
        let mut i: usize = 0;
        while i < n && self.edits[i].end <= start && (self.edits[i].start < start || (
        self.edits[i].start == self.edits[i].end && start < end))
            invariant
                0 <= i <= n,
                n == self.edits.len(),
                s == self.view(),
                e == (EditView { start: start as nat, end: end as nat, text: text@ }),
                sorted_edits(s),
                forall|j: int| 0 <= j < i ==> precedes(#[trigger] s[j], e),
            decreases n - i,
        {
            assert(s[i as int] == self.edits@[i as int]@);
            assert(precedes(s[i as int], e));
            i = i + 1;
        }
        // the edits before position i lie before the new one
        let fits_next = i == n || (end <= self.edits[i].start && (start < self.edits[i].start || (
        start == end && self.edits[i].start < self.edits[i].end)));
        if !fits_next {
            proof {
                assert(!(precedes(s[i as int], e) || precedes(e, s[i as int])));
            }
            return (self, false);
        }
        proof {
            assert forall|j: int| i < j < n implies precedes(e, #[trigger] s[j]) by {
                assert(precedes(s[i as int], s[j]));
                lemma_precedes_trans(e, s[i as int], s[j]);
            }
            assert forall|j: int| 0 <= j < s.len() implies precedes(#[trigger] s[j], e) || precedes(
                e,
                s[j],
            ) by {
                if j > i {
                    assert(precedes(e, s[j]));
                }
            }
            lemma_insert_at(s, e, i as int);
        }
        let Upgrader { mut edits } = self;
        edits.insert(i, Edit { start, end, text });
        proof {
            assert(edits_view(edits@) =~= s.take(i as int) + seq![e] + s.skip(i as int));
        }
        (Upgrader { edits }, true)
    }

    /// Turns the edits gathered for one file into its patch.
    pub fn finish(self) -> (p: Patch)
        ensures
            p.view() == self.view(),
            sorted_edits(p.view()),
    {
        proof {
            use_type_invariant(&self);
        }
        Patch { edits: self.edits }
    }
}

/// Placing `e` after the edits that lie before it and before the one that
/// follows keeps the edits sorted and is what `insert_sorted` describes.
proof fn lemma_insert_at(s: Seq<EditView>, e: EditView, i: int)
    requires
        sorted_edits(s),
        e.start <= e.end,
        0 <= i <= s.len(),
        forall|j: int| 0 <= j < i ==> precedes(#[trigger] s[j], e),
        i < s.len() ==> precedes(e, s[i]),
    ensures
        insert_sorted(s, e) == s.take(i) + seq![e] + s.skip(i),
        sorted_edits(s.take(i) + seq![e] + s.skip(i)),
    decreases i,
{
    let r = s.take(i) + seq![e] + s.skip(i);
    if i == 0 {
        assert(r =~= seq![e] + s);
    } else {
        let t = s.drop_first();
        assert(sorted_edits(t)) by {
            assert forall|a: int, b: int| 0 <= a < b < t.len() implies precedes(t[a], t[b]) by {
                assert(precedes(s[a + 1], s[b + 1]));
            }
        }
        assert forall|j: int| 0 <= j < i - 1 implies precedes(#[trigger] t[j], e) by {
            assert(t[j] == s[j + 1]);
        }
        if i < s.len() {
            assert(t[i - 1] == s[i]);
        }
        assert(precedes(s[0], e));
        lemma_insert_at(t, e, i - 1);
        assert(r =~= seq![s[0]] + (t.take(i - 1) + seq![e] + t.skip(i - 1)));
    }
    assert forall|a: int, b: int| 0 <= a < b < r.len() implies precedes(r[a], r[b]) by {
        if a < i && b < i {
            assert(precedes(s[a], s[b]));
        } else if a < i && b == i {
        } else if a < i {
            assert(precedes(s[a], s[b - 1]));
        } else if a == i {
            if b - 1 > i {
                assert(precedes(s[i], s[b - 1]));
                lemma_precedes_trans(e, s[i], s[b - 1]);
            }
        } else {
            assert(precedes(s[a - 1], s[b - 1]));
        }
    }
}

impl Patch {
    pub closed spec fn view(&self) -> Seq<EditView> {
        edits_view(self.edits@)
    }

    #[verifier::type_invariant]
    spec fn well_formed(&self) -> bool {
        sorted_edits(edits_view(self.edits@))
    }

    /// The edits of the patch, in order of position.
    pub fn edits(&self) -> (r: &Vec<Edit>)
        ensures
            edits_view(r@) == self.view(),
            sorted_edits(self.view()),
    {
        proof {
            use_type_invariant(self);
        }
        &self.edits
    }

    /// Rewrites `text`, the file as it was when the edits were registered.
    /// Gives `None` where an edit reaches past its end.
    pub fn apply(&self, text: &Vec<char>) -> (r: Option<Vec<char>>)
        ensures
            r is Some <==> fits(self.view(), text@.len()),
            r matches Some(out) ==> out@ == applied(text@, self.view()),
    {
        proof {
            use_type_invariant(self);
        }
        let ghost s = self.view();
        let ghost t = text@;
        let n = self.edits.len();
        if n > 0 && self.edits[n - 1].end > text.len() {
            return None;
        }
        let mut out: Vec<char> = Vec::new();
        let mut pos: usize = 0;
        let mut i: usize = 0;
        while i < n
            invariant
                0 <= i <= n,
                n == s.len(),
                s == self.view(),
                t == text@,
                sorted_edits(s),
                fits(s, t.len()),
                pos <= t.len(),
                i == 0 ==> pos == 0,
                i > 0 ==> pos == s[i - 1].end,
                i < n ==> pos <= s[i as int].start,
                out@ == applied(t.subrange(0, pos as int), s.take(i as int)),
            decreases n - i,
        {
            let ghost before = out@;
            let start = self.edits[i].start;
            let end = self.edits[i].end;
            proof {
                if i + 1 < n {
                    assert(precedes(s[i as int], s[n - 1]));
                }
            }
            let mut k: usize = pos;
            while k < start
                invariant
                    pos <= k <= start,
                    start <= t.len(),
                    t == text@,
                    out@ == before + t.subrange(pos as int, k as int),
                decreases start - k,
            {
                out.push(text[k]);
                k = k + 1;
                proof {
                    assert(out@ =~= before + t.subrange(pos as int, k as int));
                }
            }
            let repl = &self.edits[i].text;
            let ghost mid = out@;
            let mut m: usize = 0;
            while m < repl.len()
                invariant
                    0 <= m <= repl.len(),
                    out@ == mid + repl@.subrange(0, m as int),
                decreases repl.len() - m,
            {
                out.push(repl[m]);
                m = m + 1;
                proof {
                    assert(out@ =~= mid + repl@.subrange(0, m as int));
                }
            }
            proof {
                let e = s[i as int];
                assert(repl@ == e.text);
                assert(repl@.subrange(0, m as int) =~= repl@);
                lemma_sorted_prefix(s, i as int);
                lemma_sorted_prefix(s, i + 1);
                let ts = t.subrange(0, start as int);
                lemma_applied_split(ts, s.take(i as int), pos as nat);
                assert(ts.subrange(0, pos as int) =~= t.subrange(0, pos as int));
                assert(ts.subrange(pos as int, ts.len() as int) =~= t.subrange(pos as int, start as int));
                let te = t.subrange(0, end as int);
                assert(te.subrange(0, start as int) =~= ts);
                assert(te.subrange(end as int, te.len() as int) =~= Seq::<char>::empty());
                assert(out@ =~= applied(te, s.take(i + 1)));
                if i + 1 < n {
                    assert(precedes(s[i as int], s[i + 1]));
                }
            }
            pos = end;
            i = i + 1;
        }
        let ghost before = out@;
        let mut k: usize = pos;
        while k < text.len()
            invariant
                pos <= k <= t.len(),
                t == text@,
                out@ == before + t.subrange(pos as int, k as int),
            decreases t.len() - k,
        {
            out.push(text[k]);
            k = k + 1;
            proof {
                assert(out@ =~= before + t.subrange(pos as int, k as int));
            }
        }
        proof {
            assert(s.take(n as int) =~= s);
            lemma_applied_split(t, s, pos as nat);
            assert(t.subrange(0, t.len() as int) =~= t);
        }
        Some(out)
    }
}

} // verus!
