//! Directional comparison of two dependency mappings.
use vstd::prelude::*;
use crate::mapping::{lemma_map_of_absent, map_of, names_unique, DependencyMap};

verus! {

/// One difference found when a mapping is compared against another.
#[derive(Clone, Debug)]
pub enum Drift {
    /// The name is absent from the other mapping.
    Missing { name: String },
    /// The name maps to `own` here and to `other` in the other mapping.
    Mismatch { name: String, own: String, other: String },
}

/// A difference as plain values.
pub enum DriftView {
    Missing(Seq<char>),
    Mismatch(Seq<char>, Seq<char>, Seq<char>),
}

impl Drift {
    pub open spec fn view(&self) -> DriftView {
        match self {
            Drift::Missing { name } => DriftView::Missing(name@),
            Drift::Mismatch { name, own, other } => DriftView::Mismatch(name@, own@, other@),
        }
    }
}

/// What an entry `(name, constraint)` yields when compared against `b`.
pub open spec fn drift_of(e: (Seq<char>, Seq<char>), b: Map<Seq<char>, Seq<char>>) -> Seq<
    DriftView,
> {
    if !b.contains_key(e.0) {
        seq![DriftView::Missing(e.0)]
    } else if b[e.0] != e.1 {
        seq![DriftView::Mismatch(e.0, e.1, b[e.0])]
    } else {
        seq![]
    }
}

/// The differences of the entries `a` against `b`, entry by entry.
pub open spec fn drifts(a: Seq<(Seq<char>, Seq<char>)>, b: Map<Seq<char>, Seq<char>>) -> Seq<
    DriftView,
>
    decreases a.len(),
{
    if a.len() == 0 {
        seq![]
    } else {
        drifts(a.drop_last(), b) + drift_of(a.last(), b)
    }
}

/// The views of a list of differences.
pub open spec fn views(r: Seq<Drift>) -> Seq<DriftView> {
    r.map_values(|d: Drift| d@)
}

/// The package name that a difference is about.
pub open spec fn drift_name(d: DriftView) -> Seq<char> {
    match d {
        DriftView::Missing(n) => n,
        DriftView::Mismatch(n, _, _) => n,
    }
}

/// The differences of `d` that are about `name`, in order.
pub open spec fn about(d: Seq<DriftView>, name: Seq<char>) -> Seq<DriftView>
    decreases d.len(),
{
    if d.len() == 0 {
        seq![]
    } else {
        about(d.drop_last(), name) + if drift_name(d.last()) == name {
            seq![d.last()]
        } else {
            seq![]
        }
    }
}

proof fn lemma_about_add(x: Seq<DriftView>, y: Seq<DriftView>, name: Seq<char>)
    ensures
        about(x + y, name) == about(x, name) + about(y, name),
    decreases y.len(),
{
    if y.len() == 0 {
        assert(x + y =~= x);
        assert(about(x, name) + about(y, name) =~= about(x, name));
    } else {
        assert((x + y).drop_last() =~= x + y.drop_last());
        lemma_about_add(x, y.drop_last(), name);
        assert((x + y).last() == y.last());
        assert(about(x + y, name) =~= about(x, name) + about(y, name));
    }
}

/// What the comparison of the mapping `a` against `b` reports about `name`:
/// nothing where `a` lacks it, else what its entry yields.
pub open spec fn expected_about(
    a: Map<Seq<char>, Seq<char>>,
    b: Map<Seq<char>, Seq<char>>,
    name: Seq<char>,
) -> Seq<DriftView> {
    if a.contains_key(name) {
        drift_of((name, a[name]), b)
    } else {
        seq![]
    }
}

proof fn lemma_about_drifts(s: Seq<(Seq<char>, Seq<char>)>, b: Map<Seq<char>, Seq<char>>, name: Seq<char>)
    requires
        names_unique(s),
    ensures
        about(drifts(s, b), name) == expected_about(map_of(s), b, name),
    decreases s.len(),
{
    if s.len() == 0 {
    } else {
        let p = s.drop_last();
        let e = s.last();
        assert(names_unique(p));
        lemma_about_drifts(p, b, name);
        let tail = drift_of(e, b);
        lemma_about_add(drifts(p, b), tail, name);
        assert(tail.len() <= 1);
        if tail.len() == 1 {
            assert(tail.drop_last() =~= Seq::<DriftView>::empty());
            assert(about(tail.drop_last(), name) == Seq::<DriftView>::empty());
            assert(drift_name(tail.last()) == e.0);
        } else {
            assert(about(tail, name) == Seq::<DriftView>::empty());
        }
        if e.0 == name {
            lemma_map_of_absent(p, name);
            assert(about(tail, name) =~= tail);
            assert(about(drifts(p, b), name) =~= Seq::<DriftView>::empty());
        } else {
            assert(about(tail, name) =~= Seq::<DriftView>::empty());
        }
        assert(about(drifts(s, b), name) =~= expected_about(map_of(s), b, name));
    }
}

/// Comparing `a` against `b` reports each name of `a` exactly as its entry
/// requires and nothing else: once as missing where `b` lacks it, once as a
/// mismatch with both constraints where `b` maps it elsewhere, not at all where
/// the constraints are equal or `a` lacks the name.
pub proof fn lemma_compare_by_name(a: &DependencyMap, b: &DependencyMap, name: Seq<char>)
    requires
        a.wf(),
    ensures
        about(drifts(a.pairs(), b@), name) == expected_about(a@, b@, name),
{
    lemma_about_drifts(a.pairs(), b@, name);
}

/// Compares `a` against `b`: for each name of `a`, reports it missing when `b`
/// lacks it and a mismatch when `b` maps it to another constraint.
pub fn compare(a: &DependencyMap, b: &DependencyMap) -> (r: Vec<Drift>)
    requires
        a.wf(),
        b.wf(),
    ensures
        views(r@) == drifts(a.pairs(), b@),
{
    let mut out: Vec<Drift> = Vec::new();
    let n = a.len();
    let mut i: usize = 0;
    while i < n
        invariant
            a.wf(),
            b.wf(),
            n == a.pairs().len(),
            i <= n,
            views(out@) == drifts(a.pairs().take(i as int), b@),
        decreases n - i,
    {
        let (name, own) = a.entry(i);
        let ghost before = out@;
        match b.get(name) {
            None => {
                out.push(Drift::Missing { name: name.clone() });
            },
            Some(other) => {
                if *other != *own {
                    out.push(
                        Drift::Mismatch { name: name.clone(), own: own.clone(), other: other.clone() },
                    );
                }
            },
        }
        proof {
            let t = a.pairs().take(i + 1);
            assert(t.drop_last() =~= a.pairs().take(i as int));
            assert(t.last() == a.pairs()[i as int]);
            assert(views(out@) =~= views(before) + drift_of(a.pairs()[i as int], b@));
        }
        i = i + 1;
    }
    assert(a.pairs().take(n as int) =~= a.pairs());
    out
}

/// Declared dependencies compared against installed ones.
pub fn compare_pip_with_file(file: &DependencyMap, pip: &DependencyMap) -> (r: Vec<Drift>)
    requires
        file.wf(),
        pip.wf(),
    ensures
        views(r@) == drifts(file.pairs(), pip@),
{
    compare(file, pip)
}

/// Installed dependencies compared against declared ones.
pub fn compare_file_with_pip(file: &DependencyMap, pip: &DependencyMap) -> (r: Vec<Drift>)
    requires
        file.wf(),
        pip.wf(),
    ensures
        views(r@) == drifts(pip.pairs(), file@),
{
    compare(pip, file)
}

} // verus!
