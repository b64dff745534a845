//! A dependency mapping: package names to constraints, keys unique, the last
//! insertion of a name winning.
use vstd::prelude::*;

verus! {

/// One entry of a mapping: a package name and its version constraint.
#[derive(Clone, Debug)]
pub struct Dependency {
    pub name: String,
    pub constraint: String,
}

impl Dependency {
    pub open spec fn view(&self) -> (Seq<char>, Seq<char>) {
        (self.name@, self.constraint@)
    }
}

/// The mapping that a sequence of (name, constraint) insertions builds: a later
/// insertion of a name overwrites an earlier one.
pub open spec fn map_of(s: Seq<(Seq<char>, Seq<char>)>) -> Map<Seq<char>, Seq<char>>
    decreases s.len(),
{
    if s.len() == 0 {
        Map::empty()
    } else {
        map_of(s.drop_last()).insert(s.last().0, s.last().1)
    }
}

/// Whether the names of `s` are pairwise distinct.
pub open spec fn names_unique(s: Seq<(Seq<char>, Seq<char>)>) -> bool {
    forall|i: int, j: int| 0 <= i < s.len() && 0 <= j < s.len() && i != j ==> s[i].0 != s[j].0
}

/// A mapping from package names to version constraints.
#[derive(Clone, Debug)]
pub struct DependencyMap {
    entries: Vec<Dependency>,
}

/// A name of `s` has the value of its entry in `map_of(s)`.
pub proof fn lemma_map_of_index(s: Seq<(Seq<char>, Seq<char>)>, i: int)
    requires
        names_unique(s),
        0 <= i < s.len(),
    ensures
        map_of(s).contains_key(s[i].0),
        map_of(s)[s[i].0] == s[i].1,
    decreases s.len(),
{
    if i < s.len() - 1 {
        lemma_map_of_index(s.drop_last(), i);
    }
}

/// A name that no entry of `s` has is not in `map_of(s)`.
pub proof fn lemma_map_of_absent(s: Seq<(Seq<char>, Seq<char>)>, k: Seq<char>)
    requires
        forall|i: int| 0 <= i < s.len() ==> s[i].0 != k,
    ensures
        !map_of(s).contains_key(k),
    decreases s.len(),
{
    if s.len() > 0 {
        lemma_map_of_absent(s.drop_last(), k);
    }
}

/// Replacing the value of a name in place is inserting it.
proof fn lemma_map_of_update(s: Seq<(Seq<char>, Seq<char>)>, j: int, v: Seq<char>)
    requires
        names_unique(s),
        0 <= j < s.len(),
    ensures
        map_of(s.update(j, (s[j].0, v))) == map_of(s).insert(s[j].0, v),
    decreases s.len(),
{
    let k = s[j].0;
    let u = s.update(j, (k, v));
    assert(u.drop_last() =~= if j == s.len() - 1 {
        s.drop_last()
    } else {
        s.drop_last().update(j, (k, v))
    });
    if j < s.len() - 1 {
        lemma_map_of_update(s.drop_last(), j, v);
        assert(s.last().0 != k);
    }
    assert(map_of(u) =~= map_of(s).insert(k, v));
}

impl DependencyMap {
    /// The entries, in the order in which their names were first inserted.
    pub closed spec fn pairs(&self) -> Seq<(Seq<char>, Seq<char>)> {
        self.entries@.map_values(|d: Dependency| d@)
    }

    /// The mapping as names to constraints.
    pub open spec fn view(&self) -> Map<Seq<char>, Seq<char>> {
        map_of(self.pairs())
    }

    /// The names are pairwise distinct.
    pub open spec fn wf(&self) -> bool {
        names_unique(self.pairs())
    }

    /// An empty mapping.
    pub fn new() -> (r: Self)
        ensures
            r.wf(),
            r@ == Map::<Seq<char>, Seq<char>>::empty(),
            r.pairs().len() == 0,
    {
        let r = DependencyMap { entries: Vec::new() };
        assert(r.pairs() =~= Seq::<(Seq<char>, Seq<char>)>::empty());
        r
    }

    /// The number of names.
    pub fn len(&self) -> (r: usize)
        requires
            self.wf(),
        ensures
            r == self.pairs().len(),
            r == self@.len(),
    {
        proof {
            self.lemma_len();
        }
        self.entries.len()
    }

    /// The `i`-th entry, as a (name, constraint) pair.
    pub fn entry(&self, i: usize) -> (r: (&String, &String))
        requires
            i < self.pairs().len(),
        ensures
            (r.0@, r.1@) == self.pairs()[i as int],
    {
        let d = &self.entries[i];
        (&d.name, &d.constraint)
    }

    /// Where `name` stands among the entries.
    fn position(&self, name: &String) -> (r: Option<usize>)
        requires
            self.wf(),
        ensures
            r matches Some(i) ==> i < self.pairs().len() && self.pairs()[i as int].0 == name@,
            r is None ==> forall|i: int| 0 <= i < self.pairs().len() ==> self.pairs()[i].0 != name@,
    {
        let mut i: usize = 0;
        while i < self.entries.len()
            invariant
                i <= self.entries.len(),
                self.pairs().len() == self.entries.len(),
                forall|t: int| 0 <= t < i ==> self.pairs()[t].0 != name@,
            decreases self.entries.len() - i,
        {
            if self.entries[i].name == *name {
                return Some(i);
            }
            i = i + 1;
        }
        None
    }

    /// The constraint that `name` maps to, if any.
    pub fn get(&self, name: &String) -> (r: Option<&String>)
        requires
            self.wf(),
        ensures
            r matches Some(c) ==> self@.contains_key(name@) && self@[name@] == c@,
            r is None ==> !self@.contains_key(name@),
    {
        match self.position(name) {
            Some(i) => {
                proof {
                    lemma_map_of_index(self.pairs(), i as int);
                }
                Some(&self.entries[i].constraint)
            },
            None => {
                proof {
                    lemma_map_of_absent(self.pairs(), name@);
                }
                None
            },
        }
    }

    /// Maps `name` to `constraint`, replacing what `name` mapped to before.
    pub fn insert(&mut self, name: String, constraint: String)
        requires
            old(self).wf(),
        ensures
            final(self).wf(),
            final(self)@ == old(self)@.insert(name@, constraint@),
    {
        let ghost before = self.pairs();
        match self.position(&name) {
            Some(i) => {
                let d = Dependency { name, constraint };
                self.entries.set(i, d);
                proof {
                    assert(self.pairs() =~= before.update(i as int, (before[i as int].0, d.constraint@)));
                    lemma_map_of_update(before, i as int, d.constraint@);
                }
            },
            None => {
                let d = Dependency { name, constraint };
                self.entries.push(d);
                proof {
                    assert(self.pairs() =~= before.push(d@));
                    assert(self.pairs().drop_last() =~= before);
                }
            },
        }
    }

    proof fn lemma_len(&self)
        requires
            self.wf(),
        ensures
            self@.len() == self.pairs().len(),
            self.pairs().len() == self.entries@.len(),
    {
        lemma_map_of_len(self.pairs());
    }
}

/// With distinct names, the mapping has one key per entry.
pub proof fn lemma_map_of_len(s: Seq<(Seq<char>, Seq<char>)>)
    requires
        names_unique(s),
    ensures
        map_of(s).len() == s.len(),
        map_of(s).dom().finite(),
    decreases s.len(),
{
    if s.len() > 0 {
        let p = s.drop_last();
        lemma_map_of_len(p);
        lemma_map_of_absent(p, s.last().0);
    }
}

} // verus!
