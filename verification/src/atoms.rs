//! Interned atom literals. Each distinct atom text gets a small integer
//! handle, assigned in first-seen order and stable for the lifetime of the
//! owning document.

use vstd::prelude::*;

verus! {

/// Handle of an atom in a document's atom table.
#[derive(Clone, Copy, Debug, Hash, PartialEq, Eq, Structural)]
pub struct AtomId(pub usize);

impl AtomId {
    pub fn new(id: usize) -> (r: Self)
        ensures
            r.0 == id,
    {
        AtomId(id)
    }

    pub fn as_usize(&self) -> (r: usize)
        ensures
            r == self.0,
    {
        self.0
    }
}

/// All atom texts are pairwise distinct.
pub open spec fn distinct_names(names: Seq<Seq<char>>) -> bool {
    forall|i: int, j: int| 0 <= i < j < names.len() ==> names[i] != names[j]
}

/// The index of the first occurrence of `t` among `names`, if any.
pub open spec fn spec_find(names: Seq<Seq<char>>, t: Seq<char>) -> Option<int>
    decreases names.len(),
{
    if names.len() == 0 {
        None
    } else if names[0] == t {
        Some(0int)
    } else {
        match spec_find(names.drop_first(), t) {
            None => None,
            Some(i) => Some(i + 1),
        }
    }
}

/// The table after interning `t`: unchanged if present, else extended.
pub open spec fn spec_intern(names: Seq<Seq<char>>, t: Seq<char>) -> Seq<Seq<char>> {
    match spec_find(names, t) {
        Some(_) => names,
        None => names.push(t),
    }
}

/// The handle that interning `t` yields.
pub open spec fn spec_intern_id(names: Seq<Seq<char>>, t: Seq<char>) -> int {
    match spec_find(names, t) {
        Some(i) => i,
        None => names.len() as int,
    }
}

pub proof fn lemma_find_some(names: Seq<Seq<char>>, t: Seq<char>)
    requires
        spec_find(names, t) is Some,
    ensures
        0 <= spec_find(names, t)->Some_0 < names.len(),
        names[spec_find(names, t)->Some_0] == t,
    decreases names.len(),
{
    if names.len() > 0 && names[0] != t {
        lemma_find_some(names.drop_first(), t);
    }
}

pub proof fn lemma_find_none(names: Seq<Seq<char>>, t: Seq<char>)
    requires
        spec_find(names, t) is None,
    ensures
        forall|i: int| 0 <= i < names.len() ==> names[i] != t,
    decreases names.len(),
{
    if names.len() > 0 {
        lemma_find_none(names.drop_first(), t);
        assert forall|i: int| 0 <= i < names.len() implies names[i] != t by {
            if i > 0 {
                assert(names.drop_first()[i - 1] == names[i]);
            }
        }
    }
}

pub proof fn lemma_find_absent(names: Seq<Seq<char>>, t: Seq<char>)
    requires
        forall|i: int| 0 <= i < names.len() ==> names[i] != t,
    ensures
        spec_find(names, t) is None,
    decreases names.len(),
{
    if names.len() > 0 {
        assert(names[0] != t);
        assert forall|i: int| 0 <= i < names.drop_first().len() implies names.drop_first()[i]
            != t by {
            assert(names.drop_first()[i] == names[i + 1]);
        }
        lemma_find_absent(names.drop_first(), t);
    }
}

pub proof fn lemma_find_push(names: Seq<Seq<char>>, t: Seq<char>, u: Seq<char>)
    ensures
        spec_find(names.push(t), u) == (if u == t && spec_find(names, u) is None {
            Some(names.len() as int)
        } else {
            spec_find(names, u)
        }),
    decreases names.len(),
{
    if names.len() == 0 {
        assert(names.push(t)[0] == t);
        assert(names.push(t).drop_first() =~= Seq::<Seq<char>>::empty());
    } else {
        assert(names.push(t)[0] == names[0]);
        assert(names.push(t).drop_first() =~= names.drop_first().push(t));
        lemma_find_push(names.drop_first(), t, u);
    }
}

/// Interning the same text twice within one table yields the same handle;
/// interning a distinct text yields a distinct handle.
pub proof fn lemma_intern_handles(names: Seq<Seq<char>>, t1: Seq<char>, t2: Seq<char>)
    requires
        distinct_names(names),
    ensures
        t1 == t2 ==> spec_intern_id(spec_intern(names, t1), t2) == spec_intern_id(names, t1),
        t1 != t2 ==> spec_intern_id(spec_intern(names, t1), t2) != spec_intern_id(names, t1),
{
    let i1 = spec_intern_id(names, t1);
    let names1 = spec_intern(names, t1);
    if t1 == t2 {
        match spec_find(names, t1) {
            Some(_) => {},
            None => {
                lemma_find_push(names, t1, t2);
            },
        }
    } else {
        match spec_find(names, t1) {
            Some(_) => {
                lemma_find_some(names, t1);
                match spec_find(names, t2) {
                    Some(j) => {
                        lemma_find_some(names, t2);
                        assert(names[i1] == t1 && names[j] == t2);
                    },
                    None => {},
                }
            },
            None => {
                lemma_find_push(names, t1, t2);
                match spec_find(names, t2) {
                    Some(j) => {
                        lemma_find_some(names, t2);
                    },
                    None => {},
                }
            },
        }
    }
}

/// Interning keeps the table an extension of itself, yields an in-range
/// handle, and puts the text at that handle.
pub proof fn lemma_intern_bounds(names: Seq<Seq<char>>, t: Seq<char>)
    ensures
        spec_intern(names, t).len() >= names.len(),
        0 <= spec_intern_id(names, t) < spec_intern(names, t).len(),
        forall|i: int| 0 <= i < names.len() ==> spec_intern(names, t)[i] == names[i],
        spec_intern(names, t)[spec_intern_id(names, t)] == t,
{
    match spec_find(names, t) {
        Some(_) => {
            lemma_find_some(names, t);
        },
        None => {},
    }
}

/// After interning, the text is found at the handle interning returned.
pub proof fn lemma_find_intern(names: Seq<Seq<char>>, t: Seq<char>)
    ensures
        spec_find(spec_intern(names, t), t) == Some(spec_intern_id(names, t)),
{
    match spec_find(names, t) {
        Some(_) => {},
        None => {
            lemma_find_push(names, t, t);
        },
    }
}

/// The table of interned atoms of one document.
pub struct AtomTable {
    names: Vec<String>,
}

impl View for AtomTable {
    type V = Seq<Seq<char>>;

    closed spec fn view(&self) -> Seq<Seq<char>> {
        Seq::new(self.names@.len(), |i: int| self.names@[i]@)
    }
}

impl AtomTable {
    /// All interned texts are pairwise distinct.
    pub open spec fn wf(&self) -> bool {
        distinct_names(self@)
    }

    pub fn new() -> (r: Self)
        ensures
            r@ =~= Seq::<Seq<char>>::empty(),
            r.wf(),
    {
        AtomTable { names: Vec::new() }
    }

    /// The number of interned atoms.
    pub fn len(&self) -> (n: usize)
        ensures
            n == self@.len(),
    {
        self.names.len()
    }

    /// The handle of `t`, if `t` has been interned.
    pub fn find(&self, t: &str) -> (r: Option<AtomId>)
        ensures
            match r {
                Some(id) => spec_find(self@, t@) == Some(id.0 as int),
                None => spec_find(self@, t@) is None,
            },
    {
        let key = String::from_str(t);
        let n = self.names.len();
        let mut i: usize = 0;
        proof {
            assert(self@.skip(0int) =~= self@);
        }
        while i < n
            invariant
                n == self@.len(),
                0 <= i <= n,
                key@ == t@,
                match spec_find(self@, t@) {
                    None => spec_find(self@.skip(i as int), t@) is None,
                    Some(j) => spec_find(self@.skip(i as int), t@) == Some(j - i),
                },
            decreases n - i,
        {
            proof {
                assert(self@.skip(i as int)[0] == self@[i as int]);
            }
            if self.names[i] == key {
                proof {
                    assert(spec_find(self@.skip(i as int), t@) == Some(0int));
                }
                return Some(AtomId(i));
            }
            proof {
                assert(self@[i as int] != t@);
                let s_i = self@.skip(i as int);
                assert(s_i.len() > 0);
                assert(s_i.drop_first() =~= self@.skip(i as int + 1));
                assert(spec_find(s_i, t@) == (match spec_find(s_i.drop_first(), t@) {
                    None => None::<int>,
                    Some(k) => Some(k + 1),
                }));
            }
            i = i + 1;
        }
        proof {
            assert(self@.skip(n as int) =~= Seq::<Seq<char>>::empty());
        }
        None
    }

    /// Intern `t`: return its existing handle, or assign the next one.
    pub fn intern(&mut self, t: String) -> (r: AtomId)
        requires
            old(self).wf(),
        ensures
            final(self).wf(),
            final(self)@ == spec_intern(old(self)@, t@),
            r.0 == spec_intern_id(old(self)@, t@),
    {
        let found = self.find(t.as_str());
        match found {
            Some(id) => id,
            None => {
                let id = AtomId(self.names.len());
                proof {
                    lemma_find_none(self@, t@);
                }
                let ghost oldview = self@;
                self.names.push(t);
                proof {
                    assert(self@ =~= oldview.push(t@));
                }
                id
            },
        }
    }
}

} // verus!
