//! The symbol registry: accumulates semantic classes across many inputs,
//! keyed and ordered by fully-qualified name, with an explicit,
//! configurable policy for duplicate definitions, and answers static
//! assignability queries over the recorded supertype edges.

use vstd::prelude::*;

use crate::classfile::{view_class, SemanticClass, SpecClass};
use crate::error::GenError;
use crate::text::{lemma_lex_connex, lemma_lex_trans, lex_lt, str_lt};

verus! {

/// What to do when two inputs define the same fully-qualified name.
#[derive(Clone, Copy, PartialEq, Eq, Structural, Debug)]
pub enum DuplicatePolicy {
    /// The run fails with a conflicting-definition error.
    HardError,
    /// The later definition replaces the earlier one.
    LastWins,
}

/// Index of the entry named `key`, if any.
pub open spec fn spec_find(v: Seq<SpecClass>, key: Seq<char>) -> Option<int> {
    if exists|i: int| 0 <= i < v.len() && v[i].name == key {
        Option::Some(choose|i: int| 0 <= i < v.len() && v[i].name == key)
    } else {
        Option::None
    }
}

/// The ordered insertion point of `key`: how many recorded names order
/// strictly before it.
pub open spec fn spec_insert_pos(v: Seq<SpecClass>, key: Seq<char>) -> int
    decreases v.len(),
{
    if v.len() == 0 {
        0
    } else if lex_lt(v[0].name, key) {
        1 + spec_insert_pos(v.skip(1), key)
    } else {
        0
    }
}

pub proof fn lemma_insert_pos_at(v: Seq<SpecClass>, key: Seq<char>, p: int)
    requires
        0 <= p <= v.len(),
        forall|q: int| 0 <= q < p ==> lex_lt(#[trigger] v[q].name, key),
        p < v.len() ==> !lex_lt(v[p].name, key),
    ensures
        spec_insert_pos(v, key) == p,
    decreases p,
{
    if v.len() == 0 {
    } else if p == 0 {
    } else {
        assert(lex_lt(v[0].name, key));
        lemma_insert_pos_at(v.skip(1), key, p - 1);
    }
}

/// What recording one class does to the registry: a new name is placed
/// at its ordered position; a duplicate replaces under the last-wins
/// policy and refuses (`None`) under the hard-error policy.
pub open spec fn spec_add_class(
    v: Seq<SpecClass>,
    policy: DuplicatePolicy,
    c: SpecClass,
) -> Option<Seq<SpecClass>> {
    match spec_find(v, c.name) {
        Option::Some(i) => if policy is LastWins {
            Option::Some(v.update(i, c))
        } else {
            Option::None
        },
        Option::None => {
            let p = spec_insert_pos(v, c.name);
            Option::Some(v.subrange(0, p).push(c) + v.subrange(p, v.len() as int))
        },
    }
}

/// Names strictly ascending: the registry is ordered and duplicate-free.
pub open spec fn sorted_classes(v: Seq<SpecClass>) -> bool {
    forall|i: int| 0 <= i < v.len() - 1 ==> lex_lt(#[trigger] v[i].name, v[i + 1].name)
}

pub proof fn lemma_sorted_pair(v: Seq<SpecClass>, i: int, j: int)
    requires
        sorted_classes(v),
        0 <= i < j < v.len(),
    ensures
        lex_lt(v[i].name, v[j].name),
    decreases j - i,
{
    if j == i + 1 {
    } else {
        lemma_sorted_pair(v, i, j - 1);
        lemma_lex_trans(v[i].name, v[j - 1].name, v[j].name);
    }
}

/// In a sorted registry, a name occurs at most once.
pub proof fn lemma_sorted_unique(v: Seq<SpecClass>, i: int, j: int)
    requires
        sorted_classes(v),
        0 <= i < v.len(),
        0 <= j < v.len(),
        v[i].name == v[j].name,
    ensures
        i == j,
{
    if i < j {
        lemma_sorted_pair(v, i, j);
        lemma_lex_irrefl(v[i].name);
    }
    if j < i {
        lemma_sorted_pair(v, j, i);
        lemma_lex_irrefl(v[i].name);
    }
}

pub proof fn lemma_lex_irrefl(a: Seq<char>)
    ensures
        !lex_lt(a, a),
    decreases a.len(),
{
    if a.len() > 0 {
        lemma_lex_irrefl(a.skip(1));
    }
}

/// A direct is-a step from the class named `sub` (to its superclass or
/// one of its interfaces), followed by further steps within `fuel`.
pub open spec fn reg_reaches(v: Seq<SpecClass>, sub: Seq<char>, sup: Seq<char>, fuel: nat) -> bool
    decreases fuel,
{
    sub == sup || (fuel > 0 && exists|i: int|
        0 <= i < v.len() && (#[trigger] v[i]).name == sub && {
            ||| (v[i].super_name matches Option::Some(s) && reg_reaches(
                v,
                s,
                sup,
                (fuel - 1) as nat,
            ))
            ||| exists|j: int|
                0 <= j < v[i].interfaces.len() && reg_reaches(
                    v,
                    #[trigger] v[i].interfaces[j],
                    sup,
                    (fuel - 1) as nat,
                )
        })
}

/// The static assignability relation of the recorded registry: there is a
/// chain of recorded supertype edges from `sub` to `sup`.  Classes whose
/// supertypes are absent from the registry simply contribute no further
/// edges (they are opaque, not errors).
pub open spec fn spec_assignable(v: Seq<SpecClass>, sub: Seq<char>, sup: Seq<char>) -> bool {
    reg_reaches(v, sub, sup, v.len())
}

/// The symbol registry.
pub struct Registry {
    classes: Vec<SemanticClass>,
    policy: DuplicatePolicy,
}

impl Registry {
    /// The recorded classes, in ascending name order.
    pub closed spec fn view_classes(&self) -> Seq<SpecClass> {
        self.classes@.map_values(|c: SemanticClass| view_class(c))
    }

    pub closed spec fn spec_policy(&self) -> DuplicatePolicy {
        self.policy
    }

    pub open spec fn wf(&self) -> bool {
        sorted_classes(self.view_classes())
    }

    pub fn new(policy: DuplicatePolicy) -> (r: Registry)
        ensures
            r.wf(),
            r.view_classes() == Seq::<SpecClass>::empty(),
            r.spec_policy() == policy,
    {
        let r = Registry { classes: Vec::new(), policy };
        proof {
            assert(r.view_classes() =~= Seq::<SpecClass>::empty());
        }
        r
    }

    pub fn len(&self) -> (n: usize)
        ensures
            n == self.view_classes().len(),
    {
        self.classes.len()
    }

    /// The `i`-th recorded class, in name order.
    pub fn get(&self, i: usize) -> (c: &SemanticClass)
        requires
            i < self.view_classes().len(),
        ensures
            view_class(*c) == self.view_classes()[i as int],
    {
        &self.classes[i]
    }

    /// Records one parsed class.  A duplicate fully-qualified name either
    /// fails the run or replaces the earlier entry, by policy; a new name
    /// is inserted at its ordered position.
    pub fn add_class(&mut self, c: SemanticClass) -> (r: Result<(), GenError>)
        requires
            old(self).wf(),
        ensures
            final(self).wf(),
            final(self).spec_policy() == old(self).spec_policy(),
            ({
                let v = old(self).view_classes();
                let key = view_class(c).name;
                match spec_find(v, key) {
                    Option::Some(i) => {
                        if old(self).spec_policy() is HardError {
                            &&& r is Err
                            &&& r->Err_0 is ConflictingDefinition
                            &&& final(self).view_classes() == v
                        } else {
                            &&& r is Ok
                            &&& final(self).view_classes() == v.update(i, view_class(c))
                        }
                    },
                    Option::None => {
                        let p = spec_insert_pos(v, key);
                        &&& r is Ok
                        &&& 0 <= p <= v.len()
                        &&& final(self).view_classes() == v.subrange(0, p).push(view_class(c))
                            + v.subrange(p, v.len() as int)
                    },
                }
            }),
    {
        let ghost v = self.view_classes();
        let ghost key = view_class(c).name;
        let n = self.classes.len();
        let mut p: usize = 0;
        while p < n && str_lt(self.classes[p].name.as_str(), c.name.as_str())
            invariant
                p <= n,
                n == v.len(),
                v == self.view_classes(),
                self.wf(),
                key == view_class(c).name,
                forall|q: int| 0 <= q < p ==> lex_lt(#[trigger] v[q].name, key),
            decreases n - p,
        {
            p = p + 1;
        }
        if p < n && !str_lt(c.name.as_str(), self.classes[p].name.as_str()) {
            // equal name at p
            proof {
                lemma_lex_connex(key, v[p as int].name);
                assert(v[p as int].name == key);
                assert(spec_find(v, key) is Some);
                let i = spec_find(v, key)->Some_0;
                lemma_sorted_unique(v, i, p as int);
            }
            match self.policy {
                DuplicatePolicy::HardError => {
                    let msg = String::from_str("duplicate class ").concat(c.name.as_str());
                    return Err(GenError::ConflictingDefinition(msg));
                },
                DuplicatePolicy::LastWins => {
                    self.classes.set(p, c);
                    proof {
                        assert(self.view_classes() =~= v.update(p as int, view_class(c)));
                        assert forall|i: int|
                            0 <= i < self.view_classes().len() - 1 implies lex_lt(
                            #[trigger] self.view_classes()[i].name,
                            self.view_classes()[i + 1].name,
                        ) by {
                            assert(lex_lt(v[i].name, v[i + 1].name));
                        }
                    }
                    return Ok(());
                },
            }
        }
        // no entry named key: p is the insertion point
        proof {
            assert forall|i: int| 0 <= i < v.len() implies v[i].name != key by {
                if i < p {
                    lemma_lex_irrefl(key);
                    if v[i].name == key {
                        assert(lex_lt(key, key));
                    }
                } else {
                    // at and after p, key orders strictly before the entries
                    if p < n {
                        assert(lex_lt(key, v[p as int].name));
                        if i > p {
                            lemma_sorted_pair(v, p as int, i);
                            lemma_lex_trans(key, v[p as int].name, v[i].name);
                        }
                        lemma_lex_irrefl(key);
                        if v[i].name == key {
                            assert(lex_lt(key, key));
                        }
                    }
                }
            }
            assert(spec_find(v, key) is None);
            lemma_insert_pos_at(v, key, p as int);
        }
        self.classes.insert(p, c);
        proof {
            assert(self.view_classes() =~= v.subrange(0, p as int).push(view_class(c)) + v.subrange(
                p as int,
                v.len() as int,
            ));
            if p < n {
                assert(lex_lt(key, v[p as int].name));
            }
            assert forall|i: int|
                0 <= i < self.view_classes().len() - 1 implies lex_lt(
                #[trigger] self.view_classes()[i].name,
                self.view_classes()[i + 1].name,
            ) by {
                let w = self.view_classes();
                if i + 1 < p {
                    assert(w[i] == v[i] && w[i + 1] == v[i + 1]);
                } else if i + 1 == p {
                    assert(w[i] == v[i] && w[i + 1].name == key);
                } else if i == p {
                    assert(w[i].name == key && w[i + 1] == v[i]);
                } else {
                    assert(w[i] == v[i - 1] && w[i + 1] == v[i]);
                }
            }
        }
        Ok(())
    }

    /// Index of the class named `name`, by linear scan.
    fn find_index(&self, name: &str) -> (r: Option<usize>)
        requires
            self.wf(),
        ensures
            match r {
                Option::Some(i) => i < self.view_classes().len() && self.view_classes()[
                    i as int
                ].name == name@,
                Option::None => forall|i: int|
                    0 <= i < self.view_classes().len() ==> (#[trigger] self.view_classes()[i]).name
                        != name@,
            },
    {
        let ghost v = self.view_classes();
        let n = self.classes.len();
        let mut i: usize = 0;
        while i < n
            invariant
                i <= n,
                n == v.len(),
                v == self.view_classes(),
                forall|q: int| 0 <= q < i ==> (#[trigger] v[q]).name != name@,
            decreases n - i,
        {
            let a = self.classes[i].name.as_str();
            if !str_lt(a, name) && !str_lt(name, a) {
                proof {
                    lemma_lex_connex(self.classes@[i as int].name@, name@);
                }
                return Some(i);
            }
            proof {
                if v[i as int].name == name@ {
                    lemma_lex_irrefl(name@);
                }
            }
            i = i + 1;
        }
        None
    }

    /// Bounded reachability along recorded supertype edges.
    fn reaches(&self, sub: &str, sup: &str, fuel: usize) -> (r: bool)
        requires
            self.wf(),
        ensures
            r == reg_reaches(self.view_classes(), sub@, sup@, fuel as nat),
        decreases fuel,
    {
        let ghost v = self.view_classes();
        if !str_lt(sub, sup) && !str_lt(sup, sub) {
            proof {
                lemma_lex_connex(sub@, sup@);
            }
            return true;
        }
        proof {
            if sub@ == sup@ {
                lemma_lex_irrefl(sub@);
            }
        }
        if fuel == 0 {
            return false;
        }
        let i = match self.find_index(sub) {
            Option::Some(i) => i,
            Option::None => {
                proof {
                    assert(!reg_reaches(v, sub@, sup@, fuel as nat));
                }
                return false;
            },
        };
        let ghost iv = i as int;
        match &self.classes[i].super_name {
            Option::Some(s) => {
                if self.reaches(s.as_str(), sup, fuel - 1) {
                    return true;
                }
            },
            Option::None => {},
        }
        let nifc = self.classes[i].interfaces.len();
        let mut j: usize = 0;
        while j < nifc
            invariant
                j <= nifc,
                i < self.classes@.len(),
                self.wf(),
                v == self.view_classes(),
                iv == i as int,
                nifc == v[iv].interfaces.len(),
                v[iv].name == sub@,
                fuel >= 1,
                forall|q: int|
                    0 <= q < j ==> !reg_reaches(
                        v,
                        #[trigger] v[iv].interfaces[q],
                        sup@,
                        (fuel - 1) as nat,
                    ),
            decreases nifc - j,
        {
            let mid = &self.classes[i].interfaces[j];
            if self.reaches(mid.as_str(), sup, fuel - 1) {
                proof {
                    assert(v[iv].interfaces[j as int] == mid@);
                    assert(exists|q: int|
                        0 <= q < v[iv].interfaces.len() && reg_reaches(
                            v,
                            #[trigger] v[iv].interfaces[q],
                            sup@,
                            (fuel - 1) as nat,
                        ));
                    assert(0 <= iv < v.len() && (#[trigger] v[iv]).name == sub@);
                    assert(reg_reaches(v, sub@, sup@, fuel as nat));
                }
                return true;
            }
            j = j + 1;
        }
        // no edge from the unique entry named `sub` reaches `sup`
        proof {
            let sv = match v[iv].super_name {
                Option::Some(s) => !reg_reaches(v, s, sup@, (fuel - 1) as nat),
                Option::None => true,
            };
            assert(sv);
            assert forall|i2: int|
                0 <= i2 < v.len() && (#[trigger] v[i2]).name == sub@ implies i2 == iv by {
                lemma_sorted_unique(v, i2, iv);
            }
            assert(!reg_reaches(v, sub@, sup@, fuel as nat));
        }
        false
    }

    /// Hands the recorded classes out, in ascending name order.
    pub fn into_classes(self) -> (v: Vec<SemanticClass>)
        ensures
            v@.map_values(|c: SemanticClass| view_class(c)) == self.view_classes(),
    {
        self.classes
    }

    /// The static assignability query over the recorded graph: may a value
    /// of class `sub` stand in for class `sup` by recorded edges alone?
    pub fn is_assignable(&self, sub: &str, sup: &str) -> (r: bool)
        requires
            self.wf(),
        ensures
            r == spec_assignable(self.view_classes(), sub@, sup@),
    {
        self.reaches(sub, sup, self.classes.len())
    }
}

} // verus!
