//! The names that the query projection holds, and how a colliding name is disambiguated.
use vstd::prelude::*;
use crate::text::{decimal, push_decimal};

verus! {

/// One row of the projection: a resource name within a namespace. Its row id is its
/// position plus one.
#[derive(Debug, Clone)]
pub struct NameRow {
    pub namespace: String,
    pub name: String,
}

/// The rows of one kind of resource, in the order they were added.
#[derive(Debug)]
pub struct NameIndex {
    pub rows: Vec<NameRow>,
}

impl View for NameIndex {
    type V = Seq<(Seq<char>, Seq<char>)>;

    open spec fn view(&self) -> Seq<(Seq<char>, Seq<char>)> {
        self.rows@.map_values(|r: NameRow| (r.namespace@, r.name@))
    }
}

/// Whether `rows` holds `name` in the namespace `ns`.
pub open spec fn name_taken(rows: Seq<(Seq<char>, Seq<char>)>, ns: Seq<char>, name: Seq<char>) -> bool {
    rows.contains((ns, name))
}

/// The name a new resource takes: the requested one, or on a collision the requested one
/// followed by `-` and the largest row id.
pub open spec fn disambiguated(rows: Seq<(Seq<char>, Seq<char>)>, ns: Seq<char>, name: Seq<char>) -> Seq<char> {
    if name_taken(rows, ns, name) {
        name + "-"@ + decimal(rows.len())
    } else {
        name
    }
}

impl NameIndex {
    pub fn new() -> (r: NameIndex)
        ensures
            r@ == Seq::<(Seq<char>, Seq<char>)>::empty(),
    {
        let r = NameIndex { rows: Vec::new() };
        assert(r@ =~= Seq::<(Seq<char>, Seq<char>)>::empty());
        r
    }

    pub fn len(&self) -> (r: usize)
        ensures
            r == self@.len(),
    {
        self.rows.len()
    }

    /// Whether the index holds `name` in the namespace `ns`.
    pub fn contains(&self, ns: &String, name: &String) -> (r: bool)
        ensures
            r == name_taken(self@, ns@, name@),
    {
        let mut i: usize = 0;
        while i < self.rows.len()
            invariant
                i <= self.rows@.len(),
                forall|j: int| 0 <= j < i ==> self@[j] != (ns@, name@),
            decreases self.rows@.len() - i,
        {
            if self.rows[i].namespace == *ns && self.rows[i].name == *name {
                assert(self@[i as int] == (ns@, name@));
                return true;
            }
            i = i + 1;
        }
        false
    }

    /// The name that a resource named `name` in `ns` takes when it is added now.
    pub fn disambiguate(&self, ns: &String, name: &String) -> (r: String)
        requires
            self@.len() <= u64::MAX,
        ensures
            r@ == disambiguated(self@, ns@, name@),
    {
        if self.contains(ns, name) {
            let mut r = name.clone();
            r.append("-");
            push_decimal(&mut r, self.rows.len() as u64);
            r
        } else {
            name.clone()
        }
    }

    /// Adds a resource named `name` in `ns` and returns the name it was given.
    pub fn add(&mut self, ns: &String, name: &String) -> (r: String)
        requires
            old(self)@.len() < u64::MAX,
        ensures
            r@ == disambiguated(old(self)@, ns@, name@),
            final(self)@ == old(self)@.push((ns@, r@)),
    {
        let r = self.disambiguate(ns, name);
        let row = NameRow { namespace: ns.clone(), name: r.clone() };
        self.rows.push(row);
        assert(self@ =~= old(self)@.push((ns@, r@)));
        r
    }
}

} // verus!
