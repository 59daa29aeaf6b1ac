//! Header fields: a mapping from name to value that remembers the order in
//! which names were first set.

use crate::text::{first_index, lemma_first_index, lemma_first_index_is, str_eq};
use vstd::prelude::*;

verus! {

/// A header field as the contracts see it: name and value.
pub type Field = (Seq<char>, Seq<char>);

/// The names of `fields`, in order.
pub open spec fn names(fields: Seq<Field>) -> Seq<Seq<char>> {
    fields.map_values(|f: Field| f.0)
}

/// Position of the first field called `name`, or `fields.len()` where there
/// is none.
pub open spec fn name_index(fields: Seq<Field>, name: Seq<char>) -> nat {
    first_index(names(fields), name)
}

/// The value of the field called `name`, if there is one.
pub open spec fn lookup(fields: Seq<Field>, name: Seq<char>) -> Option<Seq<char>> {
    let i = name_index(fields, name);
    if i < fields.len() {
        Some(fields[i as int].1)
    } else {
        None
    }
}

/// `fields` with `name` set to `value`: an existing field keeps its place
/// and takes the new value, a new one goes to the end.
pub open spec fn upsert(fields: Seq<Field>, name: Seq<char>, value: Seq<char>) -> Seq<Field> {
    let i = name_index(fields, name);
    if i < fields.len() {
        fields.update(i as int, (name, value))
    } else {
        fields.push((name, value))
    }
}

/// No name occurs twice in `fields`.
pub open spec fn distinct_names(fields: Seq<Field>) -> bool {
    forall|i: int, j: int| 0 <= i < j < fields.len() ==> fields[i].0 != fields[j].0
}

/// `fields` as a mapping from name to value.
pub open spec fn as_map(fields: Seq<Field>) -> Map<Seq<char>, Seq<char>> {
    Map::new(
        |name: Seq<char>| name_index(fields, name) < fields.len(),
        |name: Seq<char>| fields[name_index(fields, name) as int].1,
    )
}

/// No fields, no mapping.
pub proof fn lemma_as_map_empty()
    ensures
        as_map(Seq::empty()) == Map::<Seq<char>, Seq<char>>::empty(),
{
}

/// Setting a name leaves every other name where it was.
pub proof fn lemma_upsert_index(
    fields: Seq<Field>,
    name: Seq<char>,
    value: Seq<char>,
    other: Seq<char>,
)
    ensures
        name_index(upsert(fields, name, value), name) == name_index(fields, name),
        name_index(upsert(fields, name, value), name) < upsert(fields, name, value).len(),
        other != name ==> (name_index(upsert(fields, name, value), other) < upsert(
            fields,
            name,
            value,
        ).len() <==> name_index(fields, other) < fields.len()),
        other != name && name_index(fields, other) < fields.len() ==> name_index(
            upsert(fields, name, value),
            other,
        ) == name_index(fields, other),
{
    let after = upsert(fields, name, value);
    let i = name_index(fields, name) as int;
    lemma_first_index(names(fields), name);
    lemma_first_index(names(fields), other);
    if i < fields.len() {
        assert(names(after) =~= names(fields));
    } else {
        assert(names(after) =~= names(fields).push(name));
        lemma_first_index_is(names(after), name, i);
        let k = name_index(fields, other) as int;
        if other != name {
            if k < fields.len() {
                lemma_first_index_is(names(after), other, k);
            } else {
                lemma_first_index_is(names(after), other, after.len() as int);
            }
        }
    }
}

/// Setting a name is `Map::insert` on the mapping, and keeps names distinct.
pub proof fn lemma_upsert(fields: Seq<Field>, name: Seq<char>, value: Seq<char>)
    ensures
        as_map(upsert(fields, name, value)) == as_map(fields).insert(name, value),
        distinct_names(fields) ==> distinct_names(upsert(fields, name, value)),
{
    let after = upsert(fields, name, value);
    assert forall|other: Seq<char>|
        as_map(after).dom().contains(other) == as_map(fields).insert(name, value).dom().contains(
            other,
        ) by {
        lemma_upsert_index(fields, name, value, other);
    }
    assert forall|other: Seq<char>| #[trigger]
        as_map(after).dom().contains(other) implies as_map(after)[other] == as_map(fields).insert(
        name,
        value,
    )[other] by {
        lemma_upsert_index(fields, name, value, other);
        lemma_first_index(names(fields), name);
        lemma_first_index(names(fields), other);
    }
    if distinct_names(fields) {
        let i = name_index(fields, name) as int;
        lemma_first_index(names(fields), name);
        assert forall|a: int, b: int| 0 <= a < b < after.len() implies after[a].0 != after[b].0 by {
            if i >= fields.len() && b == fields.len() {
                assert(names(fields)[a] != name);
            }
        }
    }
}

spec fn model(fields: Seq<(String, String)>) -> Seq<Field> {
    fields.map_values(|f: (String, String)| (f.0@, f.1@))
}

/// Header fields of a request or a response.
#[derive(Debug)]
pub struct Headers {
    fields: Vec<(String, String)>,
}

impl View for Headers {
    type V = Map<Seq<char>, Seq<char>>;

    /// The mapping from name to value.
    open spec fn view(&self) -> Map<Seq<char>, Seq<char>> {
        as_map(self.fields())
    }
}

impl Headers {
    /// The fields in the order in which their names were first set.
    pub closed spec fn fields(&self) -> Seq<Field> {
        model(self.fields@)
    }

    #[verifier::type_invariant]
    spec fn names_are_distinct(&self) -> bool {
        distinct_names(self.fields())
    }

    /// No fields.
    pub fn new() -> (h: Headers)
        ensures
            h.fields() == Seq::<Field>::empty(),
            h@ == Map::<Seq<char>, Seq<char>>::empty(),
    {
        Headers { fields: Vec::new() }
    }

    /// The number of fields. No name occurs twice among them.
    pub fn len(&self) -> (n: usize)
        ensures
            n == self.fields().len(),
            distinct_names(self.fields()),
    {
        proof {
            use_type_invariant(self);
        }
        self.fields.len()
    }

    /// The name of the field at `i`.
    pub fn name_at(&self, i: usize) -> (s: &str)
        requires
            i < self.fields().len(),
        ensures
            s@ == self.fields()[i as int].0,
    {
        self.fields[i].0.as_str()
    }

    /// The value of the field at `i`.
    pub fn value_at(&self, i: usize) -> (s: &str)
        requires
            i < self.fields().len(),
        ensures
            s@ == self.fields()[i as int].1,
    {
        self.fields[i].1.as_str()
    }

    fn position(&self, name: &str) -> (i: usize)
        ensures
            i == name_index(self.fields(), name@),
            i <= self.fields().len(),
    {
        let mut i: usize = 0;
        while i < self.fields.len()
            invariant
                i <= self.fields.len(),
                forall|j: int| 0 <= j < i ==> names(self.fields())[j] != name@,
            decreases self.fields.len() - i,
        {
            if str_eq(self.fields[i].0.as_str(), name) {
                proof {
                    lemma_first_index_is(names(self.fields()), name@, i as int);
                }
                return i;
            }
            i += 1;
        }
        proof {
            lemma_first_index_is(names(self.fields()), name@, i as int);
        }
        i
    }

    /// The value of the field called `name`.
    pub fn get(&self, name: &str) -> (r: Option<&String>)
        ensures
            match r {
                Some(value) => lookup(self.fields(), name@) == Some(value@),
                None => lookup(self.fields(), name@) is None,
            },
            r is Some <==> self@.contains_key(name@),
            r matches Some(value) ==> self@[name@] == value@,
    {
        let i = self.position(name);
        if i < self.fields.len() {
            Some(&self.fields[i].1)
        } else {
            None
        }
    }

    /// Tells whether a field is called `name`.
    pub fn contains_key(&self, name: &str) -> (r: bool)
        ensures
            r == self@.contains_key(name@),
    {
        self.position(name) < self.fields.len()
    }

    /// Sets `name` to `value`. Where the name was set before, the later
    /// value replaces the earlier one.
    pub fn insert(&mut self, name: String, value: String)
        ensures
            final(self).fields() == upsert(old(self).fields(), name@, value@),
            final(self)@ == old(self)@.insert(name@, value@),
    {
        let i = self.position(name.as_str());
        proof {
            use_type_invariant(&*self);
            lemma_upsert(self.fields(), name@, value@);
        }
        let ghost before = self.fields();
        let mut fields: Vec<(String, String)> = Vec::new();
        core::mem::swap(&mut self.fields, &mut fields);
        if i < fields.len() {
            fields.set(i, (name, value));
        } else {
            fields.push((name, value));
        }
        assert(model(fields@) =~= upsert(before, name@, value@));
        self.fields = fields;
    }
}

impl Clone for Headers {
    fn clone(&self) -> (r: Headers)
        ensures
            r.fields() == self.fields(),
    {
        let mut fields: Vec<(String, String)> = Vec::new();
        let mut i: usize = 0;
        while i < self.fields.len()
            invariant
                i <= self.fields.len(),
                fields@.len() == i,
                forall|j: int| 0 <= j < i ==> fields@[j] == self.fields@[j],
            decreases self.fields.len() - i,
        {
            fields.push((self.fields[i].0.clone(), self.fields[i].1.clone()));
            i += 1;
        }
        proof {
            use_type_invariant(self);
            assert(fields@ =~= self.fields@);
        }
        Headers { fields }
    }
}

} // verus!
