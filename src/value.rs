use vstd::prelude::*;

verus! {

/// A node of an already-parsed configuration document.
///
/// Mappings keep their entries in document order; only entries with a text
/// key are held, since only those can be looked up by name.
#[derive(Debug)]
pub enum Value {
    Text(String),
    Sequence(Vec<Value>),
    Mapping(Vec<(String, Value)>),
    /// Any other node: null, a boolean, a number.
    Other,
}

/// The value of the first entry whose key is `key`.
pub open spec fn lookup(entries: Seq<(String, Value)>, key: Seq<char>) -> Option<Value>
    decreases entries.len(),
{
    if entries.len() == 0 {
        None
    } else if entries[0].0@ == key {
        Some(entries[0].1)
    } else {
        lookup(entries.drop_first(), key)
    }
}

impl Value {
    /// The field `key` of a mapping; nothing for any other node.
    pub open spec fn field(self, key: Seq<char>) -> Option<Value> {
        match self {
            Value::Mapping(entries) => lookup(entries@, key),
            _ => None,
        }
    }

    /// The text of a text node.
    pub open spec fn text(self) -> Option<Seq<char>> {
        match self {
            Value::Text(s) => Some(s@),
            _ => None,
        }
    }

    pub open spec fn items(self) -> Option<Seq<Value>> {
        match self {
            Value::Sequence(v) => Some(v@),
            _ => None,
        }
    }

    /// Looks up the field `key` of a mapping.
    pub fn get(&self, key: &str) -> (r: Option<&Value>)
        ensures
            match self.field(key@) {
                Some(v) => r is Some && *r.unwrap() == v,
                None => r is None,
            },
            r matches Some(x) ==> decreases_to!(*self => *x),
    {
        match self {
            Value::Mapping(entries) => {
                let k = String::from_str(key);
                let mut i: usize = 0;
                assert(entries@.skip(0) =~= entries@);
                while i < entries.len()
                    invariant
                        i <= entries@.len(),
                        k@ == key@,
                        self.field(key@) == lookup(entries@, key@),
                        *self == Value::Mapping(*entries),
                        lookup(entries@, key@) == lookup(entries@.skip(i as int), key@),
                    decreases entries.len() - i,
                {
                    assert(entries@.skip(i as int).drop_first() =~= entries@.skip(i + 1));
                    assert(entries@.skip(i as int)[0] == entries@[i as int]);
                    if entries[i].0 == k {
                        assert(lookup(entries@.skip(i as int), key@) == Some(entries@[i as int].1));
                        assert(decreases_to!(*self => self->Mapping_0));
                        assert(decreases_to!(*entries => entries@));
                        assert(decreases_to!(entries@ => entries@[i as int]));
                        assert(decreases_to!(entries@[i as int] => entries@[i as int].1));
                        return Some(&entries[i].1);
                    }
                    i = i + 1;
                }
                None
            },
            _ => None,
        }
    }

    /// The text of a text node.
    pub fn as_str(&self) -> (r: Option<&str>)
        ensures
            match self.text() {
                Some(t) => r is Some && r.unwrap()@ == t,
                None => r is None,
            },
    {
        match self {
            Value::Text(s) => Some(s.as_str()),
            _ => None,
        }
    }

    /// The elements of a sequence node.
    pub fn as_sequence(&self) -> (r: Option<&Vec<Value>>)
        ensures
            match self.items() {
                Some(t) => r is Some && r.unwrap()@ == t,
                None => r is None,
            },
            r matches Some(x) ==> forall|i: int| 0 <= i < x@.len() ==> decreases_to!(*self => #[trigger] x@[i]),
    {
        match self {
            Value::Sequence(v) => {
                assert forall|i: int| 0 <= i < v@.len() implies decreases_to!(*self => #[trigger] v@[i]) by {
                    assert(decreases_to!(*self => self->Sequence_0));
                    assert(decreases_to!(*v => v@));
                    assert(decreases_to!(v@ => v@[i]));
                }
                Some(v)
            },
            _ => None,
        }
    }

    pub fn is_mapping(&self) -> (r: bool)
        ensures
            r == (self is Mapping),
    {
        match self {
            Value::Mapping(_) => true,
            _ => false,
        }
    }
}

proof fn lemma_lookup_in(entries: Seq<(String, Value)>, key: Seq<char>)
    ensures
        lookup(entries, key) matches Some(w) ==> exists|i: int|
            0 <= i < entries.len() && #[trigger] entries[i].1 == w,
    decreases entries.len(),
{
    if entries.len() > 0 {
        lemma_lookup_in(entries.drop_first(), key);
        if entries[0].0@ != key && lookup(entries, key) is Some {
            let w = lookup(entries, key)->Some_0;
            let i = choose|i: int| 0 <= i < entries.drop_first().len() && #[trigger] entries.drop_first()[i].1 == w;
            assert(entries[i + 1].1 == w);
        } else if entries[0].0@ == key {
            assert(entries[0].1 == lookup(entries, key)->Some_0);
        }
    }
}

/// A field of a node is smaller than the node.
pub proof fn lemma_field_decreases(v: Value, key: Seq<char>)
    ensures
        v.field(key) matches Some(w) ==> decreases_to!(v => w),
{
    if let Value::Mapping(entries) = v {
        lemma_lookup_in(entries@, key);
        if v.field(key) is Some {
            let w = v.field(key)->Some_0;
            let i = choose|i: int| 0 <= i < entries@.len() && #[trigger] entries@[i].1 == w;
            assert(decreases_to!(v => v->Mapping_0));
            assert(decreases_to!(entries => entries@));
            assert(decreases_to!(entries@ => entries@[i]));
            assert(decreases_to!(entries@[i] => entries@[i].1));
        }
    }
}

/// An element of a sequence node is smaller than the node.
pub proof fn lemma_items_decrease(v: Value)
    ensures
        v.items() matches Some(items) ==> forall|j: int|
            0 <= j < items.len() ==> decreases_to!(v => #[trigger] items[j]),
{
    if let Value::Sequence(items) = v {
        assert forall|j: int| 0 <= j < items@.len() implies decreases_to!(v => #[trigger] items@[j]) by {
            assert(decreases_to!(v => v->Sequence_0));
            assert(decreases_to!(items => items@));
            assert(decreases_to!(items@ => items@[j]));
        }
    }
}

} // verus!
