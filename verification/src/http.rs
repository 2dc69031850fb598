//! The parts of an HTTP request that the mirror reads and writes.

use vstd::prelude::*;
use vstd::string::*;
use crate::text::{names_match, same_name};

verus! {

/// One header line: a name, compared without regard to case, and its value.
#[derive(Debug, Clone, PartialEq)]
pub struct Header {
    pub name: String,
    pub value: String,
}

/// The mathematical model of a [`Header`].
pub struct HeaderModel {
    pub name: Seq<char>,
    pub value: Seq<char>,
}

impl DeepView for Header {
    type V = HeaderModel;

    open spec fn deep_view(&self) -> HeaderModel {
        HeaderModel { name: self.name@, value: self.value@ }
    }
}

/// The path and query of a request target.
#[derive(Debug, Clone, PartialEq)]
pub struct RequestUri {
    pub path: String,
    pub query: Option<String>,
}

/// The mathematical model of a [`RequestUri`].
pub struct RequestUriModel {
    pub path: Seq<char>,
    pub query: Option<Seq<char>>,
}

impl View for RequestUri {
    type V = RequestUriModel;

    open spec fn view(&self) -> RequestUriModel {
        RequestUriModel { path: self.path@, query: self.query.deep_view() }
    }
}

/// The value of the first header called `name`.
pub open spec fn first_value(h: Seq<HeaderModel>, name: Seq<char>) -> Option<Seq<char>>
    decreases h.len(),
{
    if h.len() == 0 {
        None
    } else if same_name(h[0].name, name) {
        Some(h[0].value)
    } else {
        first_value(h.drop_first(), name)
    }
}

/// The headers of `h` that are not called `name`, in order.
pub open spec fn without(h: Seq<HeaderModel>, name: Seq<char>) -> Seq<HeaderModel>
    decreases h.len(),
{
    if h.len() == 0 {
        Seq::empty()
    } else if same_name(h.last().name, name) {
        without(h.drop_last(), name)
    } else {
        without(h.drop_last(), name).push(h.last())
    }
}

/// `h` with `name` set to `value` alone: earlier headers of that name leave.
pub open spec fn inserted(h: Seq<HeaderModel>, name: Seq<char>, value: Seq<char>) -> Seq<
    HeaderModel,
> {
    without(h, name).push(HeaderModel { name, value })
}

/// `without` never keeps a header of the removed name, and keeps the first
/// value of every other name.
pub proof fn lemma_without(h: Seq<HeaderModel>, name: Seq<char>, other: Seq<char>)
    ensures
        first_value(without(h, name), name) is None,
        !same_name(other, name) ==> first_value(without(h, name), other) == first_value(h, other),
        forall|i: int|
            0 <= i < without(h, name).len() ==> !same_name(
                #[trigger] without(h, name)[i].name,
                name,
            ),
        forall|i: int|
            0 <= i < without(h, name).len() ==> h.contains(#[trigger] without(h, name)[i]),
    decreases h.len(),
{
    if h.len() > 0 {
        let init = h.drop_last();
        lemma_without(init, name, other);
        lemma_first_value_push(init, h.last(), other);
        assert(init.push(h.last()) =~= h);
        lemma_first_value_push(without(init, name), h.last(), other);
        lemma_first_value_push(without(init, name), h.last(), name);
        assert forall|i: int| 0 <= i < without(h, name).len() implies h.contains(
            #[trigger] without(h, name)[i],
        ) by {
            if i < without(init, name).len() {
                assert(init.contains(without(init, name)[i]));
            }
        }
    }
}

/// The first value of a name in a list that grew by one header.
pub proof fn lemma_first_value_push(h: Seq<HeaderModel>, e: HeaderModel, name: Seq<char>)
    ensures
        first_value(h.push(e), name) == if first_value(h, name) is Some {
            first_value(h, name)
        } else if same_name(e.name, name) {
            Some(e.value)
        } else {
            None
        },
    decreases h.len(),
{
    if h.len() == 0 {
        assert(h.push(e).drop_first() =~= h);
    } else {
        assert(h.push(e).drop_first() =~= h.drop_first().push(e));
        lemma_first_value_push(h.drop_first(), e, name);
    }
}

/// An ordered collection of headers. A name may occur more than once; lookups
/// return its first value.
#[derive(Debug, Clone, PartialEq)]
pub struct Headers {
    pub entries: Vec<Header>,
}

impl View for Headers {
    type V = Seq<HeaderModel>;

    open spec fn view(&self) -> Seq<HeaderModel> {
        self.entries.deep_view()
    }
}

impl Headers {
    /// An empty collection.
    pub fn new() -> (h: Headers)
        ensures
            h@ == Seq::<HeaderModel>::empty(),
    {
        Headers { entries: Vec::new() }
    }

    /// The number of header lines.
    pub fn len(&self) -> (n: usize)
        ensures
            n == self@.len(),
    {
        self.entries.len()
    }

    /// Adds a header line and keeps those already there.
    pub fn append(&mut self, name: &str, value: &str)
        ensures
            final(self)@ == old(self)@.push(HeaderModel { name: name@, value: value@ }),
    {
        self.entries.push(Header { name: String::from_str(name), value: String::from_str(value) });
    }

    /// Sets `name` to `value`, replacing every header of that name.
    pub fn insert(&mut self, name: &str, value: &str)
        ensures
            final(self)@ == inserted(old(self)@, name@, value@),
    {
        let mut kept: Vec<Header> = Vec::new();
        let mut i: usize = 0;
        while i < self.entries.len()
            invariant
                i <= self.entries.len(),
                self.entries == old(self).entries,
                kept.deep_view() == without(old(self)@.take(i as int), name@),
            decreases self.entries.len() - i,
        {
            assert(old(self)@.take(i + 1).drop_last() =~= old(self)@.take(i as int));
            if !names_match(self.entries[i].name.as_str(), name) {
                kept.push(
                    Header {
                        name: self.entries[i].name.clone(),
                        value: self.entries[i].value.clone(),
                    },
                );
            }
            i += 1;
        }
        assert(old(self)@.take(i as int) =~= old(self)@);
        kept.push(Header { name: String::from_str(name), value: String::from_str(value) });
        self.entries = kept;
    }

    /// The first value of `name`, if the collection has one.
    pub fn get(&self, name: &str) -> (r: Option<&String>)
        ensures
            r.deep_view() == first_value(self@, name@),
    {
        let mut i: usize = 0;
        assert(self@.skip(0) =~= self@);
        while i < self.entries.len()
            invariant
                i <= self.entries.len(),
                first_value(self@, name@) == first_value(self@.skip(i as int), name@),
            decreases self.entries.len() - i,
        {
            assert(self@.skip(i as int).drop_first() =~= self@.skip(i + 1));
            if names_match(self.entries[i].name.as_str(), name) {
                return Some(&self.entries[i].value);
            }
            i += 1;
        }
        None
    }

    /// Whether the collection has a header called `name`.
    pub fn contains_key(&self, name: &str) -> (b: bool)
        ensures
            b == first_value(self@, name@) is Some,
    {
        self.get(name).is_some()
    }
}

} // verus!
