//! Request headers: a store from header names to values in which the case of
//! a name does not matter.

use crate::text::{halves, lowercase_of, split_once, to_lowercase, trim, trimmed};
use vstd::hash_map::StringHashMap;
use vstd::prelude::*;
use vstd::string::*;

verus! {

/// The name and the value that a header line gives, each without the
/// whitespace around it: the line is cut at its first colon. A line without
/// a colon gives none.
pub open spec fn header_entry(line: Seq<char>) -> Option<(Seq<char>, Seq<char>)> {
    match halves(line, ':') {
        Some((name, value)) => Some((trimmed(name), trimmed(value))),
        None => None,
    }
}

/// The headers that a run of lines gives. Names are kept in lowercase, a
/// line without a colon is passed over, and of two lines whose names agree in
/// lowercase the later one stays.
pub open spec fn headers_of(lines: Seq<Seq<char>>) -> Map<Seq<char>, Seq<char>>
    decreases lines.len(),
{
    if lines.len() == 0 {
        Map::empty()
    } else {
        let before = headers_of(lines.drop_last());
        match header_entry(lines.last()) {
            Some((name, value)) => before.insert(lowercase_of(name), value),
            None => before,
        }
    }
}

/// What a lookup under `name` finds in `headers`, where `name` is taken as it
/// stands.
pub open spec fn lookup_folded(headers: Map<Seq<char>, Seq<char>>, name: Seq<char>) -> Option<
    Seq<char>,
> {
    if headers.contains_key(name) {
        Some(headers[name])
    } else {
        None
    }
}

/// What a lookup under `key` finds in `headers`, whatever the case of `key`.
pub open spec fn lookup(headers: Map<Seq<char>, Seq<char>>, key: Seq<char>) -> Option<Seq<char>> {
    lookup_folded(headers, lowercase_of(key))
}

/// Two keys that agree in lowercase find the same header.
pub proof fn lemma_lookup_ignores_case(
    headers: Map<Seq<char>, Seq<char>>,
    key: Seq<char>,
    other: Seq<char>,
)
    requires
        lowercase_of(key) == lowercase_of(other),
    ensures
        lookup(headers, key) == lookup(headers, other),
{
}

/// A header line is found again under every key that agrees with its name in
/// lowercase, with its value, unless a later line took the name.
pub proof fn lemma_header_is_retrievable(lines: Seq<Seq<char>>, i: int, key: Seq<char>)
    requires
        0 <= i < lines.len(),
        header_entry(lines[i]) is Some,
        lowercase_of(key) == lowercase_of(header_entry(lines[i]).unwrap().0),
        forall|j: int|
            i < j < lines.len() && (#[trigger] header_entry(lines[j])) is Some ==> lowercase_of(
                header_entry(lines[j]).unwrap().0,
            ) != lowercase_of(key),
    ensures
        lookup(headers_of(lines), key) == Some(header_entry(lines[i]).unwrap().1),
    decreases lines.len(),
{
    let before = lines.drop_last();
    if i < lines.len() - 1 {
        assert(before[i] == lines[i]);
        assert forall|j: int|
            i < j < before.len() && (#[trigger] header_entry(before[j])) is Some implies lowercase_of(
            header_entry(before[j]).unwrap().0,
        ) != lowercase_of(key) by {
            assert(before[j] == lines[j]);
        }
        lemma_header_is_retrievable(before, i, key);
        assert(header_entry(lines[lines.len() - 1]) == header_entry(lines.last()));
    }
}

/// The headers of a request.
pub struct HeaderMap {
    header_map: StringHashMap<String>,
}

impl View for HeaderMap {
    type V = Map<Seq<char>, Seq<char>>;

    /// The headers as a map from names in lowercase to values.
    closed spec fn view(&self) -> Map<Seq<char>, Seq<char>> {
        Map::new(
            |name: Seq<char>| self.header_map@.contains_key(name),
            |name: Seq<char>| self.header_map@[name]@,
        )
    }
}

/// The name and the value of a header line, or `None` for a line without a
/// colon.
pub fn header_parts<'a>(line: &'a str) -> (r: Option<(&'a str, &'a str)>)
    ensures
        match r {
            Some((name, value)) => header_entry(line@) == Some((name@, value@)),
            None => header_entry(line@).is_none(),
        },
{
    match split_once(line, ':') {
        Some((left, right)) => Some((trim(left), trim(right))),
        None => None,
    }
}

impl HeaderMap {
    /// A store without headers.
    pub fn new() -> (r: HeaderMap)
        ensures
            r@ == Map::<Seq<char>, Seq<char>>::empty(),
    {
        let r = HeaderMap { header_map: StringHashMap::new() };
        assert(r@ =~= Map::<Seq<char>, Seq<char>>::empty());
        r
    }

    /// Stores `value` under `name` as it stands: the caller has folded the
    /// name. An earlier value under that name is replaced.
    pub fn insert_folded(&mut self, name: String, value: String)
        ensures
            final(self)@ == old(self)@.insert(name@, value@),
    {
        self.header_map.insert(name, value);
        assert(self@ =~= old(self)@.insert(name@, value@));
    }

    /// Stores `value` under `name` in lowercase.
    pub fn insert(&mut self, name: &str, value: &str)
        ensures
            final(self)@ == old(self)@.insert(lowercase_of(name@), value@),
    {
        self.insert_folded(to_lowercase(name), String::from_str(value));
    }

    /// Builds the store from header lines. A line is cut at its first colon,
    /// both sides are trimmed, and the name is folded to lowercase; a line
    /// without a colon is passed over.
    pub fn builder(header_lines: &Vec<String>) -> (r: HeaderMap)
        ensures
            r@ == headers_of(header_lines.deep_view()),
    {
        let mut map = HeaderMap::new();
        let ghost lines = header_lines.deep_view();
        let mut i: usize = 0;
        while i < header_lines.len()
            invariant
                i <= header_lines.len(),
                lines == header_lines.deep_view(),
                map@ == headers_of(lines.take(i as int)),
            decreases header_lines.len() - i,
        {
            proof {
                assert(lines.take(i + 1).drop_last() =~= lines.take(i as int));
                assert(lines.take(i + 1).last() == header_lines[i as int]@);
            }
            match header_parts(header_lines[i].as_str()) {
                Some((name, value)) => {
                    map.insert(name, value);
                },
                None => {},
            }
            i += 1;
        }
        proof {
            assert(lines.take(i as int) =~= lines);
        }
        map
    }

    /// The value stored under `name` as it stands.
    pub fn get_folded(&self, name: &str) -> (r: Option<String>)
        ensures
            match r {
                Some(value) => lookup_folded(self@, name@) == Some(value@),
                None => lookup_folded(self@, name@).is_none(),
            },
    {
        match self.header_map.get(name) {
            Some(val) => Some(val.clone()),
            None => None,
        }
    }

    /// The value stored under `key`, whatever the case of `key`.
    pub fn get(&self, key: &str) -> (r: Option<String>)
        ensures
            match r {
                Some(value) => lookup(self@, key@) == Some(value@),
                None => lookup(self@, key@).is_none(),
            },
    {
        let folded = to_lowercase(key);
        self.get_folded(folded.as_str())
    }
}

} // verus!
