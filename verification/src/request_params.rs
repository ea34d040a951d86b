//! Query parameters: the `key=value` items of a query string, kept by key.

use crate::number::{parse_i64, signed_of};
use crate::text::{
    halves, joined, lemma_pieces_of_joined, lemma_position, lemma_position_is, pieces, split,
    split_once,
};
use vstd::hash_map::StringHashMap;
use vstd::prelude::*;
use vstd::string::*;

verus! {

/// The key and the value that one item of a query gives: the item is cut at
/// its first `=`. An item without `=` is a key with the empty value.
pub open spec fn param_entry(item: Seq<char>) -> (Seq<char>, Seq<char>) {
    match halves(item, '=') {
        Some((key, value)) => (key, value),
        None => (item, Seq::empty()),
    }
}

/// The parameters that a run of items gives. An empty item gives nothing; of
/// two items with one key the later one stays.
pub open spec fn params_of_items(items: Seq<Seq<char>>) -> Map<Seq<char>, Seq<char>>
    decreases items.len(),
{
    if items.len() == 0 {
        Map::empty()
    } else {
        let before = params_of_items(items.drop_last());
        if items.last().len() == 0 {
            before
        } else {
            before.insert(param_entry(items.last()).0, param_entry(items.last()).1)
        }
    }
}

/// The keys that a run of items gives, each once, in the order in which they
/// first occur.
pub open spec fn keys_of_items(items: Seq<Seq<char>>) -> Seq<Seq<char>>
    decreases items.len(),
{
    if items.len() == 0 {
        Seq::empty()
    } else {
        let before = keys_of_items(items.drop_last());
        if items.last().len() == 0 || before.contains(param_entry(items.last()).0) {
            before
        } else {
            before.push(param_entry(items.last()).0)
        }
    }
}

/// The items of a query string: the string cut at every `&`.
pub open spec fn items_of_query(query: Seq<char>) -> Seq<Seq<char>> {
    pieces(query, '&')
}

/// The query string of a request target: what follows the first `?`, or the
/// whole target where it holds no `?`.
pub open spec fn query_of_url(url: Seq<char>) -> Seq<char> {
    match halves(url, '?') {
        Some((_, query)) => query,
        None => url,
    }
}

/// An item `key=value` gives just that key and that value, where the key
/// holds no `=`.
pub proof fn lemma_entry_of_pair(key: Seq<char>, value: Seq<char>)
    requires
        !key.contains('='),
    ensures
        param_entry(key + seq!['='] + value) == (key, value),
{
    let item = key + seq!['='] + value;
    assert forall|j: int| 0 <= j < key.len() implies #[trigger] item[j] != '=' by {
        assert(item[j] == key[j]);
        assert(key.contains(key[j]));
    }
    assert(item[key.len() as int] == '=');
    lemma_position_is(item, '=', key.len() as int);
    assert(item.take(key.len() as int) =~= key);
    assert(item.skip(key.len() as int + 1) =~= value);
}

/// An item without `=` is a key with the empty value.
pub proof fn lemma_entry_of_bare_key(item: Seq<char>)
    requires
        !item.contains('='),
    ensures
        param_entry(item) == (item, Seq::<char>::empty()),
{
    lemma_position(item, '=');
}

/// The keys listed are the keys of the map, each listed once.
pub proof fn lemma_keys_of_items(items: Seq<Seq<char>>)
    ensures
        keys_of_items(items).no_duplicates(),
        forall|key: Seq<char>|
            keys_of_items(items).contains(key) <==> params_of_items(items).contains_key(key),
    decreases items.len(),
{
    if items.len() > 0 {
        lemma_keys_of_items(items.drop_last());
        let before = keys_of_items(items.drop_last());
        let key = param_entry(items.last()).0;
        if !(items.last().len() == 0 || before.contains(key)) {
            let now = before.push(key);
            assert forall|k: Seq<char>| now.contains(k) <==> params_of_items(items).contains_key(
                k,
            ) by {
                if now.contains(k) {
                    let i = choose|i: int| 0 <= i < now.len() && now[i] == k;
                    if i < before.len() {
                        assert(before[i] == k);
                    }
                }
                if before.contains(k) {
                    let i = choose|i: int| 0 <= i < before.len() && before[i] == k;
                    assert(now[i] == k);
                }
                assert(now[before.len() as int] == key);
            }
            assert forall|i: int, j: int| 0 <= i < now.len() && 0 <= j < now.len() && i != j implies now[i]
                != now[j] by {
                if i < before.len() {
                    assert(before.contains(now[i]));
                }
                if j < before.len() {
                    assert(before.contains(now[j]));
                }
            }
        }
    }
}

/// An item that is not empty is found again under its key, with its value,
/// unless a later item has the same key.
pub proof fn lemma_param_is_retrievable(items: Seq<Seq<char>>, i: int)
    requires
        0 <= i < items.len(),
        items[i].len() > 0,
        forall|j: int|
            i < j < items.len() && (#[trigger] items[j]).len() > 0 ==> param_entry(items[j]).0
                != param_entry(items[i]).0,
    ensures
        params_of_items(items).contains_key(param_entry(items[i]).0),
        params_of_items(items)[param_entry(items[i]).0] == param_entry(items[i]).1,
    decreases items.len(),
{
    let before = items.drop_last();
    if i < items.len() - 1 {
        assert(before[i] == items[i]);
        assert forall|j: int| i < j < before.len() && (#[trigger] before[j]).len() > 0 implies param_entry(
            before[j],
        ).0 != param_entry(before[i]).0 by {
            assert(before[j] == items[j]);
        }
        lemma_param_is_retrievable(before, i);
        assert(items[items.len() - 1] == items.last());
    }
}

/// The item that spells a pair of key and value: `key=value`.
pub open spec fn item_of_pair(pair: (Seq<char>, Seq<char>)) -> Seq<char> {
    pair.0 + seq!['='] + pair.1
}

/// The query string that spells a run of pairs: `key=value` items with `&`
/// between each two.
pub open spec fn query_of_pairs(pairs: Seq<(Seq<char>, Seq<char>)>) -> Seq<char> {
    joined(pairs.map_values(|pair: (Seq<char>, Seq<char>)| item_of_pair(pair)), '&')
}

/// Every pair that a query string spells is found again under its key, with
/// its value as it was spelt, unless a later pair has the same key: then the
/// later one is found. This holds for keys without `=` and `&` and values
/// without `&`, which would be read as delimiters.
pub proof fn lemma_query_pair_is_retrievable(pairs: Seq<(Seq<char>, Seq<char>)>, i: int)
    requires
        0 <= i < pairs.len(),
        forall|j: int|
            0 <= j < pairs.len() ==> !(#[trigger] pairs[j]).0.contains('=') && !pairs[j].0.contains(
                '&',
            ) && !pairs[j].1.contains('&'),
        forall|j: int| i < j < pairs.len() ==> (#[trigger] pairs[j]).0 != pairs[i].0,
    ensures
        params_of_items(items_of_query(query_of_pairs(pairs))).contains_key(pairs[i].0),
        params_of_items(items_of_query(query_of_pairs(pairs)))[pairs[i].0] == pairs[i].1,
{
    let items = pairs.map_values(|pair: (Seq<char>, Seq<char>)| item_of_pair(pair));
    assert forall|j: int| 0 <= j < items.len() implies !(#[trigger] items[j]).contains('&') by {
        let item = items[j];
        assert(item == item_of_pair(pairs[j]));
        if item.contains('&') {
            let k = choose|k: int| 0 <= k < item.len() && item[k] == '&';
            if k < pairs[j].0.len() {
                assert(pairs[j].0[k] == '&');
            } else if k > pairs[j].0.len() {
                assert(pairs[j].1[k - pairs[j].0.len() - 1] == '&');
            }
        }
    }
    lemma_pieces_of_joined(items, '&');
    assert forall|j: int| 0 <= j < items.len() implies param_entry(#[trigger] items[j])
        == pairs[j] by {
        assert(items[j] == item_of_pair(pairs[j]));
        lemma_entry_of_pair(pairs[j].0, pairs[j].1);
    }
    assert(items[i].len() > 0) by {
        assert(items[i] == item_of_pair(pairs[i]));
    }
    lemma_param_is_retrievable(items, i);
}

/// The values of a map of strings, as texts.
spec fn texts_of(stored: Map<Seq<char>, String>) -> Map<Seq<char>, Seq<char>> {
    Map::new(|key: Seq<char>| stored.contains_key(key), |key: Seq<char>| stored[key]@)
}

/// Whether `keys` lists the keys of `stored`, each once.
spec fn lists_keys(keys: Seq<Seq<char>>, stored: Map<Seq<char>, String>) -> bool {
    &&& keys.no_duplicates()
    &&& forall|key: Seq<char>| keys.contains(key) <==> stored.contains_key(key)
}

/// The parameters of a request.
pub struct RequestParams {
    params: StringHashMap<String>,
    keys: Vec<String>,
}

impl View for RequestParams {
    type V = Map<Seq<char>, Seq<char>>;

    /// The parameters as a map from keys to values.
    closed spec fn view(&self) -> Map<Seq<char>, Seq<char>> {
        texts_of(self.params@)
    }
}

impl RequestParams {
    #[verifier::type_invariant]
    spec fn well_formed(&self) -> bool {
        lists_keys(self.keys.deep_view(), self.params@)
    }

    /// The keys, each once, in the order in which the query first gave them.
    pub closed spec fn keys(&self) -> Seq<Seq<char>> {
        self.keys.deep_view()
    }

    /// The parameters of a query string: the string is cut at every `&`, and
    /// each item at its first `=`. An item without `=` is a key with the
    /// empty value, an empty item is passed over, and of two items with one
    /// key the later one stays.
    pub fn from_query(query: &str) -> (r: RequestParams)
        ensures
            r@ == params_of_items(items_of_query(query@)),
            r.keys() == keys_of_items(items_of_query(query@)),
    {
        let items = split(query, '&');
        let ghost its = items_of_query(query@);
        let mut params: StringHashMap<String> = StringHashMap::new();
        let mut keys: Vec<String> = Vec::new();
        let mut i: usize = 0;
        proof {
            assert(texts_of(params@) =~= params_of_items(its.take(0)));
            assert(keys.deep_view() =~= keys_of_items(its.take(0)));
        }
        while i < items.len()
            invariant
                i <= items.len() == its.len(),
                forall|j: int| 0 <= j < items.len() ==> (#[trigger] items[j])@ == its[j],
                texts_of(params@) == params_of_items(its.take(i as int)),
                keys.deep_view() == keys_of_items(its.take(i as int)),
            decreases items.len() - i,
        {
            let item = items[i];
            proof {
                assert(its.take(i + 1).drop_last() =~= its.take(i as int));
                assert(its.take(i + 1).last() == item@);
                lemma_keys_of_items(its.take(i as int));
                reveal_strlit("");
            }
            if !item.is_empty() {
                let (key, value) = match split_once(item, '=') {
                    Some((key, value)) => (key, value),
                    None => (item, ""),
                };
                assert(param_entry(item@) == (key@, value@));
                let ghost seen = params@.contains_key(key@);
                let ghost listed = keys.deep_view();
                assert(seen == texts_of(params@).contains_key(key@));
                if !params.contains_key(key) {
                    keys.push(String::from_str(key));
                    assert(keys.deep_view() =~= listed.push(key@));
                }
                let ghost stored = params@;
                params.insert(String::from_str(key), String::from_str(value));
                assert(texts_of(params@) =~= texts_of(stored).insert(key@, value@));
            }
            i += 1;
        }
        proof {
            assert(its.take(i as int) =~= its);
            lemma_keys_of_items(its);
            assert forall|key: Seq<char>| keys.deep_view().contains(key) <==> params@.contains_key(
                key,
            ) by {
                assert(params@.contains_key(key) == texts_of(params@).contains_key(key));
            }
        }
        RequestParams { params, keys }
    }

    /// The parameters of a request target: those of what follows its first
    /// `?`, or of the whole target where it holds no `?`.
    pub fn from_request_url(url: &str) -> (r: RequestParams)
        ensures
            r@ == params_of_items(items_of_query(query_of_url(url@))),
            r.keys() == keys_of_items(items_of_query(query_of_url(url@))),
    {
        let query = match split_once(url, '?') {
            Some((_, query)) => query,
            None => url,
        };
        RequestParams::from_query(query)
    }

    /// How many parameters there are.
    pub fn len(&self) -> (n: usize)
        ensures
            n == self.keys().len(),
            n == self@.dom().len(),
    {
        proof {
            use_type_invariant(self);
            let keys = self.keys.deep_view();
            keys.unique_seq_to_set();
            assert(keys.to_set() =~= self@.dom());
        }
        self.keys.len()
    }

    /// Every parameter once, as a pair of key and value, in the order in
    /// which the query first gave the keys.
    pub fn pairs(&self) -> (r: Vec<(String, String)>)
        ensures
            self.keys().no_duplicates(),
            forall|key: Seq<char>| self.keys().contains(key) <==> self@.contains_key(key),
            r.len() == self.keys().len(),
            forall|i: int|
                0 <= i < r.len() ==> {
                    &&& (#[trigger] r[i]).0@ == self.keys()[i]
                    &&& self@.contains_key(self.keys()[i])
                    &&& r[i].1@ == self@[self.keys()[i]]
                },
    {
        let mut out: Vec<(String, String)> = Vec::new();
        let mut i: usize = 0;
        proof {
            use_type_invariant(self);
        }
        while i < self.keys.len()
            invariant
                i <= self.keys.len(),
                lists_keys(self.keys.deep_view(), self.params@),
                out.len() == i,
                forall|j: int|
                    0 <= j < out.len() ==> {
                        &&& (#[trigger] out[j]).0@ == self.keys()[j]
                        &&& self@.contains_key(self.keys()[j])
                        &&& out[j].1@ == self@[self.keys()[j]]
                    },
            decreases self.keys.len() - i,
        {
            let key = &self.keys[i];
            proof {
                assert(self.keys.deep_view()[i as int] == key@);
                assert(self.keys.deep_view().contains(key@));
            }
            let value = self.params.get(key.as_str()).unwrap();
            let ghost listed = out@;
            out.push((key.clone(), value.clone()));
            proof {
                assert forall|j: int| 0 <= j < out.len() implies {
                    &&& (#[trigger] out[j]).0@ == self.keys()[j]
                    &&& self@.contains_key(self.keys()[j])
                    &&& out[j].1@ == self@[self.keys()[j]]
                } by {
                    if j < listed.len() {
                        assert(out[j] == listed[j]);
                    } else {
                        assert(out[j].0@ == key@);
                        assert(out[j].1@ == value@);
                        assert(self@[key@] == self.params@[key@]@);
                    }
                }
            }
            i += 1;
        }
        out
    }

    /// The value of the parameter `key`, or `default` where there is no
    /// such parameter.
    pub fn get<'a>(&'a self, key: &str, default: &'a str) -> (r: &'a str)
        ensures
            r@ == (if self@.contains_key(key@) {
                self@[key@]
            } else {
                default@
            }),
    {
        match self.params.get(key) {
            Some(value) => value.as_str(),
            None => default,
        }
    }

    /// The value of the parameter `key` read as an `i64`. `None` where there
    /// is no such parameter, or where its value is not an integer in range.
    pub fn get_i64(&self, key: &str) -> (r: Option<i64>)
        ensures
            r == (if self@.contains_key(key@) {
                match signed_of(self@[key@], i64::MIN as int, i64::MAX as int) {
                    Some(v) => Some(v as i64),
                    None => None,
                }
            } else {
                None
            }),
    {
        match self.params.contains_key(key) {
            true => parse_i64(self.get(key, "")),
            false => None,
        }
    }
}

} // verus!
