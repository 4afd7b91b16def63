//! The headers of a request: a map from each key to its values in the
//! order of their arrival.

use crate::listener::text::{
    lemma_position, lemma_position_is, lowercase, position, text_eq, to_lowercase, trim, trimmed,
};
use vstd::prelude::*;
use vstd::string::*;

verus! {

/// The key under which a header name is stored and found: in lower case and trimmed.
pub open spec fn header_key(name: Seq<char>) -> Seq<char> {
    trim(lowercase(name))
}

/// The headers of a request as a map from each key to its values in the
/// order of their arrival.
pub type HeaderMap = Map<Seq<char>, Seq<Seq<char>>>;

/// The texts of a list of values.
pub open spec fn texts(values: Seq<String>) -> Seq<Seq<char>> {
    Seq::new(values.len(), |i: int| values[i]@)
}

/// `m` with one more value under `key`, after those already there.
pub open spec fn with_header(m: HeaderMap, key: Seq<char>, value: Seq<char>) -> HeaderMap {
    m.insert(
        key,
        (if m.contains_key(key) {
            m[key]
        } else {
            Seq::empty()
        }).push(value),
    )
}

/// What a lookup by header name finds: the values under the key that the
/// name stands for.
pub open spec fn lookup(m: HeaderMap, name: Seq<char>) -> Option<Seq<Seq<char>>> {
    if m.contains_key(header_key(name)) {
        Some(m[header_key(name)])
    } else {
        None
    }
}

/// The map that a run of headers builds up, each value added under its key
/// in the order of arrival.
pub open spec fn collect(headers: Seq<(Seq<char>, Seq<char>)>) -> HeaderMap
    decreases headers.len(),
{
    if headers.len() == 0 {
        Map::empty()
    } else {
        with_header(collect(headers.drop_last()), headers.last().0, headers.last().1)
    }
}

/// The values of those headers of a run that have the given key, in the
/// order of arrival.
pub open spec fn values_under(headers: Seq<(Seq<char>, Seq<char>)>, key: Seq<char>) -> Seq<
    Seq<char>,
>
    decreases headers.len(),
{
    if headers.len() == 0 {
        Seq::empty()
    } else if headers.last().0 == key {
        values_under(headers.drop_last(), key).push(headers.last().1)
    } else {
        values_under(headers.drop_last(), key)
    }
}

/// `m` with the headers of a run added, each value under its key in the
/// order of arrival.
pub open spec fn collect_onto(m: HeaderMap, headers: Seq<(Seq<char>, Seq<char>)>) -> HeaderMap
    decreases headers.len(),
{
    if headers.len() == 0 {
        m
    } else {
        collect_onto(with_header(m, headers[0].0, headers[0].1), headers.skip(1))
    }
}

/// Adding a run of headers and then one more is adding the longer run.
pub proof fn lemma_collect_onto_push(
    m: HeaderMap,
    headers: Seq<(Seq<char>, Seq<char>)>,
    last: (Seq<char>, Seq<char>),
)
    ensures
        collect_onto(m, headers.push(last)) == with_header(
            collect_onto(m, headers),
            last.0,
            last.1,
        ),
    decreases headers.len(),
{
    let longer = headers.push(last);
    if headers.len() == 0 {
        assert(longer.skip(1) =~= Seq::<(Seq<char>, Seq<char>)>::empty());
        assert(collect_onto(with_header(m, last.0, last.1), longer.skip(1)) == with_header(
            m,
            last.0,
            last.1,
        ));
    } else {
        assert(longer.skip(1) =~= headers.skip(1).push(last));
        lemma_collect_onto_push(with_header(m, headers[0].0, headers[0].1), headers.skip(1), last);
    }
}

/// Building a map from a run of headers is adding the run to the empty map.
pub proof fn lemma_collect_from_empty(headers: Seq<(Seq<char>, Seq<char>)>)
    ensures
        collect_onto(Map::empty(), headers) == collect(headers),
    decreases headers.len(),
{
    if headers.len() > 0 {
        lemma_collect_from_empty(headers.drop_last());
        lemma_collect_onto_push(Map::empty(), headers.drop_last(), headers.last());
        assert(headers.drop_last().push(headers.last()) =~= headers);
    }
}

/// Repeated headers keep all their values, in the order of arrival, under
/// one key: the map built from a run of headers has a key exactly where the
/// run has a header of that key, and holds under it the values of those
/// headers in their order.
pub proof fn lemma_values_keep_arrival_order(headers: Seq<(Seq<char>, Seq<char>)>, key: Seq<char>)
    ensures
        collect(headers).contains_key(key) <==> values_under(headers, key).len() > 0,
        collect(headers).contains_key(key) ==> collect(headers)[key] == values_under(
            headers,
            key,
        ),
    decreases headers.len(),
{
    if headers.len() > 0 {
        lemma_values_keep_arrival_order(headers.drop_last(), key);
    }
}

/// Lookups ignore the case of letters: two names with the same lower-case
/// form find the same values.
pub proof fn lemma_lookup_ignores_case(m: HeaderMap, a: Seq<char>, b: Seq<char>)
    requires
        lowercase(a) == lowercase(b),
    ensures
        lookup(m, a) == lookup(m, b),
{
}

/// The headers of a request: each key once, in the order of first arrival,
/// with every value that came under it.
#[derive(Debug)]
pub struct Headers {
    entries: Vec<(String, Vec<String>)>,
}

/// The keys of a list of entries.
spec fn keys(entries: Seq<(String, Vec<String>)>) -> Seq<Seq<char>> {
    Seq::new(entries.len(), |i: int| entries[i].0@)
}

/// The map that a list of entries stands for.
spec fn entry_map(entries: Seq<(String, Vec<String>)>) -> HeaderMap {
    Map::new(
        |k: Seq<char>| position(keys(entries), k) < entries.len(),
        |k: Seq<char>| texts(entries[position(keys(entries), k)].1@),
    )
}

/// With distinct keys the map has one key for each entry.
proof fn lemma_entry_count(entries: Seq<(String, Vec<String>)>)
    requires
        forall|i: int, j: int|
            0 <= i < j < entries.len() ==> entries[i].0@ != entries[j].0@,
    ensures
        entry_map(entries).dom().finite(),
        entry_map(entries).dom().len() == entries.len(),
    decreases entries.len(),
{
    let dom = entry_map(entries).dom();
    if entries.len() == 0 {
        assert(dom =~= Set::empty());
    } else {
        let front = entries.drop_last();
        let last = entries.last().0@;
        lemma_entry_count(front);
        let front_dom = entry_map(front).dom();
        assert forall|k: Seq<char>| dom.contains(k) <==> front_dom.insert(last).contains(k) by {
            lemma_position(keys(entries), k);
            lemma_position(keys(front), k);
            let p = position(keys(entries), k);
            let q = position(keys(front), k);
            if q < front.len() {
                assert(keys(entries)[q] == k);
                lemma_position_is(keys(entries), k, q);
            } else if k == last {
                assert(keys(entries)[entries.len() - 1] == k);
            } else if p < entries.len() {
                assert(keys(entries)[p] == k);
                assert(keys(front)[p] == k);
            }
        }
        assert(dom =~= front_dom.insert(last));
        assert(!front_dom.contains(last)) by {
            lemma_position(keys(front), last);
            let q = position(keys(front), last);
            if q < front.len() {
                assert(keys(front)[q] == last);
                assert(entries[q].0@ == last);
            }
        }
    }
}

impl View for Headers {
    type V = HeaderMap;

    closed spec fn view(&self) -> HeaderMap {
        entry_map(self.entries@)
    }
}

impl Headers {
    #[verifier::type_invariant]
    spec fn well_formed(self) -> bool {
        &&& forall|i: int, j: int|
            0 <= i < j < self.entries.len() ==> self.entries[i].0@ != self.entries[j].0@
        &&& forall|i: int| 0 <= i < self.entries.len() ==> (#[trigger] self.entries[i]).1.len() > 0
    }

    /// No headers.
    pub fn new() -> (h: Self)
        ensures
            h@ == Map::<Seq<char>, Seq<Seq<char>>>::empty(),
    {
        let h = Headers { entries: Vec::new() };
        assert(h@ =~= Map::<Seq<char>, Seq<Seq<char>>>::empty());
        h
    }

    /// The number of distinct keys.
    pub fn len(&self) -> (n: usize)
        ensures
            self@.dom().finite(),
            n == self@.dom().len(),
    {
        proof {
            use_type_invariant(self);
            lemma_entry_count(self.entries@);
        }
        self.entries.len()
    }

    /// The index of the entry with this key, or the number of entries.
    fn slot(&self, key: &str) -> (i: usize)
        ensures
            i == position(keys(self.entries@), key@),
            i <= self.entries.len(),
    {
        let mut i: usize = 0;
        while i < self.entries.len() && !text_eq(self.entries[i].0.as_str(), key)
            invariant
                i <= self.entries.len(),
                forall|j: int| 0 <= j < i ==> keys(self.entries@)[j] != key@,
            decreases self.entries.len() - i,
        {
            i += 1;
        }
        proof {
            lemma_position_is(keys(self.entries@), key@, i as int);
        }
        i
    }

    /// The values that came under exactly this key, in the order of their arrival.
    pub fn get(&self, key: &str) -> (r: Option<&Vec<String>>)
        ensures
            match r {
                Some(values) => self@.contains_key(key@) && texts(values@) == self@[key@]
                    && values.len() > 0,
                None => !self@.contains_key(key@),
            },
    {
        let i = self.slot(key);
        if i < self.entries.len() {
            proof {
                use_type_invariant(self);
            }
            Some(&self.entries[i].1)
        } else {
            None
        }
    }

    /// The values under the key that a name in lower case stands for: `get`
    /// at the trimmed name.
    pub fn get_lowered(&self, lowered_name: &str) -> (r: Option<&Vec<String>>)
        ensures
            match r {
                Some(values) => self@.contains_key(trim(lowered_name@)) && texts(values@)
                    == self@[trim(lowered_name@)] && values.len() > 0,
                None => !self@.contains_key(trim(lowered_name@)),
            },
    {
        let key = trimmed(lowered_name);
        self.get(key.as_str())
    }

    /// The values under a header name, whatever the case of its letters.
    pub fn get_ignore_case(&self, name: &str) -> (r: Option<&Vec<String>>)
        ensures
            match r {
                Some(values) => lookup(self@, name@) == Some(texts(values@)) && values.len() > 0,
                None => lookup(self@, name@) is None,
            },
    {
        let lowered = to_lowercase(name);
        self.get_lowered(lowered.as_str())
    }

    /// These headers with one more value under `key`, after those already there.
    pub fn append(self, key: String, value: String) -> (h: Self)
        ensures
            h@ == with_header(self@, key@, value@),
    {
        proof {
            use_type_invariant(&self);
        }
        let i = self.slot(key.as_str());
        let mut entries = self.entries;
        let ghost before = entries@;
        if i < entries.len() {
            entries[i].1.push(value);
            proof {
                let after = entries@;
                lemma_position(keys(before), key@);
                assert(after.len() == before.len());
                assert(after[i as int].0 == before[i as int].0);
                assert(after[i as int].1@ == before[i as int].1@.push(value));
                assert(forall|j: int| 0 <= j < after.len() && j != i ==> after[j] == before[j]);
                assert(keys(after) =~= keys(before));
                assert(texts(after[i as int].1@) =~= texts(before[i as int].1@).push(value@));
                let target = with_header(entry_map(before), key@, value@);
                assert forall|k: Seq<char>| #[trigger]
                    entry_map(after).contains_key(k) implies entry_map(after)[k] == target[k] by {
                    lemma_position(keys(before), k);
                    let p = position(keys(before), k);
                    assert(keys(before)[p] == k);
                    if k != key@ {
                        assert(p != i);
                        assert(after[p] == before[p]);
                    }
                }
                assert(entry_map(after) =~= target);
            }
        } else {
            let mut values: Vec<String> = Vec::new();
            values.push(value);
            entries.push((key, values));
            proof {
                let after = entries@;
                lemma_position(keys(before), key@);
                assert(forall|j: int| 0 <= j < before.len() ==> after[j] == before[j]);
                assert forall|a: int, b: int| 0 <= a < b < after.len() implies after[a].0@
                    != after[b].0@ by {
                    if b == before.len() {
                        assert(keys(before)[a] != key@);
                    }
                }
                assert(texts(after.last().1@) =~= Seq::<Seq<char>>::empty().push(value@));
                let target = with_header(entry_map(before), key@, value@);
                assert(!entry_map(before).contains_key(key@));
                assert forall|k: Seq<char>| #[trigger]
                    entry_map(after).contains_key(k) == target.contains_key(k) && (target.contains_key(
                        k,
                    ) ==> entry_map(after)[k] == target[k]) by {
                    lemma_position(keys(before), k);
                    lemma_position(keys(after), k);
                    let p = position(keys(after), k);
                    let q = position(keys(before), k);
                    if q < before.len() {
                        assert(keys(before)[q] == k);
                        assert(keys(after)[q] == k);
                        assert forall|j: int| 0 <= j < q implies keys(after)[j] != k by {
                            assert(keys(after)[j] == keys(before)[j]);
                        }
                        lemma_position_is(keys(after), k, q);
                        assert(k != key@);
                        assert(after[q] == before[q]);
                    } else if k == key@ {
                        assert(keys(after)[before.len() as int] == k);
                        assert forall|j: int| 0 <= j < before.len() implies keys(after)[j]
                            != k by {
                            assert(keys(after)[j] == keys(before)[j]);
                        }
                        lemma_position_is(keys(after), k, before.len() as int);
                        assert(entry_map(after)[k] == texts(after.last().1@));
                    } else {
                        if p < after.len() {
                            assert(keys(after)[p] == k);
                            if p < before.len() {
                                assert(keys(before)[p] == k);
                            }
                        }
                        assert(!entry_map(after).contains_key(k));
                        assert(!target.contains_key(k));
                    }
                }
                assert(entry_map(after).dom() =~= target.dom());
                assert(entry_map(after) =~= target);
            }
        }
        Headers { entries }
    }
}

} // verus!
