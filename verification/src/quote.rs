//! Market quotes and the code-to-quote mapping.
//!
//! A `QuoteMap` is an association list with distinct codes, abstracted as a
//! `Map<Seq<char>, QuoteV>`.  Insertion keeps an existing entry ("first quote
//! for a code wins"), which is exactly the merge rule of the fallback path:
//! a live quote already present is never overwritten.

use vstd::prelude::*;

use crate::position::MAX_PRICE;
use crate::text::str_eq;

verus! {

/// Mathematical image of a quote.
pub struct QuoteV {
    pub code: Seq<char>,
    pub name: Seq<char>,
    pub price: int,
}

/// A current quote for one instrument: display name and price in minor units.
#[derive(Debug, Clone)]
pub struct RealQuote {
    pub code: String,
    pub name: String,
    pub real_price: i64,
}

impl DeepView for RealQuote {
    type V = QuoteV;

    open spec fn deep_view(&self) -> QuoteV {
        QuoteV { code: self.code@, name: self.name@, price: self.real_price as int }
    }
}

impl RealQuote {
    pub fn new(code: String, name: String, real_price: i64) -> (r: RealQuote)
        ensures
            r.code == code,
            r.name == name,
            r.real_price == real_price,
    {
        RealQuote { code, name, real_price }
    }
}

/// The finite map described by an association list (later entries win).
pub open spec fn map_of(s: Seq<QuoteV>) -> Map<Seq<char>, QuoteV>
    decreases s.len(),
{
    if s.len() == 0 {
        Map::empty()
    } else {
        map_of(s.drop_last()).insert(s.last().code, s.last())
    }
}

/// A code-keyed collection of quotes.  Codes are unique and every stored
/// price lies in `0 ..= MAX_PRICE`.
#[derive(Debug, Clone)]
pub struct QuoteMap {
    entries: Vec<RealQuote>,
}

impl View for QuoteMap {
    type V = Map<Seq<char>, QuoteV>;

    closed spec fn view(&self) -> Map<Seq<char>, QuoteV> {
        map_of(self.entries.deep_view())
    }
}

/// Every price of the map lies in `0 ..= MAX_PRICE`.
pub open spec fn prices_in_range(m: Map<Seq<char>, QuoteV>) -> bool {
    forall|c: Seq<char>| #[trigger] m.contains_key(c) ==> 0 <= m[c].price <= MAX_PRICE
}

impl QuoteMap {
    /// Internal well-formedness: distinct codes, prices in range.  Established
    /// by `new` and preserved by `insert`; callers carry it between calls.
    pub closed spec fn wf(self) -> bool {
        let s = self.entries.deep_view();
        &&& forall|i: int, j: int| 0 <= i < j < s.len() ==> (#[trigger] s[i].code) != (
        #[trigger] s[j].code)
        &&& forall|i: int| 0 <= i < s.len() ==> 0 <= (#[trigger] s[i]).price <= MAX_PRICE
    }

    /// An empty map.
    pub fn new() -> (r: QuoteMap)
        ensures
            r@ == Map::<Seq<char>, QuoteV>::empty(),
            r.wf(),
    {
        QuoteMap { entries: Vec::new() }
    }

    /// Whether a quote is stored for `code`.
    pub fn contains(&self, code: &str) -> (r: bool)
        requires
            self.wf(),
        ensures
            r == self@.contains_key(code@),
    {
        let mut i: usize = 0;
        let ghost s = self.entries.deep_view();
        while i < self.entries.len()
            invariant
                i <= s.len(),
                s == self.entries.deep_view(),
                s.len() == self.entries.len(),
                forall|j: int| 0 <= j < i ==> (#[trigger] s[j]).code != code@,
            decreases s.len() - i,
        {
            if str_eq(self.entries[i].code.as_str(), code) {
                proof {
                    lemma_map_of_contains_at(s, i as int);
                }
                return true;
            }
            i = i + 1;
        }
        proof {
            lemma_map_of_absent(s, code@);
        }
        false
    }

    /// The stored quote for `code`, if any.
    pub fn get(&self, code: &str) -> (r: Option<&RealQuote>)
        requires
            self.wf(),
        ensures
            match r {
                Some(q) => self@.contains_key(code@) && q.deep_view() == self@[code@] && 0
                    <= q.real_price <= MAX_PRICE,
                None => !self@.contains_key(code@),
            },
    {
        let mut i: usize = 0;
        let ghost s = self.entries.deep_view();
        while i < self.entries.len()
            invariant
                self.wf(),
                i <= s.len(),
                s == self.entries.deep_view(),
                s.len() == self.entries.len(),
                forall|j: int| 0 <= j < i ==> (#[trigger] s[j]).code != code@,
            decreases s.len() - i,
        {
            if str_eq(self.entries[i].code.as_str(), code) {
                proof {
                    lemma_map_of_distinct_get(s, i as int);
                }
                return Some(&self.entries[i]);
            }
            i = i + 1;
        }
        proof {
            lemma_map_of_absent(s, code@);
        }
        None
    }

    /// Store `q` unless a quote for its code is already present: the first
    /// quote stored for a code wins.
    pub fn insert(&mut self, q: RealQuote)
        requires
            old(self).wf(),
            0 <= q.real_price <= MAX_PRICE,
        ensures
            final(self).wf(),
            final(self)@ == if old(self)@.contains_key(q.code@) {
                old(self)@
            } else {
                old(self)@.insert(q.code@, q.deep_view())
            },
    {
        if !self.contains(q.code.as_str()) {
            let ghost s = self.entries.deep_view();
            proof {
                lemma_map_of_contains_key(s, q.code@);
            }
            self.entries.push(q);
            proof {
                assert(self.entries.deep_view() =~= s.push(q.deep_view()));
                assert(self.entries.deep_view().drop_last() =~= s);
                assert(self.entries.deep_view().last() == q.deep_view());
            }
        }
    }

    /// Number of stored quotes.
    pub fn len(&self) -> (r: usize)
        requires
            self.wf(),
        ensures
            r == self@.dom().len(),
    {
        proof {
            lemma_map_of_dom_len(self.entries.deep_view());
        }
        self.entries.len()
    }

    /// All stored prices of a well-formed map are within range.
    pub proof fn lemma_prices_in_range(&self)
        requires
            self.wf(),
        ensures
            prices_in_range(self@),
    {
        lemma_map_of_values(self.entries.deep_view());
    }
}

/// A key is in `map_of(s)` exactly when some entry carries it.
proof fn lemma_map_of_contains_key(s: Seq<QuoteV>, c: Seq<char>)
    ensures
        map_of(s).contains_key(c) <==> exists|i: int|
            0 <= i < s.len() && (#[trigger] s[i]).code == c,
    decreases s.len(),
{
    if s.len() > 0 {
        lemma_map_of_contains_key(s.drop_last(), c);
        if s.last().code == c {
            assert(s[s.len() - 1].code == c);
        } else {
            if map_of(s).contains_key(c) {
                let i = choose|i: int|
                    0 <= i < s.drop_last().len() && (#[trigger] s.drop_last()[i]).code == c;
                assert(s[i].code == c);
            }
            if exists|i: int| 0 <= i < s.len() && (#[trigger] s[i]).code == c {
                let i = choose|i: int| 0 <= i < s.len() && (#[trigger] s[i]).code == c;
                assert(i != s.len() - 1);
                assert(s.drop_last()[i].code == c);
            }
        }
    }
}

/// The entry at `i` is reachable through the map.
proof fn lemma_map_of_contains_at(s: Seq<QuoteV>, i: int)
    requires
        0 <= i < s.len(),
    ensures
        map_of(s).contains_key(s[i].code),
    decreases s.len(),
{
    if i < s.len() - 1 {
        lemma_map_of_contains_at(s.drop_last(), i);
        assert(s.drop_last()[i] == s[i]);
    }
}

/// Nothing is found under a code that no entry carries.
proof fn lemma_map_of_absent(s: Seq<QuoteV>, c: Seq<char>)
    requires
        forall|i: int| 0 <= i < s.len() ==> (#[trigger] s[i]).code != c,
    ensures
        !map_of(s).contains_key(c),
    decreases s.len(),
{
    if s.len() > 0 {
        assert(forall|i: int|
            0 <= i < s.drop_last().len() ==> (#[trigger] s.drop_last()[i]) == s[i]);
        lemma_map_of_absent(s.drop_last(), c);
    }
}

/// With distinct codes, the map returns exactly the entry that carries the key.
proof fn lemma_map_of_distinct_get(s: Seq<QuoteV>, i: int)
    requires
        0 <= i < s.len(),
        forall|k: int, j: int| 0 <= k < j < s.len() ==> (#[trigger] s[k].code) != (
        #[trigger] s[j].code),
    ensures
        map_of(s).contains_key(s[i].code),
        map_of(s)[s[i].code] == s[i],
    decreases s.len(),
{
    if i == s.len() - 1 {
        assert(s.last() == s[i]);
    } else {
        assert(forall|k: int, j: int|
            0 <= k < j < s.drop_last().len() ==> (#[trigger] s.drop_last()[k].code) != (
            #[trigger] s.drop_last()[j].code));
        lemma_map_of_distinct_get(s.drop_last(), i);
        assert(s.drop_last()[i] == s[i]);
        assert(s[i].code != s.last().code);
    }
}

/// Every value of the map is one of the entries, so its price is in range
/// whenever all entry prices are.
proof fn lemma_map_of_values(s: Seq<QuoteV>)
    requires
        forall|i: int| 0 <= i < s.len() ==> 0 <= (#[trigger] s[i]).price <= MAX_PRICE,
    ensures
        prices_in_range(map_of(s)),
    decreases s.len(),
{
    if s.len() > 0 {
        assert(forall|i: int|
            0 <= i < s.drop_last().len() ==> (#[trigger] s.drop_last()[i]) == s[i]);
        lemma_map_of_values(s.drop_last());
    }
}

/// With distinct codes, the map has exactly one key per entry.
proof fn lemma_map_of_dom_len(s: Seq<QuoteV>)
    requires
        forall|k: int, j: int| 0 <= k < j < s.len() ==> (#[trigger] s[k].code) != (
        #[trigger] s[j].code),
    ensures
        map_of(s).dom().finite(),
        map_of(s).dom().len() == s.len(),
    decreases s.len(),
{
    if s.len() > 0 {
        assert(forall|k: int, j: int|
            0 <= k < j < s.drop_last().len() ==> (#[trigger] s.drop_last()[k].code) != (
            #[trigger] s.drop_last()[j].code));
        lemma_map_of_dom_len(s.drop_last());
        lemma_map_of_absent(s.drop_last(), s.last().code);
        assert(map_of(s).dom() =~= map_of(s.drop_last()).dom().insert(s.last().code));
    }
}

} // verus!
