//! Reordering maps results by relevance, rating, distance or price.
//!
//! A place is known to the ordering by keys that stand for its rating and its
//! distance (integers in the same order as the numbers, given by the caller)
//! and by its price text, which is ranked here. Places without the key come
//! last in either direction, and places with equal keys keep the order of the
//! API.

use vstd::prelude::*;

use crate::cli::{default_order_of, default_maps_order, MapsOrder, MapsSort};
use crate::text::{chars_of, is_ascii_digit, is_whitespace, unicode_white_space};

verus! {

/// What the ordering knows of one maps result.
#[derive(Debug)]
pub struct MapsPlace {
    /// The rating, as an integer in the order of the ratings.
    pub rating: Option<u64>,
    /// The distance, as an integer in the order of the distances.
    pub distance: Option<u64>,
    /// The price text as the API gives it (`"$$"`, `"€20–60"`, ...).
    pub price: Option<String>,
}

impl MapsPlace {
    /// A copy of this place.
    pub fn duplicate(&self) -> (copy: MapsPlace)
        ensures
            copy == *self,
    {
        MapsPlace { rating: self.rating, distance: self.distance, price: self.price.clone() }
    }
}

/// The position of the first ASCII digit of `s` at or after `i`.
pub open spec fn first_digit_from(s: Seq<char>, i: int) -> Option<int>
    decreases s.len() - i,
{
    if i < 0 || i >= s.len() {
        None
    } else if is_ascii_digit(s[i]) {
        Some(i)
    } else {
        first_digit_from(s, i + 1)
    }
}

/// Where the run of ASCII digits that starts at `i` ends.
pub open spec fn digit_run_end(s: Seq<char>, i: int) -> int
    decreases s.len() - i,
{
    if 0 <= i < s.len() && is_ascii_digit(s[i]) {
        digit_run_end(s, i + 1)
    } else {
        i
    }
}

/// The number that a run of ASCII digits writes.
pub open spec fn digits_value(digits: Seq<char>) -> nat
    decreases digits.len(),
{
    if digits.len() == 0 {
        0
    } else {
        digits_value(digits.drop_last()) * 10 + ((digits.last() as int) - ('0' as int)) as nat
    }
}

/// The price level of an amount: below 15 is 1, below 30 is 2, below 60 is 3,
/// anything else 4.
pub open spec fn price_level(amount: nat) -> nat {
    if amount < 15 {
        1
    } else if amount < 30 {
        2
    } else if amount < 60 {
        3
    } else {
        4
    }
}

/// The rank of an amount: its level, with the amount (up to 9900) folded in
/// below the level, in units of 1/10000 of a level.
pub open spec fn amount_rank(amount: nat) -> nat {
    price_level(amount) * 10000 + if amount < 9900 { amount } else { 9900 }
}

/// How many characters of `s` are not `White_Space`.
pub open spec fn non_white_count(s: Seq<char>) -> nat
    decreases s.len(),
{
    if s.len() == 0 {
        0
    } else {
        non_white_count(s.drop_last()) + if unicode_white_space(s.last()) { 0nat } else { 1nat }
    }
}

/// The rank of a price text, in units of 1/10000 of a price level. An amount
/// ("€20–60", "€100+": the first run of digits) ranks by its level, with the
/// amount breaking ties within the level; a run of currency symbols ("$$$")
/// ranks as the level given by its count of non-whitespace characters; a
/// blank text has no rank.
pub open spec fn price_rank(price: Seq<char>) -> Option<nat> {
    match first_digit_from(price, 0) {
        Some(start) => Some(amount_rank(digits_value(price.subrange(start, digit_run_end(price, start))))),
        None => {
            let count = non_white_count(price);
            if count > 0 {
                Some(count * 10000)
            } else {
                None
            }
        },
    }
}

proof fn lemma_capped_value(digits: Seq<char>, capped: nat)
    requires
        capped == if digits_value(digits) < 10000 { digits_value(digits) } else { 10000 },
    ensures
        amount_rank(capped) == amount_rank(digits_value(digits)),
{
}

/// The sort key of `price` (see `price_rank`), in units of 1/10000 of a level.
pub fn price_sort_key(price: &str) -> (key: Option<u128>)
    ensures
        match key {
            Some(k) => price_rank(price@) == Some(k as nat),
            None => price_rank(price@) is None,
        },
{
    let chars = chars_of(price);
    let ghost s = price@;
    let mut i: usize = 0;
    while i < chars.len() && !('0' <= chars[i] && chars[i] <= '9')
        invariant
            chars@ == s,
            i <= chars.len(),
            first_digit_from(s, 0) == first_digit_from(s, i as int),
        decreases chars.len() - i,
    {
        i = i + 1;
    }
    if i < chars.len() {
        let start = i;
        let mut amount: u64 = 0;
        let mut k: usize = start;
        while k < chars.len() && '0' <= chars[k] && chars[k] <= '9'
            invariant
                chars@ == s,
                start <= k <= chars.len(),
                digit_run_end(s, start as int) == digit_run_end(s, k as int),
                amount == if digits_value(s.subrange(start as int, k as int)) < 10000 {
                    digits_value(s.subrange(start as int, k as int))
                } else {
                    10000
                },
            decreases chars.len() - k,
        {
            let d = (chars[k] as u32 - '0' as u32) as u64;
            proof {
                let run = s.subrange(start as int, k + 1);
                assert(run.drop_last() =~= s.subrange(start as int, k as int));
                assert(run.last() == s[k as int]);
            }
            let next = amount * 10 + d;
            amount = if next < 10000 { next } else { 10000 };
            k = k + 1;
        }
        let level: u64 = if amount < 15 {
            1
        } else if amount < 30 {
            2
        } else if amount < 60 {
            3
        } else {
            4
        };
        let fraction: u64 = if amount < 9900 { amount } else { 9900 };
        proof {
            lemma_capped_value(s.subrange(start as int, k as int), amount as nat);
        }
        Some((level * 10000 + fraction) as u128)
    } else {
        proof {
            assert(first_digit_from(s, 0) is None);
        }
        let mut count: u64 = 0;
        let mut j: usize = 0;
        while j < chars.len()
            invariant
                chars@ == s,
                j <= chars.len(),
                count == non_white_count(s.take(j as int)),
                count <= j,
            decreases chars.len() - j,
        {
            proof {
                assert(s.take(j + 1).drop_last() =~= s.take(j as int));
            }
            if !is_whitespace(chars[j]) {
                count = count + 1;
            }
            j = j + 1;
        }
        proof {
            assert(s.take(chars.len() as int) =~= s);
        }
        if count > 0 {
            Some(count as u128 * 10000)
        } else {
            None
        }
    }
}

/// An optional integer key as a number.
pub open spec fn key_value(key: Option<u128>) -> Option<nat> {
    match key {
        Some(k) => Some(k as nat),
        None => None,
    }
}

/// The key of a place under an ordering (relevance has none: it is the API's order).
pub open spec fn place_key(place: MapsPlace, sort: MapsSort) -> Option<nat> {
    match sort {
        MapsSort::Rating => match place.rating {
            Some(r) => Some(r as nat),
            None => None,
        },
        MapsSort::Distance => match place.distance {
            Some(d) => Some(d as nat),
            None => None,
        },
        MapsSort::Price => match place.price {
            Some(p) => price_rank(p@),
            None => None,
        },
        MapsSort::Relevance => None,
    }
}

/// `left` comes strictly before `right`: a smaller key first when ascending,
/// a larger one first when descending, and any key before a missing one.
pub open spec fn key_before(left: Option<nat>, right: Option<nat>, order: MapsOrder) -> bool {
    match (left, right) {
        (Some(a), Some(b)) => match order {
            MapsOrder::Asc => a < b,
            MapsOrder::Desc => a > b,
        },
        (Some(_), None) => true,
        _ => false,
    }
}

/// Place `i` ranks before place `j`: by key, and by API position among equal keys.
pub open spec fn ranks_before(keys: Seq<Option<nat>>, order: MapsOrder, i: int, j: int) -> bool {
    key_before(keys[i], keys[j], order) || (!key_before(keys[j], keys[i], order) && i < j)
}

/// `ranking` lists position `x`.
pub open spec fn lists(ranking: Seq<usize>, x: int) -> bool {
    exists|k: int| 0 <= k < ranking.len() && ranking[k] == x
}

/// `ranking` lists each of the positions `0..n` once.
pub open spec fn is_ranking(ranking: Seq<usize>, n: nat) -> bool {
    &&& ranking.len() == n
    &&& forall|k: int| 0 <= k < n ==> #[trigger] ranking[k] < n
    &&& forall|k1: int, k2: int| 0 <= k1 < k2 < n ==> ranking[k1] != ranking[k2]
    &&& forall|x: int| 0 <= x < n ==> #[trigger] lists(ranking, x)
}

/// Every position of `ranking` ranks before every later one.
pub open spec fn ranked_in_order(ranking: Seq<usize>, keys: Seq<Option<nat>>, order: MapsOrder) -> bool {
    forall|k1: int, k2: int|
        0 <= k1 < k2 < ranking.len() ==> ranks_before(keys, order, #[trigger] ranking[k1] as int, #[trigger] ranking[k2] as int)
}

/// The positions `0..n` in API order.
pub open spec fn api_order(n: nat) -> Seq<usize> {
    Seq::new(n, |k: int| k as usize)
}

/// The positions `0..n` in reverse API order.
pub open spec fn reverse_api_order(n: nat) -> Seq<usize> {
    Seq::new(n, |k: int| (n - 1 - k) as usize)
}

/// The keys of `places` under `sort`.
pub open spec fn keys_of(places: Seq<MapsPlace>, sort: MapsSort) -> Seq<Option<nat>> {
    Seq::new(places.len(), |k: int| place_key(places[k], sort))
}

proof fn lemma_ranks_transitive(keys: Seq<Option<nat>>, order: MapsOrder, a: int, b: int, c: int)
    requires
        ranks_before(keys, order, a, b),
        ranks_before(keys, order, b, c),
    ensures
        ranks_before(keys, order, a, c),
{
}

fn key_before_exec(left: Option<u128>, right: Option<u128>, order: MapsOrder) -> (before: bool)
    ensures
        before == key_before(key_value(left), key_value(right), order),
{
    match (left, right) {
        (Some(a), Some(b)) => match order {
            MapsOrder::Asc => a < b,
            MapsOrder::Desc => a > b,
        },
        (Some(_), None) => true,
        _ => false,
    }
}

fn key_of(place: &MapsPlace, sort: MapsSort) -> (key: Option<u128>)
    ensures
        key_value(key) == place_key(*place, sort),
{
    match sort {
        MapsSort::Rating => match place.rating {
            Some(r) => Some(r as u128),
            None => None,
        },
        MapsSort::Distance => match place.distance {
            Some(d) => Some(d as u128),
            None => None,
        },
        MapsSort::Price => match &place.price {
            Some(p) => price_sort_key(p.as_str()),
            None => None,
        },
        MapsSort::Relevance => None,
    }
}

fn identity_ranking(n: usize) -> (ranking: Vec<usize>)
    ensures
        ranking@ == api_order(n as nat),
        is_ranking(ranking@, n as nat),
{
    let mut ranking: Vec<usize> = Vec::new();
    let mut k: usize = 0;
    while k < n
        invariant
            k <= n,
            ranking@ =~= api_order(k as nat),
        decreases n - k,
    {
        ranking.push(k);
        k = k + 1;
    }
    proof {
        assert forall|x: int| 0 <= x < n implies #[trigger] lists(ranking@, x) by {
            assert(ranking@[x] == x);
        }
    }
    ranking
}

fn reverse_ranking(n: usize) -> (ranking: Vec<usize>)
    ensures
        ranking@ == reverse_api_order(n as nat),
        is_ranking(ranking@, n as nat),
{
    let mut ranking: Vec<usize> = Vec::new();
    let mut k: usize = 0;
    while k < n
        invariant
            k <= n,
            ranking@ =~= Seq::new(k as nat, |m: int| (n - 1 - m) as usize),
        decreases n - k,
    {
        ranking.push(n - 1 - k);
        k = k + 1;
    }
    proof {
        assert forall|x: int| 0 <= x < n implies #[trigger] lists(ranking@, x) by {
            assert(ranking@[n - 1 - x] == x);
        }
    }
    ranking
}

/// Ranks the positions of `keys` by key and, among equal keys, by position.
fn rank_by_keys(keys: &Vec<Option<u128>>, order: MapsOrder) -> (ranking: Vec<usize>)
    ensures
        is_ranking(ranking@, keys@.len()),
        ranked_in_order(ranking@, keys@.map_values(|k: Option<u128>| key_value(k)), order),
{
    let ghost kv = keys@.map_values(|k: Option<u128>| key_value(k));
    let n = keys.len();
    let mut ranking: Vec<usize> = Vec::new();
    let mut i: usize = 0;
    while i < n
        invariant
            n == keys@.len(),
            kv == keys@.map_values(|k: Option<u128>| key_value(k)),
            i <= n,
            is_ranking(ranking@, i as nat),
            ranked_in_order(ranking@, kv, order),
        decreases n - i,
    {
        let mut j: usize = ranking.len();
        while j > 0 && key_before_exec(keys[i], keys[ranking[j - 1]], order)
            invariant
                n == keys@.len(),
                kv == keys@.map_values(|k: Option<u128>| key_value(k)),
                i < n,
                is_ranking(ranking@, i as nat),
                j <= ranking.len(),
                forall|m: int| j <= m < ranking.len() ==> key_before(kv[i as int], kv[#[trigger] ranking@[m] as int], order),
            decreases j,
        {
            proof {
                assert(kv[i as int] == key_value(keys@[i as int]));
                assert(kv[ranking@[j - 1] as int] == key_value(keys@[ranking@[j - 1] as int]));
            }
            j = j - 1;
        }
        proof {
            if j > 0 {
                assert(kv[i as int] == key_value(keys@[i as int]));
                assert(kv[ranking@[j - 1] as int] == key_value(keys@[ranking@[j - 1] as int]));
                assert(ranks_before(kv, order, ranking@[j - 1] as int, i as int));
                assert forall|m: int| 0 <= m < j - 1 implies ranks_before(kv, order, #[trigger] ranking@[m] as int, i as int) by {
                    lemma_ranks_transitive(kv, order, ranking@[m] as int, ranking@[j - 1] as int, i as int);
                }
            }
        }
        let ghost old_ranking = ranking@;
        ranking.insert(j, i);
        proof {
            old_ranking.insert_ensures(j as int, i);
            let r = ranking@;
            assert forall|k: int| 0 <= k < i + 1 implies #[trigger] r[k] < i + 1 by {
                if k > j {
                    assert(r[k] == old_ranking[k - 1]);
                }
            }
            assert forall|x: int| 0 <= x < i + 1 implies #[trigger] lists(r, x) by {
                if x == i {
                    assert(r[j as int] == x);
                } else {
                    assert(lists(old_ranking, x));
                    let k = choose|k: int| 0 <= k < i && old_ranking[k] == x;
                    if k < j {
                        assert(r[k] == x);
                    } else {
                        assert(r[k + 1] == x);
                    }
                }
            }
            assert forall|k1: int, k2: int| 0 <= k1 < k2 < i + 1 implies r[k1] != r[k2] by {
                if k2 > j {
                    assert(r[k2] == old_ranking[k2 - 1]);
                }
                if k1 > j {
                    assert(r[k1] == old_ranking[k1 - 1]);
                }
            }
            assert forall|k1: int, k2: int| 0 <= k1 < k2 < r.len() implies ranks_before(kv, order, #[trigger] r[k1] as int, #[trigger] r[k2] as int) by {
                if k2 > j {
                    assert(r[k2] == old_ranking[k2 - 1]);
                }
                if k1 > j {
                    assert(r[k1] == old_ranking[k1 - 1]);
                }
            }
        }
        i = i + 1;
    }
    ranking
}

/// `ranking` is the new order of `places` under `sort` and `order`, as
/// `sort_maps_results` describes it.
pub open spec fn is_maps_ranking(
    ranking: Seq<usize>,
    places: Seq<MapsPlace>,
    sort: Option<MapsSort>,
    order: Option<MapsOrder>,
) -> bool {
    &&& is_ranking(ranking, places.len())
    &&& match sort {
        None => ranking == api_order(places.len()),
        Some(MapsSort::Relevance) => ranking == if (match order {
            Some(o) => o,
            None => default_order_of(MapsSort::Relevance),
        }) == MapsOrder::Asc {
            reverse_api_order(places.len())
        } else {
            api_order(places.len())
        },
        Some(s) => ranked_in_order(ranking, keys_of(places, s), match order {
            Some(o) => o,
            None => default_order_of(s),
        }),
    }
}

/// The new order of maps results: for each place of the new order, its
/// position in the API order. Without an ordering the API order stays;
/// relevance keeps it when descending and reverses it when ascending (the
/// API gives descending relevance); rating, distance and price rank by key
/// (`key_before`), places without a key last, ties in API order. A missing
/// direction is the ordering's default.
pub fn sort_maps_results(places: &Vec<MapsPlace>, sort: Option<MapsSort>, order: Option<MapsOrder>) -> (ranking: Vec<usize>)
    ensures
        is_maps_ranking(ranking@, places@, sort, order),
{
    let sort = match sort {
        Some(s) => s,
        None => return identity_ranking(places.len()),
    };
    let direction = match order {
        Some(o) => o,
        None => default_maps_order(sort),
    };
    match sort {
        MapsSort::Relevance => {
            return match direction {
                MapsOrder::Asc => reverse_ranking(places.len()),
                MapsOrder::Desc => identity_ranking(places.len()),
            };
        },
        _ => {},
    }
    let mut keys: Vec<Option<u128>> = Vec::new();
    let mut k: usize = 0;
    while k < places.len()
        invariant
            k <= places@.len(),
            keys@.len() == k,
            forall|m: int| 0 <= m < k ==> key_value(#[trigger] keys@[m]) == place_key(places@[m], sort),
        decreases places.len() - k,
    {
        keys.push(key_of(&places[k], sort));
        k = k + 1;
    }
    let ranking = rank_by_keys(&keys, direction);
    proof {
        assert(keys@.map_values(|key: Option<u128>| key_value(key)) =~= keys_of(places@, sort));
    }
    ranking
}

/// The first `limit` items in the order of `ranking` (all of them when there
/// are fewer): item `k` of the result is item `ranking[k]` of `items`.
pub fn apply_ranking<T>(items: Vec<T>, ranking: &Vec<usize>, limit: usize) -> (out: Vec<T>)
    requires
        is_ranking(ranking@, items@.len()),
    ensures
        out@.len() == if limit < items@.len() { limit as nat } else { items@.len() },
        forall|k: int| 0 <= k < out@.len() ==> out@[k] == items@[ranking@[k] as int],
{
    let ghost original = items@;
    let n = items.len();
    let mut items = items;
    let mut slots: Vec<Option<T>> = Vec::new();
    let mut j: usize = 0;
    while j < n
        invariant
            n == original.len(),
            j <= n,
            items@ == original.subrange(0, n - j),
            slots@.len() == j,
            forall|m: int| 0 <= m < j ==> #[trigger] slots@[m] == Some(original[n - 1 - m]),
        decreases n - j,
    {
        let item = items.pop();
        match item {
            Some(x) => slots.push(Some(x)),
            None => slots.push(None),
        }
        j = j + 1;
    }
    let count = if limit < n { limit } else { n };
    let mut out: Vec<T> = Vec::new();
    let mut k: usize = 0;
    while k < count
        invariant
            n == original.len(),
            count <= n,
            k <= count,
            is_ranking(ranking@, n as nat),
            slots@.len() == n,
            out@.len() == k,
            forall|m: int| 0 <= m < k ==> #[trigger] out@[m] == original[ranking@[m] as int],
            forall|q: int| k <= q < n ==> #[trigger] slots@[n - 1 - ranking@[q]] == Some(original[ranking@[q] as int]),
        decreases count - k,
    {
        let position = ranking[k];
        proof {
            assert(ranking@[k as int] < n);
        }
        let ghost before = slots@;
        let taken = slots[n - 1 - position].take();
        proof {
            assert(taken == Some(original[position as int]));
            assert forall|q: int| k + 1 <= q < n implies #[trigger] slots@[n - 1 - ranking@[q]] == Some(original[ranking@[q] as int]) by {
                assert(ranking@[q] < n);
                assert(ranking@[k as int] != ranking@[q]);
                assert(before[n - 1 - ranking@[q]] == Some(original[ranking@[q] as int]));
            }
        }
        match taken {
            Some(x) => out.push(x),
            None => {},
        }
        k = k + 1;
    }
    out
}

/// The places of a page of maps results.
pub open spec fn places_of<T>(page: Seq<(MapsPlace, T)>) -> Seq<MapsPlace> {
    page.map_values(|entry: (MapsPlace, T)| entry.0)
}

/// The first `limit` results of a page of maps results in the new order: the
/// whole page (each result with what the ordering knows of it) is ranked by
/// `sort_maps_results`, and only then cut to `limit`.
pub fn order_maps_page<T>(page: Vec<(MapsPlace, T)>, sort: Option<MapsSort>, order: Option<MapsOrder>, limit: usize) -> (out: Vec<T>)
    ensures
        out@.len() == if limit < page@.len() { limit as nat } else { page@.len() },
        exists|ranking: Seq<usize>|
            #![trigger is_maps_ranking(ranking, places_of(page@), sort, order)]
            is_maps_ranking(ranking, places_of(page@), sort, order)
            && forall|k: int| 0 <= k < out@.len() ==> out@[k] == page@[ranking[k] as int].1,
{
    let ghost original = page@;
    let n = page.len();
    let mut places: Vec<MapsPlace> = Vec::new();
    let mut i: usize = 0;
    while i < n
        invariant
            n == original.len(),
            page@ == original,
            i <= n,
            places@.len() == i,
            forall|m: int| 0 <= m < i ==> #[trigger] places@[m] == original[m].0,
        decreases n - i,
    {
        places.push(page[i].0.duplicate());
        i = i + 1;
    }
    proof {
        assert(places@ =~= places_of(original));
    }
    let ranking = sort_maps_results(&places, sort, order);
    let mut page = page;
    let mut reversed: Vec<T> = Vec::new();
    let mut j: usize = 0;
    while j < n
        invariant
            n == original.len(),
            j <= n,
            page@ == original.subrange(0, n - j),
            reversed@.len() == j,
            forall|m: int| 0 <= m < j ==> #[trigger] reversed@[m] == original[n - 1 - m].1,
        decreases n - j,
    {
        match page.pop() {
            Some(entry) => reversed.push(entry.1),
            None => {},
        }
        j = j + 1;
    }
    let mut items: Vec<T> = Vec::new();
    let mut k: usize = 0;
    while k < n
        invariant
            n == original.len(),
            k <= n,
            reversed@.len() == n - k,
            forall|m: int| 0 <= m < n - k ==> #[trigger] reversed@[m] == original[n - 1 - m].1,
            items@.len() == k,
            forall|m: int| 0 <= m < k ==> #[trigger] items@[m] == original[m].1,
        decreases n - k,
    {
        match reversed.pop() {
            Some(item) => items.push(item),
            None => {},
        }
        k = k + 1;
    }
    let out = apply_ranking(items, &ranking, limit);
    proof {
        assert(forall|m: int| 0 <= m < out@.len() ==> out@[m] == original[ranking@[m] as int].1);
    }
    out
}

/// The new order of a page is determined: two rankings of the same places
/// under the same ordering are the same.
pub proof fn lemma_maps_ranking_unique(
    r1: Seq<usize>,
    r2: Seq<usize>,
    places: Seq<MapsPlace>,
    sort: Option<MapsSort>,
    order: Option<MapsOrder>,
)
    requires
        is_maps_ranking(r1, places, sort, order),
        is_maps_ranking(r2, places, sort, order),
    ensures
        r1 == r2,
{
    match sort {
        None => {},
        Some(MapsSort::Relevance) => {},
        Some(s) => {
            let direction = match order {
                Some(o) => o,
                None => default_order_of(s),
            };
            lemma_ranking_unique(r1, r2, keys_of(places, s), direction);
        },
    }
}

proof fn lemma_rankings_agree_below(
    r1: Seq<usize>,
    r2: Seq<usize>,
    keys: Seq<Option<nat>>,
    order: MapsOrder,
    k: int,
)
    requires
        is_ranking(r1, keys.len()),
        is_ranking(r2, keys.len()),
        ranked_in_order(r1, keys, order),
        ranked_in_order(r2, keys, order),
        0 <= k <= keys.len(),
    ensures
        forall|m: int| 0 <= m < k ==> r1[m] == r2[m],
    decreases k,
{
    if k > 0 {
        lemma_rankings_agree_below(r1, r2, keys, order, k - 1);
        let m = k - 1;
        if r1[m] != r2[m] {
            let x = r1[m] as int;
            let y = r2[m] as int;
            assert(lists(r2, x));
            assert(lists(r1, y));
            let p = choose|p: int| 0 <= p < keys.len() && r2[p] == x;
            let q = choose|q: int| 0 <= q < keys.len() && r1[q] == y;
            if p < m {
                assert(r1[p] == r2[p]);
            }
            if q < m {
                assert(r2[q] == r1[q]);
            }
            assert(ranks_before(keys, order, r2[m] as int, r2[p] as int));
            assert(ranks_before(keys, order, r1[m] as int, r1[q] as int));
        }
    }
}

/// A ranking in order is the only one: two rankings of the same places, both
/// in order, are the same.
pub proof fn lemma_ranking_unique(r1: Seq<usize>, r2: Seq<usize>, keys: Seq<Option<nat>>, order: MapsOrder)
    requires
        is_ranking(r1, keys.len()),
        is_ranking(r2, keys.len()),
        ranked_in_order(r1, keys, order),
        ranked_in_order(r2, keys, order),
    ensures
        r1 == r2,
{
    lemma_rankings_agree_below(r1, r2, keys, order, keys.len() as int);
    assert(r1 =~= r2);
}

/// Places without a key come after every place with one, in either direction.
pub proof fn lemma_missing_keys_last(ranking: Seq<usize>, keys: Seq<Option<nat>>, order: MapsOrder, k1: int, k2: int)
    requires
        is_ranking(ranking, keys.len()),
        ranked_in_order(ranking, keys, order),
        0 <= k1 < k2 < ranking.len(),
        keys[ranking[k2] as int] is Some,
    ensures
        keys[ranking[k1] as int] is Some,
{
    assert(ranks_before(keys, order, ranking[k1] as int, ranking[k2] as int));
}

/// Places with equal keys keep the order the API gave them in.
pub proof fn lemma_ties_keep_api_order(ranking: Seq<usize>, keys: Seq<Option<nat>>, order: MapsOrder, k1: int, k2: int)
    requires
        is_ranking(ranking, keys.len()),
        ranked_in_order(ranking, keys, order),
        0 <= k1 < k2 < ranking.len(),
        keys[ranking[k1] as int] == keys[ranking[k2] as int],
    ensures
        ranking[k1] < ranking[k2],
{
    assert(ranks_before(keys, order, ranking[k1] as int, ranking[k2] as int));
}

/// When every place has a key and no two keys are equal, the descending
/// order is the ascending order reversed.
pub proof fn lemma_descending_reverses_ascending(ascending: Seq<usize>, descending: Seq<usize>, keys: Seq<Option<nat>>)
    requires
        forall|i: int| 0 <= i < keys.len() ==> (#[trigger] keys[i]) is Some,
        forall|i: int, j: int| 0 <= i < j < keys.len() ==> #[trigger] keys[i] != #[trigger] keys[j],
        is_ranking(ascending, keys.len()),
        ranked_in_order(ascending, keys, MapsOrder::Asc),
        is_ranking(descending, keys.len()),
        ranked_in_order(descending, keys, MapsOrder::Desc),
    ensures
        descending == ascending.reverse(),
{
    let n = keys.len();
    let rev = ascending.reverse();
    assert forall|k: int| 0 <= k < n implies #[trigger] rev[k] < n by {
        assert(rev[k] == ascending[n - 1 - k]);
    }
    assert forall|k1: int, k2: int| 0 <= k1 < k2 < n implies rev[k1] != rev[k2] by {
        assert(rev[k1] == ascending[n - 1 - k1]);
        assert(rev[k2] == ascending[n - 1 - k2]);
    }
    assert forall|x: int| 0 <= x < n implies #[trigger] lists(rev, x) by {
        assert(lists(ascending, x));
        let k = choose|k: int| 0 <= k < n && ascending[k] == x;
        assert(rev[n - 1 - k] == x);
    }
    assert forall|k1: int, k2: int| 0 <= k1 < k2 < rev.len() implies ranks_before(keys, MapsOrder::Desc, #[trigger] rev[k1] as int, #[trigger] rev[k2] as int) by {
        let a = ascending[n - 1 - k2] as int;
        let b = ascending[n - 1 - k1] as int;
        assert(rev[k1] == b);
        assert(rev[k2] == a);
        assert(ranks_before(keys, MapsOrder::Asc, a, b));
        assert(keys[a] is Some && keys[b] is Some);
        if a < b {
            assert(keys[a] != keys[b]);
        } else {
            assert(keys[b] != keys[a]);
        }
    }
    lemma_ranking_unique(descending, rev, keys, MapsOrder::Desc);
}

/// Amounts keep their order: a larger amount never ranks before a smaller one.
pub proof fn lemma_amount_rank_monotone(a: nat, b: nat)
    requires
        a <= b,
    ensures
        amount_rank(a) <= amount_rank(b),
{
}

/// An amount ranks inside its level: at or above the level, below the next one.
pub proof fn lemma_amount_rank_within_level(a: nat)
    ensures
        price_level(a) * 10000 <= amount_rank(a) < (price_level(a) + 1) * 10000,
{
}

proof fn lemma_no_digit_from(s: Seq<char>, i: int)
    requires
        0 <= i,
        forall|m: int| 0 <= m < s.len() ==> !is_ascii_digit(#[trigger] s[m]),
    ensures
        first_digit_from(s, i) is None,
    decreases s.len() - i,
{
    if i < s.len() {
        lemma_no_digit_from(s, i + 1);
    }
}

proof fn lemma_all_non_white(s: Seq<char>)
    requires
        forall|m: int| 0 <= m < s.len() ==> !unicode_white_space(#[trigger] s[m]),
    ensures
        non_white_count(s) == s.len(),
    decreases s.len(),
{
    if s.len() > 0 {
        lemma_all_non_white(s.drop_last());
    }
}

/// A price written as a run of symbols without digits or white space
/// (`"$"`, `"$$$"`, `"€€"`) ranks exactly at the level of its length.
pub proof fn lemma_symbol_run_rank(price: Seq<char>)
    requires
        price.len() > 0,
        forall|m: int| 0 <= m < price.len() ==> !is_ascii_digit(#[trigger] price[m]),
        forall|m: int| 0 <= m < price.len() ==> !unicode_white_space(#[trigger] price[m]),
    ensures
        price_rank(price) == Some(price.len() * 10000),
{
    lemma_no_digit_from(price, 0);
    lemma_all_non_white(price);
}

/// The rank of an amount, written out: under 15 the first level, under 30
/// the second, under 60 the third, otherwise the fourth, each level worth
/// 10000, plus the amount itself up to 9900.
pub proof fn lemma_amount_rank_values(a: nat)
    ensures
        a < 15 ==> amount_rank(a) == 10000 + a,
        15 <= a < 30 ==> amount_rank(a) == 20000 + a,
        30 <= a < 60 ==> amount_rank(a) == 30000 + a,
        60 <= a < 9900 ==> amount_rank(a) == 40000 + a,
        9900 <= a ==> amount_rank(a) == 49900,
{
}

/// In ascending order keys never decrease along the ranking; in descending
/// order they never increase.
pub proof fn lemma_keys_sorted(ranking: Seq<usize>, keys: Seq<Option<nat>>, order: MapsOrder, k1: int, k2: int)
    requires
        is_ranking(ranking, keys.len()),
        ranked_in_order(ranking, keys, order),
        0 <= k1 < k2 < ranking.len(),
        keys[ranking[k1] as int] is Some,
        keys[ranking[k2] as int] is Some,
    ensures
        order == MapsOrder::Asc ==> keys[ranking[k1] as int]->0 <= keys[ranking[k2] as int]->0,
        order == MapsOrder::Desc ==> keys[ranking[k1] as int]->0 >= keys[ranking[k2] as int]->0,
{
    assert(ranks_before(keys, order, ranking[k1] as int, ranking[k2] as int));
}

/// Without an ordering the API's order stays; relevance keeps it when
/// descending (also by default: the API lists the most relevant first) and
/// reverses it when ascending.
pub proof fn lemma_relevance_and_no_sort(ranking: Seq<usize>, places: Seq<MapsPlace>, order: Option<MapsOrder>)
    requires
        places.len() <= usize::MAX,
    ensures
        is_maps_ranking(ranking, places, None, order) ==> forall|k: int| 0 <= k < places.len() ==> ranking[k] == k,
        is_maps_ranking(ranking, places, Some(MapsSort::Relevance), order) && order != Some(MapsOrder::Asc)
            ==> forall|k: int| 0 <= k < places.len() ==> ranking[k] == k,
        is_maps_ranking(ranking, places, Some(MapsSort::Relevance), Some(MapsOrder::Asc))
            ==> forall|k: int| 0 <= k < places.len() ==> ranking[k] == places.len() - 1 - k,
{
    if is_maps_ranking(ranking, places, None, order)
        || (is_maps_ranking(ranking, places, Some(MapsSort::Relevance), order) && order != Some(MapsOrder::Asc)) {
        assert forall|k: int| 0 <= k < places.len() implies ranking[k] == k by {
            assert(api_order(places.len())[k] == k as usize);
        }
    }
}

} // verus!
