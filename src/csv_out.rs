use vstd::prelude::*;
use crate::markdown::strs;
use crate::convert::opt_text;
use crate::outside::{chars_of, csv_items, csv_text_of, json_items_of, write_csv};

verus! {

/// Whether `a` comes before `b` when both are read from position `i` on,
/// character by character.
pub open spec fn text_lt_from(a: Seq<char>, b: Seq<char>, i: int) -> bool
    decreases a.len() - i,
{
    if i < 0 || i >= a.len() {
        0 <= i < b.len()
    } else if i >= b.len() {
        false
    } else if a[i] != b[i] {
        a[i] < b[i]
    } else {
        text_lt_from(a, b, i + 1)
    }
}

/// The order of strings: by the first character that differs, and a prefix
/// before its extensions.
pub open spec fn text_lt(a: Seq<char>, b: Seq<char>) -> bool {
    text_lt_from(a, b, 0)
}

/// Each text comes before the next.
pub open spec fn ascending(h: Seq<Seq<char>>) -> bool {
    forall|i: int| 0 <= i < h.len() - 1 ==> text_lt(#[trigger] h[i], h[i + 1])
}

proof fn lemma_text_lt_total(a: Seq<char>, b: Seq<char>, i: int)
    requires
        0 <= i <= a.len(),
        i <= b.len(),
        a.subrange(0, i) == b.subrange(0, i),
    ensures
        text_lt_from(a, b, i) || text_lt_from(b, a, i) || a == b,
    decreases a.len() - i,
{
    if i < a.len() && i < b.len() && a[i] == b[i] {
        assert(a.subrange(0, i + 1) =~= a.subrange(0, i).push(a[i]));
        assert(b.subrange(0, i + 1) =~= b.subrange(0, i).push(b[i]));
        lemma_text_lt_total(a, b, i + 1);
    } else if i == a.len() && i == b.len() {
        assert(a =~= a.subrange(0, i));
        assert(b =~= b.subrange(0, i));
    } else if i < a.len() && i < b.len() && a[i] != b[i] {
        assert(a[i] < b[i] || b[i] < a[i]);
    }
}

fn less_than(a: &String, b: &String) -> (r: bool)
    ensures
        r == text_lt(a@, b@),
{
    let x = chars_of(a.as_str());
    let y = chars_of(b.as_str());
    let mut i: usize = 0;
    while i < x.len() && i < y.len() && x[i] == y[i]
        invariant
            i <= x.len(),
            i <= y.len(),
            x@ == a@,
            y@ == b@,
            text_lt_from(x@, y@, i as int) == text_lt(x@, y@),
        decreases x.len() - i,
    {
        i = i + 1;
    }
    if i == x.len() {
        i < y.len()
    } else if i == y.len() {
        false
    } else {
        x[i] < y[i]
    }
}

/// Adds a key to an ascending list of distinct keys, where it is not yet.
pub fn insert_key(h: &mut Vec<String>, k: &String)
    requires
        ascending(strs(old(h)@)),
    ensures
        ascending(strs(final(h)@)),
        forall|x: Seq<char>| strs(final(h)@).contains(x) <==> (strs(old(h)@).contains(x) || x == k@),
        strs(old(h)@).contains(k@) ==> final(h)@ == old(h)@,
{
    let ghost old_h = strs(h@);
    let mut j: usize = 0;
    while j < h.len()
        invariant
            j <= h.len(),
            strs(h@) == old_h,
            h@ == old(h)@,
            old_h == strs(old(h)@),
            ascending(old_h),
            forall|i: int| 0 <= i < j ==> h@[i]@ != k@,
        decreases h.len() - j,
    {
        if h[j] == *k {
            assert(old_h[j as int] == k@);
            return;
        }
        j = j + 1;
    }
    assert(!old_h.contains(k@));
    let mut p: usize = 0;
    while p < h.len() && less_than(&h[p], k)
        invariant
            p <= h.len(),
            strs(h@) == old_h,
            h@ == old(h)@,
            old_h == strs(old(h)@),
            ascending(old_h),
            p > 0 ==> text_lt(old_h[p - 1], k@),
        decreases h.len() - p,
    {
        p = p + 1;
    }
    if p < h.len() {
        proof {
            assert(old_h[p as int].subrange(0, 0) =~= k@.subrange(0, 0));
            lemma_text_lt_total(old_h[p as int], k@, 0);
            assert(old_h[p as int] != k@);
        }
    }
    h.insert(p, k.clone());
    let ghost nh = strs(h@);
    assert(nh =~= old_h.insert(p as int, k@));
    assert forall|i: int| 0 <= i < nh.len() - 1 implies text_lt(#[trigger] nh[i], nh[i + 1]) by {
        if i < p - 1 {
            assert(nh[i] == old_h[i] && nh[i + 1] == old_h[i + 1]);
        } else if i > p {
            assert(nh[i] == old_h[i - 1] && nh[i + 1] == old_h[i]);
        }
    }
    assert forall|x: Seq<char>| nh.contains(x) <==> (old_h.contains(x) || x == k@) by {
        if nh.contains(x) {
            let i = choose|i: int| 0 <= i < nh.len() && nh[i] == x;
            if i < p {
                assert(old_h[i] == x);
            } else if i > p {
                assert(old_h[i - 1] == x);
            }
        }
        if old_h.contains(x) {
            let i = choose|i: int| 0 <= i < old_h.len() && old_h[i] == x;
            if i < p {
                assert(nh[i] == x);
            } else {
                assert(nh[i + 1] == x);
            }
        }
        if x == k@ {
            assert(nh[p as int] == x);
        }
    }
}

fn copy_strings(h: &Vec<String>) -> (r: Vec<String>)
    ensures
        strs(r@) == strs(h@),
{
    let mut r: Vec<String> = Vec::new();
    let mut i: usize = 0;
    while i < h.len()
        invariant
            i <= h.len(),
            strs(r@) == strs(h@).subrange(0, i as int),
        decreases h.len() - i,
    {
        let c = h[i].clone();
        let ghost before = strs(r@);
        r.push(c);
        assert(strs(r@) =~= before.push(c@));
        assert(strs(h@).subrange(0, i + 1) =~= strs(h@).subrange(0, i as int).push(h@[i as int]@));
        i = i + 1;
    }
    assert(strs(h@).subrange(0, i as int) =~= strs(h@));
    r
}

/// The texts of a sequence of records.
pub open spec fn record_texts(recs: Seq<Vec<String>>) -> Seq<Seq<Seq<char>>> {
    recs.map_values(|x: Vec<String>| x@.map_values(|c: String| c@))
}

/// The members of an object: each key with its value as compact JSON.
pub type Members = Seq<(Seq<char>, Seq<char>)>;

pub open spec fn members_view(m: Vec<(String, String)>) -> Members {
    m@.map_values(|p: (String, String)| (p.0@, p.1@))
}

pub open spec fn items_view(items: Seq<Option<Vec<(String, String)>>>) -> Seq<Option<Members>> {
    items.map_values(
        |o: Option<Vec<(String, String)>>|
            match o {
                Some(m) => Some(members_view(m)),
                None => None,
            },
    )
}

/// Every item is an object.
pub open spec fn all_objects(items: Seq<Option<Members>>) -> bool {
    forall|i: int| 0 <= i < items.len() ==> (#[trigger] items[i]) is Some
}

/// Some object among the first `n` items has key `x`.
pub open spec fn key_among(items: Seq<Option<Members>>, n: int, x: Seq<char>) -> bool {
    exists|i: int, j: int|
        0 <= i < n && i < items.len() && 0 <= j < items[i]->Some_0.len()
            && (#[trigger] items[i]->Some_0[j]).0 == x
}

/// The cell of an object under key `h`: its last value under that key, or
/// empty.
pub open spec fn cell_of(m: Members, h: Seq<char>) -> Seq<char>
    decreases m.len(),
{
    if m.len() == 0 {
        seq![]
    } else if m.last().0 == h {
        m.last().1
    } else {
        cell_of(m.drop_last(), h)
    }
}

/// The row of an object under a header.
pub open spec fn row_of(m: Members, header: Seq<Seq<char>>) -> Seq<Seq<char>> {
    header.map_values(|h: Seq<char>| cell_of(m, h))
}

/// Whether `recs` are the CSV records of these objects: first the header,
/// every key of any object once, in ascending order; then one row per object,
/// in order, with its cell under each header key.
pub open spec fn csv_records_of(recs: Seq<Seq<Seq<char>>>, items: Seq<Option<Members>>) -> bool {
    &&& recs.len() == items.len() + 1
    &&& ascending(recs[0])
    &&& forall|x: Seq<char>| recs[0].contains(x) <==> key_among(items, items.len() as int, x)
    &&& forall|i: int|
        0 <= i < items.len() ==> #[trigger] recs[i + 1] == row_of(items[i]->Some_0, recs[0])
}

fn cell_for(m: &Vec<(String, String)>, h: &String) -> (r: String)
    ensures
        r@ == cell_of(members_view(*m), h@),
{
    let mut cell = String::new();
    let mut j: usize = 0;
    while j < m.len()
        invariant
            j <= m.len(),
            cell@ == cell_of(members_view(*m).subrange(0, j as int), h@),
        decreases m.len() - j,
    {
        assert(members_view(*m).subrange(0, j + 1).drop_last() =~= members_view(*m).subrange(0, j as int));
        if m[j].0 == *h {
            cell = m[j].1.clone();
        }
        j = j + 1;
    }
    assert(members_view(*m).subrange(0, j as int) =~= members_view(*m));
    cell
}

/// The CSV records of a list of items, where every item is an object.
pub fn csv_records(items: &Vec<Option<Vec<(String, String)>>>) -> (r: Option<Vec<Vec<String>>>)
    ensures
        r is Some == all_objects(items_view(items@)),
        r matches Some(recs) ==> csv_records_of(record_texts(recs@), items_view(items@)),
{
    let ghost iv = items_view(items@);
    let mut headers: Vec<String> = Vec::new();
    let mut i: usize = 0;
    while i < items.len()
        invariant
            i <= items.len(),
            iv == items_view(items@),
            forall|k: int| 0 <= k < i ==> (#[trigger] iv[k]) is Some,
            ascending(strs(headers@)),
            forall|x: Seq<char>| strs(headers@).contains(x) <==> key_among(iv, i as int, x),
        decreases items.len() - i,
    {
        let m = match &items[i] {
            Some(m) => m,
            None => {
                assert(iv[i as int] is None);
                return None;
            },
        };
        assert(iv[i as int] == Some(members_view(*m)));
        let mut j: usize = 0;
        while j < m.len()
            invariant
                j <= m.len(),
                iv == items_view(items@),
                iv[i as int] == Some(members_view(*m)),
                i < items.len(),
                ascending(strs(headers@)),
                forall|x: Seq<char>| strs(headers@).contains(x) <==> (key_among(iv, i as int, x)
                    || exists|b: int| 0 <= b < j && (#[trigger] members_view(*m)[b]).0 == x),
            decreases m.len() - j,
        {
            let ghost mv = members_view(*m);
            let ghost jj = j as int;
            let ghost oldh = strs(headers@);
            assert(forall|x: Seq<char>| oldh.contains(x) <==> (key_among(iv, i as int, x)
                || exists|b: int| 0 <= b < jj && (#[trigger] mv[b]).0 == x));
            insert_key(&mut headers, &m[j].0);
            assert(mv[jj].0 == m[j as int].0@);
            assert forall|x: Seq<char>| strs(headers@).contains(x) <==> (key_among(iv, i as int, x)
                || exists|b: int| 0 <= b < jj + 1 && (#[trigger] mv[b]).0 == x) by {
                assert(strs(headers@).contains(x) <==> (oldh.contains(x) || x == mv[jj].0));
                if exists|b: int| 0 <= b < jj + 1 && (#[trigger] mv[b]).0 == x {
                    let b = choose|b: int| 0 <= b < jj + 1 && (#[trigger] mv[b]).0 == x;
                    if b < jj {
                        assert(exists|b: int| 0 <= b < jj && (#[trigger] mv[b]).0 == x);
                    }
                }
                if x == mv[jj].0 {
                    assert(exists|b: int| 0 <= b < jj + 1 && (#[trigger] mv[b]).0 == x);
                }
            }
            j = j + 1;
        }
        assert forall|x: Seq<char>| strs(headers@).contains(x) <==> key_among(iv, i + 1, x) by {
            if key_among(iv, i + 1, x) {
                let (a, b) = choose|a: int, b: int|
                    0 <= a < i + 1 && a < iv.len() && 0 <= b < iv[a]->Some_0.len()
                        && (#[trigger] iv[a]->Some_0[b]).0 == x;
                if a < i {
                    assert(key_among(iv, i as int, x));
                } else {
                    assert(a == i);
                    assert(members_view(*m)[b].0 == x);
                }
            }
            if exists|b: int| 0 <= b < j && (#[trigger] members_view(*m)[b]).0 == x {
                let b = choose|b: int| 0 <= b < j && (#[trigger] members_view(*m)[b]).0 == x;
                assert(iv[i as int]->Some_0[b].0 == x);
            }
            if key_among(iv, i as int, x) {
                let (a, b) = choose|a: int, b: int|
                    0 <= a < i && a < iv.len() && 0 <= b < iv[a]->Some_0.len()
                        && (#[trigger] iv[a]->Some_0[b]).0 == x;
                assert(iv[a]->Some_0[b].0 == x);
            }
        }
        i = i + 1;
    }
    let mut records: Vec<Vec<String>> = Vec::new();
    let first = copy_strings(&headers);
    records.push(first);
    let mut i: usize = 0;
    while i < items.len()
        invariant
            i <= items.len(),
            iv == items_view(items@),
            all_objects(iv),
            records.len() == i + 1,
            strs(records@[0]@) == strs(headers@),
            forall|k: int|
                0 <= k < i ==> #[trigger] strs(records@[k + 1]@) == row_of(
                    iv[k]->Some_0,
                    strs(headers@),
                ),
        decreases items.len() - i,
    {
        let m = match &items[i] {
            Some(m) => m,
            None => {
                assert(iv[i as int] is Some);
                return None;
            },
        };
        assert(iv[i as int]->Some_0 == members_view(*m));
        let mut row: Vec<String> = Vec::new();
        let mut c: usize = 0;
        while c < headers.len()
            invariant
                c <= headers.len(),
                strs(row@) == row_of(members_view(*m), strs(headers@)).subrange(0, c as int),
            decreases headers.len() - c,
        {
            let cell = cell_for(m, &headers[c]);
            let ghost before = strs(row@);
            row.push(cell);
            assert(strs(row@) =~= before.push(cell@));
            assert(row_of(members_view(*m), strs(headers@)).subrange(0, c + 1) =~= row_of(
                members_view(*m),
                strs(headers@),
            ).subrange(0, c as int).push(cell@));
            c = c + 1;
        }
        assert(row_of(members_view(*m), strs(headers@)).subrange(0, c as int) =~= row_of(
            members_view(*m),
            strs(headers@),
        ));
        records.push(row);
        i = i + 1;
    }
    proof {
        let recs = record_texts(records@);
        assert forall|k: int| 0 <= k < records.len() implies #[trigger] recs[k] == strs(records@[k]@) by {}
        assert forall|k: int| 0 <= k < iv.len() implies #[trigger] recs[k + 1] == row_of(iv[k]->Some_0, recs[0]) by {
            assert(recs[k + 1] == strs(records@[k + 1]@));
        }
        assert(recs[0] == strs(headers@));
    }
    Some(records)
}

/// The CSV text of a list of items, where every item is an object.
pub fn rows_to_csv_string(items: &Vec<Option<Vec<(String, String)>>>) -> (r: Option<String>)
    ensures
        r is Some == all_objects(items_view(items@)),
        r matches Some(t) ==> exists|recs: Seq<Seq<Seq<char>>>|
            #![trigger csv_text_of(recs)]
            t@ == csv_text_of(recs) && csv_records_of(recs, items_view(items@)),
{
    match csv_records(items) {
        None => None,
        Some(recs) => {
            proof {
                let rt = record_texts(recs@);
                assert forall|k: int| 0 <= k < recs.len() implies #[trigger] recs@[k].len()
                    == recs@[0].len() by {
                    assert(rt[k].len() == recs@[k].len());
                    assert(rt[0].len() == recs@[0].len());
                    if k > 0 {
                        assert(rt[(k - 1) + 1] == row_of(items_view(items@)[k - 1]->Some_0, rt[0]));
                    }
                }
            }
            let t = write_csv(&recs);
            assert(t@ == csv_text_of(record_texts(recs@)));
            Some(t)
        },
    }
}

/// Whether `r` is the CSV rendering of a value: for an array whose items are
/// all objects, the CSV text of their records; for anything else, nothing.
pub open spec fn csv_rendering(v: serde_json::Value, r: Option<Seq<char>>) -> bool {
    match json_items_of(v) {
        Some(items) => (r is Some <==> all_objects(items)) && (r matches Some(t) ==> exists|
            recs: Seq<Seq<Seq<char>>>,
        |
            #![trigger csv_records_of(recs, items)]
            t == csv_text_of(recs) && csv_records_of(recs, items)),
        None => r is None,
    }
}

/// Renders an array of objects as CSV: a header row of every key that any
/// object has, in ascending order and once each, then a row per object with
/// its value under each key as compact JSON, or an empty cell. Anything but
/// an array of objects has no CSV rendering.
pub fn json_to_csv_string(v: &serde_json::Value) -> (r: Option<String>)
    ensures
        csv_rendering(*v, opt_text(r)),
{
    match csv_items(v) {
        None => None,
        Some(items) => rows_to_csv_string(&items),
    }
}

} // verus!
