//! Known names: which names have nonzero recorded births in a requested
//! set of years, with a bounded memoization of past answers.
use vstd::prelude::*;

use crate::gender::Gender;
use crate::index::YearIndex;
use crate::store::NameStore;

verus! {

pub open spec fn strictly_sorted(s: Seq<u32>) -> bool {
    forall|i: int, j: int| 0 <= i < j < s.len() ==> s[i] < s[j]
}

pub open spec fn same_members(a: Seq<u32>, b: Seq<u32>) -> bool {
    forall|y: u32| a.contains(y) == b.contains(y)
}

/// The canonical form of a requested year list: its members, sorted and
/// deduplicated. Semantically identical requests share one cache key.
pub open spec fn year_key(s: Seq<u32>) -> Seq<u32> {
    choose|k: Seq<u32>| strictly_sorted(k) && same_members(k, s)
}

/// Two strictly sorted sequences with the same members are equal.
pub proof fn lemma_sorted_same_members_equal(a: Seq<u32>, b: Seq<u32>)
    requires
        strictly_sorted(a),
        strictly_sorted(b),
        same_members(a, b),
    ensures
        a == b,
    decreases a.len(),
{
    if a.len() == 0 {
        if b.len() > 0 {
            assert(b.contains(b[0]));
        }
        assert(a =~= b);
    } else {
        assert(a.contains(a[0]));
        assert(b.contains(a[0]));
        if b.len() == 0 {
            assert(false);
        }
        let ja = choose|j: int| 0 <= j < b.len() && b[j] == a[0];
        assert(b.contains(b[0]));
        assert(a.contains(b[0]));
        let ia = choose|i: int| 0 <= i < a.len() && a[i] == b[0];
        assert(a[0] == b[0]) by {
            if ja > 0 {
                assert(b[0] < b[ja]);
            }
            if ia > 0 {
                assert(a[0] < a[ia]);
            }
        }
        let at = a.drop_first();
        let bt = b.drop_first();
        assert(strictly_sorted(at)) by {
            assert(forall|i: int, j: int|
                0 <= i < j < at.len() ==> at[i] == a[i + 1] && at[j] == a[j + 1]);
        }
        assert(strictly_sorted(bt)) by {
            assert(forall|i: int, j: int|
                0 <= i < j < bt.len() ==> bt[i] == b[i + 1] && bt[j] == b[j + 1]);
        }
        assert forall|y: u32| at.contains(y) == bt.contains(y) by {
            if at.contains(y) {
                let i = choose|i: int| 0 <= i < at.len() && at[i] == y;
                assert(a[i + 1] == y);
                assert(a.contains(y));
                assert(a[0] < a[i + 1]);
                assert(b.contains(y));
                let j = choose|j: int| 0 <= j < b.len() && b[j] == y;
                assert(j != 0);
                assert(bt[j - 1] == y);
                assert(bt.contains(y));
            }
            if bt.contains(y) {
                let j = choose|j: int| 0 <= j < bt.len() && bt[j] == y;
                assert(b[j + 1] == y);
                assert(b.contains(y));
                assert(b[0] < b[j + 1]);
                assert(a.contains(y));
                let i = choose|i: int| 0 <= i < a.len() && a[i] == y;
                assert(i != 0);
                assert(at[i - 1] == y);
                assert(at.contains(y));
            }
        }
        lemma_sorted_same_members_equal(at, bt);
        assert forall|k: int| 0 <= k < a.len() implies a[k] == b[k] by {
            if k > 0 {
                assert(at[k - 1] == a[k]);
                assert(bt[k - 1] == b[k]);
                assert(at[k - 1] == bt[k - 1]);
            }
        }
        assert(a =~= b);
    }
}

/// Sorts and deduplicates a requested year list into the canonical cache
/// key, so that semantically identical requests hit the same cache entry.
pub fn normalize_years(years: &Vec<u32>) -> (r: Vec<u32>)
    ensures
        strictly_sorted(r@),
        same_members(r@, years@),
        r@ == year_key(years@),
{
    let mut result: Vec<u32> = Vec::new();
    let mut i: usize = 0;
    while i < years.len()
        invariant
            0 <= i <= years@.len(),
            strictly_sorted(result@),
            same_members(result@, years@.subrange(0, i as int)),
        decreases years@.len() - i,
    {
        let ghost prefix = years@.subrange(0, i as int);
        let y = years[i];
        let mut pos: usize = 0;
        while pos < result.len() && result[pos] < y
            invariant
                0 <= pos <= result@.len(),
                strictly_sorted(result@),
                forall|k: int| 0 <= k < pos ==> result@[k] < y,
            decreases result@.len() - pos,
        {
            pos = pos + 1;
        }
        let ghost before = result@;
        if pos < result.len() && result[pos] == y {
            // already present: nothing to insert
            proof {
                assert(result@.contains(y));
                assert forall|z: u32| result@.contains(z) == years@.subrange(
                    0,
                    i + 1 as int,
                ).contains(z) by {
                    assert(years@.subrange(0, i + 1 as int) =~= prefix.push(y));
                    if prefix.push(y).contains(z) {
                        let k = choose|k: int|
                            0 <= k < prefix.push(y).len() && prefix.push(y)[k] == z;
                        if k < prefix.len() {
                            assert(prefix.contains(z));
                        }
                    } else {
                        assert(!prefix.contains(z)) by {
                            if prefix.contains(z) {
                                let k = choose|k: int| 0 <= k < prefix.len() && prefix[k] == z;
                                assert(prefix.push(y)[k] == z);
                            }
                        }
                        assert(z != y) by {
                            assert(prefix.push(y)[prefix.len() as int] == y);
                        }
                    }
                }
            }
        } else {
            result.insert(pos, y);
            proof {
                assert(result@ == before.insert(pos as int, y));
                assert(result@[pos as int] == y);
                assert forall|u: int, v: int|
                    0 <= u < v < result@.len() implies result@[u] < result@[v] by {
                    if v < pos {
                        assert(result@[u] == before[u] && result@[v] == before[v]);
                    } else if v == pos {
                        assert(result@[u] == before[u]);
                        assert(before[u] < y);
                    } else {
                        assert(result@[v] == before[v - 1]);
                        assert(pos < before.len());
                        assert(before[pos as int] > y);
                        if v - 1 > pos {
                            assert(before[pos as int] < before[v - 1]);
                        }
                        if u < pos {
                            assert(result@[u] == before[u] && before[u] < y);
                        } else if u == pos {
                            assert(result@[u] == y);
                        } else {
                            assert(result@[u] == before[u - 1]);
                        }
                    }
                }
                assert forall|z: u32| result@.contains(z) == years@.subrange(
                    0,
                    i + 1 as int,
                ).contains(z) by {
                    assert(years@.subrange(0, i + 1 as int) =~= prefix.push(y));
                    if result@.contains(z) {
                        let k = choose|k: int| 0 <= k < result@.len() && result@[k] == z;
                        if k < pos {
                            assert(before[k] == z);
                            assert(before.contains(z));
                            assert(prefix.contains(z));
                            let m = choose|m: int| 0 <= m < prefix.len() && prefix[m] == z;
                            assert(prefix.push(y)[m] == z);
                        } else if k == pos {
                            assert(prefix.push(y)[prefix.len() as int] == y);
                        } else {
                            assert(before[k - 1] == z);
                            assert(before.contains(z));
                            assert(prefix.contains(z));
                            let m = choose|m: int| 0 <= m < prefix.len() && prefix[m] == z;
                            assert(prefix.push(y)[m] == z);
                        }
                    }
                    if prefix.push(y).contains(z) {
                        let k = choose|k: int|
                            0 <= k < prefix.push(y).len() && prefix.push(y)[k] == z;
                        if k < prefix.len() {
                            assert(prefix.contains(z));
                            assert(before.contains(z));
                            let m = choose|m: int| 0 <= m < before.len() && before[m] == z;
                            if m < pos {
                                assert(result@[m] == z);
                            } else {
                                assert(result@[m + 1] == z);
                            }
                        } else {
                            assert(z == y);
                            assert(result@[pos as int] == y);
                        }
                    }
                }
            }
        }
        i = i + 1;
    }
    proof {
        assert(years@.subrange(0, years@.len() as int) =~= years@);
        assert(strictly_sorted(year_key(years@)) && same_members(year_key(years@), years@)) by {
            assert(strictly_sorted(result@) && same_members(result@, years@));
        }
        lemma_sorted_same_members_equal(result@, year_key(years@));
    }
    result
}

/// `name` has a nonzero recorded count in `ix`, in either gender.
pub open spec fn known_in_year(ix: YearIndex, name: Seq<char>) -> bool {
    exists|g: Gender, i: int|
        0 <= i < ix.gender_records(g).len() && (#[trigger] ix.gender_records(g)[i]).name@ == name
            && ix.gender_records(g)[i].count > 0
}

/// `name` is known for the year list: it has a nonzero count, in either
/// gender, in at least one cached requested year.
pub open spec fn known_name(store: NameStore, years: Seq<u32>, name: Seq<char>) -> bool {
    exists|k: int|
        0 <= k < years.len() && store.has_year(#[trigger] years[k]) && known_in_year(
            store.year_at(years[k]),
            name,
        )
}

/// `r` is exactly the set of known names for the year list: each listed
/// once, each known, and every known name listed.
pub open spec fn known_names_result(store: NameStore, years: Seq<u32>, r: Seq<Seq<char>>) -> bool {
    &&& forall|i: int, j: int| 0 <= i < j < r.len() ==> r[i] != r[j]
    &&& forall|i: int| 0 <= i < r.len() ==> known_name(store, years, #[trigger] r[i])
    &&& forall|n: Seq<char>| #[trigger] known_name(store, years, n) ==> r.contains(n)
}

/// Whether a name with this text has been collected already.
fn contains_name(found: &Vec<String>, name: &String) -> (r: bool)
    ensures
        r == found.deep_view().contains(name@),
{
    let mut i: usize = 0;
    while i < found.len()
        invariant
            0 <= i <= found@.len(),
            forall|k: int| 0 <= k < i ==> found@[k]@ != name@,
        decreases found@.len() - i,
    {
        if found[i] == *name {
            proof {
                assert(found.deep_view()[i as int] == name@);
            }
            return true;
        }
        i = i + 1;
    }
    proof {
        if found.deep_view().contains(name@) {
            let k = choose|k: int|
                0 <= k < found.deep_view().len() && found.deep_view()[k] == name@;
            assert(found@[k]@ == name@);
        }
    }
    false
}

/// Membership in a name list survives appending another name.
proof fn lemma_contains_after_push(s: Seq<Seq<char>>, x: Seq<char>, n: Seq<char>)
    requires
        s.contains(n),
    ensures
        s.push(x).contains(n),
{
    let m = choose|m: int| 0 <= m < s.len() && s[m] == n;
    assert(s.push(x)[m] == n);
}

/// Collects into `found` every name in `list` with a nonzero count that is
/// not already there.
fn add_known(found: &mut Vec<String>, list: &Vec<crate::index::NameRecord>)
    requires
        forall|i: int, j: int|
            0 <= i < j < old(found).deep_view().len() ==> old(found).deep_view()[i]
                != old(found).deep_view()[j],
    ensures
        forall|i: int, j: int|
            0 <= i < j < final(found).deep_view().len() ==> final(found).deep_view()[i]
                != final(found).deep_view()[j],
        forall|k: int|
            0 <= k < final(found).deep_view().len() ==> old(found).deep_view().contains(
                #[trigger] final(found).deep_view()[k],
            ) || (exists|m: int|
                0 <= m < list@.len() && (#[trigger] list@[m]).name@ == final(found).deep_view()[k]
                    && list@[m].count > 0),
        forall|k: int|
            0 <= k < old(found).deep_view().len() ==> final(found).deep_view().contains(
                #[trigger] old(found).deep_view()[k],
            ),
        forall|m: int|
            0 <= m < list@.len() && (#[trigger] list@[m]).count > 0
                ==> final(found).deep_view().contains(list@[m].name@),
{
    let ghost orig = old(found).deep_view();
    let mut i: usize = 0;
    while i < list.len()
        invariant
            0 <= i <= list@.len(),
            forall|a: int, b: int|
                0 <= a < b < found.deep_view().len() ==> found.deep_view()[a]
                    != found.deep_view()[b],
            forall|k: int|
                0 <= k < found.deep_view().len() ==> orig.contains(
                    #[trigger] found.deep_view()[k],
                ) || (exists|m: int|
                    0 <= m < list@.len() && (#[trigger] list@[m]).name@ == found.deep_view()[k]
                        && list@[m].count > 0),
            forall|k: int|
                0 <= k < orig.len() ==> found.deep_view().contains(#[trigger] orig[k]),
            forall|m: int|
                0 <= m < i && (#[trigger] list@[m]).count > 0 ==> found.deep_view().contains(
                    list@[m].name@,
                ),
        decreases list@.len() - i,
    {
        let ghost prev = found.deep_view();
        if list[i].count > 0 {
            let candidate = &list[i].name;
            if !contains_name(found, candidate) {
                found.push(candidate.clone());
                proof {
                    assert(found.deep_view() =~= prev.push(candidate@));
                    assert forall|a: int, b: int|
                        0 <= a < b < found.deep_view().len() implies found.deep_view()[a]
                        != found.deep_view()[b] by {
                        if b == found.deep_view().len() - 1 {
                            assert(found.deep_view()[a] == prev[a]);
                            assert(prev.contains(prev[a]));
                        }
                    }
                    assert forall|k: int| 0 <= k < orig.len() implies found.deep_view().contains(
                        #[trigger] orig[k],
                    ) by {
                        lemma_contains_after_push(prev, candidate@, orig[k]);
                    }
                    assert forall|m: int|
                        0 <= m < i + 1 && (#[trigger] list@[m]).count > 0 implies found.deep_view(
                    ).contains(list@[m].name@) by {
                        if m < i {
                            lemma_contains_after_push(prev, candidate@, list@[m].name@);
                        } else {
                            assert(found.deep_view().last() == candidate@);
                        }
                    }
                    assert forall|k: int|
                        0 <= k < found.deep_view().len() implies orig.contains(
                        #[trigger] found.deep_view()[k],
                    ) || (exists|m: int|
                        0 <= m < list@.len() && (#[trigger] list@[m]).name@
                            == found.deep_view()[k] && list@[m].count > 0) by {
                        if k < prev.len() {
                            assert(found.deep_view()[k] == prev[k]);
                        } else {
                            assert(found.deep_view()[k] == list@[i as int].name@);
                            assert(list@[i as int].count > 0);
                        }
                    }
                }
            } else {
                proof {
                    assert forall|m: int|
                        0 <= m < i + 1 && (#[trigger] list@[m]).count > 0 implies found.deep_view(
                    ).contains(list@[m].name@) by {
                        if m == i {
                            assert(found.deep_view().contains(candidate@));
                        }
                    }
                }
            }
        } else {
            proof {
                assert forall|m: int|
                    0 <= m < i + 1 && (#[trigger] list@[m]).count > 0 implies found.deep_view(
                ).contains(list@[m].name@) by {
                    assert(m < i || list@[m].count == 0);
                }
            }
        }
        i = i + 1;
    }
}

/// Computes the known names for the requested years from the store's
/// cached indexes, without touching any backend.
pub fn compute_known_names(store: &NameStore, years: &Vec<u32>) -> (r: Vec<String>)
    requires
        store.wf(),
        forall|k: int| 0 <= k < years@.len() ==> store.has_year(#[trigger] years@[k]),
    ensures
        known_names_result(*store, years@, r.deep_view()),
{
    let mut found: Vec<String> = Vec::new();
    let mut i: usize = 0;
    while i < years.len()
        invariant
            0 <= i <= years@.len(),
            store.wf(),
            forall|k: int| 0 <= k < years@.len() ==> store.has_year(#[trigger] years@[k]),
            forall|a: int, b: int|
                0 <= a < b < found.deep_view().len() ==> found.deep_view()[a]
                    != found.deep_view()[b],
            forall|k: int|
                0 <= k < found.deep_view().len() ==> known_name(
                    *store,
                    years@,
                    #[trigger] found.deep_view()[k],
                ),
            forall|k: int, g: Gender, m: int|
                0 <= k < i && 0 <= m < store.year_at(years@[k]).gender_records(g).len() && (
                #[trigger] store.year_at(years@[k]).gender_records(g)[m]).count > 0
                    ==> found.deep_view().contains(
                    store.year_at(years@[k]).gender_records(g)[m].name@,
                ),
        decreases years@.len() - i,
    {
        let ghost prev = found.deep_view();
        let y = years[i];
        let ix = match store.get_year(y) {
            Some(ix) => ix,
            None => {
                proof {
                    assert(store.has_year(years@[i as int]));
                }
                unreached()
            },
        };
        let males = ix.records_of(Gender::Male);
        add_known(&mut found, males);
        let ghost mid = found.deep_view();
        let females = ix.records_of(Gender::Female);
        add_known(&mut found, females);
        proof {
            assert forall|k: int|
                0 <= k < found.deep_view().len() implies known_name(
                *store,
                years@,
                #[trigger] found.deep_view()[k],
            ) by {
                let n = found.deep_view()[k];
                if mid.contains(n) {
                    let km = choose|km: int| 0 <= km < mid.len() && mid[km] == n;
                    if prev.contains(n) {
                        let kp = choose|kp: int| 0 <= kp < prev.len() && prev[kp] == n;
                        assert(known_name(*store, years@, prev[kp]));
                    } else {
                        assert(prev.contains(mid[km]) || (exists|m: int|
                            0 <= m < males@.len() && (#[trigger] males@[m]).name@ == mid[km]
                                && males@[m].count > 0));
                        let m = choose|m: int|
                            0 <= m < males@.len() && (#[trigger] males@[m]).name@ == n
                                && males@[m].count > 0;
                        assert(known_in_year(*ix, n));
                        assert(years@[i as int] == y);
                        assert(known_name(*store, years@, n));
                    }
                } else {
                    let m = choose|m: int|
                        0 <= m < females@.len() && (#[trigger] females@[m]).name@ == n
                            && females@[m].count > 0;
                    assert(known_in_year(*ix, n));
                    assert(years@[i as int] == y);
                    assert(known_name(*store, years@, n));
                }
            }
            assert forall|k: int, g: Gender, m: int|
                0 <= k < i + 1 && 0 <= m < store.year_at(years@[k]).gender_records(g).len() && (
                #[trigger] store.year_at(years@[k]).gender_records(g)[m]).count > 0
                    implies found.deep_view().contains(
                store.year_at(years@[k]).gender_records(g)[m].name@,
            ) by {
                let n = store.year_at(years@[k]).gender_records(g)[m].name@;
                if k < i {
                    assert(mid.contains(n)) by {
                        assert(prev.contains(n));
                        let kp = choose|kp: int| 0 <= kp < prev.len() && prev[kp] == n;
                        assert(mid.contains(prev[kp]));
                    }
                    let km = choose|km: int| 0 <= km < mid.len() && mid[km] == n;
                    assert(found.deep_view().contains(mid[km]));
                } else {
                    assert(store.year_at(years@[k]) == *ix);
                    if g == Gender::Male {
                        assert(males@[m].count > 0);
                        assert(mid.contains(males@[m].name@));
                        let km = choose|km: int| 0 <= km < mid.len() && mid[km] == n;
                        assert(found.deep_view().contains(mid[km]));
                    } else {
                        assert(females@[m].count > 0);
                        assert(found.deep_view().contains(females@[m].name@));
                    }
                }
            }
        }
        i = i + 1;
    }
    proof {
        assert forall|n: Seq<char>| #[trigger]
            known_name(*store, years@, n) implies found.deep_view().contains(n) by {
            let k = choose|k: int|
                0 <= k < years@.len() && store.has_year(#[trigger] years@[k]) && known_in_year(
                    store.year_at(years@[k]),
                    n,
                );
            let (g, m) = choose|g: Gender, m: int|
                0 <= m < store.year_at(years@[k]).gender_records(g).len() && (
                #[trigger] store.year_at(years@[k]).gender_records(g)[m]).name@ == n
                    && store.year_at(years@[k]).gender_records(g)[m].count > 0;
            assert(store.year_at(years@[k]).gender_records(g)[m].count > 0);
        }
    }
    found
}

/// Compares two year keys element by element.
fn keys_equal(a: &Vec<u32>, b: &Vec<u32>) -> (r: bool)
    ensures
        r == (a@ == b@),
{
    if a.len() != b.len() {
        proof {
            assert(a@.len() != b@.len());
        }
        return false;
    }
    let mut i: usize = 0;
    while i < a.len()
        invariant
            0 <= i <= a@.len(),
            a@.len() == b@.len(),
            forall|k: int| 0 <= k < i ==> a@[k] == b@[k],
        decreases a@.len() - i,
    {
        if a[i] != b[i] {
            return false;
        }
        i = i + 1;
    }
    proof {
        assert(a@ =~= b@);
    }
    true
}

/// Copies a name list.
fn clone_names(v: &Vec<String>) -> (r: Vec<String>)
    ensures
        r.deep_view() == v.deep_view(),
{
    let mut r: Vec<String> = Vec::new();
    let mut i: usize = 0;
    while i < v.len()
        invariant
            0 <= i <= v@.len(),
            r.deep_view().len() == i,
            forall|k: int| 0 <= k < i ==> r.deep_view()[k] == v.deep_view()[k],
        decreases v@.len() - i,
    {
        r.push(v[i].clone());
        i = i + 1;
    }
    proof {
        assert(r.deep_view() =~= v.deep_view());
    }
    r
}

/// The default bound on how many year-set answers stay memoized.
pub const DEFAULT_KNOWN_CAPACITY: usize = 5;

/// The bounded memo of past known-name answers, keyed by the canonical
/// year-set. When full, the oldest inserted entry is evicted first: the
/// policy is deliberately first-in-first-out by insertion, not
/// access-recency based.
pub struct KnownNamesCache {
    capacity: usize,
    entries: Vec<(Vec<u32>, Vec<String>)>,
}

impl KnownNamesCache {
    /// The configured bound on the number of entries.
    pub closed spec fn cap(self) -> int {
        self.capacity as int
    }

    /// The cached year keys, oldest first.
    pub closed spec fn keys(self) -> Seq<Seq<u32>> {
        Seq::new(self.entries@.len(), |i: int| self.entries@[i].0@)
    }

    /// The cached name sets, in the same order as `keys`.
    pub closed spec fn name_sets(self) -> Seq<Seq<Seq<char>>> {
        Seq::new(self.entries@.len(), |i: int| self.entries@[i].1.deep_view())
    }

    /// The bound is positive, never exceeded, and keys are distinct.
    pub open spec fn wf(self) -> bool {
        &&& 1 <= self.cap()
        &&& self.keys().len() <= self.cap()
        &&& forall|i: int, j: int| 0 <= i < j < self.keys().len() ==> self.keys()[i]
            != self.keys()[j]
    }

    pub open spec fn has_key(self, key: Seq<u32>) -> bool {
        self.keys().contains(key)
    }

    /// The names cached under `key` (meaningful only when `has_key`).
    pub open spec fn names_at(self, key: Seq<u32>) -> Seq<Seq<char>> {
        let i = choose|i: int| 0 <= i < self.keys().len() && self.keys()[i] == key;
        self.name_sets()[i]
    }

    /// Any entry whose key is `key` holds exactly `names_at(key)`.
    pub proof fn lemma_names_at(self, key: Seq<u32>, i: int)
        requires
            self.wf(),
            0 <= i < self.keys().len(),
            self.keys()[i] == key,
        ensures
            self.has_key(key),
            self.names_at(key) == self.name_sets()[i],
    {
        assert(self.has_key(key));
        let j = choose|j: int| 0 <= j < self.keys().len() && self.keys()[j] == key;
        if i != j {
            assert(self.keys()[i] != self.keys()[j]);
        }
    }

    /// An empty cache bounded at the default number of entries.
    pub fn new() -> (r: KnownNamesCache)
        ensures
            r.wf(),
            r.cap() == DEFAULT_KNOWN_CAPACITY,
            r.keys() == Seq::<Seq<u32>>::empty(),
    {
        Self::with_capacity(DEFAULT_KNOWN_CAPACITY)
    }

    /// An empty cache bounded at `capacity` entries.
    pub fn with_capacity(capacity: usize) -> (r: KnownNamesCache)
        requires
            capacity >= 1,
        ensures
            r.wf(),
            r.cap() == capacity,
            r.keys() == Seq::<Seq<u32>>::empty(),
    {
        let r = KnownNamesCache { capacity, entries: Vec::new() };
        proof {
            assert(r.keys() =~= Seq::<Seq<u32>>::empty());
        }
        r
    }

    /// How many entries are cached now.
    pub fn len(&self) -> (r: usize)
        ensures
            r == self.keys().len(),
    {
        self.entries.len()
    }

    /// The configured bound.
    pub fn capacity(&self) -> (r: usize)
        ensures
            r == self.cap(),
    {
        self.capacity
    }

    /// The memoized names for a normalized year key, if present.
    pub fn probe<'a>(&'a self, key: &Vec<u32>) -> (r: Option<&'a Vec<String>>)
        requires
            self.wf(),
        ensures
            match r {
                Some(names) => self.has_key(key@) && names.deep_view() == self.names_at(key@),
                None => !self.has_key(key@),
            },
    {
        match self.find(key) {
            Some(i) => {
                proof {
                    self.lemma_names_at(key@, i as int);
                }
                Some(&self.entries[i].1)
            },
            None => None,
        }
    }

    /// The position of `key` in the cache, if cached.
    fn find(&self, key: &Vec<u32>) -> (r: Option<usize>)
        ensures
            match r {
                Some(i) => i < self.keys().len() && self.keys()[i as int] == key@,
                None => !self.has_key(key@),
            },
    {
        let mut i: usize = 0;
        while i < self.entries.len()
            invariant
                0 <= i <= self.entries@.len(),
                forall|k: int| 0 <= k < i ==> self.keys()[k] != key@,
            decreases self.entries@.len() - i,
        {
            if keys_equal(&self.entries[i].0, key) {
                proof {
                    assert(self.keys()[i as int] == key@);
                }
                return Some(i);
            }
            i = i + 1;
        }
        proof {
            if self.has_key(key@) {
                let k = choose|k: int| 0 <= k < self.keys().len() && self.keys()[k] == key@;
                assert(self.keys()[k] != key@);
            }
        }
        None
    }

    /// What one insert does: appended at the young end; when the cache is
    /// full, exactly the oldest entry is evicted first, and nothing else.
    pub open spec fn insert_outcome(
        pre: KnownNamesCache,
        key: Seq<u32>,
        names: Seq<Seq<char>>,
        post: KnownNamesCache,
    ) -> bool {
        &&& post.cap() == pre.cap()
        &&& post.wf()
        &&& post.has_key(key)
        &&& post.names_at(key) == names
        &&& if pre.keys().len() < pre.cap() {
            post.keys() == pre.keys().push(key) && post.name_sets() == pre.name_sets().push(names)
        } else {
            post.keys() == pre.keys().subrange(1, pre.keys().len() as int).push(key)
                && post.name_sets() == pre.name_sets().subrange(
                1,
                pre.name_sets().len() as int,
            ).push(names)
        }
    }

    /// Caches `names` under `key`, evicting the oldest entry if the cache
    /// is already at capacity.
    fn insert(&mut self, key: Vec<u32>, names: Vec<String>)
        requires
            old(self).wf(),
            !old(self).has_key(key@),
        ensures
            Self::insert_outcome(*old(self), key@, names.deep_view(), *final(self)),
    {
        let ghost pre = *self;
        if self.entries.len() >= self.capacity {
            self.entries.remove(0);
        }
        let ghost mid = *self;
        self.entries.push((key, names));
        proof {
            let n = self.keys().len() - 1;
            assert(self.keys()[n] == key@);
            assert(self.name_sets()[n] == names.deep_view());
            if pre.keys().len() < pre.cap() {
                assert(self.keys() =~= pre.keys().push(key@));
                assert(self.name_sets() =~= pre.name_sets().push(names.deep_view()));
            } else {
                assert(mid.entries@ == pre.entries@.remove(0));
                assert forall|k: int| 0 <= k < mid.keys().len() implies mid.keys()[k]
                    == pre.keys()[k + 1] && mid.name_sets()[k] == pre.name_sets()[k + 1] by {
                    assert(mid.entries@[k] == pre.entries@[k + 1]);
                }
                assert(self.keys() =~= pre.keys().subrange(1, pre.keys().len() as int).push(key@));
                assert(self.name_sets() =~= pre.name_sets().subrange(
                    1,
                    pre.name_sets().len() as int,
                ).push(names.deep_view()));
            }
            assert forall|i: int, j: int|
                0 <= i < j < self.keys().len() implies self.keys()[i] != self.keys()[j] by {
                if j < n {
                    if pre.keys().len() < pre.cap() {
                        assert(self.keys()[i] == pre.keys()[i]);
                        assert(self.keys()[j] == pre.keys()[j]);
                    } else {
                        assert(self.keys()[i] == pre.keys()[i + 1]);
                        assert(self.keys()[j] == pre.keys()[j + 1]);
                    }
                } else {
                    assert(self.keys()[j] == key@);
                    let ghost shifted: int = if pre.keys().len() < pre.cap() {
                        i
                    } else {
                        i + 1
                    };
                    assert(self.keys()[i] == pre.keys()[shifted]);
                    assert(pre.keys().contains(pre.keys()[shifted]));
                }
            }
            self.lemma_names_at(key@, n);
        }
    }

    /// What one `determine_known_names` call does. A hit returns the
    /// memoized set and changes nothing; a miss computes the exact known
    /// set from the store's cached years and memoizes it, evicting the
    /// oldest entry if the cache was full.
    pub open spec fn determine_outcome(
        pre: KnownNamesCache,
        store: NameStore,
        key: Seq<u32>,
        post: KnownNamesCache,
        r: Seq<Seq<char>>,
    ) -> bool {
        if pre.has_key(key) {
            post == pre && r == pre.names_at(key)
        } else {
            &&& known_names_result(store, key, r)
            &&& Self::insert_outcome(pre, key, r, post)
        }
    }

    /// Answers "which names are known in these years" through the memo.
    ///
    /// The requested year list is first normalized (sorted, deduplicated)
    /// so that semantically identical requests share one entry. The store
    /// is only read; every requested year must already be loaded there —
    /// the cache never loads data itself.
    pub fn determine_known_names(&mut self, years: &Vec<u32>, store: &NameStore) -> (r: Vec<
        String,
    >)
        requires
            old(self).wf(),
            store.wf(),
            forall|k: int| 0 <= k < years@.len() ==> store.has_year(#[trigger] years@[k]),
        ensures
            final(self).wf(),
            Self::determine_outcome(
                *old(self),
                *store,
                year_key(years@),
                *final(self),
                r.deep_view(),
            ),
    {
        let key = normalize_years(years);
        match self.find(&key) {
            Some(i) => {
                proof {
                    self.lemma_names_at(key@, i as int);
                }
                let r = clone_names(&self.entries[i].1);
                proof {
                    assert(r.deep_view() == self.name_sets()[i as int]);
                }
                r
            },
            None => {
                proof {
                    assert forall|k: int| 0 <= k < key@.len() implies store.has_year(
                        #[trigger] key@[k],
                    ) by {
                        assert(key@.contains(key@[k]));
                        assert(years@.contains(key@[k]));
                        let m = choose|m: int| 0 <= m < years@.len() && years@[m] == key@[k];
                        assert(store.has_year(years@[m]));
                    }
                }
                let names = compute_known_names(store, &key);
                let result = clone_names(&names);
                self.insert(key, names);
                result
            },
        }
    }
}

/// Querying the same year-set twice returns the same name set, and the
/// second query leaves the cache exactly as the first left it: the
/// memoized answer is served without recomputation, and the store, which
/// both calls only read, is never touched at all.
pub proof fn lemma_known_names_memoized(
    c0: KnownNamesCache,
    c1: KnownNamesCache,
    c2: KnownNamesCache,
    store: NameStore,
    key: Seq<u32>,
    r1: Seq<Seq<char>>,
    r2: Seq<Seq<char>>,
)
    requires
        KnownNamesCache::determine_outcome(c0, store, key, c1, r1),
        KnownNamesCache::determine_outcome(c1, store, key, c2, r2),
    ensures
        r2 == r1,
        c2 == c1,
{
}

/// The cache is bounded: an insert never grows it past its capacity, and
/// an insert into a full cache evicts exactly the one oldest entry.
pub proof fn lemma_cache_bounded(
    pre: KnownNamesCache,
    key: Seq<u32>,
    names: Seq<Seq<char>>,
    post: KnownNamesCache,
)
    requires
        pre.wf(),
        KnownNamesCache::insert_outcome(pre, key, names, post),
    ensures
        post.keys().len() <= pre.cap(),
        pre.keys().len() == pre.cap() ==> post.keys().len() == pre.cap() && post.keys()
            == pre.keys().subrange(1, pre.cap()).push(key),
{
}

} // verus!
