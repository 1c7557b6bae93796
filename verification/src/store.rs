//! The backend-agnostic year cache: a memoizing, load-once store of
//! `YearIndex` values, keyed by year.
use vstd::prelude::*;

use crate::error::ParseError;
use crate::gender::{Gender, GenderedData, YearMeta};
use crate::index::{unique_names, YearIndex, NameRecord};

verus! {

/// The lazily populated cache of year indexes. The physical backend stays
/// outside: callers fetch a year's raw data themselves and hand it to
/// `load_year`, which builds and caches the index exactly once per year.
///
/// The year cache has no eviction on purpose: the year range is small and
/// finite (roughly a century), so unbounded growth is a deliberate trade.
pub struct NameStore {
    years: Vec<(u32, YearIndex)>,
}

impl NameStore {
    /// The cached (year, index) entries, oldest first.
    pub closed spec fn entries(self) -> Seq<(u32, YearIndex)> {
        self.years@
    }

    /// Years are unique keys and every cached index is well formed.
    pub open spec fn wf(self) -> bool {
        &&& forall|i: int, j: int|
            0 <= i < j < self.entries().len() ==> (#[trigger] self.entries()[i]).0 != (
            #[trigger] self.entries()[j]).0
        &&& forall|i: int|
            0 <= i < self.entries().len() ==> (#[trigger] self.entries()[i]).1.wf()
    }

    /// Whether `year` is cached.
    pub open spec fn has_year(self, year: u32) -> bool {
        exists|i: int| 0 <= i < self.entries().len() && (#[trigger] self.entries()[i]).0 == year
    }

    /// The cached index for `year` (meaningful only when `has_year`).
    pub open spec fn year_at(self, year: u32) -> YearIndex {
        let i = choose|i: int|
            0 <= i < self.entries().len() && (#[trigger] self.entries()[i]).0 == year;
        self.entries()[i].1
    }

    /// Any entry whose key is `year` holds exactly `year_at(year)`.
    pub proof fn lemma_year_at(self, year: u32, i: int)
        requires
            self.wf(),
            0 <= i < self.entries().len(),
            self.entries()[i].0 == year,
        ensures
            self.has_year(year),
            self.year_at(year) == self.entries()[i].1,
    {
        assert(self.has_year(year));
        let j = choose|j: int|
            0 <= j < self.entries().len() && (#[trigger] self.entries()[j]).0 == year;
        if i != j {
            assert(self.entries()[i].0 != self.entries()[j].0);
        }
    }

    pub fn new() -> (r: NameStore)
        ensures
            r.wf(),
            r.entries() == Seq::<(u32, YearIndex)>::empty(),
            forall|y: u32| !r.has_year(y),
    {
        NameStore { years: Vec::new() }
    }

    /// Whether `year` has already been loaded.
    pub fn contains_year(&self, year: u32) -> (r: bool)
        ensures
            r == self.has_year(year),
    {
        let mut i: usize = 0;
        while i < self.years.len()
            invariant
                0 <= i <= self.entries().len(),
                self.entries() == self.years@,
                forall|k: int| 0 <= k < i ==> (#[trigger] self.entries()[k]).0 != year,
            decreases self.entries().len() - i,
        {
            if self.years[i].0 == year {
                return true;
            }
            i = i + 1;
        }
        false
    }

    /// The cached index for `year`, if it has been loaded.
    pub fn get_year<'a>(&'a self, year: u32) -> (r: Option<&'a YearIndex>)
        requires
            self.wf(),
        ensures
            match r {
                Some(ix) => self.has_year(year) && *ix == self.year_at(year),
                None => !self.has_year(year),
            },
    {
        let mut i: usize = 0;
        while i < self.years.len()
            invariant
                0 <= i <= self.entries().len(),
                self.entries() == self.years@,
                self.wf(),
                forall|k: int| 0 <= k < i ==> (#[trigger] self.entries()[k]).0 != year,
            decreases self.entries().len() - i,
        {
            if self.years[i].0 == year {
                proof {
                    self.lemma_year_at(year, i as int);
                }
                return Some(&self.years[i].1);
            }
            i = i + 1;
        }
        None
    }

    /// Every year other than `year` is cached in `post` exactly as it was
    /// in `pre`.
    pub open spec fn frame(pre: NameStore, post: NameStore, year: u32) -> bool {
        forall|y2: u32|
            y2 != year ==> (#[trigger] post.has_year(y2)) == pre.has_year(y2) && (pre.has_year(y2)
                ==> post.year_at(y2) == pre.year_at(y2))
    }

    /// What one `load_year` call does: nothing at all when the year is
    /// already cached (the load is memoized, exactly once per year);
    /// otherwise the built index is cached under `year` and every other
    /// entry is untouched, or the duplicate-name error is returned with the
    /// store unchanged.
    pub open spec fn load_outcome(
        pre: NameStore,
        year: u32,
        records: GenderedData<Vec<NameRecord>>,
        male_total: u32,
        female_total: u32,
        post: NameStore,
        r: Result<(), ParseError>,
    ) -> bool {
        if pre.has_year(year) {
            post == pre && r is Ok
        } else {
            match r {
                Ok(_) => {
                    &&& post.wf()
                    &&& post.has_year(year)
                    &&& unique_names(records.male@)
                    &&& unique_names(records.female@)
                    &&& post.year_at(year).wf()
                    &&& post.year_at(year).gender_records(Gender::Male) == records.male@
                    &&& post.year_at(year).gender_records(Gender::Female) == records.female@
                    &&& post.year_at(year).total_of(Gender::Male) == male_total
                    &&& post.year_at(year).total_of(Gender::Female) == female_total
                    &&& Self::frame(pre, post, year)
                },
                Err(ParseError::DuplicateName { gender, name }) => {
                    &&& exists|i: int, j: int|
                        0 <= i < j < records.of(gender)@.len() && records.of(gender)@[i].name@
                            == records.of(gender)@[j].name@ && records.of(gender)@[i].name@
                            == name@
                    &&& post == pre
                },
                Err(_) => false,
            }
        }
    }

    /// Caches a freshly built index under a year that is not cached yet.
    fn insert_built(&mut self, year: u32, ix: YearIndex)
        requires
            old(self).wf(),
            !old(self).has_year(year),
            ix.wf(),
        ensures
            final(self).wf(),
            final(self).has_year(year),
            final(self).year_at(year) == ix,
            Self::frame(*old(self), *final(self), year),
    {
        let ghost pre = *self;
        self.years.push((year, ix));
        proof {
            let n = self.entries().len() - 1;
            assert(self.entries() == pre.entries().push((year, ix)));
            assert forall|i: int, j: int|
                0 <= i < j < self.entries().len() implies (#[trigger] self.entries()[i]).0 != (
            #[trigger] self.entries()[j]).0 by {
                if j < n {
                    assert(pre.entries()[i].0 != pre.entries()[j].0);
                } else {
                    assert(self.entries()[j].0 == year);
                    if pre.entries()[i].0 == year {
                        assert(pre.has_year(year));
                    }
                }
            }
            assert(self.wf()) by {
                assert(forall|i: int|
                    0 <= i < n ==> (#[trigger] self.entries()[i]).1 == pre.entries()[i].1);
                assert(self.entries()[n].1.wf());
            }
            self.lemma_year_at(year, n);
            assert forall|y2: u32| y2 != year implies (#[trigger] self.has_year(y2))
                == pre.has_year(y2) && (pre.has_year(y2) ==> self.year_at(y2) == pre.year_at(
                y2,
            )) by {
                if pre.has_year(y2) {
                    let i = choose|i: int|
                        0 <= i < pre.entries().len() && (#[trigger] pre.entries()[i]).0 == y2;
                    assert(self.entries()[i].0 == y2);
                    self.lemma_year_at(y2, i);
                    pre.lemma_year_at(y2, i);
                } else if self.has_year(y2) {
                    let i = choose|i: int|
                        0 <= i < self.entries().len() && (#[trigger] self.entries()[i]).0 == y2;
                    assert(i < n ==> pre.entries()[i].0 == y2);
                    assert(i == n ==> self.entries()[i].0 == year);
                }
            }
        }
    }

    /// Memoizing load: builds and caches the index for `year` from the
    /// fetched records and backend-supplied totals, unless the year is
    /// already cached, in which case the given data is discarded unread.
    pub fn load_year(
        &mut self,
        year: u32,
        records: GenderedData<Vec<NameRecord>>,
        meta: GenderedData<YearMeta>,
    ) -> (r: Result<(), ParseError>)
        requires
            old(self).wf(),
        ensures
            final(self).wf(),
            Self::load_outcome(
                *old(self),
                year,
                records,
                meta.male.total_births,
                meta.female.total_births,
                *final(self),
                r,
            ),
    {
        if self.contains_year(year) {
            return Ok(());
        }
        match YearIndex::build_with_totals(records, meta) {
            Ok(ix) => {
                self.insert_built(year, ix);
                Ok(())
            },
            Err(e) => Err(e),
        }
    }

    /// Memoizing load for backends that supply no totals: the per-gender
    /// totals are computed as the sum of the record counts, as from a flat
    /// record file. Otherwise exactly like `load_year`.
    pub fn load_year_computed(
        &mut self,
        year: u32,
        records: GenderedData<Vec<NameRecord>>,
    ) -> (r: Result<(), ParseError>)
        requires
            old(self).wf(),
            crate::index::sum_counts(records.male@) <= u32::MAX,
            crate::index::sum_counts(records.female@) <= u32::MAX,
        ensures
            final(self).wf(),
            Self::load_outcome(
                *old(self),
                year,
                records,
                crate::index::sum_counts(records.male@) as u32,
                crate::index::sum_counts(records.female@) as u32,
                *final(self),
                r,
            ),
    {
        if self.contains_year(year) {
            return Ok(());
        }
        match YearIndex::build(records) {
            Ok(ix) => {
                self.insert_built(year, ix);
                Ok(())
            },
            Err(e) => Err(e),
        }
    }

    /// Looks `name` up for `gender` in the cached index of `year`; `None`
    /// when the year is not cached or holds no such name.
    pub fn lookup<'a>(&'a self, year: u32, gender: Gender, name: &str) -> (r: Option<
        &'a NameRecord,
    >)
        requires
            self.wf(),
        ensures
            match r {
                Some(rec) => self.has_year(year) && crate::index::find_name(
                    self.year_at(year).gender_records(gender),
                    name@,
                ) == Some(*rec),
                None => !self.has_year(year) || crate::index::find_name(
                    self.year_at(year).gender_records(gender),
                    name@,
                ) is None,
            },
    {
        match self.get_year(year) {
            Some(ix) => ix.lookup(gender, name),
            None => None,
        }
    }
}

/// A year, once cached, never changes: repeating `load_year` for a cached
/// year returns success and leaves the store, and so every index a caller
/// can observe, exactly as it was — whatever data the repeated call carried.
pub proof fn lemma_load_year_idempotent(
    s0: NameStore,
    s1: NameStore,
    s2: NameStore,
    year: u32,
    records1: GenderedData<Vec<NameRecord>>,
    records2: GenderedData<Vec<NameRecord>>,
    mt1: (u32, u32),
    mt2: (u32, u32),
    r1: Result<(), ParseError>,
    r2: Result<(), ParseError>,
)
    requires
        NameStore::load_outcome(s0, year, records1, mt1.0, mt1.1, s1, r1),
        r1 is Ok,
        NameStore::load_outcome(s1, year, records2, mt2.0, mt2.1, s2, r2),
    ensures
        s1.has_year(year),
        s2 == s1,
        r2 is Ok,
{
}

} // verus!
