//! The immutable per-year, per-gender lookup structure.
use vstd::prelude::*;

use crate::error::ParseError;
use crate::gender::{Gender, GenderedData, YearMeta};

verus! {

/// One parsed (name, gender) observation for a year: the 0-based rank the
/// name held within its gender (input order) and the recorded birth count.
#[derive(Clone, Debug, PartialEq, Eq)]
pub struct NameRecord {
    pub name: String,
    pub gender: Gender,
    pub rank: u32,
    pub count: u32,
}

/// No two records in the sequence share a name.
pub open spec fn unique_names(s: Seq<NameRecord>) -> bool {
    forall|i: int, j: int| 0 <= i < j < s.len() ==> s[i].name@ != s[j].name@
}

/// The first record carrying `name`, if any.
pub open spec fn find_name(s: Seq<NameRecord>, name: Seq<char>) -> Option<NameRecord>
    decreases s.len(),
{
    if s.len() == 0 {
        None
    } else if s[0].name@ == name {
        Some(s[0])
    } else {
        find_name(s.drop_first(), name)
    }
}

/// The sum of the birth counts of every record.
pub open spec fn sum_counts(s: Seq<NameRecord>) -> int
    decreases s.len(),
{
    if s.len() == 0 {
        0
    } else {
        sum_counts(s.drop_last()) + s.last().count
    }
}

proof fn lemma_sum_prefix_le(s: Seq<NameRecord>, i: int)
    requires
        0 <= i <= s.len(),
    ensures
        sum_counts(s.subrange(0, i)) <= sum_counts(s),
    decreases s.len() - i,
{
    if i == s.len() {
        assert(s.subrange(0, i) =~= s);
    } else {
        assert(s.subrange(0, i + 1).drop_last() =~= s.subrange(0, i));
        assert(s.subrange(0, i + 1).last() == s[i]);
        lemma_sum_prefix_le(s, i + 1);
    }
}

proof fn lemma_find_skip(s: Seq<NameRecord>, name: Seq<char>, i: int)
    requires
        0 <= i <= s.len(),
        forall|k: int| 0 <= k < i ==> s[k].name@ != name,
    ensures
        find_name(s, name) == find_name(s.skip(i), name),
    decreases i,
{
    if i == 0 {
        assert(s.skip(0) =~= s);
    } else {
        assert(s.len() > 0);
        assert(s[0].name@ != name);
        assert(s.drop_first() =~= s.skip(1));
        assert(s.skip(i) =~= s.drop_first().skip(i - 1));
        assert(forall|k: int| 0 <= k < i - 1 ==> s.drop_first()[k].name@ != name);
        lemma_find_skip(s.drop_first(), name, i - 1);
    }
}

/// In a list of distinct names, looking a member's name up finds exactly
/// that member.
pub proof fn lemma_find_name_present(s: Seq<NameRecord>, k: int)
    requires
        unique_names(s),
        0 <= k < s.len(),
    ensures
        find_name(s, s[k].name@) == Some(s[k]),
    decreases k,
{
    if k == 0 {
    } else {
        assert(s[0].name@ != s[k].name@);
        assert(unique_names(s.drop_first())) by {
            assert(forall|i: int, j: int|
                0 <= i < j < s.drop_first().len() ==> s.drop_first()[i] == s[i + 1]
                    && s.drop_first()[j] == s[j + 1]);
        }
        assert(s.drop_first()[k - 1] == s[k]);
        lemma_find_name_present(s.drop_first(), k - 1);
    }
}

/// An immutable per-year, per-gender name lookup table together with the
/// per-gender total births for that year. Built once, then only read.
#[derive(Clone, Debug)]
pub struct YearIndex {
    records: GenderedData<Vec<NameRecord>>,
    totals: GenderedData<u32>,
}

impl YearIndex {
    /// The records held for `gender`, in input (rank) order.
    pub closed spec fn gender_records(self, gender: Gender) -> Seq<NameRecord> {
        self.records.of(gender)@
    }

    /// The total births recorded for `gender` in this year.
    pub closed spec fn total_of(self, gender: Gender) -> u32 {
        self.totals.of(gender)
    }

    /// Within each gender, a name appears at most once.
    pub open spec fn wf(self) -> bool {
        unique_names(self.gender_records(Gender::Male)) && unique_names(
            self.gender_records(Gender::Female),
        )
    }

    /// Scans one gender's list for a duplicated name; `None` means all
    /// names in the list are distinct.
    fn first_duplicate(list: &Vec<NameRecord>) -> (r: Option<String>)
        ensures
            match r {
                Some(name) => exists|i: int, j: int|
                    0 <= i < j < list@.len() && list@[i].name@ == list@[j].name@ && list@[i].name@
                        == name@,
                None => unique_names(list@),
            },
    {
        let mut i: usize = 0;
        while i < list.len()
            invariant
                0 <= i <= list@.len(),
                forall|a: int, b: int|
                    0 <= a < b < list@.len() && a < i ==> list@[a].name@ != list@[b].name@,
            decreases list@.len() - i,
        {
            let mut j: usize = i + 1;
            while j < list.len()
                invariant
                    i < j <= list@.len(),
                    i < list@.len(),
                    forall|b: int| i < b < j ==> list@[i as int].name@ != list@[b].name@,
                decreases list@.len() - j,
            {
                if list[i].name == list[j].name {
                    return Some(list[i].name.clone());
                }
                j = j + 1;
            }
            i = i + 1;
        }
        None
    }

    /// Sums one gender's birth counts.
    fn sum_list(list: &Vec<NameRecord>) -> (r: u32)
        requires
            sum_counts(list@) <= u32::MAX,
        ensures
            r == sum_counts(list@),
    {
        let mut total: u32 = 0;
        let mut i: usize = 0;
        while i < list.len()
            invariant
                0 <= i <= list@.len(),
                total == sum_counts(list@.subrange(0, i as int)),
                sum_counts(list@) <= u32::MAX,
            decreases list@.len() - i,
        {
            proof {
                assert(list@.subrange(0, i + 1 as int).drop_last() =~= list@.subrange(0, i as int));
                assert(list@.subrange(0, i + 1 as int).last() == list@[i as int]);
                lemma_sum_prefix_le(list@, i + 1 as int);
            }
            total = total + list[i].count;
            i = i + 1;
        }
        proof {
            assert(list@.subrange(0, list@.len() as int) =~= list@);
        }
        total
    }

    /// Builds the index from gender-partitioned record lists, computing the
    /// per-gender totals as the sum of counts.
    ///
    /// A duplicated name within one gender's list is a fatal construction
    /// error: the data set has no meaning for two conflicting counts of one
    /// (name, gender, year), so nothing is ever silently overwritten.
    pub fn build(records: GenderedData<Vec<NameRecord>>) -> (r: Result<YearIndex, ParseError>)
        requires
            sum_counts(records.male@) <= u32::MAX,
            sum_counts(records.female@) <= u32::MAX,
        ensures
            match r {
                Ok(ix) => {
                    &&& ix.wf()
                    &&& unique_names(records.male@)
                    &&& unique_names(records.female@)
                    &&& ix.gender_records(Gender::Male) == records.male@
                    &&& ix.gender_records(Gender::Female) == records.female@
                    &&& ix.total_of(Gender::Male) == sum_counts(records.male@)
                    &&& ix.total_of(Gender::Female) == sum_counts(records.female@)
                },
                Err(ParseError::DuplicateName { gender, name }) => exists|i: int, j: int|
                    0 <= i < j < records.of(gender)@.len() && records.of(gender)@[i].name@
                        == records.of(gender)@[j].name@ && records.of(gender)@[i].name@ == name@,
                Err(_) => false,
            },
    {
        let male_total = Self::sum_list(&records.male);
        let female_total = Self::sum_list(&records.female);
        let meta = GenderedData {
            male: YearMeta { total_births: male_total },
            female: YearMeta { total_births: female_total },
        };
        Self::build_with_totals(records, meta)
    }

    /// Builds the index with backend-supplied per-gender totals instead of
    /// computed ones. The duplicate-name policy is the same as in `build`.
    pub fn build_with_totals(records: GenderedData<Vec<NameRecord>>, meta: GenderedData<YearMeta>) -> (r:
        Result<YearIndex, ParseError>)
        ensures
            match r {
                Ok(ix) => {
                    &&& ix.wf()
                    &&& unique_names(records.male@)
                    &&& unique_names(records.female@)
                    &&& ix.gender_records(Gender::Male) == records.male@
                    &&& ix.gender_records(Gender::Female) == records.female@
                    &&& ix.total_of(Gender::Male) == meta.male.total_births
                    &&& ix.total_of(Gender::Female) == meta.female.total_births
                },
                Err(ParseError::DuplicateName { gender, name }) => exists|i: int, j: int|
                    0 <= i < j < records.of(gender)@.len() && records.of(gender)@[i].name@
                        == records.of(gender)@[j].name@ && records.of(gender)@[i].name@ == name@,
                Err(_) => false,
            },
    {
        if let Some(name) = Self::first_duplicate(&records.male) {
            proof {
                let (i, j) = choose|i: int, j: int|
                    0 <= i < j < records.male@.len() && records.male@[i].name@
                        == records.male@[j].name@ && records.male@[i].name@ == name@;
                assert(records.of(Gender::Male) == records.male);
                assert(0 <= i < j < records.of(Gender::Male)@.len() && records.of(
                    Gender::Male,
                )@[i].name@ == records.of(Gender::Male)@[j].name@ && records.of(
                    Gender::Male,
                )@[i].name@ == name@);
            }
            return Err(ParseError::DuplicateName { gender: Gender::Male, name });
        }
        if let Some(name) = Self::first_duplicate(&records.female) {
            proof {
                let (i, j) = choose|i: int, j: int|
                    0 <= i < j < records.female@.len() && records.female@[i].name@
                        == records.female@[j].name@ && records.female@[i].name@ == name@;
                assert(records.of(Gender::Female) == records.female);
                assert(0 <= i < j < records.of(Gender::Female)@.len() && records.of(
                    Gender::Female,
                )@[i].name@ == records.of(Gender::Female)@[j].name@ && records.of(
                    Gender::Female,
                )@[i].name@ == name@);
            }
            return Err(ParseError::DuplicateName { gender: Gender::Female, name });
        }
        let totals = GenderedData {
            male: meta.male.total_births,
            female: meta.female.total_births,
        };
        Ok(YearIndex { records, totals })
    }

    /// Looks the name up in `gender`'s table; `None` means no recorded
    /// births for that name here, which is not an error.
    pub fn lookup<'a>(&'a self, gender: Gender, name: &str) -> (r: Option<&'a NameRecord>)
        ensures
            match r {
                Some(rec) => find_name(self.gender_records(gender), name@) == Some(*rec),
                None => find_name(self.gender_records(gender), name@) is None,
            },
    {
        let list = self.records.get(gender);
        let wanted = name.to_owned();
        let mut i: usize = 0;
        while i < list.len()
            invariant
                0 <= i <= list@.len(),
                list@ == self.gender_records(gender),
                wanted@ == name@,
                forall|k: int| 0 <= k < i ==> list@[k].name@ != name@,
            decreases list@.len() - i,
        {
            if list[i].name == wanted {
                proof {
                    lemma_find_skip(list@, name@, i as int);
                    assert(list@.skip(i as int)[0] == list@[i as int]);
                }
                return Some(&list[i]);
            }
            i = i + 1;
        }
        proof {
            lemma_find_skip(list@, name@, list@.len() as int);
            assert(list@.skip(list@.len() as int) =~= Seq::<NameRecord>::empty());
        }
        None
    }

    /// The records held for `gender`, in rank order.
    pub fn records_of<'a>(&'a self, gender: Gender) -> (r: &'a Vec<NameRecord>)
        ensures
            r@ == self.gender_records(gender),
    {
        self.records.get(gender)
    }

    /// The total births recorded for `gender` in this year.
    pub fn total(&self, gender: Gender) -> (r: u32)
        ensures
            r == self.total_of(gender),
    {
        *self.totals.get(gender)
    }

    /// The combined both-gender total births for this year.
    pub fn combined_total(&self) -> (r: u64)
        ensures
            r == self.total_of(Gender::Male) + self.total_of(Gender::Female),
    {
        (self.total(Gender::Male) as u64) + (self.total(Gender::Female) as u64)
    }
}

} // verus!
