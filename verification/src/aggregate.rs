//! Cross-year aggregation: per-year ratios, running totals, per-gender
//! peaks, and the cross-range summary for one queried name.
use vstd::prelude::*;

use crate::gender::{Gender, GenderedData, NameData, YearMeta};
use crate::namedata::{name_map_get, name_map_view, NameDataMap};
use crate::request::MAX_REQUEST_YEARS;

verus! {

/// An exact rational: `numerator / denominator`, with the convention that
/// a zero denominator denotes the ratio 0 rather than a fault. Callers
/// that need a floating value divide the parts themselves.
#[derive(Copy, Clone, Debug, PartialEq, Eq, Structural)]
pub struct Ratio {
    pub numerator: u64,
    pub denominator: u64,
}

/// One queried year for one gender: the combined both-gender total births
/// of that year, the record if the name appeared, and the name's share of
/// the combined total.
#[derive(Copy, Clone, Debug, PartialEq, Eq)]
pub struct YearStats {
    pub total_births: u64,
    pub data: Option<NameData>,
    pub ratio: Ratio,
}

/// The full answer for one name over the requested years, in request
/// order, plus the cross-range summary.
#[derive(Clone, Debug)]
pub struct NameStats {
    pub years: Vec<(u32, GenderedData<YearStats>)>,
    pub peak: GenderedData<Option<u32>>,
    pub totals: GenderedData<u64>,
    pub typical_gender: Option<Gender>,
    pub gender_ratio: Option<Ratio>,
}

/// The record stored for `year` and `gender`, if the name appeared.
pub open spec fn data_opt(
    view: Map<u32, GenderedData<NameData>>,
    year: u32,
    start: u32,
    gender: Gender,
) -> Option<NameData> {
    if view.contains_key((year - start) as u32) {
        Some(view[(year - start) as u32].of(gender))
    } else {
        None
    }
}

/// The recorded count for `year` and `gender`; absence counts as zero.
pub open spec fn count_at(
    view: Map<u32, GenderedData<NameData>>,
    year: u32,
    start: u32,
    gender: Gender,
) -> u32 {
    match data_opt(view, year, start, gender) {
        Some(d) => d.count,
        None => 0,
    }
}

/// The cumulative count over the years, in request order.
pub open spec fn total_count(
    years: Seq<u32>,
    view: Map<u32, GenderedData<NameData>>,
    start: u32,
    gender: Gender,
) -> int
    decreases years.len(),
{
    if years.len() == 0 {
        0
    } else {
        total_count(years.drop_last(), view, start, gender) + count_at(
            view,
            years.last(),
            start,
            gender,
        )
    }
}

/// One step of peak tracking: a later year replaces the peak when its
/// count is greater than or equal (ties go to the later-processed year),
/// and a peak first appears with the first nonzero count.
pub open spec fn peak_step(prev: Option<(u32, u32)>, year: u32, count: u32) -> Option<(u32, u32)> {
    match prev {
        Some(p) => if count >= p.1 {
            Some((year, count))
        } else {
            prev
        },
        None => if count > 0 {
            Some((year, count))
        } else {
            None
        },
    }
}

/// The running (year, count) peak after all the years, in request order.
pub open spec fn peak_track(
    years: Seq<u32>,
    view: Map<u32, GenderedData<NameData>>,
    start: u32,
    gender: Gender,
) -> Option<(u32, u32)>
    decreases years.len(),
{
    if years.len() == 0 {
        None
    } else {
        peak_step(
            peak_track(years.drop_last(), view, start, gender),
            years.last(),
            count_at(view, years.last(), start, gender),
        )
    }
}

/// The peak's year alone.
pub open spec fn peak_year(p: Option<(u32, u32)>) -> Option<u32> {
    match p {
        Some(q) => Some(q.0),
        None => None,
    }
}

/// What one queried year shows for one gender.
pub open spec fn expected_year_stats(
    view: Map<u32, GenderedData<NameData>>,
    year: u32,
    meta: GenderedData<YearMeta>,
    start: u32,
    gender: Gender,
) -> YearStats {
    let tb = meta.male.total_births + meta.female.total_births;
    YearStats {
        total_births: tb as u64,
        data: data_opt(view, year, start, gender),
        ratio: Ratio { numerator: count_at(view, year, start, gender) as u64, denominator: tb as u64 },
    }
}

/// The dominant gender over the range: the one with the larger cumulative
/// count, ties resolved to male; none when nothing was recorded at all.
pub open spec fn typical_gender_spec(male_total: int, female_total: int) -> Option<Gender> {
    if male_total + female_total == 0 {
        None
    } else if male_total >= female_total {
        Some(Gender::Male)
    } else {
        Some(Gender::Female)
    }
}

/// The dominant gender's share of the grand total; none when the grand
/// total is zero.
pub open spec fn gender_ratio_spec(male_total: int, female_total: int) -> Option<Ratio> {
    if male_total + female_total == 0 {
        None
    } else if male_total >= female_total {
        Some(
            Ratio {
                numerator: male_total as u64,
                denominator: (male_total + female_total) as u64,
            },
        )
    } else {
        Some(
            Ratio {
                numerator: female_total as u64,
                denominator: (male_total + female_total) as u64,
            },
        )
    }
}

/// One peak-tracking step.
fn step_peak(prev: Option<(u32, u32)>, year: u32, count: u32) -> (r: Option<(u32, u32)>)
    ensures
        r == peak_step(prev, year, count),
{
    match prev {
        Some(p) => {
            if count >= p.1 {
                Some((year, count))
            } else {
                Some(p)
            }
        },
        None => {
            if count > 0 {
                Some((year, count))
            } else {
                None
            }
        },
    }
}

/// Aggregates one name's data over the requested years, in request order.
///
/// For each year: the combined both-gender total births, the record if the
/// name appeared, and the ratio `count / combined total` (zero when the
/// combined total is zero). Across the range: per-gender cumulative totals
/// and peak years (ties to the later-processed year; no peak until a
/// nonzero count), the typical gender, and the dominant gender's share.
pub fn aggregate(
    years: &Vec<u32>,
    metas: &Vec<GenderedData<YearMeta>>,
    data: &NameDataMap,
    start_year: u32,
) -> (r: NameStats)
    requires
        metas@.len() == years@.len(),
        years@.len() <= MAX_REQUEST_YEARS,
        forall|k: int| 0 <= k < years@.len() ==> (#[trigger] years@[k]) >= start_year,
    ensures
        r.years@.len() == years@.len(),
        forall|k: int|
            0 <= k < years@.len() ==> {
                &&& (#[trigger] r.years@[k]).0 == years@[k]
                &&& r.years@[k].1.male == expected_year_stats(
                    name_map_view(*data),
                    years@[k],
                    metas@[k],
                    start_year,
                    Gender::Male,
                )
                &&& r.years@[k].1.female == expected_year_stats(
                    name_map_view(*data),
                    years@[k],
                    metas@[k],
                    start_year,
                    Gender::Female,
                )
            },
        r.totals.male == total_count(years@, name_map_view(*data), start_year, Gender::Male),
        r.totals.female == total_count(years@, name_map_view(*data), start_year, Gender::Female),
        r.peak.male == peak_year(
            peak_track(years@, name_map_view(*data), start_year, Gender::Male),
        ),
        r.peak.female == peak_year(
            peak_track(years@, name_map_view(*data), start_year, Gender::Female),
        ),
        r.typical_gender == typical_gender_spec(r.totals.male as int, r.totals.female as int),
        r.gender_ratio == gender_ratio_spec(r.totals.male as int, r.totals.female as int),
{
    let ghost view = name_map_view(*data);
    let mut out_years: Vec<(u32, GenderedData<YearStats>)> = Vec::new();
    let mut total_m: u64 = 0;
    let mut total_f: u64 = 0;
    let mut peak_m: Option<(u32, u32)> = None;
    let mut peak_f: Option<(u32, u32)> = None;
    let mut k: usize = 0;
    while k < years.len()
        invariant
            0 <= k <= years@.len(),
            view == name_map_view(*data),
            metas@.len() == years@.len(),
            years@.len() <= MAX_REQUEST_YEARS,
            forall|j: int| 0 <= j < years@.len() ==> (#[trigger] years@[j]) >= start_year,
            out_years@.len() == k,
            forall|j: int|
                0 <= j < k ==> {
                    &&& (#[trigger] out_years@[j]).0 == years@[j]
                    &&& out_years@[j].1.male == expected_year_stats(
                        view,
                        years@[j],
                        metas@[j],
                        start_year,
                        Gender::Male,
                    )
                    &&& out_years@[j].1.female == expected_year_stats(
                        view,
                        years@[j],
                        metas@[j],
                        start_year,
                        Gender::Female,
                    )
                },
            total_m == total_count(years@.subrange(0, k as int), view, start_year, Gender::Male),
            total_f == total_count(years@.subrange(0, k as int), view, start_year, Gender::Female),
            total_m <= k * (u32::MAX as int),
            total_f <= k * (u32::MAX as int),
            peak_m == peak_track(years@.subrange(0, k as int), view, start_year, Gender::Male),
            peak_f == peak_track(years@.subrange(0, k as int), view, start_year, Gender::Female),
        decreases years@.len() - k,
    {
        let y = years[k];
        let meta = &metas[k];
        let tb: u64 = (meta.male.total_births as u64) + (meta.female.total_births as u64);
        let offset = y - start_year;
        let (md, fd): (Option<NameData>, Option<NameData>) = match name_map_get(data, offset) {
            Some(pair) => (Some(pair.male), Some(pair.female)),
            None => (None, None),
        };
        let mc: u32 = match md {
            Some(d) => d.count,
            None => 0,
        };
        let fc: u32 = match fd {
            Some(d) => d.count,
            None => 0,
        };
        proof {
            assert((y - start_year) as u32 == offset);
            assert(md == data_opt(view, y, start_year, Gender::Male));
            assert(fd == data_opt(view, y, start_year, Gender::Female));
            assert(mc == count_at(view, y, start_year, Gender::Male));
            assert(fc == count_at(view, y, start_year, Gender::Female));
            let sub1 = years@.subrange(0, k + 1 as int);
            assert(sub1.drop_last() =~= years@.subrange(0, k as int));
            assert(sub1.last() == years@[k as int]);
        }
        total_m = total_m + (mc as u64);
        total_f = total_f + (fc as u64);
        peak_m = step_peak(peak_m, y, mc);
        peak_f = step_peak(peak_f, y, fc);
        out_years.push(
            (
                y,
                GenderedData {
                    male: YearStats {
                        total_births: tb,
                        data: md,
                        ratio: Ratio { numerator: mc as u64, denominator: tb },
                    },
                    female: YearStats {
                        total_births: tb,
                        data: fd,
                        ratio: Ratio { numerator: fc as u64, denominator: tb },
                    },
                },
            ),
        );
        k = k + 1;
    }
    proof {
        assert(years@.subrange(0, years@.len() as int) =~= years@);
    }
    let grand: u64 = total_m + total_f;
    let typical: Option<Gender>;
    let gratio: Option<Ratio>;
    if grand == 0 {
        typical = None;
        gratio = None;
    } else if total_m >= total_f {
        typical = Some(Gender::Male);
        gratio = Some(Ratio { numerator: total_m, denominator: grand });
    } else {
        typical = Some(Gender::Female);
        gratio = Some(Ratio { numerator: total_f, denominator: grand });
    }
    NameStats {
        years: out_years,
        peak: GenderedData { male: step_peak_year(peak_m), female: step_peak_year(peak_f) },
        totals: GenderedData { male: total_m, female: total_f },
        typical_gender: typical,
        gender_ratio: gratio,
    }
}

/// Projects a tracked peak to its year.
fn step_peak_year(p: Option<(u32, u32)>) -> (r: Option<u32>)
    ensures
        r == peak_year(p),
{
    match p {
        Some(q) => Some(q.0),
        None => None,
    }
}

} // verus!

