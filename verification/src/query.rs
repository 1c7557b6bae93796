//! The single query operation the engine exposes upward: one name, one
//! year list, answered entirely from the loaded store — the per-year
//! breakdown, the cross-range aggregate, and the memoized known names.
use vstd::prelude::*;

use crate::aggregate::{
    aggregate, count_at, data_opt, gender_ratio_spec, peak_step, peak_track, peak_year,
    total_count, typical_gender_spec, NameStats, Ratio, YearStats,
};
use crate::error::{ParseError, RequestError};
use crate::gender::{Gender, GenderedData, NameData, YearMeta};
use crate::index::{find_name, YearIndex};
use crate::known::{normalize_years, year_key, KnownNamesCache};
use crate::namedata::{name_data_from_rows, name_map_view, row_data, rows_map, NameRow};
use crate::request::{admit_request, lemma_min_lower_bound, NameRequest};
use crate::store::NameStore;

verus! {

/// What one gender's cell of a year shows for the name: the record's rank
/// and count where the name appears, otherwise no rank and count zero.
pub open spec fn found_cell(ix: YearIndex, gender: Gender, name: Seq<char>) -> NameData {
    match find_name(ix.gender_records(gender), name) {
        Some(rec) => NameData { gender, rank: Some(rec.rank), count: rec.count },
        None => NameData { gender, rank: None, count: 0 },
    }
}

/// The recorded count the store holds for the name in one year and gender.
pub open spec fn store_count(store: NameStore, year: u32, gender: Gender, name: Seq<char>) -> u32 {
    found_cell(store.year_at(year), gender, name).count
}

/// The cumulative count over the years, in request order, from the store.
pub open spec fn store_total(
    store: NameStore,
    years: Seq<u32>,
    gender: Gender,
    name: Seq<char>,
) -> int
    decreases years.len(),
{
    if years.len() == 0 {
        0
    } else {
        store_total(store, years.drop_last(), gender, name) + store_count(
            store,
            years.last(),
            gender,
            name,
        )
    }
}

/// The running (year, count) peak over the years, from the store.
pub open spec fn store_peak(
    store: NameStore,
    years: Seq<u32>,
    gender: Gender,
    name: Seq<char>,
) -> Option<(u32, u32)>
    decreases years.len(),
{
    if years.len() == 0 {
        None
    } else {
        peak_step(
            store_peak(store, years.drop_last(), gender, name),
            years.last(),
            store_count(store, years.last(), gender, name),
        )
    }
}

/// What one queried year shows for one gender, read from the store: the
/// year's combined total, the cell for the name (a zero-count cell when
/// the name is absent), and the name's share of the combined total.
pub open spec fn expected_store_stats(
    store: NameStore,
    year: u32,
    gender: Gender,
    name: Seq<char>,
) -> YearStats {
    let ix = store.year_at(year);
    let tb = ix.total_of(Gender::Male) + ix.total_of(Gender::Female);
    YearStats {
        total_births: tb as u64,
        data: Some(found_cell(ix, gender, name)),
        ratio: Ratio {
            numerator: store_count(store, year, gender, name) as u64,
            denominator: tb as u64,
        },
    }
}

/// The whole aggregate matches what the store holds, year by year and
/// across the range.
pub open spec fn stats_match_store(
    store: NameStore,
    years: Seq<u32>,
    name: Seq<char>,
    stats: NameStats,
) -> bool {
    &&& stats.years@.len() == years.len()
    &&& forall|k: int|
        0 <= k < years.len() ==> {
            &&& (#[trigger] stats.years@[k]).0 == years[k]
            &&& stats.years@[k].1.male == expected_store_stats(
                store,
                years[k],
                Gender::Male,
                name,
            )
            &&& stats.years@[k].1.female == expected_store_stats(
                store,
                years[k],
                Gender::Female,
                name,
            )
        }
    &&& stats.totals.male == store_total(store, years, Gender::Male, name)
    &&& stats.totals.female == store_total(store, years, Gender::Female, name)
    &&& stats.peak.male == peak_year(store_peak(store, years, Gender::Male, name))
    &&& stats.peak.female == peak_year(store_peak(store, years, Gender::Female, name))
    &&& stats.typical_gender == typical_gender_spec(
        stats.totals.male as int,
        stats.totals.female as int,
    )
    &&& stats.gender_ratio == gender_ratio_spec(
        stats.totals.male as int,
        stats.totals.female as int,
    )
}

/// The row the store denotes for the name in one year.
pub open spec fn row_of(store: NameStore, name: Seq<char>, year: u32) -> NameRow {
    let ix = store.year_at(year);
    NameRow {
        year,
        male_count: found_cell(ix, Gender::Male, name).count,
        female_count: found_cell(ix, Gender::Female, name).count,
        male_rank: found_cell(ix, Gender::Male, name).rank,
        female_rank: found_cell(ix, Gender::Female, name).rank,
    }
}

/// In a map built from rows that each denote their own year, the entry at
/// a year's offset is that year's row whenever some row carries the year.
proof fn lemma_rows_map_at(
    rows: Seq<NameRow>,
    start: u32,
    store: NameStore,
    name: Seq<char>,
    y: u32,
)
    requires
        forall|i: int|
            0 <= i < rows.len() ==> (#[trigger] rows[i]) == row_of(store, name, rows[i].year),
        forall|i: int| 0 <= i < rows.len() ==> (#[trigger] rows[i]).year >= start,
        y >= start,
        exists|i: int| 0 <= i < rows.len() && (#[trigger] rows[i]).year == y,
    ensures
        rows_map(rows, start).contains_key((y - start) as u32),
        rows_map(rows, start)[(y - start) as u32] == row_data(row_of(store, name, y)),
    decreases rows.len(),
{
    let last = rows.last();
    if last.year == y {
        assert(rows_map(rows, start).contains_key((y - start) as u32));
        assert(rows_map(rows, start)[(y - start) as u32] == row_data(last));
    } else {
        let prev = rows.drop_last();
        assert(forall|i: int| 0 <= i < prev.len() ==> (#[trigger] prev[i]) == rows[i]);
        let i = choose|i: int| 0 <= i < rows.len() && (#[trigger] rows[i]).year == y;
        assert(i < prev.len());
        assert(prev[i].year == y);
        lemma_rows_map_at(prev, start, store, name, y);
        assert((last.year - start) as u32 != (y - start) as u32);
    }
}

/// The aggregate's cumulative count and running peak over a rows-built map
/// equal the store's, once the per-year counts agree.
proof fn lemma_total_translate(
    years: Seq<u32>,
    view: Map<u32, GenderedData<NameData>>,
    start: u32,
    store: NameStore,
    name: Seq<char>,
    gender: Gender,
)
    requires
        forall|k: int|
            0 <= k < years.len() ==> count_at(view, #[trigger] years[k], start, gender)
                == store_count(store, years[k], gender, name),
    ensures
        total_count(years, view, start, gender) == store_total(store, years, gender, name),
        peak_track(years, view, start, gender) == store_peak(store, years, gender, name),
    decreases years.len(),
{
    if years.len() > 0 {
        let prev = years.drop_last();
        assert(forall|k: int| 0 <= k < prev.len() ==> (#[trigger] prev[k]) == years[k]);
        lemma_total_translate(prev, view, start, store, name, gender);
        assert(years.last() == years[years.len() - 1]);
    }
}

/// The full answer to one query.
pub struct QueryAnswer {
    pub stats: NameStats,
    pub known_names: Vec<String>,
}

/// Answers one query from the loaded store: the per-year breakdown and
/// cross-range aggregate for the requested name, and the known-names list
/// through the bounded memo. Rejects an empty or oversized year list
/// before touching any data, leaving the memo untouched.
#[verifier::rlimit(100)]
pub fn query_loaded(
    store: &NameStore,
    cache: &mut KnownNamesCache,
    request: &NameRequest,
) -> (r: Result<QueryAnswer, RequestError>)
    requires
        store.wf(),
        old(cache).wf(),
        forall|k: int|
            0 <= k < request.years@.len() ==> store.has_year(#[trigger] request.years@[k]),
    ensures
        final(cache).wf(),
        match r {
            Ok(answer) => {
                &&& 0 < request.years@.len() <= crate::request::MAX_REQUEST_YEARS
                &&& stats_match_store(*store, request.years@, request.name@, answer.stats)
                &&& KnownNamesCache::determine_outcome(
                    *old(cache),
                    *store,
                    year_key(request.years@),
                    *final(cache),
                    answer.known_names.deep_view(),
                )
            },
            Err(RequestError::RequestedZeroYears) => request.years@.len() == 0 && *final(cache)
                == *old(cache),
            Err(RequestError::TooManyYears { requested, limit }) => request.years@.len()
                > crate::request::MAX_REQUEST_YEARS && requested == request.years@.len() && limit
                == crate::request::MAX_REQUEST_YEARS && *final(cache) == *old(cache),
            Err(_) => false,
        },
{
    let years = &request.years;
    let name = request.name.as_str();
    let start_year = match admit_request(years) {
        Ok(m) => m,
        Err(e) => {
            return Err(e);
        },
    };
    proof {
        lemma_min_lower_bound(years@);
    }
    // One metadata entry per requested year, in request order.
    let mut metas: Vec<GenderedData<YearMeta>> = Vec::new();
    let mut k: usize = 0;
    while k < years.len()
        invariant
            0 <= k <= years@.len(),
            store.wf(),
            forall|j: int| 0 <= j < years@.len() ==> store.has_year(#[trigger] years@[j]),
            forall|j: int| 0 <= j < years@.len() ==> #[trigger] years@[j] >= start_year,
            metas@.len() == k,
            forall|j: int|
                0 <= j < k ==> {
                    &&& (#[trigger] metas@[j]).male.total_births == store.year_at(
                        years@[j],
                    ).total_of(Gender::Male)
                    &&& metas@[j].female.total_births == store.year_at(years@[j]).total_of(
                        Gender::Female,
                    )
                },
        decreases years@.len() - k,
    {
        let y = years[k];
        let ix = match store.get_year(y) {
            Some(ix) => ix,
            None => {
                proof {
                    assert(store.has_year(years@[k as int]));
                }
                unreached()
            },
        };
        metas.push(
            GenderedData {
                male: YearMeta { total_births: ix.total(Gender::Male) },
                female: YearMeta { total_births: ix.total(Gender::Female) },
            },
        );
        k = k + 1;
    }
    // One backend row per distinct year: the map builder treats two rows
    // for one year as a storage-integrity failure, so the request's year
    // list is deduplicated first.
    let norm = normalize_years(years);
    proof {
        assert forall|j: int|
            0 <= j < norm@.len() implies store.has_year(#[trigger] norm@[j]) && norm@[j]
            >= start_year by {
            assert(norm@.contains(norm@[j]));
            assert(years@.contains(norm@[j]));
            let m = choose|m: int| 0 <= m < years@.len() && years@[m] == norm@[j];
            assert(store.has_year(years@[m]));
        }
    }
    let mut rows: Vec<NameRow> = Vec::new();
    let mut d: usize = 0;
    while d < norm.len()
        invariant
            0 <= d <= norm@.len(),
            store.wf(),
            name@ == request.name@,
            forall|j: int|
                0 <= j < norm@.len() ==> store.has_year(#[trigger] norm@[j]) && norm@[j]
                    >= start_year,
            rows@.len() == d,
            forall|j: int|
                0 <= j < d ==> (#[trigger] rows@[j]) == row_of(*store, request.name@, norm@[j]),
        decreases norm@.len() - d,
    {
        let y = norm[d];
        let ix = match store.get_year(y) {
            Some(ix) => ix,
            None => {
                proof {
                    assert(store.has_year(norm@[d as int]));
                }
                unreached()
            },
        };
        let (male_count, male_rank): (u32, Option<u32>) = match ix.lookup(Gender::Male, name) {
            Some(rec) => (rec.count, Some(rec.rank)),
            None => (0, None),
        };
        let (female_count, female_rank): (u32, Option<u32>) = match ix.lookup(
            Gender::Female,
            name,
        ) {
            Some(rec) => (rec.count, Some(rec.rank)),
            None => (0, None),
        };
        rows.push(NameRow { year: y, male_count, female_count, male_rank, female_rank });
        proof {
            assert(rows@.last() == row_of(*store, request.name@, y));
        }
        d = d + 1;
    }
    proof {
        assert forall|i: int| 0 <= i < rows@.len() implies (#[trigger] rows@[i]) == row_of(
            *store,
            request.name@,
            rows@[i].year,
        ) && rows@[i].year >= start_year by {
            assert(rows@[i] == row_of(*store, request.name@, norm@[i]));
            assert(rows@[i].year == norm@[i]);
        }
    }
    let data_map = match name_data_from_rows(&rows, start_year) {
        Ok(m) => m,
        Err(e) => {
            // A duplicate-year row is impossible: the rows follow the
            // strictly sorted deduplicated year list.
            proof {
                match e {
                    ParseError::ExpectedSingleRow { year, query_name } => {
                        let (i, j) = choose|i: int, j: int|
                            0 <= i < j < rows@.len() && rows@[i].year == rows@[j].year
                                && rows@[i].year == year;
                        assert(rows@[i].year == norm@[i]);
                        assert(rows@[j].year == norm@[j]);
                        assert(norm@[i] < norm@[j]);
                    },
                    _ => {},
                }
            }
            unreached()
        },
    };
    let ghost view = name_map_view(data_map);
    proof {
        assert forall|j: int|
            0 <= j < years@.len() implies {
            let y = #[trigger] years@[j];
            &&& count_at(view, y, start_year, Gender::Male) == store_count(
                *store,
                y,
                Gender::Male,
                request.name@,
            )
            &&& count_at(view, y, start_year, Gender::Female) == store_count(
                *store,
                y,
                Gender::Female,
                request.name@,
            )
            &&& data_opt(view, y, start_year, Gender::Male) == Some(
                found_cell(store.year_at(y), Gender::Male, request.name@),
            )
            &&& data_opt(view, y, start_year, Gender::Female) == Some(
                found_cell(store.year_at(y), Gender::Female, request.name@),
            )
        } by {
            let y = years@[j];
            assert(years@[j] == y);
            assert(years@.contains(y));
            assert(norm@.contains(y));
            let i = choose|i: int| 0 <= i < norm@.len() && norm@[i] == y;
            assert(rows@[i] == row_of(*store, request.name@, norm@[i]));
            assert(rows@[i].year == y);
            lemma_rows_map_at(rows@, start_year, *store, request.name@, y);
            assert(view[(y - start_year) as u32] == row_data(row_of(*store, request.name@, y)));
        }
        lemma_total_translate(years@, view, start_year, *store, request.name@, Gender::Male);
        lemma_total_translate(years@, view, start_year, *store, request.name@, Gender::Female);
    }
    let stats = aggregate(years, &metas, &data_map, start_year);
    proof {
        assert forall|j: int|
            0 <= j < years@.len() implies {
            &&& (#[trigger] stats.years@[j]).0 == years@[j]
            &&& stats.years@[j].1.male == expected_store_stats(
                *store,
                years@[j],
                Gender::Male,
                request.name@,
            )
            &&& stats.years@[j].1.female == expected_store_stats(
                *store,
                years@[j],
                Gender::Female,
                request.name@,
            )
        } by {
            assert(metas@[j].male.total_births == store.year_at(years@[j]).total_of(Gender::Male));
            assert(metas@[j].female.total_births == store.year_at(years@[j]).total_of(
                Gender::Female,
            ));
        }
    }
    let known_names = cache.determine_known_names(years, store);
    Ok(QueryAnswer { stats, known_names })
}

} // verus!
