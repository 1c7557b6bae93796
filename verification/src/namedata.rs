//! Per-name query results: raw backend rows become the year-offset map
//! the aggregator reads, and the text of the known-names query.
use vstd::prelude::*;

use crate::decimal::{dec_str, format_u32};
use crate::error::ParseError;
use crate::gender::{Gender, GenderedData, NameData, YearMeta};

verus! {

/// The per-name year-offset table, backed by idmap's direct map. The map
/// itself is opaque to the verifier; everything stated about it goes
/// through `name_map_view` and the trusted accessors below.
#[verifier::external_body]
pub struct NameDataMap {
    map: idmap::DirectIdMap<u32, GenderedData<NameData>>,
}

/// What the id map holds: the per-gender data stored under each present
/// year offset.
pub uninterp spec fn name_map_view(m: NameDataMap) -> Map<u32, GenderedData<NameData>>;

/// A view with no entries.
pub open spec fn empty_name_map() -> Map<u32, GenderedData<NameData>> {
    Map::empty()
}

/// Relies on `idmap::DirectIdMap::new`: a map with no entries.
#[verifier::external_body]
fn name_map_new() -> (m: NameDataMap)
    ensures
        name_map_view(m) == empty_name_map(),
{
    NameDataMap { map: idmap::DirectIdMap::new() }
}

/// Relies on `idmap::DirectIdMap::insert`: stores `value` under `key`,
/// replacing and returning the value previously there, if any. With a
/// `u32` key every index conversion inside the map stays in range.
#[verifier::external_body]
fn name_map_insert(m: &mut NameDataMap, key: u32, value: GenderedData<NameData>) -> (prev: Option<
    GenderedData<NameData>,
>)
    ensures
        name_map_view(*final(m)) == name_map_view(*old(m)).insert(key, value),
        match prev {
            Some(p) => name_map_view(*old(m)).contains_key(key) && p == name_map_view(*old(m))[key],
            None => !name_map_view(*old(m)).contains_key(key),
        },
{
    m.map.insert(key, value)
}

/// Relies on `idmap::DirectIdMap::get`: the value stored under `key`, or
/// `None` when the key is absent.
#[verifier::external_body]
pub(crate) fn name_map_get<'a>(m: &'a NameDataMap, key: u32) -> (r: Option<
    &'a GenderedData<NameData>,
>)
    ensures
        match r {
            Some(v) => name_map_view(*m).contains_key(key) && *v == name_map_view(*m)[key],
            None => !name_map_view(*m).contains_key(key),
        },
{
    m.map.get(key)
}

/// One raw row of the per-name backend query: the year it concerns, both
/// gender counts, and both gender ranks where the name was ranked.
#[derive(Copy, Clone, Debug, PartialEq, Eq, Structural)]
pub struct NameRow {
    pub year: u32,
    pub male_count: u32,
    pub female_count: u32,
    pub male_rank: Option<u32>,
    pub female_rank: Option<u32>,
}

/// The per-gender data one row denotes.
pub open spec fn row_data(row: NameRow) -> GenderedData<NameData> {
    GenderedData {
        male: NameData { gender: Gender::Male, rank: row.male_rank, count: row.male_count },
        female: NameData { gender: Gender::Female, rank: row.female_rank, count: row.female_count },
    }
}

/// The map the rows denote, keyed by each row's offset from `start`.
pub open spec fn rows_map(rows: Seq<NameRow>, start: u32) -> Map<u32, GenderedData<NameData>>
    decreases rows.len(),
{
    if rows.len() == 0 {
        Map::empty()
    } else {
        rows_map(rows.drop_last(), start).insert(
            (rows.last().year - start) as u32,
            row_data(rows.last()),
        )
    }
}

/// Builds the year-offset map of per-gender name data from the rows the
/// backend returned for one name.
///
/// Storage may hold at most one row per year for a name: two rows for one
/// year are two conflicting observations, a fatal storage-integrity
/// failure, and neither is ever silently kept over the other.
pub fn name_data_from_rows(rows: &Vec<NameRow>, start_year: u32) -> (r: Result<
    NameDataMap,
    ParseError,
>)
    requires
        forall|i: int| 0 <= i < rows@.len() ==> (#[trigger] rows@[i]).year >= start_year,
    ensures
        match r {
            Ok(m) => {
                &&& forall|i: int, j: int|
                    0 <= i < j < rows@.len() ==> (#[trigger] rows@[i]).year != (
                    #[trigger] rows@[j]).year
                &&& name_map_view(m) == rows_map(rows@, start_year)
            },
            Err(ParseError::ExpectedSingleRow { year, query_name }) => {
                &&& exists|i: int, j: int|
                    0 <= i < j < rows@.len() && rows@[i].year == rows@[j].year && rows@[i].year
                        == year
                &&& query_name@ == "list_name_data"@
            },
            Err(_) => false,
        },
{
    // Reject a duplicated year before anything is stored.
    let mut a: usize = 0;
    while a < rows.len()
        invariant
            0 <= a <= rows@.len(),
            forall|i: int, j: int|
                0 <= i < j < rows@.len() && i < a ==> (#[trigger] rows@[i]).year != (
                #[trigger] rows@[j]).year,
        decreases rows@.len() - a,
    {
        let mut b: usize = a + 1;
        while b < rows.len()
            invariant
                a < b <= rows@.len(),
                a < rows@.len(),
                forall|j: int|
                    a < j < b ==> (#[trigger] rows@[j]).year != rows@[a as int].year,
            decreases rows@.len() - b,
        {
            if rows[a].year == rows[b].year {
                return Err(
                    ParseError::ExpectedSingleRow {
                        year: rows[a].year,
                        query_name: "list_name_data",
                    },
                );
            }
            b = b + 1;
        }
        a = a + 1;
    }
    let mut result = name_map_new();
    let mut i: usize = 0;
    while i < rows.len()
        invariant
            0 <= i <= rows@.len(),
            forall|k: int| 0 <= k < rows@.len() ==> (#[trigger] rows@[k]).year >= start_year,
            name_map_view(result) == rows_map(rows@.subrange(0, i as int), start_year),
        decreases rows@.len() - i,
    {
        let row = rows[i];
        let offset = row.year - start_year;
        let data = GenderedData {
            male: NameData { gender: Gender::Male, rank: row.male_rank, count: row.male_count },
            female: NameData {
                gender: Gender::Female,
                rank: row.female_rank,
                count: row.female_count,
            },
        };
        let _ = name_map_insert(&mut result, offset, data);
        proof {
            assert(rows@.subrange(0, i + 1 as int).drop_last() =~= rows@.subrange(0, i as int));
            assert(rows@.subrange(0, i + 1 as int).last() == rows@[i as int]);
        }
        i = i + 1;
    }
    proof {
        assert(rows@.subrange(0, rows@.len() as int) =~= rows@);
    }
    Ok(result)
}

/// Decides one year's metadata from the backend's raw rows: exactly one
/// row is required. No row means the year is missing; more than one is a
/// storage-integrity failure; both are told apart by the error variant.
pub fn year_meta_from_rows(year: u32, rows: &Vec<(u32, u32)>) -> (r: Result<
    GenderedData<YearMeta>,
    ParseError,
>)
    ensures
        match r {
            Ok(meta) => rows@.len() == 1 && meta.male.total_births == rows@[0].0
                && meta.female.total_births == rows@[0].1,
            Err(ParseError::MissingResult { year: y, query_name }) => rows@.len() == 0 && y == year
                && query_name@ == "load_year_meta"@,
            Err(ParseError::ExpectedSingleRow { year: y, query_name }) => rows@.len() > 1 && y
                == year && query_name@ == "load_year_meta"@,
            Err(_) => false,
        },
{
    if rows.len() == 0 {
        return Err(ParseError::MissingResult { year, query_name: "load_year_meta" });
    }
    if rows.len() > 1 {
        return Err(ParseError::ExpectedSingleRow { year, query_name: "load_year_meta" });
    }
    let row = rows[0];
    Ok(
        GenderedData {
            male: YearMeta { total_births: row.0 },
            female: YearMeta { total_births: row.1 },
        },
    )
}

/// The year list rendered as a comma-and-space separated run of decimal
/// numbers.
pub open spec fn years_joined(years: Seq<u32>) -> Seq<char>
    decreases years.len(),
{
    if years.len() == 0 {
        Seq::empty()
    } else if years.len() == 1 {
        dec_str(years[0] as nat)
    } else {
        years_joined(years.drop_last()) + ", "@ + dec_str(years.last() as nat)
    }
}

/// The full text of the distinct-known-names query over these years.
pub open spec fn known_names_query_spec(years: Seq<u32>) -> Seq<char> {
    "SELECT DISTINCT names.name FROM name_counts INNER JOIN names "@
        + "on name_counts.name_id == names.id WHERE (name_counts.male_count > 0 OR name_counts.female_count > 0)"@
        + "AND name_counts.year in ("@ + years_joined(years) + ");"@
}

/// Builds the text of the query that lists every distinct name with a
/// nonzero count in any of the given years. Only unsigned integers are
/// interpolated, so the text cannot escape the value position.
pub fn known_names_query(years: &Vec<u32>) -> (r: String)
    ensures
        r@ == known_names_query_spec(years@),
{
    let mut query = String::from_str("SELECT DISTINCT names.name FROM name_counts INNER JOIN names ");
    query.append(
        "on name_counts.name_id == names.id WHERE (name_counts.male_count > 0 OR name_counts.female_count > 0)",
    );
    query.append("AND name_counts.year in (");
    let ghost prefix = query@;
    let mut i: usize = 0;
    while i < years.len()
        invariant
            0 <= i <= years@.len(),
            prefix == ("SELECT DISTINCT names.name FROM name_counts INNER JOIN names "@
                + "on name_counts.name_id == names.id WHERE (name_counts.male_count > 0 OR name_counts.female_count > 0)"@
                + "AND name_counts.year in ("@),
            query@ == prefix + years_joined(years@.subrange(0, i as int)),
        decreases years@.len() - i,
    {
        if i != 0 {
            query.append(", ");
        }
        let digits = format_u32(years[i]);
        query.append(digits.as_str());
        proof {
            let sub1 = years@.subrange(0, i + 1 as int);
            assert(sub1.drop_last() =~= years@.subrange(0, i as int));
            assert(sub1.last() == years@[i as int]);
            if i == 0 {
                assert(years_joined(sub1) =~= dec_str(years@[0] as nat));
                assert(query@ =~= prefix + years_joined(sub1));
            } else {
                assert(query@ =~= prefix + years_joined(sub1));
            }
        }
        i = i + 1;
    }
    query.append(");");
    proof {
        assert(years@.subrange(0, years@.len() as int) =~= years@);
        assert(query@ =~= known_names_query_spec(years@));
    }
    query
}

} // verus!
