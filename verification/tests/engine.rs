use name_popularity::{
    aggregate, name_data_from_rows, normalize_years, parse_records, query_loaded, Gender,
    GenderedData, KnownNamesCache, NameRecord, NameRequest, NameRow, NameStore, ParseError, Ratio,
    RequestError, YearIndex, YearMeta,
};

fn record(name: &str, gender: Gender, rank: u32, count: u32) -> NameRecord {
    NameRecord { name: name.to_string(), gender, rank, count }
}

fn meta(male: u32, female: u32) -> GenderedData<YearMeta> {
    GenderedData {
        male: YearMeta { total_births: male },
        female: YearMeta { total_births: female },
    }
}

fn ratio_value(r: &Ratio) -> f64 {
    if r.denominator == 0 {
        0.0
    } else {
        r.numerator as f64 / r.denominator as f64
    }
}

fn year_2000_records() -> GenderedData<Vec<NameRecord>> {
    GenderedData {
        male: vec![record("John", Gender::Male, 0, 650), record("Paul", Gender::Male, 1, 120)],
        female: vec![record("Mary", Gender::Female, 0, 700), record("Anna", Gender::Female, 1, 300)],
    }
}

#[test]
fn build_computes_totals() {
    let index = YearIndex::build(year_2000_records()).unwrap();
    assert_eq!(index.total(Gender::Male), 770);
    assert_eq!(index.total(Gender::Female), 1000);
    assert_eq!(index.combined_total(), 1770);
}

#[test]
fn lookup_finds_record_with_rank() {
    let index = YearIndex::build(year_2000_records()).unwrap();
    let rec = index.lookup(Gender::Female, "Anna").unwrap();
    assert_eq!(rec.rank, 1);
    assert_eq!(rec.count, 300);
    assert!(index.lookup(Gender::Male, "Anna").is_none());
    assert!(index.lookup(Gender::Female, "Zoe").is_none());
}

#[test]
fn parse_then_lookup_returns_line_position_rank() {
    let lines: Vec<String> =
        ["Mary,F,700", "John,M,650", "Anna,F,300", "Paul,M,120", "Zoe,F,50"]
            .iter()
            .map(|s| s.to_string())
            .collect();
    let pair = parse_records(&lines).unwrap();
    let expected_female = pair.female.clone();
    let expected_male = pair.male.clone();
    let index = YearIndex::build(pair).unwrap();
    for (position, rec) in expected_female.iter().enumerate() {
        let found = index.lookup(Gender::Female, &rec.name).unwrap();
        assert_eq!(found.rank as usize, position);
    }
    for (position, rec) in expected_male.iter().enumerate() {
        let found = index.lookup(Gender::Male, &rec.name).unwrap();
        assert_eq!(found.rank as usize, position);
    }
}

#[test]
fn duplicate_name_is_fatal() {
    let records = GenderedData {
        male: vec![record("John", Gender::Male, 0, 10), record("John", Gender::Male, 1, 7)],
        female: Vec::new(),
    };
    match YearIndex::build(records) {
        Err(ParseError::DuplicateName { gender, name }) => {
            assert_eq!(gender, Gender::Male);
            assert_eq!(name, "John");
        },
        other => panic!("expected a duplicate-name error, got {:?}", other.is_ok()),
    }
}

#[test]
fn duplicate_name_never_reaches_the_store() {
    let mut store = NameStore::new();
    let records = GenderedData {
        female: vec![record("Mary", Gender::Female, 0, 10), record("Mary", Gender::Female, 1, 3)],
        male: Vec::new(),
    };
    let result = store.load_year(2000, records, meta(0, 13));
    assert!(result.is_err());
    assert!(!store.contains_year(2000));
}

#[test]
fn load_year_caches_and_serves_lookup() {
    let mut store = NameStore::new();
    store.load_year(2000, year_2000_records(), meta(770, 1000)).unwrap();
    assert!(store.contains_year(2000));
    assert!(!store.contains_year(2001));
    let rec = store.lookup(2000, Gender::Female, "Mary").unwrap();
    assert_eq!(rec.count, 700);
    assert!(store.lookup(2001, Gender::Female, "Mary").is_none());
}

#[test]
fn load_year_twice_is_idempotent() {
    let mut store = NameStore::new();
    store.load_year(2000, year_2000_records(), meta(770, 1000)).unwrap();
    let before_male = store.lookup(2000, Gender::Male, "John").unwrap().clone();
    let before_total = store.get_year(2000).unwrap().total(Gender::Female);
    // A repeated load of the same year is a no-op, whatever data it carries.
    let other = GenderedData {
        male: vec![record("Other", Gender::Male, 0, 1)],
        female: Vec::new(),
    };
    store.load_year(2000, other, meta(1, 0)).unwrap();
    let after_male = store.lookup(2000, Gender::Male, "John").unwrap();
    assert_eq!(*after_male, before_male);
    assert_eq!(store.get_year(2000).unwrap().total(Gender::Female), before_total);
}

#[test]
fn memoized_load_skips_backend() {
    let mut store = NameStore::new();
    let mut backend_calls = 0;
    for &year in &[2000u32, 2001, 2000, 2001, 2000] {
        if !store.contains_year(year) {
            backend_calls += 1;
            store.load_year(year, year_2000_records(), meta(770, 1000)).unwrap();
        }
    }
    assert_eq!(backend_calls, 2);
}

#[test]
fn normalize_years_sorts_and_dedupes() {
    assert_eq!(normalize_years(&vec![2001, 2000, 2001, 2000]), vec![2000, 2001]);
    assert_eq!(normalize_years(&Vec::new()), Vec::<u32>::new());
}

#[test]
fn known_names_lists_nonzero_names_once() {
    let mut store = NameStore::new();
    store.load_year(2000, year_2000_records(), meta(770, 1000)).unwrap();
    let zero = GenderedData {
        male: vec![record("Ghost", Gender::Male, 0, 0)],
        female: vec![record("Mary", Gender::Female, 0, 40)],
    };
    store.load_year(2001, zero, meta(0, 40)).unwrap();
    let mut cache = KnownNamesCache::with_capacity(5);
    let mut names = cache.determine_known_names(&vec![2000, 2001], &store);
    names.sort();
    // "Ghost" has a zero count and never appears; "Mary" appears once.
    assert_eq!(names, vec!["Anna", "John", "Mary", "Paul"]);
}

#[test]
fn known_names_cache_hit_returns_same_set() {
    let mut store = NameStore::new();
    store.load_year(2000, year_2000_records(), meta(770, 1000)).unwrap();
    let mut cache = KnownNamesCache::with_capacity(5);
    // The store is loaded once; both queries run against it read-only, so
    // the only possible backend round trips are the loads counted here.
    let mut backend_calls = 0;
    for &year in &[2000u32] {
        if !store.contains_year(year) {
            backend_calls += 1;
        }
    }
    let first = cache.determine_known_names(&vec![2000], &store);
    assert_eq!(cache.len(), 1);
    let second = cache.determine_known_names(&vec![2000], &store);
    assert_eq!(first, second);
    assert_eq!(cache.len(), 1);
    assert_eq!(backend_calls, 0);
}

#[test]
fn known_names_cache_normalizes_keys() {
    let mut store = NameStore::new();
    store.load_year(2000, year_2000_records(), meta(770, 1000)).unwrap();
    store.load_year(2001, year_2000_records(), meta(770, 1000)).unwrap();
    let mut cache = KnownNamesCache::with_capacity(5);
    let first = cache.determine_known_names(&vec![2001, 2000], &store);
    let second = cache.determine_known_names(&vec![2000, 2001, 2000], &store);
    assert_eq!(first, second);
    assert_eq!(cache.len(), 1);
}

#[test]
fn bounded_cache_evicts_oldest_inserted() {
    let mut store = NameStore::new();
    for year in 2000..2004u32 {
        store.load_year(year, year_2000_records(), meta(770, 1000)).unwrap();
    }
    let mut cache = KnownNamesCache::with_capacity(2);
    cache.determine_known_names(&vec![2000], &store);
    cache.determine_known_names(&vec![2001], &store);
    assert_eq!(cache.len(), 2);
    cache.determine_known_names(&vec![2002], &store);
    // Still exactly at capacity: one entry in, the oldest one out.
    assert_eq!(cache.len(), 2);
    assert!(cache.probe(&vec![2000]).is_none());
    assert!(cache.probe(&vec![2001]).is_some());
    assert!(cache.probe(&vec![2002]).is_some());
}

#[test]
fn aggregate_peak_tie_goes_to_later_year() {
    let rows = vec![
        NameRow { year: 2000, male_count: 10, female_count: 0, male_rank: Some(0), female_rank: None },
        NameRow { year: 2001, male_count: 10, female_count: 0, male_rank: Some(0), female_rank: None },
    ];
    let map = name_data_from_rows(&rows, 2000).unwrap();
    let years = vec![2000u32, 2001];
    let metas = vec![meta(500, 500), meta(500, 500)];
    let stats = aggregate(&years, &metas, &map, 2000);
    assert_eq!(stats.peak.male, Some(2001));
    assert_eq!(stats.peak.female, None);
    assert_eq!(stats.totals.male, 20);
}

#[test]
fn aggregate_all_zero_counts() {
    let rows = vec![
        NameRow { year: 2000, male_count: 0, female_count: 0, male_rank: None, female_rank: None },
        NameRow { year: 2001, male_count: 0, female_count: 0, male_rank: None, female_rank: None },
    ];
    let map = name_data_from_rows(&rows, 2000).unwrap();
    let years = vec![2000u32, 2001];
    let metas = vec![meta(500, 500), meta(500, 500)];
    let stats = aggregate(&years, &metas, &map, 2000);
    assert_eq!(stats.typical_gender, None);
    assert_eq!(stats.gender_ratio, None);
    assert_eq!(stats.peak.male, None);
    assert_eq!(stats.peak.female, None);
}

#[test]
fn aggregate_ratio_exact() {
    let rows = vec![NameRow {
        year: 2000,
        male_count: 50,
        female_count: 0,
        male_rank: Some(3),
        female_rank: None,
    }];
    let map = name_data_from_rows(&rows, 2000).unwrap();
    let years = vec![2000u32];
    let metas = vec![meta(600, 400)];
    let stats = aggregate(&years, &metas, &map, 2000);
    let male_stats = &stats.years[0].1.male;
    assert_eq!(male_stats.total_births, 1000);
    assert_eq!(male_stats.ratio, Ratio { numerator: 50, denominator: 1000 });
    assert_eq!(ratio_value(&male_stats.ratio), 0.05);
    let data = male_stats.data.clone().unwrap();
    assert_eq!(data.count, 50);
    assert_eq!(data.rank, Some(3));
}

#[test]
fn aggregate_zero_total_births_is_ratio_zero() {
    let rows = vec![NameRow {
        year: 2000,
        male_count: 5,
        female_count: 0,
        male_rank: Some(0),
        female_rank: None,
    }];
    let map = name_data_from_rows(&rows, 2000).unwrap();
    let years = vec![2000u32];
    let metas = vec![meta(0, 0)];
    let stats = aggregate(&years, &metas, &map, 2000);
    let male_stats = &stats.years[0].1.male;
    assert_eq!(male_stats.total_births, 0);
    assert_eq!(ratio_value(&male_stats.ratio), 0.0);
}

#[test]
fn aggregate_absent_year_counts_zero() {
    let rows = vec![NameRow {
        year: 2000,
        male_count: 7,
        female_count: 2,
        male_rank: Some(0),
        female_rank: Some(0),
    }];
    let map = name_data_from_rows(&rows, 2000).unwrap();
    let years = vec![2000u32, 2001];
    let metas = vec![meta(10, 10), meta(10, 10)];
    let stats = aggregate(&years, &metas, &map, 2000);
    assert!(stats.years[1].1.male.data.is_none());
    assert_eq!(stats.years[1].1.male.ratio.numerator, 0);
    assert_eq!(stats.totals.male, 7);
    assert_eq!(stats.totals.female, 2);
}

#[test]
fn aggregate_typical_gender_tie_is_male() {
    let rows = vec![NameRow {
        year: 2000,
        male_count: 5,
        female_count: 5,
        male_rank: Some(0),
        female_rank: Some(0),
    }];
    let map = name_data_from_rows(&rows, 2000).unwrap();
    let years = vec![2000u32];
    let metas = vec![meta(10, 10)];
    let stats = aggregate(&years, &metas, &map, 2000);
    assert_eq!(stats.typical_gender, Some(Gender::Male));
    assert_eq!(stats.gender_ratio, Some(Ratio { numerator: 5, denominator: 10 }));
    assert_eq!(ratio_value(&stats.gender_ratio.unwrap()), 0.5);
}

#[test]
fn aggregate_dominant_female() {
    let rows = vec![NameRow {
        year: 2000,
        male_count: 1,
        female_count: 3,
        male_rank: Some(0),
        female_rank: Some(0),
    }];
    let map = name_data_from_rows(&rows, 2000).unwrap();
    let years = vec![2000u32];
    let metas = vec![meta(10, 10)];
    let stats = aggregate(&years, &metas, &map, 2000);
    assert_eq!(stats.typical_gender, Some(Gender::Female));
    assert_eq!(stats.gender_ratio, Some(Ratio { numerator: 3, denominator: 4 }));
}

#[test]
fn flat_file_pipeline_computes_totals() {
    let lines: Vec<String> = ["Mary,F,700", "John,M,650", "Anna,F,300"]
        .iter()
        .map(|s| s.to_string())
        .collect();
    let mut store = NameStore::new();
    let pair = parse_records(&lines).unwrap();
    store.load_year_computed(2000, pair).unwrap();
    let index = store.get_year(2000).unwrap();
    assert_eq!(index.total(Gender::Female), 1000);
    assert_eq!(index.total(Gender::Male), 650);
    let mut cache = KnownNamesCache::with_capacity(3);
    let mut names = cache.determine_known_names(&vec![2000], &store);
    names.sort();
    assert_eq!(names, vec!["Anna", "John", "Mary"]);
}

#[test]
fn default_cache_capacity_is_five() {
    let cache = KnownNamesCache::new();
    assert_eq!(cache.capacity(), 5);
    assert_eq!(cache.len(), 0);
}

#[test]
fn query_answers_from_loaded_store() {
    let mut store = NameStore::new();
    store.load_year(2000, year_2000_records(), meta(770, 1000)).unwrap();
    let more = GenderedData {
        male: vec![record("John", Gender::Male, 0, 800)],
        female: vec![record("Mary", Gender::Female, 0, 500)],
    };
    store.load_year(2001, more, meta(800, 500)).unwrap();
    let mut cache = KnownNamesCache::new();
    let request = NameRequest { years: vec![2000, 2001], name: "John".to_string() };
    let answer = query_loaded(&store, &mut cache, &request).unwrap();
    assert_eq!(answer.stats.years.len(), 2);
    assert_eq!(answer.stats.years[0].0, 2000);
    assert_eq!(answer.stats.years[0].1.male.total_births, 1770);
    assert_eq!(answer.stats.years[0].1.male.data.as_ref().unwrap().count, 650);
    assert_eq!(answer.stats.years[1].1.male.data.as_ref().unwrap().count, 800);
    assert_eq!(answer.stats.totals.male, 1450);
    assert_eq!(answer.stats.totals.female, 0);
    assert_eq!(answer.stats.peak.male, Some(2001));
    assert_eq!(answer.stats.peak.female, None);
    assert_eq!(answer.stats.typical_gender, Some(Gender::Male));
    let mut known = answer.known_names.clone();
    known.sort();
    assert_eq!(known, vec!["Anna", "John", "Mary", "Paul"]);
    assert_eq!(cache.len(), 1);
}

#[test]
fn query_rejects_empty_years() {
    let store = NameStore::new();
    let mut cache = KnownNamesCache::new();
    let request = NameRequest { years: Vec::new(), name: "John".to_string() };
    assert!(matches!(
        query_loaded(&store, &mut cache, &request),
        Err(RequestError::RequestedZeroYears)
    ));
    assert_eq!(cache.len(), 0);
}

#[test]
fn duplicate_year_rows_are_fatal() {
    let rows = vec![
        NameRow { year: 2000, male_count: 1, female_count: 0, male_rank: Some(0), female_rank: None },
        NameRow { year: 2001, male_count: 4, female_count: 0, male_rank: Some(0), female_rank: None },
        NameRow { year: 2000, male_count: 2, female_count: 0, male_rank: Some(1), female_rank: None },
    ];
    match name_data_from_rows(&rows, 2000) {
        Err(ParseError::ExpectedSingleRow { year, query_name }) => {
            assert_eq!(year, 2000);
            assert_eq!(query_name, "list_name_data");
        },
        other => panic!("expected a storage-integrity error, got ok = {:?}", other.is_ok()),
    }
}

#[test]
fn query_accepts_duplicate_request_years() {
    let mut store = NameStore::new();
    store.load_year(2000, year_2000_records(), meta(770, 1000)).unwrap();
    let mut cache = KnownNamesCache::new();
    let request = NameRequest { years: vec![2000, 2000], name: "John".to_string() };
    let answer = query_loaded(&store, &mut cache, &request).unwrap();
    // Each occurrence in the request counts once, as the aggregator runs
    // over the request list as given.
    assert_eq!(answer.stats.years.len(), 2);
    assert_eq!(answer.stats.totals.male, 1300);
    assert_eq!(answer.stats.peak.male, Some(2000));
    assert_eq!(cache.len(), 1);
}
