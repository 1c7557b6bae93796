use name_popularity::{
    admit_request, known_names_query, normalize_name, parse_line, parse_records, year_meta_from_rows,
    Gender, NameRequest, ParseError, RequestError,
};

fn lines(texts: &[&str]) -> Vec<String> {
    texts.iter().map(|s| s.to_string()).collect()
}

#[test]
fn parse_line_valid() {
    let (name, gender, count) = parse_line("Mary,F,100", 0).unwrap();
    assert_eq!(name, "Mary");
    assert_eq!(gender, Gender::Female);
    assert_eq!(count, 100);
}

#[test]
fn parse_line_male() {
    let (name, gender, count) = parse_line("John,M,0", 3).unwrap();
    assert_eq!(name, "John");
    assert_eq!(gender, Gender::Male);
    assert_eq!(count, 0);
}

#[test]
fn parse_line_bad_gender() {
    assert!(matches!(
        parse_line("Mary,X,10", 2),
        Err(ParseError::InvalidLine { line_number: 2 })
    ));
}

#[test]
fn parse_line_two_fields() {
    assert!(matches!(
        parse_line("Mary,F", 0),
        Err(ParseError::InvalidLine { line_number: 0 })
    ));
}

#[test]
fn parse_line_four_fields() {
    assert!(matches!(
        parse_line("a,b,c,d", 1),
        Err(ParseError::InvalidLine { line_number: 1 })
    ));
}

#[test]
fn parse_line_bad_count() {
    assert!(matches!(
        parse_line("Mary,F,12x", 0),
        Err(ParseError::InvalidLine { line_number: 0 })
    ));
}

#[test]
fn parse_line_empty_count() {
    assert!(matches!(
        parse_line("Mary,F,", 0),
        Err(ParseError::InvalidLine { line_number: 0 })
    ));
}

#[test]
fn parse_line_count_overflow() {
    assert!(matches!(
        parse_line("Mary,F,99999999999", 0),
        Err(ParseError::InvalidLine { line_number: 0 })
    ));
}

#[test]
fn parse_line_long_gender_field() {
    assert!(matches!(
        parse_line("Mary,FM,10", 0),
        Err(ParseError::InvalidLine { line_number: 0 })
    ));
}

#[test]
fn parse_records_ranks_follow_input_order() {
    let input = lines(&["Mary,F,700", "John,M,650", "Anna,F,300", "Paul,M,120"]);
    let pair = parse_records(&input).unwrap();
    assert_eq!(pair.female.len(), 2);
    assert_eq!(pair.male.len(), 2);
    assert_eq!(pair.female[0].name, "Mary");
    assert_eq!(pair.female[0].rank, 0);
    assert_eq!(pair.female[1].name, "Anna");
    assert_eq!(pair.female[1].rank, 1);
    assert_eq!(pair.male[0].name, "John");
    assert_eq!(pair.male[0].rank, 0);
    assert_eq!(pair.male[1].name, "Paul");
    assert_eq!(pair.male[1].rank, 1);
    assert_eq!(pair.female[0].count, 700);
    assert_eq!(pair.male[1].count, 120);
}

#[test]
fn parse_records_blank_line_terminates() {
    let input = lines(&["Mary,F,10", "", "this is not a record"]);
    let pair = parse_records(&input).unwrap();
    assert_eq!(pair.female.len(), 1);
    assert_eq!(pair.male.len(), 0);
}

#[test]
fn parse_records_reports_first_bad_line() {
    let input = lines(&["Mary,F,10", "oops", "John,M,5"]);
    assert!(matches!(
        parse_records(&input),
        Err(ParseError::InvalidLine { line_number: 1 })
    ));
}

#[test]
fn normalize_name_uppercases_first() {
    assert_eq!(normalize_name("john"), "John");
}

#[test]
fn normalize_name_lowercases_rest() {
    assert_eq!(normalize_name("JOHN"), "John");
}

#[test]
fn normalize_name_trims() {
    assert_eq!(normalize_name("  mary  "), "Mary");
}

#[test]
fn normalize_name_empty() {
    assert_eq!(normalize_name("   "), "");
}

#[test]
fn normalized_request_keeps_years() {
    let request = NameRequest { years: vec![2000, 2001], name: "  aLiCe ".to_string() };
    let normalized = request.normalized();
    assert_eq!(normalized.years, vec![2000, 2001]);
    assert_eq!(normalized.name, "Alice");
}

#[test]
fn admit_request_rejects_empty() {
    assert!(matches!(
        admit_request(&Vec::new()),
        Err(RequestError::RequestedZeroYears)
    ));
}

#[test]
fn admit_request_rejects_oversize() {
    let years: Vec<u32> = (0..201).collect();
    assert!(matches!(
        admit_request(&years),
        Err(RequestError::TooManyYears { requested: 201, limit: 200 })
    ));
}

#[test]
fn admit_request_returns_minimum() {
    assert_eq!(admit_request(&vec![2005, 2001, 2003]).unwrap(), 2001);
}

#[test]
fn year_meta_from_rows_single_row() {
    let meta = year_meta_from_rows(1999, &vec![(600, 400)]).unwrap();
    assert_eq!(meta.male.total_births, 600);
    assert_eq!(meta.female.total_births, 400);
}

#[test]
fn year_meta_from_rows_missing() {
    assert!(matches!(
        year_meta_from_rows(1999, &Vec::new()),
        Err(ParseError::MissingResult { year: 1999, query_name: "load_year_meta" })
    ));
}

#[test]
fn year_meta_from_rows_too_many() {
    assert!(matches!(
        year_meta_from_rows(1999, &vec![(1, 2), (3, 4)]),
        Err(ParseError::ExpectedSingleRow { year: 1999, query_name: "load_year_meta" })
    ));
}

#[test]
fn known_names_query_text() {
    let query = known_names_query(&vec![2000, 2001]);
    assert_eq!(
        query,
        "SELECT DISTINCT names.name FROM name_counts INNER JOIN names \
         on name_counts.name_id == names.id WHERE (name_counts.male_count > 0 \
         OR name_counts.female_count > 0)AND name_counts.year in (2000, 2001);"
    );
}

#[test]
fn known_names_query_empty_years() {
    let query = known_names_query(&Vec::new());
    assert!(query.ends_with("in ();"));
}

#[test]
fn error_message_missing_result() {
    let error = ParseError::MissingResult { year: 1999, query_name: "load_year_meta" };
    assert_eq!(error.message(), "Missing result for 1999 in \"load_year_meta\"");
}

#[test]
fn error_message_expected_single_row() {
    let error = ParseError::ExpectedSingleRow { year: 2020, query_name: "load_year_meta" };
    assert_eq!(error.message(), "Expected single row for 2020 in \"load_year_meta\"");
}

#[test]
fn error_message_invalid_line() {
    let error = ParseError::InvalidLine { line_number: 7 };
    assert_eq!(error.message(), "Invalid record line 7");
}

#[test]
fn error_message_io() {
    let error = ParseError::IoError { message: "disk gone".to_string() };
    assert_eq!(error.message(), "IO error: disk gone");
}

#[test]
fn error_message_duplicate() {
    let error = ParseError::DuplicateName { gender: Gender::Female, name: "Mary".to_string() };
    assert_eq!(error.message(), "Duplicate name Mary for gender female");
}
