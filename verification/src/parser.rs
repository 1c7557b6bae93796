//! The record-line parser: one year's raw `name,gender,count` lines become
//! gender-partitioned, rank-ordered record lists.
use vstd::prelude::*;

use crate::error::ParseError;
use crate::gender::{Gender, GenderedData};
use crate::index::NameRecord;

verus! {

/// No comma occurs in the sequence.
pub open spec fn comma_free(s: Seq<char>) -> bool {
    forall|i: int| 0 <= i < s.len() ==> s[i] != ','
}

/// `s` splits into exactly the three comma-separated fields given.
pub open spec fn splits3(
    s: Seq<char>,
    name: Seq<char>,
    gender_field: Seq<char>,
    count_field: Seq<char>,
) -> bool {
    &&& s == name + seq![','] + gender_field + seq![','] + count_field
    &&& comma_free(name)
    &&& comma_free(gender_field)
    &&& comma_free(count_field)
}

/// The gender a field denotes: exactly one recognized character.
pub open spec fn gender_of_field(g: Seq<char>) -> Option<Gender> {
    if g.len() == 1 && g[0] == 'M' {
        Some(Gender::Male)
    } else if g.len() == 1 && g[0] == 'F' {
        Some(Gender::Female)
    } else {
        None
    }
}

pub open spec fn is_digit(c: char) -> bool {
    48 <= c as int <= 57
}

pub open spec fn digit_val(c: char) -> int {
    c as int - 48
}

pub open spec fn all_digits(s: Seq<char>) -> bool {
    forall|i: int| 0 <= i < s.len() ==> is_digit(s[i])
}

/// The non-negative integer the digit characters denote, base 10.
pub open spec fn digits_value(s: Seq<char>) -> int
    decreases s.len(),
{
    if s.len() == 0 {
        0
    } else {
        digits_value(s.drop_last()) * 10 + digit_val(s.last())
    }
}

/// A count field is one or more digits denoting a value that fits in a u32.
pub open spec fn valid_count_field(s: Seq<char>) -> bool {
    s.len() > 0 && all_digits(s) && digits_value(s) <= u32::MAX
}

/// A record line is valid when it splits into exactly three fields, the
/// middle one names a gender and the last one is a valid count.
pub open spec fn spec_line_valid(s: Seq<char>) -> bool {
    exists|t: (Seq<char>, Seq<char>, Seq<char>)|
        splits3(s, t.0, t.1, t.2) && gender_of_field(t.1) is Some && valid_count_field(t.2)
}

/// The unique three-way split of a well-formed line.
pub open spec fn line_fields(s: Seq<char>) -> (Seq<char>, Seq<char>, Seq<char>) {
    choose|t: (Seq<char>, Seq<char>, Seq<char>)| splits3(s, t.0, t.1, t.2)
}

pub open spec fn line_name(s: Seq<char>) -> Seq<char> {
    line_fields(s).0
}

pub open spec fn line_gender(s: Seq<char>) -> Gender {
    match gender_of_field(line_fields(s).1) {
        Some(g) => g,
        None => Gender::Male,
    }
}

pub open spec fn line_count(s: Seq<char>) -> int {
    digits_value(line_fields(s).2)
}

proof fn lemma_decompose(s: Seq<char>, n: Seq<char>, g: Seq<char>, c: Seq<char>)
    requires
        splits3(s, n, g, c),
    ensures
        s.len() == n.len() + g.len() + c.len() + 2,
        forall|i: int| 0 <= i < n.len() ==> s[i] == n[i],
        s[n.len() as int] == ',',
        forall|i: int| 0 <= i < g.len() ==> s[n.len() + 1 + i] == g[i],
        s[(n.len() + g.len() + 1) as int] == ',',
        forall|i: int| 0 <= i < c.len() ==> s[n.len() + g.len() + 2 + i] == c[i],
{
    let whole = n + seq![','] + g + seq![','] + c;
    assert(s == whole);
    assert forall|i: int| 0 <= i < n.len() implies s[i] == n[i] by {
        assert(whole[i] == n[i]);
    }
    assert(whole[n.len() as int] == ',');
    assert forall|i: int| 0 <= i < g.len() implies s[n.len() + 1 + i] == g[i] by {
        assert(whole[n.len() + 1 + i] == g[i]);
    }
    assert(whole[(n.len() + g.len() + 1) as int] == ',');
    assert forall|i: int| 0 <= i < c.len() implies s[n.len() + g.len() + 2 + i] == c[i] by {
        assert(whole[n.len() + g.len() + 2 + i] == c[i]);
    }
}

/// In a well-split line the only commas are the two separators.
proof fn lemma_comma_positions(s: Seq<char>, n: Seq<char>, g: Seq<char>, c: Seq<char>)
    requires
        splits3(s, n, g, c),
    ensures
        forall|i: int|
            0 <= i < s.len() && s[i] == ',' ==> (i == n.len() || i == n.len() + g.len() + 1),
{
    lemma_decompose(s, n, g, c);
    assert forall|i: int|
        0 <= i < s.len() && s[i] == ',' implies (i == n.len() || i == n.len() + g.len() + 1) by {
        if i < n.len() {
            assert(s[i] == n[i]);
        } else if n.len() < i < n.len() + g.len() + 1 {
            assert(s[i] == g[i - n.len() - 1]);
        } else if i > n.len() + g.len() + 1 {
            assert(s[i] == c[i - n.len() - g.len() - 2]);
        }
    }
}

/// A line splits into three comma-separated fields in at most one way.
proof fn lemma_splits3_unique(
    s: Seq<char>,
    n1: Seq<char>,
    g1: Seq<char>,
    c1: Seq<char>,
    n2: Seq<char>,
    g2: Seq<char>,
    c2: Seq<char>,
)
    requires
        splits3(s, n1, g1, c1),
        splits3(s, n2, g2, c2),
    ensures
        n1 == n2,
        g1 == g2,
        c1 == c2,
{
    lemma_decompose(s, n1, g1, c1);
    lemma_decompose(s, n2, g2, c2);
    lemma_comma_positions(s, n1, g1, c1);
    lemma_comma_positions(s, n2, g2, c2);
    let a1 = n1.len() as int;
    let b1 = (n1.len() + g1.len() + 1) as int;
    let a2 = n2.len() as int;
    let b2 = (n2.len() + g2.len() + 1) as int;
    assert(s[a1] == ',' && s[b1] == ',');
    assert(s[a2] == ',' && s[b2] == ',');
    assert(a1 == a2) by {
        if a1 < a2 {
            assert(s[a1] == ',');
            assert(a1 == a2 || a1 == b2);
            assert(b2 > a2);
        } else if a2 < a1 {
            assert(s[a2] == ',');
            assert(a2 == a1 || a2 == b1);
            assert(b1 > a1);
        }
    }
    assert(b1 == b2) by {
        if b1 < b2 {
            assert(b1 == a2 || b1 == b2);
        } else if b2 < b1 {
            assert(b2 == a1 || b2 == b1);
        }
    }
    assert(n1 =~= n2);
    assert(g1 =~= g2) by {
        assert(g1.len() == g2.len());
        assert(forall|i: int| 0 <= i < g1.len() ==> g1[i] == s[n1.len() + 1 + i]);
        assert(forall|i: int| 0 <= i < g2.len() ==> g2[i] == s[n2.len() + 1 + i]);
    }
    assert(c1 =~= c2) by {
        assert(c1.len() == c2.len());
        assert(forall|i: int| 0 <= i < c1.len() ==> c1[i] == s[n1.len() + g1.len() + 2 + i]);
        assert(forall|i: int| 0 <= i < c2.len() ==> c2[i] == s[n2.len() + g2.len() + 2 + i]);
    }
}

proof fn lemma_digits_nonneg(s: Seq<char>)
    requires
        all_digits(s),
    ensures
        digits_value(s) >= 0,
    decreases s.len(),
{
    if s.len() > 0 {
        assert(all_digits(s.drop_last()));
        lemma_digits_nonneg(s.drop_last());
    }
}

proof fn lemma_digits_prefix_le(s: Seq<char>, i: int)
    requires
        all_digits(s),
        0 <= i <= s.len(),
    ensures
        digits_value(s.subrange(0, i)) <= digits_value(s),
    decreases s.len() - i,
{
    if i == s.len() {
        assert(s.subrange(0, i) =~= s);
    } else {
        let shorter = s.subrange(0, i);
        let longer = s.subrange(0, i + 1);
        assert(longer.drop_last() =~= shorter);
        assert(longer.last() == s[i]);
        assert(all_digits(shorter));
        lemma_digits_nonneg(shorter);
        assert(digits_value(longer) == digits_value(shorter) * 10 + digit_val(s[i]));
        assert(digits_value(shorter) * 10 >= digits_value(shorter)) by (nonlinear_arith)
            requires
                digits_value(shorter) >= 0,
        ;
        lemma_digits_prefix_le(s, i + 1);
    }
}

/// Parses one record line into (name, gender, count).
///
/// Returns `InvalidLine` exactly when the line does not split into three
/// comma-separated fields, the gender field is not one recognized
/// character, or the count field is not a non-negative integer that fits.
pub fn parse_line(line: &str, line_number: usize) -> (r: Result<(String, Gender, u32), ParseError>)
    ensures
        match r {
            Ok((name, gender, count)) => {
                &&& spec_line_valid(line@)
                &&& name@ == line_name(line@)
                &&& gender == line_gender(line@)
                &&& count == line_count(line@)
            },
            Err(ParseError::InvalidLine { line_number: ln }) => ln == line_number
                && !spec_line_valid(line@),
            Err(_) => false,
        },
{
    let ghost s = line@;
    let n = line.unicode_len();
    let mut commas: Vec<usize> = Vec::new();
    let mut i: usize = 0;
    while i < n
        invariant
            0 <= i <= n,
            n == s.len(),
            line@ == s,
            forall|k: int| 0 <= k < commas@.len() ==> 0 <= #[trigger] commas@[k] < i,
            forall|k: int| 0 <= k < commas@.len() ==> s[commas@[k] as int] == ',',
            forall|k1: int, k2: int|
                0 <= k1 < k2 < commas@.len() ==> commas@[k1] < commas@[k2],
            forall|j: int| 0 <= j < i && s[j] == ',' ==> commas@.contains(j as usize),
        decreases n - i,
    {
        let c = line.get_char(i);
        if c == ',' {
            let ghost prev = commas@;
            commas.push(i);
            proof {
                assert forall|j: int| 0 <= j < i + 1 && s[j] == ',' implies commas@.contains(
                    j as usize,
                ) by {
                    if j < i {
                        let k = choose|k: int| 0 <= k < prev.len() && prev[k] == j as usize;
                        assert(commas@[k] == j as usize);
                    } else {
                        assert(commas@[commas@.len() - 1] == i as usize);
                    }
                }
            }
        }
        i = i + 1;
    }
    if commas.len() != 2 {
        proof {
            assert(!spec_line_valid(s)) by {
                if spec_line_valid(s) {
                    let t = choose|t: (Seq<char>, Seq<char>, Seq<char>)|
                        splits3(s, t.0, t.1, t.2) && gender_of_field(t.1) is Some
                            && valid_count_field(t.2);
                    lemma_decompose(s, t.0, t.1, t.2);
                    lemma_comma_positions(s, t.0, t.1, t.2);
                    let a = t.0.len() as int;
                    let b = (t.0.len() + t.1.len() + 1) as int;
                    assert(s[a] == ',' && s[b] == ',' && a < b);
                    assert(commas@.contains(a as usize));
                    assert(commas@.contains(b as usize));
                    if commas@.len() < 2 {
                        let ka = choose|k: int|
                            0 <= k < commas@.len() && commas@[k] == a as usize;
                        let kb = choose|k: int|
                            0 <= k < commas@.len() && commas@[k] == b as usize;
                        assert(ka == kb);
                        assert(false);
                    } else {
                        assert(commas@.len() >= 3);
                        let p0 = commas@[0];
                        let p1 = commas@[1];
                        let p2 = commas@[2];
                        assert(p0 < p1 < p2);
                        assert(p0 as int == a || p0 as int == b);
                        assert(p1 as int == a || p1 as int == b);
                        assert(p2 as int == a || p2 as int == b);
                        assert(false);
                    }
                }
            }
        }
        return Err(ParseError::InvalidLine { line_number });
    }
    let p1 = commas[0];
    let p2 = commas[1];
    proof {
        assert(commas@.contains(commas@[0]));
        assert(commas@.contains(commas@[1]));
        assert(p1 < p2 < n);
    }
    let name_part = line.substring_char(0, p1);
    let gender_part = line.substring_char(p1 + 1, p2);
    let count_part = line.substring_char(p2 + 1, n);
    let ghost nf = name_part@;
    let ghost gf = gender_part@;
    let ghost cf = count_part@;
    proof {
        assert(s =~= nf + seq![','] + gf + seq![','] + cf);
        assert forall|j: int| 0 <= j < nf.len() implies nf[j] != ',' by {
            assert(nf[j] == s[j]);
            if s[j] == ',' {
                assert(commas@.contains(j as usize));
                let k = choose|k: int| 0 <= k < commas@.len() && commas@[k] == j as usize;
                assert(commas@[k] >= commas@[0]);
            }
        }
        assert forall|j: int| 0 <= j < gf.len() implies gf[j] != ',' by {
            assert(gf[j] == s[p1 + 1 + j]);
            if s[p1 + 1 + j] == ',' {
                assert(commas@.contains((p1 + 1 + j) as usize));
                let k = choose|k: int|
                    0 <= k < commas@.len() && commas@[k] == (p1 + 1 + j) as usize;
                assert(k == 0 || k == 1);
            }
        }
        assert forall|j: int| 0 <= j < cf.len() implies cf[j] != ',' by {
            assert(cf[j] == s[p2 + 1 + j]);
            if s[p2 + 1 + j] == ',' {
                assert(commas@.contains((p2 + 1 + j) as usize));
                let k = choose|k: int|
                    0 <= k < commas@.len() && commas@[k] == (p2 + 1 + j) as usize;
                assert(k == 0 || k == 1);
            }
        }
        assert(splits3(s, nf, gf, cf));
    }
    // The gender field must be exactly one recognized character.
    let glen = gender_part.unicode_len();
    if glen != 1 {
        proof {
            lemma_not_valid_when_fields_bad(s, nf, gf, cf);
        }
        return Err(ParseError::InvalidLine { line_number });
    }
    let gc = gender_part.get_char(0);
    let gender = if gc == 'M' {
        Gender::Male
    } else if gc == 'F' {
        Gender::Female
    } else {
        proof {
            lemma_not_valid_when_fields_bad(s, nf, gf, cf);
        }
        return Err(ParseError::InvalidLine { line_number });
    };
    // The count field must be one or more digits denoting a value that fits.
    let clen = count_part.unicode_len();
    if clen == 0 {
        proof {
            lemma_not_valid_when_fields_bad(s, nf, gf, cf);
        }
        return Err(ParseError::InvalidLine { line_number });
    }
    let mut value: u64 = 0;
    let mut j: usize = 0;
    while j < clen
        invariant
            0 <= j <= clen,
            clen == cf.len(),
            count_part@ == cf,
            line@ == s,
            splits3(s, nf, gf, cf),
            value == digits_value(cf.subrange(0, j as int)),
            value <= u32::MAX,
            all_digits(cf.subrange(0, j as int)),
        decreases clen - j,
    {
        let c = count_part.get_char(j);
        let code = c as u32;
        proof {
            assert(cf.subrange(0, j + 1 as int).drop_last() =~= cf.subrange(0, j as int));
            assert(cf.subrange(0, j + 1 as int).last() == cf[j as int]);
        }
        if code < 48 || code > 57 {
            proof {
                assert(!is_digit(cf[j as int]));
                lemma_not_valid_when_fields_bad(s, nf, gf, cf);
            }
            return Err(ParseError::InvalidLine { line_number });
        }
        let digit = (code - 48) as u64;
        let candidate = value * 10 + digit;
        if candidate > u32::MAX as u64 {
            proof {
                assert(digits_value(cf.subrange(0, j + 1 as int)) == candidate);
                assert(!spec_line_valid(s)) by {
                    if spec_line_valid(s) {
                        let t = choose|t: (Seq<char>, Seq<char>, Seq<char>)|
                            splits3(s, t.0, t.1, t.2) && gender_of_field(t.1) is Some
                                && valid_count_field(t.2);
                        lemma_splits3_unique(s, t.0, t.1, t.2, nf, gf, cf);
                        lemma_digits_prefix_le(cf, j + 1 as int);
                    }
                }
            }
            return Err(ParseError::InvalidLine { line_number });
        }
        value = candidate;
        j = j + 1;
    }
    proof {
        assert(cf.subrange(0, clen as int) =~= cf);
        assert(valid_count_field(cf));
        assert(gender_of_field(gf) == Some(gender));
        let t3 = (nf, gf, cf);
        assert(splits3(s, t3.0, t3.1, t3.2) && gender_of_field(t3.1) is Some && valid_count_field(
            t3.2,
        ));
        assert(spec_line_valid(s));
        let tc = line_fields(s);
        assert(splits3(s, tc.0, tc.1, tc.2));
        lemma_splits3_unique(s, tc.0, tc.1, tc.2, nf, gf, cf);
    }
    let name = name_part.to_owned();
    Ok((name, gender, value as u32))
}

/// How many lines the parser consumes: everything before the first empty
/// line, which ends the stream successfully.
pub open spec fn effective_len(lines: Seq<Seq<char>>) -> int
    decreases lines.len(),
{
    if lines.len() == 0 || lines[0].len() == 0 {
        0
    } else {
        1 + effective_len(lines.drop_first())
    }
}

/// The consumed lines that belong to `g`, in input order.
pub open spec fn gender_lines(lines: Seq<Seq<char>>, g: Gender) -> Seq<Seq<char>>
    decreases lines.len(),
{
    if lines.len() == 0 || lines[0].len() == 0 {
        Seq::empty()
    } else {
        let rest = gender_lines(lines.drop_first(), g);
        if spec_line_valid(lines[0]) && line_gender(lines[0]) == g {
            seq![lines[0]] + rest
        } else {
            rest
        }
    }
}

/// `records` is exactly the parse of `lines` for gender `g`: one record per
/// consumed line of that gender, in order, with rank equal to its 0-based
/// position within the gender group.
pub open spec fn well_parsed(lines: Seq<Seq<char>>, records: Seq<NameRecord>, g: Gender) -> bool {
    let pl = gender_lines(lines, g);
    &&& records.len() == pl.len()
    &&& forall|k: int|
        0 <= k < pl.len() ==> {
            &&& (#[trigger] records[k]).name@ == line_name(pl[k])
            &&& records[k].gender == g
            &&& records[k].rank == k
            &&& records[k].count == line_count(pl[k])
        }
}

proof fn lemma_gender_lines_snoc(lines: Seq<Seq<char>>, l: Seq<char>, g: Gender)
    requires
        forall|k: int| 0 <= k < lines.len() ==> lines[k].len() != 0,
    ensures
        gender_lines(lines.push(l), g) == gender_lines(lines, g) + (if l.len() != 0
            && spec_line_valid(l) && line_gender(l) == g {
            seq![l]
        } else {
            Seq::<Seq<char>>::empty()
        }),
    decreases lines.len(),
{
    let tail: Seq<Seq<char>> = if l.len() != 0 && spec_line_valid(l) && line_gender(l) == g {
        seq![l]
    } else {
        Seq::empty()
    };
    if lines.len() == 0 {
        assert(lines.push(l)[0] == l);
        if l.len() == 0 {
            assert(gender_lines(lines.push(l), g) =~= gender_lines(lines, g) + tail);
        } else {
            assert(lines.push(l).drop_first() =~= Seq::<Seq<char>>::empty());
            assert(gender_lines(lines.push(l).drop_first(), g) =~= Seq::<Seq<char>>::empty());
            assert(gender_lines(lines.push(l), g) =~= gender_lines(lines, g) + tail);
        }
    } else {
        assert(lines.push(l)[0] == lines[0]);
        assert(lines[0].len() != 0);
        assert(lines.push(l).drop_first() =~= lines.drop_first().push(l));
        assert(forall|k: int|
            0 <= k < lines.drop_first().len() ==> lines.drop_first()[k].len() != 0);
        lemma_gender_lines_snoc(lines.drop_first(), l, g);
        assert(gender_lines(lines.push(l), g) =~= gender_lines(lines, g) + tail);
    }
}

proof fn lemma_gender_lines_stop(lines: Seq<Seq<char>>, i: int, g: Gender)
    requires
        0 <= i <= lines.len(),
        forall|k: int| 0 <= k < i ==> lines[k].len() != 0,
        i == lines.len() || lines[i].len() == 0,
    ensures
        gender_lines(lines, g) == gender_lines(lines.subrange(0, i), g),
        effective_len(lines) == i,
    decreases i,
{
    if i == 0 {
        assert(lines.subrange(0, 0) =~= Seq::<Seq<char>>::empty());
        if lines.len() > 0 {
            assert(lines[0].len() == 0);
        }
    } else {
        assert(lines[0].len() != 0);
        let rest = lines.drop_first();
        assert(forall|k: int| 0 <= k < i - 1 ==> rest[k] == lines[k + 1]);
        lemma_gender_lines_stop(rest, i - 1, g);
        assert(lines.subrange(0, i)[0] == lines[0]);
        assert(lines.subrange(0, i).drop_first() =~= rest.subrange(0, i - 1));
        assert(gender_lines(lines, g) =~= gender_lines(lines.subrange(0, i), g));
    }
}

proof fn lemma_effective_len_past(lines: Seq<Seq<char>>, i: int)
    requires
        0 <= i < lines.len(),
        forall|k: int| 0 <= k <= i ==> lines[k].len() != 0,
    ensures
        effective_len(lines) > i,
    decreases i,
{
    if i == 0 {
        assert(effective_len(lines) == 1 + effective_len(lines.drop_first()));
        lemma_effective_len_nonneg(lines.drop_first());
    } else {
        let rest = lines.drop_first();
        assert(forall|k: int| 0 <= k <= i - 1 ==> rest[k] == lines[k + 1]);
        lemma_effective_len_past(rest, i - 1);
    }
}

proof fn lemma_effective_len_nonneg(lines: Seq<Seq<char>>)
    ensures
        0 <= effective_len(lines) <= lines.len(),
    decreases lines.len(),
{
    if lines.len() != 0 && lines[0].len() != 0 {
        lemma_effective_len_nonneg(lines.drop_first());
    }
}

/// Parses a whole record stream into gender-partitioned record lists.
///
/// Consumes lines up to the first empty line (a terminator, not an error)
/// or the end of input, whichever comes first. Fails with `InvalidLine`,
/// naming the first offending line, exactly when a consumed line is not a
/// well-formed record.
pub fn parse_records(lines: &Vec<String>) -> (r: Result<
    GenderedData<Vec<NameRecord>>,
    ParseError,
>)
    requires
        lines@.len() <= u32::MAX,
    ensures
        match r {
            Ok(pair) => {
                &&& forall|k: int|
                    0 <= k < effective_len(lines.deep_view()) ==> spec_line_valid(
                        #[trigger] lines.deep_view()[k],
                    )
                &&& well_parsed(lines.deep_view(), pair.male@, Gender::Male)
                &&& well_parsed(lines.deep_view(), pair.female@, Gender::Female)
            },
            Err(ParseError::InvalidLine { line_number }) => {
                &&& 0 <= line_number < effective_len(lines.deep_view())
                &&& !spec_line_valid(lines.deep_view()[line_number as int])
                &&& forall|k: int|
                    0 <= k < line_number ==> spec_line_valid(#[trigger] lines.deep_view()[k])
            },
            Err(_) => false,
        },
{
    let ghost lv = lines.deep_view();
    let mut males: Vec<NameRecord> = Vec::new();
    let mut females: Vec<NameRecord> = Vec::new();
    let mut i: usize = 0;
    while i < lines.len()
        invariant
            0 <= i <= lv.len(),
            lv == lines.deep_view(),
            lv.len() == lines@.len(),
            lines@.len() <= u32::MAX,
            forall|k: int| 0 <= k < i ==> (#[trigger] lv[k]).len() != 0,
            forall|k: int| 0 <= k < i ==> spec_line_valid(#[trigger] lv[k]),
            males@.len() + females@.len() <= i,
            well_parsed(lv.subrange(0, i as int), males@, Gender::Male),
            well_parsed(lv.subrange(0, i as int), females@, Gender::Female),
        decreases lv.len() - i,
    {
        proof {
            assert(lv[i as int] == lines@[i as int]@);
        }
        let line: &String = &lines[i];
        if line.as_str().unicode_len() == 0 {
            proof {
                lemma_gender_lines_stop(lv, i as int, Gender::Male);
                lemma_gender_lines_stop(lv, i as int, Gender::Female);
            }
            return Ok(GenderedData { male: males, female: females });
        }
        match parse_line(line.as_str(), i) {
            Ok((name, gender, count)) => {
                proof {
                    assert(lv.subrange(0, i + 1 as int) =~= lv.subrange(0, i as int).push(
                        lv[i as int],
                    ));
                    lemma_gender_lines_snoc(lv.subrange(0, i as int), lv[i as int], Gender::Male);
                    lemma_gender_lines_snoc(lv.subrange(0, i as int), lv[i as int], Gender::Female);
                }
                match gender {
                    Gender::Male => {
                        let rank = males.len() as u32;
                        males.push(NameRecord { name, gender, rank, count });
                    },
                    Gender::Female => {
                        let rank = females.len() as u32;
                        females.push(NameRecord { name, gender, rank, count });
                    },
                }
            },
            Err(e) => {
                proof {
                    lemma_effective_len_past(lv, i as int);
                }
                return Err(e);
            },
        }
        i = i + 1;
    }
    proof {
        lemma_gender_lines_stop(lv, lv.len() as int, Gender::Male);
        lemma_gender_lines_stop(lv, lv.len() as int, Gender::Female);
        assert(lv.subrange(0, lv.len() as int) =~= lv);
    }
    Ok(GenderedData { male: males, female: females })
}

/// For every valid record stream: looking up any parsed name in the record
/// list of its gender finds exactly that record, and its rank equals its
/// 0-based position within the gender group.
pub proof fn lemma_parse_rank_law(
    lines: Seq<Seq<char>>,
    records: Seq<NameRecord>,
    g: Gender,
    k: int,
)
    requires
        well_parsed(lines, records, g),
        crate::index::unique_names(records),
        0 <= k < records.len(),
    ensures
        crate::index::find_name(records, records[k].name@) == Some(records[k]),
        records[k].rank == k,
{
    crate::index::lemma_find_name_present(records, k);
}

/// When the unique split of the line has an unrecognized gender field or a
/// bad count field, the line is not valid.
proof fn lemma_not_valid_when_fields_bad(s: Seq<char>, nf: Seq<char>, gf: Seq<char>, cf: Seq<char>)
    requires
        splits3(s, nf, gf, cf),
        gender_of_field(gf) is None || !valid_count_field(cf),
    ensures
        !spec_line_valid(s),
{
    if spec_line_valid(s) {
        let t = choose|t: (Seq<char>, Seq<char>, Seq<char>)|
            splits3(s, t.0, t.1, t.2) && gender_of_field(t.1) is Some && valid_count_field(t.2);
        lemma_splits3_unique(s, t.0, t.1, t.2, nf, gf, cf);
    }
}

} // verus!
