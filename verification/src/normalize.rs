//! Display-form normalization of queried names: trimmed, first character
//! uppercased, the rest lowercased.
use vstd::prelude::*;

verus! {

/// What `str::trim` returns for these characters.
pub uninterp spec fn trim_of(s: Seq<char>) -> Seq<char>;

/// What `char::to_uppercase` yields for this character.
pub uninterp spec fn upper_of(c: char) -> Seq<char>;

/// What `char::to_lowercase` yields for this character.
pub uninterp spec fn lower_of(c: char) -> Seq<char>;

/// Relies on `str::trim`: removes leading and trailing whitespace; the
/// result depends on the characters alone.
#[verifier::external_body]
fn trim_str<'a>(s: &'a str) -> (r: &'a str)
    ensures
        r@ == trim_of(s@),
{
    s.trim()
}

/// Relies on `char::to_uppercase`: the uppercase mapping of the character,
/// a function of the character alone.
#[verifier::external_body]
fn char_upper(c: char) -> (r: String)
    ensures
        r@ == upper_of(c),
{
    c.to_uppercase().collect::<String>()
}

/// Relies on `char::to_lowercase`: the lowercase mapping of the character,
/// a function of the character alone.
#[verifier::external_body]
fn char_lower(c: char) -> (r: String)
    ensures
        r@ == lower_of(c),
{
    c.to_lowercase().collect::<String>()
}

/// The lowercase mappings of every character, concatenated in order.
pub open spec fn lower_all(s: Seq<char>) -> Seq<char>
    decreases s.len(),
{
    if s.len() == 0 {
        Seq::empty()
    } else {
        lower_of(s[0]) + lower_all(s.drop_first())
    }
}

proof fn lemma_lower_all_snoc(s: Seq<char>, c: char)
    ensures
        lower_all(s.push(c)) == lower_all(s) + lower_of(c),
    decreases s.len(),
{
    if s.len() == 0 {
        assert(s =~= Seq::<char>::empty());
        assert(s.push(c).drop_first() =~= Seq::<char>::empty());
        assert(lower_all(Seq::<char>::empty()) == Seq::<char>::empty());
        assert(lower_all(s.push(c)) == lower_of(c) + lower_all(Seq::<char>::empty()));
        assert(lower_all(s.push(c)) =~= lower_all(s) + lower_of(c));
    } else {
        assert(s.push(c).drop_first() =~= s.drop_first().push(c));
        lemma_lower_all_snoc(s.drop_first(), c);
        assert(lower_all(s.push(c)) =~= lower_all(s) + lower_of(c));
    }
}

/// The normalized display form: the trimmed text with its first character
/// uppercased and every later character lowercased; empty when nothing but
/// whitespace was given.
pub open spec fn normalized_spec(s: Seq<char>) -> Seq<char> {
    let t = trim_of(s);
    if t.len() == 0 {
        Seq::empty()
    } else {
        upper_of(t[0]) + lower_all(t.drop_first())
    }
}

/// Normalizes a raw queried name to its display form.
pub fn normalize_name(target: &str) -> (r: String)
    ensures
        r@ == normalized_spec(target@),
{
    let trimmed = trim_str(target);
    let len = trimmed.unicode_len();
    let mut result = String::new();
    if len == 0 {
        return result;
    }
    let first = trimmed.get_char(0);
    let upper = char_upper(first);
    result.append(upper.as_str());
    let mut i: usize = 1;
    while i < len
        invariant
            1 <= i <= len,
            len == trimmed@.len(),
            trimmed@ == trim_of(target@),
            result@ == upper_of(trimmed@[0]) + lower_all(trimmed@.subrange(1, i as int)),
        decreases len - i,
    {
        let c = trimmed.get_char(i);
        let low = char_lower(c);
        result.append(low.as_str());
        proof {
            assert(trimmed@.subrange(1, i + 1 as int) =~= trimmed@.subrange(1, i as int).push(
                trimmed@[i as int],
            ));
            lemma_lower_all_snoc(trimmed@.subrange(1, i as int), trimmed@[i as int]);
        }
        i = i + 1;
    }
    proof {
        assert(trimmed@.subrange(1, len as int) =~= trimmed@.drop_first());
    }
    result
}

} // verus!
