//! The typed query request and the admission checks applied before any
//! backend work starts.
use vstd::prelude::*;

use crate::error::RequestError;
use crate::normalize::{normalize_name, normalized_spec};

verus! {

/// The largest number of years one query may request; a larger request is
/// rejected outright before any year is loaded.
pub const MAX_REQUEST_YEARS: usize = 200;

/// One incoming query: which years, and which name.
#[derive(Clone, Debug)]
pub struct NameRequest {
    pub years: Vec<u32>,
    pub name: String,
}

impl NameRequest {
    /// The same request with the name brought to its display form.
    pub fn normalized(self) -> (r: NameRequest)
        ensures
            r.years == self.years,
            r.name@ == normalized_spec(self.name@),
    {
        NameRequest { years: self.years, name: normalize_name(self.name.as_str()) }
    }
}

/// The smallest year in a nonempty sequence.
pub open spec fn min_of(s: Seq<u32>) -> u32
    recommends
        s.len() > 0,
    decreases s.len(),
{
    if s.len() <= 1 {
        s[0]
    } else {
        let m = min_of(s.drop_last());
        if s.last() < m {
            s.last()
        } else {
            m
        }
    }
}

/// The minimum is a lower bound on every entry.
pub proof fn lemma_min_lower_bound(s: Seq<u32>)
    requires
        s.len() > 0,
    ensures
        forall|k: int| 0 <= k < s.len() ==> min_of(s) <= #[trigger] s[k],
    decreases s.len(),
{
    if s.len() > 1 {
        lemma_min_lower_bound(s.drop_last());
        assert forall|k: int| 0 <= k < s.len() implies min_of(s) <= #[trigger] s[k] by {
            if k < s.len() - 1 {
                assert(s.drop_last()[k] == s[k]);
                assert(min_of(s.drop_last()) <= s.drop_last()[k]);
            }
        }
    }
}

/// Admits or rejects a request's year list before any backend work.
///
/// An empty list and an oversized list are rejected, each with its own
/// error; an admitted list yields its smallest year, the base year for
/// backend range queries.
pub fn admit_request(years: &Vec<u32>) -> (r: Result<u32, RequestError>)
    ensures
        match r {
            Ok(m) => 0 < years@.len() <= MAX_REQUEST_YEARS && m == min_of(years@),
            Err(RequestError::RequestedZeroYears) => years@.len() == 0,
            Err(RequestError::TooManyYears { requested, limit }) => years@.len()
                > MAX_REQUEST_YEARS && requested == years@.len() && limit == MAX_REQUEST_YEARS,
            Err(_) => false,
        },
{
    if years.len() == 0 {
        return Err(RequestError::RequestedZeroYears);
    }
    if years.len() > MAX_REQUEST_YEARS {
        return Err(RequestError::TooManyYears { requested: years.len(), limit: MAX_REQUEST_YEARS });
    }
    let mut m = years[0];
    let mut i: usize = 1;
    while i < years.len()
        invariant
            1 <= i <= years@.len(),
            m == min_of(years@.subrange(0, i as int)),
        decreases years@.len() - i,
    {
        proof {
            assert(years@.subrange(0, i + 1 as int).drop_last() =~= years@.subrange(0, i as int));
            assert(years@.subrange(0, i + 1 as int).last() == years@[i as int]);
        }
        if years[i] < m {
            m = years[i];
        }
        i = i + 1;
    }
    proof {
        assert(years@.subrange(0, years@.len() as int) =~= years@);
    }
    Ok(m)
}

} // verus!
