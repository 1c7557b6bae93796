//! The gender dimension and the two-slot container indexed by it.
use vstd::prelude::*;

verus! {

/// The two genders recorded in the birth data; a closed tag used as a
/// dimension key throughout the engine.
#[derive(Copy, Clone, Debug, Eq, PartialEq, Structural)]
pub enum Gender {
    Male,
    Female,
}

/// Exactly two slots, one per `Gender` value; both always populated.
/// The fixed slot order (male, then female) keeps iteration stable.
#[derive(Clone, Debug)]
pub struct GenderedData<T> {
    pub male: T,
    pub female: T,
}

impl<T> GenderedData<T> {
    /// The value held in the slot for `gender`.
    pub open spec fn of(self, gender: Gender) -> T {
        match gender {
            Gender::Male => self.male,
            Gender::Female => self.female,
        }
    }

    /// This container with the slot for `gender` replaced by `value`
    /// and the other slot unchanged.
    pub open spec fn updated(self, gender: Gender, value: T) -> GenderedData<T> {
        match gender {
            Gender::Male => GenderedData { male: value, female: self.female },
            Gender::Female => GenderedData { male: self.male, female: value },
        }
    }

    #[inline]
    pub fn get(&self, gender: Gender) -> (r: &T)
        ensures
            *r == self.of(gender),
    {
        match gender {
            Gender::Male => &self.male,
            Gender::Female => &self.female,
        }
    }

    #[inline]
    pub fn get_mut(&mut self, gender: Gender) -> (r: &mut T)
        ensures
            *r == old(self).of(gender),
            *final(self) == old(self).updated(gender, *final(r)),
    {
        match gender {
            Gender::Male => &mut self.male,
            Gender::Female => &mut self.female,
        }
    }

    /// Overwrites the slot for `gender`; the other slot is untouched.
    #[inline]
    pub fn insert(&mut self, gender: Gender, value: T)
        ensures
            *final(self) == old(self).updated(gender, value),
    {
        *self.get_mut(gender) = value;
    }

    /// The two slots in their fixed order, each tagged with its gender.
    #[inline]
    pub fn iter<'a>(&'a self) -> (r: Vec<(Gender, &'a T)>)
        ensures
            r@.len() == 2,
            r@[0].0 == Gender::Male && *r@[0].1 == self.male,
            r@[1].0 == Gender::Female && *r@[1].1 == self.female,
    {
        let mut v: Vec<(Gender, &'a T)> = Vec::new();
        v.push((Gender::Male, &self.male));
        v.push((Gender::Female, &self.female));
        v
    }

    /// The two slot values in their fixed order.
    #[inline]
    pub fn values<'a>(&'a self) -> (r: Vec<&'a T>)
        ensures
            r@.len() == 2,
            *r@[0] == self.male,
            *r@[1] == self.female,
    {
        let mut v: Vec<&'a T> = Vec::new();
        v.push(&self.male);
        v.push(&self.female);
        v
    }

    /// Applies `func` to each slot independently, keeping the slot order.
    #[inline]
    pub fn map<U, F: Fn(Gender, T) -> U>(self, func: F) -> (r: GenderedData<U>)
        requires
            call_requires(func, (Gender::Male, self.male)),
            call_requires(func, (Gender::Female, self.female)),
        ensures
            call_ensures(func, (Gender::Male, self.male), r.male),
            call_ensures(func, (Gender::Female, self.female), r.female),
    {
        let GenderedData { male, female } = self;
        let new_male = func(Gender::Male, male);
        let new_female = func(Gender::Female, female);
        GenderedData { male: new_male, female: new_female }
    }

    #[inline]
    pub fn as_ref<'a>(&'a self) -> (r: GenderedData<&'a T>)
        ensures
            *r.male == self.male,
            *r.female == self.female,
    {
        GenderedData { male: &self.male, female: &self.female }
    }
}

/// The two slots are independently addressable and never aliased: writing
/// one slot leaves the other exactly as it was, whichever gender is
/// written.
pub proof fn lemma_slots_independent<T>(pair: GenderedData<T>, value: T)
    ensures
        pair.updated(Gender::Male, value).male == value,
        pair.updated(Gender::Male, value).female == pair.female,
        pair.updated(Gender::Female, value).female == value,
        pair.updated(Gender::Female, value).male == pair.male,
{
}

/// One (name, gender, year) observation as served to callers: the rank the
/// name held within its gender for that year (`None` when unranked) and the
/// number of recorded births.
#[derive(Copy, Clone, Debug, PartialEq, Eq)]
pub struct NameData {
    pub gender: Gender,
    pub rank: Option<u32>,
    pub count: u32,
}

/// Per-gender metadata for one year: the total births recorded.
#[derive(Copy, Clone, Debug, PartialEq, Eq, Structural)]
pub struct YearMeta {
    pub total_births: u32,
}

impl Default for GenderedData<NameData> {
    /// Both slots hold an absent observation: no rank and a zero count.
    fn default() -> (r: Self)
        ensures
            r.male == (NameData { gender: Gender::Male, rank: None, count: 0 }),
            r.female == (NameData { gender: Gender::Female, rank: None, count: 0 }),
    {
        GenderedData {
            male: NameData { gender: Gender::Male, rank: None, count: 0 },
            female: NameData { gender: Gender::Female, rank: None, count: 0 },
        }
    }
}

} // verus!
