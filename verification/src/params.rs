//! Captured path parameters, handed read-only to the matched handler.

use vstd::prelude::*;
use crate::text::str_eq;

verus! {

/// The mathematical content of a `Params` value: the named captures in
/// pattern order, and the remainder an unnamed trailing wildcard consumed.
pub struct ParamsModel {
    pub pairs: Seq<(Seq<char>, Seq<char>)>,
    pub unnamed: Option<Seq<char>>,
}

/// The views of a vector of (name, value) capture pairs.
pub open spec fn pair_views(v: Seq<(String, String)>) -> Seq<(Seq<char>, Seq<char>)> {
    v.map_values(|p: (String, String)| (p.0@, p.1@))
}

/// The first value captured under `key`, if any.
pub open spec fn find_in(pairs: Seq<(Seq<char>, Seq<char>)>, key: Seq<char>) -> Option<Seq<char>>
    decreases pairs.len(),
{
    if pairs.len() == 0 {
        None
    } else if pairs[0].0 == key {
        Some(pairs[0].1)
    } else {
        find_in(pairs.skip(1), key)
    }
}

/// The named path variables and the wildcard remainder captured by one
/// successful match. Created fresh per request and never shared between
/// requests.
#[derive(Clone, Debug)]
pub struct Params {
    pub pairs: Vec<(String, String)>,
    pub unnamed: Option<String>,
}

impl View for Params {
    type V = ParamsModel;

    open spec fn view(&self) -> ParamsModel {
        ParamsModel {
            pairs: pair_views(self.pairs@),
            unnamed: match self.unnamed {
                Some(s) => Some(s@),
                None => None,
            },
        }
    }
}

impl Params {
    /// A `Params` with no captures at all.
    pub fn empty() -> (r: Params)
        ensures
            r@.pairs == Seq::<(Seq<char>, Seq<char>)>::empty(),
            r@.unnamed is None,
    {
        let r = Params { pairs: Vec::new(), unnamed: None };
        proof {
            assert(r@.pairs =~= Seq::<(Seq<char>, Seq<char>)>::empty());
        }
        r
    }

    /// Looks a named capture up; `None` when no parameter or named wildcard
    /// of the matched pattern bears that name.
    pub fn find(&self, key: &str) -> (r: Option<&str>)
        ensures
            match r {
                Some(v) => find_in(self@.pairs, key@) == Some(v@),
                None => find_in(self@.pairs, key@) is None,
            },
    {
        let mut i: usize = 0;
        proof {
            assert(self@.pairs.skip(0) =~= self@.pairs);
        }
        while i < self.pairs.len()
            invariant
                0 <= i <= self.pairs.len(),
                find_in(self@.pairs, key@) == find_in(self@.pairs.skip(i as int), key@),
            decreases self.pairs.len() - i,
        {
            proof {
                assert(self@.pairs.skip(i as int)[0] == self@.pairs[i as int]);
                assert(self@.pairs.skip(i as int).skip(1) =~= self@.pairs.skip(i as int + 1));
            }
            if str_eq(self.pairs[i].0.as_str(), key) {
                return Some(self.pairs[i].1.as_str());
            }
            i += 1;
        }
        proof {
            assert(self@.pairs.skip(self.pairs.len() as int) =~= Seq::<(
                Seq<char>,
                Seq<char>,
            )>::empty());
        }
        None
    }

    /// The remainder consumed by an unnamed trailing wildcard, if the matched
    /// pattern had one.
    pub fn unnamed_remainder(&self) -> (r: Option<&str>)
        ensures
            match r {
                Some(v) => self@.unnamed == Some(v@),
                None => self@.unnamed is None,
            },
    {
        match &self.unnamed {
            Some(s) => Some(s.as_str()),
            None => None,
        }
    }

    /// How many named captures the match produced.
    pub fn len(&self) -> (r: usize)
        ensures
            r == self@.pairs.len(),
    {
        self.pairs.len()
    }
}

} // verus!
