//! Quotes at one maturity.
use vstd::prelude::*;
use crate::error::{SanosError, SanosResult};
use crate::market::quote::CallQuote;
use crate::sorting::{
    first_adjacent_repeat, has_repeated_key, is_least_repeated_key, lemma_first_repeat_is_least,
    lemma_repeated_keys_transfer, lemma_strict_has_no_repeat, sort_by_key, strictly_sorted_by_key,
    SortKey,
};
use crate::MIN_POSITIVE;

verus! {

/// Call quotes at one maturity, strictly increasing in strike.
#[derive(Debug)]
pub struct OptionChain {
    maturity: i64,
    quotes: Vec<CallQuote>,
}

impl OptionChain {
    #[verifier::type_invariant]
    spec fn inv(self) -> bool {
        self.maturity > 0 && self.quotes@.len() > 0 && strictly_sorted_by_key(self.quotes@)
    }

    /// Maturity of the chain.
    pub closed spec fn maturity_spec(self) -> i64 {
        self.maturity
    }

    /// Quotes of the chain, in increasing strike.
    pub closed spec fn quotes_spec(self) -> Seq<CallQuote> {
        self.quotes@
    }

    /// Builds a chain: the maturity must be positive and the quotes non-empty;
    /// quotes are sorted by strike and a repeated strike is rejected
    /// (reporting the least repeated one).
    pub fn new(maturity: i64, quotes: Vec<CallQuote>) -> (r: SanosResult<Self>)
        ensures
            maturity <= 0 ==> r == Err::<Self, SanosError>(
                SanosError::InvalidBound {
                    field: "maturity",
                    value: maturity,
                    min: MIN_POSITIVE,
                    max: i64::MAX,
                },
            ),
            maturity > 0 && quotes@.len() == 0 ==> r == Err::<Self, SanosError>(
                SanosError::EmptyCollection { what: "OptionChain.quotes" },
            ),
            maturity > 0 && quotes@.len() > 0 ==> (r is Ok <==> !has_repeated_key(quotes@)),
            maturity > 0 && quotes@.len() > 0 && r is Err ==> (r matches Err(
                SanosError::DuplicateKey { what, value },
            ) && what == "strike k" && is_least_repeated_key(quotes@, value as int)),
            r matches Ok(c) ==> {
                &&& c.maturity_spec() == maturity
                &&& c.quotes_spec().to_multiset() == quotes@.to_multiset()
                &&& c.quotes_spec().len() == quotes@.len()
                &&& strictly_sorted_by_key(c.quotes_spec())
            },
    {
        if maturity <= 0 {
            return Err(
                SanosError::InvalidBound {
                    field: "maturity",
                    value: maturity,
                    min: MIN_POSITIVE,
                    max: i64::MAX,
                },
            );
        }
        if quotes.len() == 0 {
            return Err(SanosError::EmptyCollection { what: "OptionChain.quotes" });
        }
        let ghost input = quotes@;
        let sorted = sort_by_key(quotes);
        proof {
            lemma_repeated_keys_transfer(sorted@, input);
        }
        match first_adjacent_repeat(&sorted) {
            Some(i) => {
                proof {
                    lemma_first_repeat_is_least(sorted@, i as int);
                    assert(has_repeated_key(sorted@));
                }
                let value = sorted[i].k;
                Err(SanosError::DuplicateKey { what: "strike k", value })
            },
            None => {
                proof {
                    lemma_strict_has_no_repeat(sorted@);
                }
                Ok(OptionChain { maturity, quotes: sorted })
            },
        }
    }

    /// Maturity of the chain.
    pub fn maturity(&self) -> (r: i64)
        ensures
            r == self.maturity_spec(),
            r > 0,
    {
        proof {
            use_type_invariant(self);
        }
        self.maturity
    }

    /// Quotes, in strictly increasing strike.
    pub fn quotes(&self) -> (r: &[CallQuote])
        ensures
            r@ == self.quotes_spec(),
            r@.len() > 0,
            strictly_sorted_by_key(r@),
    {
        proof {
            use_type_invariant(self);
        }
        self.quotes.as_slice()
    }
}

impl Clone for OptionChain {
    fn clone(&self) -> (r: Self)
        ensures
            r.maturity_spec() == self.maturity_spec(),
            r.quotes_spec() == self.quotes_spec(),
    {
        proof {
            use_type_invariant(self);
        }
        let mut quotes: Vec<CallQuote> = Vec::new();
        let mut i: usize = 0;
        while i < self.quotes.len()
            invariant
                i <= self.quotes@.len(),
                quotes@ == self.quotes@.take(i as int),
            decreases self.quotes@.len() - i,
        {
            quotes.push(self.quotes[i]);
            i = i + 1;
            assert(quotes@ =~= self.quotes@.take(i as int));
        }
        assert(quotes@ =~= self.quotes@);
        OptionChain { maturity: self.maturity, quotes }
    }
}

impl SortKey for OptionChain {
    open spec fn key_spec(&self) -> int {
        self.maturity_spec() as int
    }

    fn sort_key(&self) -> (k: i64) {
        self.maturity()
    }
}

} // verus!
