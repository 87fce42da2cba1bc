//! A set of option chains with distinct maturities.
use vstd::prelude::*;
use crate::error::{SanosError, SanosResult};
use crate::market::chain::OptionChain;
use crate::sorting::{
    first_adjacent_repeat, has_repeated_key, is_least_repeated_key, lemma_first_repeat_is_least,
    lemma_repeated_keys_transfer, lemma_strict_has_no_repeat, sort_by_key, strictly_sorted_by_key,
    SortKey,
};

verus! {

/// Option chains in strictly increasing maturity.
#[derive(Debug)]
pub struct OptionBook {
    chains: Vec<OptionChain>,
}

impl OptionBook {
    #[verifier::type_invariant]
    spec fn inv(self) -> bool {
        self.chains@.len() > 0 && strictly_sorted_by_key(self.chains@)
    }

    /// Copy of the book with the same chains.
    fn duplicate(&self) -> (r: Self)
        ensures
            r.chains_spec().len() == self.chains_spec().len(),
            forall|j: int|
                0 <= j < r.chains_spec().len() ==> (#[trigger] r.chains_spec()[j]).maturity_spec()
                    == self.chains_spec()[j].maturity_spec() && r.chains_spec()[j].quotes_spec()
                    == self.chains_spec()[j].quotes_spec(),
    {
        proof {
            use_type_invariant(self);
        }
        let mut chains: Vec<OptionChain> = Vec::new();
        let mut j: usize = 0;
        while j < self.chains.len()
            invariant
                j <= self.chains@.len(),
                chains@.len() == j,
                strictly_sorted_by_key(self.chains@),
                forall|l: int|
                    0 <= l < j ==> (#[trigger] chains@[l]).maturity_spec()
                        == self.chains@[l].maturity_spec() && chains@[l].quotes_spec()
                        == self.chains@[l].quotes_spec(),
            decreases self.chains@.len() - j,
        {
            chains.push(self.chains[j].clone());
            j = j + 1;
        }
        proof {
            assert forall|a: int, b: int| 0 <= a < b < chains@.len() implies chains@[a].key_spec()
                < chains@[b].key_spec() by {
                assert(self.chains@[a].key_spec() < self.chains@[b].key_spec());
            }
        }
        OptionBook { chains }
    }

    /// Chains of the book, in increasing maturity.
    pub closed spec fn chains_spec(self) -> Seq<OptionChain> {
        self.chains@
    }

    /// Builds a book: chains must be non-empty; they are sorted by maturity and
    /// a repeated maturity is rejected (reporting the least repeated one).
    pub fn new(chains: Vec<OptionChain>) -> (r: SanosResult<Self>)
        ensures
            chains@.len() == 0 ==> r == Err::<Self, SanosError>(
                SanosError::EmptyCollection { what: "OptionBook.chains" },
            ),
            chains@.len() > 0 ==> (r is Ok <==> !has_repeated_key(chains@)),
            chains@.len() > 0 && r is Err ==> (r matches Err(
                SanosError::DuplicateKey { what, value },
            ) && what == "maturity" && is_least_repeated_key(chains@, value as int)),
            r matches Ok(b) ==> {
                &&& b.chains_spec().to_multiset() == chains@.to_multiset()
                &&& b.chains_spec().len() == chains@.len()
                &&& strictly_sorted_by_key(b.chains_spec())
            },
    {
        if chains.len() == 0 {
            return Err(SanosError::EmptyCollection { what: "OptionBook.chains" });
        }
        let ghost input = chains@;
        let sorted = sort_by_key(chains);
        proof {
            lemma_repeated_keys_transfer(sorted@, input);
        }
        match first_adjacent_repeat(&sorted) {
            Some(i) => {
                proof {
                    lemma_first_repeat_is_least(sorted@, i as int);
                    assert(has_repeated_key(sorted@));
                }
                let value = sorted[i].maturity();
                Err(SanosError::DuplicateKey { what: "maturity", value })
            },
            None => {
                proof {
                    lemma_strict_has_no_repeat(sorted@);
                }
                Ok(OptionBook { chains: sorted })
            },
        }
    }

    /// Chains, in strictly increasing maturity.
    pub fn chains(&self) -> (r: &[OptionChain])
        ensures
            r@ == self.chains_spec(),
            r@.len() > 0,
            strictly_sorted_by_key(r@),
    {
        proof {
            use_type_invariant(self);
        }
        self.chains.as_slice()
    }

    /// Maturities of the chains, in increasing order.
    pub fn maturities(&self) -> (r: Vec<i64>)
        ensures
            r@.len() == self.chains_spec().len(),
            forall|j: int| 0 <= j < r@.len() ==> r@[j] == self.chains_spec()[j].maturity_spec(),
    {
        let mut out: Vec<i64> = Vec::new();
        let mut j: usize = 0;
        while j < self.chains.len()
            invariant
                j <= self.chains@.len(),
                out@.len() == j,
                forall|l: int| 0 <= l < j ==> out@[l] == self.chains@[l].maturity_spec(),
            decreases self.chains@.len() - j,
        {
            out.push(self.chains[j].maturity());
            j = j + 1;
        }
        out
    }

    /// Number of chains.
    pub fn len(&self) -> (r: usize)
        ensures
            r == self.chains_spec().len(),
            r > 0,
    {
        proof {
            use_type_invariant(self);
        }
        self.chains.len()
    }

    /// Whether the book has no chain (never, by construction).
    pub fn is_empty(&self) -> (r: bool)
        ensures
            r == (self.chains_spec().len() == 0),
            !r,
    {
        proof {
            use_type_invariant(self);
        }
        self.chains.len() == 0
    }
}

impl Clone for OptionBook {
    fn clone(&self) -> (r: Self)
        ensures
            r.chains_spec().len() == self.chains_spec().len(),
            forall|j: int|
                0 <= j < r.chains_spec().len() ==> (#[trigger] r.chains_spec()[j]).maturity_spec()
                    == self.chains_spec()[j].maturity_spec() && r.chains_spec()[j].quotes_spec()
                    == self.chains_spec()[j].quotes_spec(),
    {
        self.duplicate()
    }
}

} // verus!
