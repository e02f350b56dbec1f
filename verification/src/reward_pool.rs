//! The four well-known pools that take part in an epoch's reward draw.

use crate::text::text_eq;
use vstd::prelude::*;

verus! {

pub const POOL_TREASURY: &'static str = "treasury";

pub const POOL_JURORS: &'static str = "jurors";

pub const POOL_CREATORS: &'static str = "creators";

pub const POOL_OPERATORS: &'static str = "operators";

/// A well-known pool. Rewards are drawn for these four, in the order in which
/// they are declared here.
#[derive(Clone, Copy, Debug, PartialEq, Eq, Structural)]
pub enum RewardPool {
    Treasury,
    Jurors,
    Creators,
    Operators,
}

impl RewardPool {
    /// The name under which the pool's members are kept.
    pub open spec fn name_text(self) -> Seq<char> {
        match self {
            RewardPool::Treasury => "treasury"@,
            RewardPool::Jurors => "jurors"@,
            RewardPool::Creators => "creators"@,
            RewardPool::Operators => "operators"@,
        }
    }

    /// The well-known pool that goes by `name`, if there is one.
    pub open spec fn named(name: Seq<char>) -> Option<RewardPool> {
        if name == "treasury"@ {
            Some(RewardPool::Treasury)
        } else if name == "jurors"@ {
            Some(RewardPool::Jurors)
        } else if name == "creators"@ {
            Some(RewardPool::Creators)
        } else if name == "operators"@ {
            Some(RewardPool::Operators)
        } else {
            None
        }
    }

    /// Where the pool stands in the drawing order.
    pub open spec fn position(self) -> int {
        match self {
            RewardPool::Treasury => 0,
            RewardPool::Jurors => 1,
            RewardPool::Creators => 2,
            RewardPool::Operators => 3,
        }
    }

    /// The pool at position `k` of the drawing order.
    pub open spec fn at(k: int) -> RewardPool {
        if k == 0 {
            RewardPool::Treasury
        } else if k == 1 {
            RewardPool::Jurors
        } else if k == 2 {
            RewardPool::Creators
        } else {
            RewardPool::Operators
        }
    }

    /// The name under which the pool's members are kept.
    pub fn name(self) -> (name: &'static str)
        ensures
            name@ == self.name_text(),
    {
        match self {
            RewardPool::Treasury => POOL_TREASURY,
            RewardPool::Jurors => POOL_JURORS,
            RewardPool::Creators => POOL_CREATORS,
            RewardPool::Operators => POOL_OPERATORS,
        }
    }

    /// The well-known pool that goes by `name`, if there is one.
    pub fn from_name(name: &str) -> (pool: Option<RewardPool>)
        ensures
            pool == Self::named(name@),
    {
        if text_eq(name, POOL_TREASURY) {
            Some(RewardPool::Treasury)
        } else if text_eq(name, POOL_JURORS) {
            Some(RewardPool::Jurors)
        } else if text_eq(name, POOL_CREATORS) {
            Some(RewardPool::Creators)
        } else if text_eq(name, POOL_OPERATORS) {
            Some(RewardPool::Operators)
        } else {
            None
        }
    }

    /// The pool at position `k` of the drawing order.
    pub fn in_order(k: usize) -> (pool: RewardPool)
        requires
            k < 4,
        ensures
            pool == Self::at(k as int),
    {
        if k == 0 {
            RewardPool::Treasury
        } else if k == 1 {
            RewardPool::Jurors
        } else if k == 2 {
            RewardPool::Creators
        } else {
            RewardPool::Operators
        }
    }
}

/// The four names are pairwise different, so a name stands for at most one
/// well-known pool, and each pool is found again by its own name.
pub proof fn lemma_names_distinct()
    ensures
        forall|p: RewardPool| #[trigger] RewardPool::named(p.name_text()) == Some(p),
        forall|p: RewardPool, q: RewardPool|
            #[trigger] p.name_text() == #[trigger] q.name_text() ==> p == q,
{
    reveal_strlit("treasury");
    reveal_strlit("jurors");
    reveal_strlit("creators");
    reveal_strlit("operators");
    assert("treasury"@.len() == 8 && "treasury"@[0] == 't');
    assert("jurors"@.len() == 6);
    assert("creators"@.len() == 8 && "creators"@[0] == 'c');
    assert("operators"@.len() == 9);
}

} // verus!
