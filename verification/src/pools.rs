//! The table of pools: each pool ever created, with its members in the order
//! in which they joined.

use crate::model::members_in;
use crate::model::other_than;
use crate::model::pools_without;
use crate::model::with_member;
use crate::model::without;
use crate::text::text_eq;
use vstd::prelude::*;

verus! {

/// Where `account` stands in a list of identifiers, if it is in it.
pub fn position(list: &Vec<String>, account: &str) -> (found: Option<usize>)
    ensures
        match found {
            Some(i) => i < list.len() && list[i as int]@ == account@,
            None => !list.deep_view().contains(account@),
        },
{
    let mut i: usize = 0;
    while i < list.len()
        invariant
            i <= list.len(),
            forall|j: int| 0 <= j < i ==> list[j]@ != account@,
        decreases list.len() - i,
    {
        if text_eq(list[i].as_str(), account) {
            return Some(i);
        }
        i += 1;
    }
    proof {
        assert forall|j: int| 0 <= j < list.deep_view().len() implies list.deep_view()[j]
            != account@ by {
            assert(list.deep_view()[j] == list[j]@);
        }
    }
    None
}

/// A copy of a list of identifiers.
pub fn copy_texts(list: &Vec<String>) -> (copy: Vec<String>)
    ensures
        copy.deep_view() == list.deep_view(),
{
    let mut copy: Vec<String> = Vec::new();
    let mut i: usize = 0;
    while i < list.len()
        invariant
            i <= list.len(),
            copy.len() == i,
            forall|j: int| 0 <= j < i ==> copy[j]@ == list[j]@,
        decreases list.len() - i,
    {
        copy.push(list[i].clone());
        i += 1;
    }
    proof {
        assert(copy.deep_view() =~= list.deep_view());
    }
    copy
}

/// Taking out an account that is not in the list leaves the list as it is.
pub proof fn lemma_without_absent(members: Seq<Seq<char>>, account: Seq<char>)
    requires
        !members.contains(account),
    ensures
        without(members, account) == members,
    decreases members.len(),
{
    reveal(Seq::filter);
    if members.len() > 0 {
        let front = members.drop_last();
        assert forall|j: int| 0 <= j < front.len() implies front[j] != account by {
            assert(members[j] == front[j]);
        }
        lemma_without_absent(front, account);
        assert(members[members.len() - 1] != account);
        assert(front.push(members.last()) =~= members);
    }
}

/// Taking out an account that stands once in the list, at `i`, removes the
/// entry at `i` and nothing else.
pub proof fn lemma_without_present(members: Seq<Seq<char>>, account: Seq<char>, i: int)
    requires
        members.no_duplicates(),
        0 <= i < members.len(),
        members[i] == account,
    ensures
        without(members, account) == members.remove(i),
    decreases members.len(),
{
    reveal(Seq::filter);
    let front = members.drop_last();
    let n = members.len() as int;
    if i == n - 1 {
        assert forall|j: int| 0 <= j < front.len() implies front[j] != account by {
            assert(members[j] == front[j]);
        }
        lemma_without_absent(front, account);
        assert(front =~= members.remove(i));
    } else {
        assert(members[n - 1] != members[i]);
        assert(front[i] == members[i]);
        lemma_without_present(front, account, i);
        assert(front.remove(i).push(members.last()) =~= members.remove(i));
    }
}

/// What is left after taking an account out no longer holds it, holds only
/// members from before, and holds none of them twice if the list did not.
pub proof fn lemma_without_properties(members: Seq<Seq<char>>, account: Seq<char>)
    ensures
        !without(members, account).contains(account),
        forall|a: Seq<char>|
            a != account ==> (#[trigger] without(members, account).contains(a)
                <==> members.contains(a)),
        members.no_duplicates() ==> without(members, account).no_duplicates(),
{
    let keep = other_than(account);
    let rest = without(members, account);
    assert forall|a: Seq<char>| a != account implies (#[trigger] rest.contains(a)
        <==> members.contains(a)) by {
        if rest.contains(a) {
            members.lemma_filter_contains_rev(keep, a);
        }
        if members.contains(a) {
            let j = choose|j: int| 0 <= j < members.len() && members[j] == a;
            members.lemma_filter_contains(keep, j);
        }
    }
    if rest.contains(account) {
        let j = choose|j: int| 0 <= j < rest.len() && rest[j] == account;
        members.lemma_filter_pred(keep, j);
    }
    if members.no_duplicates() {
        if members.contains(account) {
            let i = choose|i: int| 0 <= i < members.len() && members[i] == account;
            lemma_without_present(members, account, i);
            assert(members.remove(i).no_duplicates());
        } else {
            lemma_without_absent(members, account);
        }
    }
}

/// One pool: its name, and its members in the order in which they joined.
pub struct Pool {
    name: String,
    members: Vec<String>,
}

/// Every pool ever created. As a view it is a map from each pool's name to
/// the list of its members.
pub struct PoolTable {
    pools: Vec<Pool>,
}

impl View for PoolTable {
    type V = Map<Seq<char>, Seq<Seq<char>>>;

    closed spec fn view(&self) -> Map<Seq<char>, Seq<Seq<char>>> {
        Map::new(
            |name: Seq<char>| self.has(name),
            |name: Seq<char>| self.pools@[self.slot(name)].members.deep_view(),
        )
    }
}

impl PoolTable {
    /// Whether a pool goes by `name`.
    spec fn has(&self, name: Seq<char>) -> bool {
        exists|i: int| 0 <= i < self.pools.len() && (#[trigger] self.pools@[i]).name@ == name
    }

    /// Where the pool called `name` stands in the table.
    spec fn slot(&self, name: Seq<char>) -> int {
        choose|i: int| 0 <= i < self.pools.len() && (#[trigger] self.pools@[i]).name@ == name
    }

    /// No two pools share a name, and no pool lists an account twice.
    pub closed spec fn wf(&self) -> bool {
        &&& forall|i: int, j: int|
            0 <= i < j < self.pools.len() ==> (#[trigger] self.pools@[i]).name@ != (
            #[trigger] self.pools@[j]).name@
        &&& forall|i: int|
            0 <= i < self.pools.len() ==> (#[trigger] self.pools@[i]).members.deep_view().no_duplicates()
    }

    /// The view, entry by entry.
    proof fn lemma_view(&self)
        requires
            self.wf(),
        ensures
            forall|i: int|
                0 <= i < self.pools.len() ==> self@.contains_key((#[trigger] self.pools@[i]).name@)
                    && self@[self.pools@[i].name@] == self.pools@[i].members.deep_view(),
            forall|name: Seq<char>| #[trigger]
                self@.contains_key(name) ==> self.has(name) && 0 <= self.slot(name)
                    < self.pools.len() && self.pools@[self.slot(name)].name@ == name,
            forall|name: Seq<char>| !self.has(name) ==> !(#[trigger] self@.contains_key(name)),
    {
        assert forall|i: int| 0 <= i < self.pools.len() implies self@.contains_key(
            (#[trigger] self.pools@[i]).name@,
        ) && self@[self.pools@[i].name@] == self.pools@[i].members.deep_view() by {
            let name = self.pools@[i].name@;
            assert(self.has(name));
            let k = self.slot(name);
            assert(k == i);
        }
    }

    /// A table with the names of `other`, place by place, has the pools
    /// that `other` has.
    proof fn lemma_kept_names(&self, other: &PoolTable)
        requires
            self.pools.len() == other.pools.len(),
            forall|j: int|
                0 <= j < self.pools.len() ==> (#[trigger] self.pools@[j]).name@
                    == other.pools@[j].name@,
            other.wf(),
            forall|j: int|
                0 <= j < self.pools.len() ==> (#[trigger] self.pools@[j]).members.deep_view().no_duplicates(),
        ensures
            self.wf(),
            forall|name: Seq<char>| self@.contains_key(name) <==> other@.contains_key(name),
    {
        assert forall|i: int, j: int| 0 <= i < j < self.pools.len() implies (
        #[trigger] self.pools@[i]).name@ != (#[trigger] self.pools@[j]).name@ by {
            assert(other.pools@[i].name@ != other.pools@[j].name@);
        }
        self.lemma_view();
        other.lemma_view();
        assert forall|name: Seq<char>| self@.contains_key(name) <==> other@.contains_key(
            name,
        ) by {
            if self@.contains_key(name) {
                let j = self.slot(name);
                assert(other.pools@[j].name@ == name);
            }
            if other@.contains_key(name) {
                let j = other.slot(name);
                assert(self.pools@[j].name@ == name);
            }
        }
    }

    /// A table that is `other` with one more pool at the end, under a name
    /// that `other` does not have, maps that name to the new pool's members
    /// and every other name as `other` does.
    proof fn lemma_one_more(&self, other: &PoolTable)
        requires
            other.wf(),
            self.pools@.len() == other.pools@.len() + 1,
            forall|j: int| 0 <= j < other.pools.len() ==> self.pools@[j] == other.pools@[j],
            !other.has(self.pools@.last().name@),
            self.pools@.last().members.deep_view().no_duplicates(),
        ensures
            self.wf(),
            self@ == other@.insert(
                self.pools@.last().name@,
                self.pools@.last().members.deep_view(),
            ),
    {
        let n = other.pools.len() as int;
        assert forall|i: int, j: int| 0 <= i < j < self.pools.len() implies (
        #[trigger] self.pools@[i]).name@ != (#[trigger] self.pools@[j]).name@ by {
            if j < n {
                assert(other.pools@[i].name@ != other.pools@[j].name@);
            } else {
                assert(other.pools@[i].name@ != self.pools@[n].name@);
            }
        }
        assert forall|i: int| 0 <= i < self.pools.len() implies (#[trigger] self.pools@[i])
            .members.deep_view().no_duplicates() by {
            if i < n {
                assert(other.pools@[i].members.deep_view().no_duplicates());
            }
        }
        self.lemma_view();
        other.lemma_view();
        let expected = other@.insert(
            self.pools@.last().name@,
            self.pools@.last().members.deep_view(),
        );
        assert forall|name: Seq<char>| self@.contains_key(name) <==> expected.contains_key(
            name,
        ) by {
            if self@.contains_key(name) {
                let j = self.slot(name);
                if j < n {
                    assert(other.pools@[j].name@ == name);
                }
            }
            if other@.contains_key(name) {
                let j = other.slot(name);
                assert(self.pools@[j].name@ == name);
            }
            if name == self.pools@.last().name@ {
                assert(self.pools@[n].name@ == name);
            }
        }
        assert forall|name: Seq<char>| self@.contains_key(name) implies self@[name]
            == expected[name] by {
            let j = self.slot(name);
            if j < n {
                assert(other.pools@[j].name@ == name);
            }
        }
        assert(self@ =~= expected);
    }

    /// In a well-formed table no pool lists an account twice.
    pub proof fn lemma_no_duplicates(&self)
        requires
            self.wf(),
        ensures
            forall|name: Seq<char>| #[trigger]
                self@.contains_key(name) ==> self@[name].no_duplicates(),
    {
        self.lemma_view();
    }

    /// A table without a pool.
    pub fn new() -> (table: Self)
        ensures
            table.wf(),
            table@ == Map::<Seq<char>, Seq<Seq<char>>>::empty(),
    {
        let table = PoolTable { pools: Vec::new() };
        proof {
            assert(table@ =~= Map::<Seq<char>, Seq<Seq<char>>>::empty());
        }
        table
    }

    /// Where the pool called `name` stands, if there is one.
    fn find(&self, name: &str) -> (found: Option<usize>)
        ensures
            match found {
                Some(i) => i < self.pools.len() && self.pools@[i as int].name@ == name@,
                None => !self.has(name@),
            },
    {
        let mut i: usize = 0;
        while i < self.pools.len()
            invariant
                i <= self.pools.len(),
                forall|j: int| 0 <= j < i ==> (#[trigger] self.pools@[j]).name@ != name@,
            decreases self.pools.len() - i,
        {
            if text_eq(self.pools[i].name.as_str(), name) {
                return Some(i);
            }
            i += 1;
        }
        None
    }

    /// The members of `pool`, where there is such a pool.
    pub fn members_ref(&self, pool: &str) -> (found: Option<&Vec<String>>)
        requires
            self.wf(),
        ensures
            match found {
                Some(members) => self@.contains_key(pool@) && members.deep_view() == self@[pool@],
                None => !self@.contains_key(pool@),
            },
    {
        proof {
            self.lemma_view();
        }
        match self.find(pool) {
            Some(i) => Some(&self.pools[i].members),
            None => None,
        }
    }

    /// Adds `account` to `pool`, which is created if need be. A member stays
    /// where it is.
    pub fn add(&mut self, pool: &str, account: &str)
        requires
            old(self).wf(),
        ensures
            final(self).wf(),
            final(self)@ == old(self)@.insert(
                pool@,
                with_member(members_in(old(self)@, pool@), account@),
            ),
    {
        proof {
            self.lemma_view();
        }
        let ghost expected = old(self)@.insert(
            pool@,
            with_member(members_in(old(self)@, pool@), account@),
        );
        match self.find(pool) {
            Some(i) => {
                let ghost before = self.pools@[i as int].members.deep_view();
                match position(&self.pools[i].members, account) {
                    Some(k) => {
                        proof {
                            assert(before[k as int] == account@);
                        }
                    },
                    None => {
                        self.pools[i].members.push(account.to_owned());
                        proof {
                            assert(self.pools@[i as int].members.deep_view() =~= before.push(
                                account@,
                            ));
                        }
                    },
                }
                proof {
                    assert(self.pools@[i as int].members.deep_view() == with_member(
                        before,
                        account@,
                    ));
                    self.lemma_kept_names(old(self));
                    self.lemma_view();
                    assert forall|name: Seq<char>| self@.contains_key(name) implies self@[name]
                        == expected[name] by {
                        let j = self.slot(name);
                        assert(old(self).pools@[j].name@ == name);
                    }
                    assert(self@ =~= expected);
                }
            },
            None => {
                let mut members: Vec<String> = Vec::new();
                members.push(account.to_owned());
                proof {
                    assert(members.deep_view() =~= Seq::<Seq<char>>::empty().push(account@));
                }
                self.pools.push(Pool { name: pool.to_owned(), members });
                proof {
                    self.lemma_one_more(old(self));
                    assert(self@ =~= expected);
                }
            },
        }
    }

    /// Empties `pool`, which is created if need be.
    pub fn clear(&mut self, pool: &str)
        requires
            old(self).wf(),
        ensures
            final(self).wf(),
            final(self)@ == old(self)@.insert(pool@, Seq::empty()),
    {
        proof {
            self.lemma_view();
        }
        let ghost expected = old(self)@.insert(pool@, Seq::empty());
        match self.find(pool) {
            Some(i) => {
                self.pools[i].members.clear();
                proof {
                    assert(self.pools@[i as int].members.deep_view() =~= Seq::<Seq<char>>::empty());
                    self.lemma_kept_names(old(self));
                    self.lemma_view();
                    assert forall|name: Seq<char>| self@.contains_key(name) implies self@[name]
                        == expected[name] by {
                        let j = self.slot(name);
                        assert(old(self).pools@[j].name@ == name);
                    }
                    assert(self@ =~= expected);
                }
            },
            None => {
                let members: Vec<String> = Vec::new();
                proof {
                    assert(members.deep_view() =~= Seq::<Seq<char>>::empty());
                }
                self.pools.push(Pool { name: pool.to_owned(), members });
                proof {
                    self.lemma_one_more(old(self));
                    assert(self@ =~= expected);
                }
            },
        }
    }

    /// Takes `account` out of every pool.
    pub fn remove_everywhere(&mut self, account: &str)
        requires
            old(self).wf(),
        ensures
            final(self).wf(),
            final(self)@ == pools_without(old(self)@, account@),
    {
        let mut i: usize = 0;
        while i < self.pools.len()
            invariant
                old(self).wf(),
                i <= self.pools.len(),
                self.pools.len() == old(self).pools.len(),
                forall|j: int|
                    0 <= j < self.pools.len() ==> (#[trigger] self.pools@[j]).name@ == old(
                        self,
                    ).pools@[j].name@,
                forall|j: int|
                    0 <= j < i ==> (#[trigger] self.pools@[j]).members.deep_view() == without(
                        old(self).pools@[j].members.deep_view(),
                        account@,
                    ),
                forall|j: int|
                    i <= j < self.pools.len() ==> (#[trigger] self.pools@[j]).members.deep_view()
                        == old(self).pools@[j].members.deep_view(),
            decreases self.pools.len() - i,
        {
            let ghost before = self.pools@[i as int].members.deep_view();
            match position(&self.pools[i].members, account) {
                Some(k) => {
                    self.pools[i].members.remove(k);
                    proof {
                        assert(before.no_duplicates());
                        assert(before[k as int] == account@);
                        lemma_without_present(before, account@, k as int);
                        assert(self.pools@[i as int].members.deep_view() =~= before.remove(
                            k as int,
                        ));
                    }
                },
                None => {
                    proof {
                        lemma_without_absent(before, account@);
                    }
                },
            }
            i += 1;
        }
        proof {
            assert forall|j: int| 0 <= j < self.pools.len() implies (#[trigger] self.pools@[j])
                .members.deep_view().no_duplicates() by {
                lemma_without_properties(old(self).pools@[j].members.deep_view(), account@);
            }
            assert(self.wf());
            self.lemma_view();
            old(self).lemma_view();
            assert forall|name: Seq<char>| self.has(name) <==> old(self).has(name) by {
                if self.has(name) {
                    let j = self.slot(name);
                    assert(old(self).pools@[j].name@ == name);
                }
                if old(self).has(name) {
                    let j = old(self).slot(name);
                    assert(self.pools@[j].name@ == name);
                }
            }
            assert forall|name: Seq<char>| self@.contains_key(name) implies self@[name]
                == without(old(self)@[name], account@) by {
                let j = self.slot(name);
                assert(old(self).pools@[j].name@ == name);
            }
            assert(self@ =~= pools_without(old(self)@, account@));
        }
    }

    /// Every pool with a copy of its members, each pool once.
    pub fn snapshot(&self) -> (all: Vec<(String, Vec<String>)>)
        requires
            self.wf(),
        ensures
            forall|i: int|
                0 <= i < all.len() ==> self@.contains_key((#[trigger] all@[i]).0@)
                    && all@[i].1.deep_view() == self@[all@[i].0@],
            forall|name: Seq<char>| #[trigger]
                self@.contains_key(name) ==> exists|i: int|
                    0 <= i < all.len() && (#[trigger] all@[i]).0@ == name,
            forall|i: int, j: int|
                0 <= i < j < all.len() ==> (#[trigger] all@[i]).0@ != (#[trigger] all@[j]).0@,
    {
        let mut all: Vec<(String, Vec<String>)> = Vec::new();
        let mut i: usize = 0;
        while i < self.pools.len()
            invariant
                i <= self.pools.len(),
                all.len() == i,
                forall|j: int|
                    0 <= j < i ==> (#[trigger] all@[j]).0@ == self.pools@[j].name@
                        && all@[j].1.deep_view() == self.pools@[j].members.deep_view(),
            decreases self.pools.len() - i,
        {
            let name = self.pools[i].name.clone();
            let members = copy_texts(&self.pools[i].members);
            all.push((name, members));
            i += 1;
        }
        proof {
            self.lemma_view();
            assert forall|name: Seq<char>| #[trigger] self@.contains_key(name) implies exists|
                j: int,
            |
                0 <= j < all.len() && (#[trigger] all@[j]).0@ == name by {
                let j = self.slot(name);
                assert(all@[j].0@ == name);
            }
            assert forall|a: int, b: int| 0 <= a < b < all.len() implies (#[trigger] all@[a]).0@
                != (#[trigger] all@[b]).0@ by {
                assert(self.pools@[a].name@ != self.pools@[b].name@);
            }
        }
        all
    }
}

} // verus!
