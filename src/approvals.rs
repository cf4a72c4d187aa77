//! The approval table of one token: which accounts may move it, and under
//! which approval id.
use vstd::prelude::*;
use crate::account::AccountId;
use crate::keyed::{keys_unique, pairs_to_map, lemma_pairs_dom, lemma_pairs_value, lemma_pairs_push, lemma_pairs_update, lemma_pairs_remove, lemma_pairs_len};

verus! {

/// One grant: `account_id` may transfer the token, under `approval_id`.
pub struct Approval {
    pub account_id: AccountId,
    pub approval_id: u64,
}

/// The grants of a list of approvals as (account, id) pairs.
pub open spec fn approval_pairs(s: Seq<Approval>) -> Seq<(Seq<char>, u64)> {
    s.map_values(|a: Approval| (a.account_id@, a.approval_id))
}

/// Whether a table `m` approves `account`, and, where `expected` names an
/// approval id, under exactly that id.
pub open spec fn approved_in(m: Map<Seq<char>, u64>, account: Seq<char>, expected: Option<u64>) -> bool {
    m.contains_key(account) && match expected {
        Some(id) => m[account] == id,
        None => true,
    }
}

/// The approvals of one token, in the order in which they were first granted,
/// with the counter from which approval ids are drawn.
pub struct ApprovalTable {
    entries: Vec<Approval>,
    counter: u64,
}

impl View for ApprovalTable {
    type V = Map<Seq<char>, u64>;

    /// Each approved account with its current approval id.
    closed spec fn view(&self) -> Map<Seq<char>, u64> {
        pairs_to_map(approval_pairs(self.entries@))
    }
}

impl ApprovalTable {
    /// The last approval id handed out (0 before the first grant).
    pub closed spec fn counter(&self) -> u64 {
        self.counter
    }

    /// Each account appears once, and no id exceeds the counter.
    pub closed spec fn wf(&self) -> bool {
        &&& keys_unique(approval_pairs(self.entries@))
        &&& forall|i: int| 0 <= i < self.entries@.len() ==> (#[trigger] self.entries@[i]).approval_id <= self.counter
    }

    /// An empty table whose counter stands at 0.
    pub fn new() -> (r: Self)
        ensures
            r.wf(),
            r@ == Map::<Seq<char>, u64>::empty(),
            r.counter() == 0,
    {
        let r = ApprovalTable { entries: Vec::new(), counter: 0 };
        assert(approval_pairs(r.entries@).len() == 0);
        r
    }

    /// The last approval id handed out.
    pub fn last_id(&self) -> (r: u64)
        ensures
            r == self.counter(),
    {
        self.counter
    }

    /// The number of approved accounts.
    pub fn len(&self) -> (r: usize)
        requires
            self.wf(),
        ensures
            r == self@.len(),
    {
        proof {
            self.lemma_len();
        }
        self.entries.len()
    }

    proof fn lemma_len(&self)
        requires
            self.wf(),
        ensures
            self@.len() == self.entries@.len(),
            self@.dom().finite(),
        decreases self.entries@.len(),
    {
        lemma_pairs_len(approval_pairs(self.entries@));
    }

    /// Where `account` stands in the list, if anywhere.
    fn find(&self, account: &AccountId) -> (r: Option<usize>)
        requires
            self.wf(),
        ensures
            match r {
                Some(i) => i < self.entries@.len() && self.entries@[i as int].account_id@ == account@
                    && self@.contains_key(account@) && self@[account@] == self.entries@[i as int].approval_id,
                None => !self@.contains_key(account@),
            },
    {
        let ghost p = approval_pairs(self.entries@);
        let mut i: usize = 0;
        while i < self.entries.len()
            invariant
                i <= self.entries@.len(),
                p == approval_pairs(self.entries@),
                keys_unique(p),
                forall|j: int| 0 <= j < i ==> (#[trigger] p[j]).0 != account@,
            decreases self.entries@.len() - i,
        {
            if self.entries[i].account_id == *account {
                proof {
                    assert(p[i as int].0 == account@);
                    lemma_pairs_value(p, i as int);
                }
                return Some(i);
            }
            assert(p[i as int].0 != account@);
            i = i + 1;
        }
        proof {
            lemma_pairs_dom(p, account@);
        }
        None
    }

    /// The approval id of `account`, if it is approved.
    pub fn get(&self, account: &AccountId) -> (r: Option<u64>)
        requires
            self.wf(),
        ensures
            r == (if self@.contains_key(account@) { Some(self@[account@]) } else { None::<u64> }),
    {
        match self.find(account) {
            Some(i) => Some(self.entries[i].approval_id),
            None => None,
        }
    }

    /// Whether `account` is approved, and, where `expected` is given, under that id.
    pub fn is_approved(&self, account: &AccountId, expected: Option<u64>) -> (r: bool)
        requires
            self.wf(),
        ensures
            r == approved_in(self@, account@, expected),
    {
        match self.get(account) {
            Some(id) => match expected {
                Some(e) => id == e,
                None => true,
            },
            None => false,
        }
    }

    /// Grants `account` the next approval id, replacing any id it held.
    /// Fails, changing nothing, once the counter has no next value.
    pub fn approve(&mut self, account: &AccountId) -> (r: Option<u64>)
        requires
            old(self).wf(),
        ensures
            final(self).wf(),
            old(self).counter() < u64::MAX ==> {
                &&& r == Some((old(self).counter() + 1) as u64)
                &&& final(self).counter() == old(self).counter() + 1
                &&& final(self)@ == old(self)@.insert(account@, (old(self).counter() + 1) as u64)
            },
            old(self).counter() == u64::MAX ==> r.is_none() && *final(self) == *old(self),
    {
        if self.counter == u64::MAX {
            return None;
        }
        let id = self.counter + 1;
        let ghost p = approval_pairs(self.entries@);
        match self.find(account) {
            Some(i) => {
                self.entries[i].approval_id = id;
                proof {
                    lemma_pairs_update(p, i as int, id);
                    assert(approval_pairs(self.entries@) =~= p.update(i as int, (p[i as int].0, id)));
                }
            },
            None => {
                self.entries.push(Approval { account_id: account.clone(), approval_id: id });
                proof {
                    let q = (account@, id);
                    lemma_pairs_push(p, q);
                    assert(approval_pairs(self.entries@) =~= p.push(q));
                    lemma_pairs_dom(p, account@);
                    assert forall|a: int, b: int| 0 <= a < p.push(q).len() && 0 <= b < p.push(q).len() && a != b
                        implies #[trigger] p.push(q)[a].0 != #[trigger] p.push(q)[b].0 by {
                        if a < p.len() && b < p.len() {
                            assert(p.push(q)[a] == p[a] && p.push(q)[b] == p[b]);
                        } else if a < p.len() {
                            assert(p.push(q)[a] == p[a]);
                        } else {
                            assert(p.push(q)[b] == p[b]);
                        }
                    }
                }
            },
        }
        self.counter = id;
        Some(id)
    }

    /// Withdraws the grant of `account`; says whether there was one.
    pub fn revoke(&mut self, account: &AccountId) -> (r: bool)
        requires
            old(self).wf(),
        ensures
            final(self).wf(),
            r == old(self)@.contains_key(account@),
            final(self)@ == old(self)@.remove(account@),
            final(self).counter() == old(self).counter(),
    {
        let ghost p = approval_pairs(self.entries@);
        match self.find(account) {
            Some(i) => {
                self.entries.remove(i);
                proof {
                    lemma_pairs_remove(p, i as int);
                    assert(approval_pairs(self.entries@) =~= p.remove(i as int));
                }
                true
            },
            None => {
                assert(old(self)@.remove(account@) =~= old(self)@);
                false
            },
        }
    }

    /// Withdraws every grant; the counter keeps its value, so no id is handed out twice.
    pub fn clear(&mut self)
        requires
            old(self).wf(),
        ensures
            final(self).wf(),
            final(self)@ == Map::<Seq<char>, u64>::empty(),
            final(self).counter() == old(self).counter(),
    {
        self.entries.clear();
        assert(approval_pairs(self.entries@).len() == 0);
    }

    /// The grants as (account, id) pairs, in the order in which they were first made.
    pub fn to_vec(&self) -> (r: Vec<(AccountId, u64)>)
        requires
            self.wf(),
        ensures
            r@.len() == self@.len(),
            forall|i: int| 0 <= i < r@.len() ==> self@.contains_key((#[trigger] r@[i]).0@) && self@[r@[i].0@] == r@[i].1,
            forall|a: Seq<char>| #[trigger] self@.contains_key(a) ==> exists|i: int| 0 <= i < r@.len() && (#[trigger] r@[i]).0@ == a,
    {
        let ghost p = approval_pairs(self.entries@);
        let mut out: Vec<(AccountId, u64)> = Vec::new();
        let mut i: usize = 0;
        while i < self.entries.len()
            invariant
                i <= self.entries@.len(),
                p == approval_pairs(self.entries@),
                keys_unique(p),
                out@.len() == i,
                forall|j: int| 0 <= j < i ==> (#[trigger] out@[j]).0@ == p[j].0 && out@[j].1 == p[j].1,
            decreases self.entries@.len() - i,
        {
            out.push((self.entries[i].account_id.clone(), self.entries[i].approval_id));
            i = i + 1;
        }
        proof {
            self.lemma_len();
            assert forall|j: int| 0 <= j < out@.len() implies self@.contains_key((#[trigger] out@[j]).0@) && self@[out@[j].0@] == out@[j].1 by {
                lemma_pairs_value(p, j);
            }
            assert forall|a: Seq<char>| #[trigger] self@.contains_key(a) implies exists|j: int| 0 <= j < out@.len() && (#[trigger] out@[j]).0@ == a by {
                lemma_pairs_dom(p, a);
                let j = choose|j: int| 0 <= j < p.len() && (#[trigger] p[j]).0 == a;
                assert(out@[j].0@ == a);
            }
        }
        out
    }
}

} // verus!
