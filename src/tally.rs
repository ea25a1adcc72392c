//! Occurrence counts of textual tokens, and the Halstead dictionary built
//! from two of them.

use vstd::prelude::*;
use crate::decimal::{decimal, decimal_text};
use crate::metrics::pairs_view;

verus! {

/// Why an analysis run stopped without a result.
#[derive(Debug, Clone, Copy, PartialEq, Eq, Structural)]
pub enum AnalysisError {
    /// The left-hand side of a declaration or assignment is not a plain name.
    NotSimpleTarget,
    /// A call carries explicit type arguments.
    TypeArguments,
    /// A counter would exceed the range of `u64`.
    CounterOverflow,
}

/// Index of the entry whose key is `k`, or `None`.
pub fn find_key<V>(entries: &Vec<(String, V)>, k: &String) -> (r: Option<usize>)
    ensures
        match r {
            Some(i) => i < entries@.len() && entries@[i as int].0@ == k@,
            None => forall|j: int| 0 <= j < entries@.len() ==> entries@[j].0@ != k@,
        },
{
    let mut i: usize = 0;
    while i < entries.len()
        invariant
            i <= entries@.len(),
            forall|j: int| 0 <= j < i ==> entries@[j].0@ != k@,
        decreases entries@.len() - i,
    {
        if entries[i].0 == *k {
            return Some(i);
        }
        i = i + 1;
    }
    None
}

/// Token texts paired with their counts.
pub type TallyModel = Seq<(Seq<char>, nat)>;

/// No key appears twice.
pub open spec fn unique_keys<V>(s: Seq<(Seq<char>, V)>) -> bool {
    forall|i: int, j: int| 0 <= i < s.len() && 0 <= j < s.len() && i != j ==> s[i].0 != s[j].0
}

/// Some entry has key `k`.
pub open spec fn has_key<V>(s: Seq<(Seq<char>, V)>, k: Seq<char>) -> bool {
    exists|i: int| 0 <= i < s.len() && s[i].0 == k
}

/// Position of key `k`, meaningful when [`has_key`] holds.
pub open spec fn key_index<V>(s: Seq<(Seq<char>, V)>, k: Seq<char>) -> int {
    choose|i: int| 0 <= i < s.len() && s[i].0 == k
}

/// Count of token `k`: zero when absent.
pub open spec fn count_of(s: TallyModel, k: Seq<char>) -> nat {
    if has_key(s, k) {
        s[key_index(s, k)].1
    } else {
        0
    }
}

/// One more occurrence of `k`: its count grows by one, or it is appended
/// with count one.
pub open spec fn tally_add(s: TallyModel, k: Seq<char>) -> TallyModel {
    if has_key(s, k) {
        s.update(key_index(s, k), (k, s[key_index(s, k)].1 + 1))
    } else {
        s.push((k, 1))
    }
}

/// One more occurrence would push the sum of all counts beyond `u64`.
pub open spec fn tally_full(s: TallyModel) -> bool {
    total(s) >= u64::MAX
}

/// Number of distinct tokens.
pub open spec fn distinct(s: TallyModel) -> nat {
    s.len()
}

/// Sum of all counts.
pub open spec fn total(s: TallyModel) -> nat
    decreases s.len(),
{
    if s.len() == 0 {
        0
    } else {
        total(s.drop_last()) + s.last().1
    }
}

/// Occurrence counts of tokens.
pub struct Tally {
    entries: Vec<(String, u64)>,
    sum: u64,
}

proof fn lemma_total_update(s: TallyModel, i: int, e: (Seq<char>, nat))
    requires
        0 <= i < s.len(),
    ensures
        total(s.update(i, e)) == total(s) - s[i].1 + e.1,
    decreases s.len(),
{
    if i < s.len() - 1 {
        assert(s.update(i, e).drop_last() =~= s.drop_last().update(i, e));
        lemma_total_update(s.drop_last(), i, e);
    } else {
        assert(s.update(i, e).drop_last() =~= s.drop_last());
    }
}

impl View for Tally {
    type V = TallyModel;

    closed spec fn view(&self) -> TallyModel {
        self.entries@.map_values(|e: (String, u64)| (e.0@, e.1 as nat))
    }
}

impl Tally {
    /// Keys are unique.
    pub closed spec fn wf(&self) -> bool {
        unique_keys(self@) && self.sum == total(self@)
    }

    pub fn new() -> (r: Tally)
        ensures
            r.wf(),
            r@ == Seq::<(Seq<char>, nat)>::empty(),
    {
        let r = Tally { entries: Vec::new(), sum: 0 };
        assert(r@ =~= Seq::<(Seq<char>, nat)>::empty());
        r
    }

    /// Records one occurrence of `token`.
    pub fn add(&mut self, token: String) -> (r: Result<(), AnalysisError>)
        requires
            old(self).wf(),
        ensures
            final(self).wf(),
            r is Err <==> tally_full(old(self)@),
            r is Err ==> r == Err::<(), AnalysisError>(AnalysisError::CounterOverflow)
                && final(self)@ == old(self)@,
            r is Ok ==> final(self)@ == tally_add(old(self)@, token@),
    {
        let ghost s = self@;
        if self.sum == u64::MAX {
            return Err(AnalysisError::CounterOverflow);
        }
        match find_key(&self.entries, &token) {
            Some(i) => {
                assert(s[i as int].0 == token@);
                assert(key_index(s, token@) == i) by {
                    let j = key_index(s, token@);
                    assert(has_key(s, token@));
                    assert(s[j].0 == s[i as int].0);
                }
                let n = self.entries[i].1;
                proof { lemma_total_update(s, i as int, (token@, (n + 1) as nat)); }
                assert(n <= total(s)) by { lemma_total_update(s, i as int, (token@, 0nat)); }
                self.entries.set(i, (token, n + 1));
                self.sum = self.sum + 1;
                assert(self@ =~= tally_add(s, token@));
                Ok(())
            },
            None => {
                assert(!has_key(s, token@));
                self.entries.push((token, 1));
                self.sum = self.sum + 1;
                assert(self@ =~= tally_add(s, token@));
                assert(self@.drop_last() =~= s);
                Ok(())
            },
        }
    }

    /// Number of distinct tokens.
    pub fn distinct(&self) -> (r: usize)
        ensures
            r == distinct(self@),
    {
        self.entries.len()
    }

    /// Count of `token`, zero when absent.
    pub fn count(&self, token: &String) -> (r: u64)
        requires
            self.wf(),
        ensures
            r == count_of(self@, token@),
    {
        let ghost s = self@;
        match find_key(&self.entries, token) {
            Some(i) => {
                assert(s[i as int].0 == token@);
                assert(key_index(s, token@) == i) by {
                    let j = key_index(s, token@);
                    assert(has_key(s, token@));
                    assert(s[j].0 == s[i as int].0);
                }
                self.entries[i].1
            },
            None => {
                assert(!has_key(s, token@));
                0
            },
        }
    }

    /// Sum of all counts.
    pub fn total(&self) -> (r: u64)
        requires
            self.wf(),
        ensures
            r == total(self@),
    {
        self.sum
    }
}

} // verus!
