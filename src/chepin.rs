//! The identifier graph: one record per name with its Chepin class, its
//! number of occurrences and the names it was used with.

use vstd::prelude::*;
use crate::tally::{AnalysisError, find_key, has_key, key_index, unique_keys};

verus! {

/// Chepin class of a variable, weakest first.
#[derive(Debug, Clone, Copy, PartialEq, Eq, Structural)]
pub enum Class {
    /// Derived from input.
    Predicate,
    /// Assigned to.
    Modified,
    /// Read in a branch condition.
    Control,
    /// Not reachably used toward output.
    Transient,
}

/// Position of a class in the order Predicate < Modified < Control < Transient.
pub open spec fn rank(c: Class) -> nat {
    match c {
        Class::Predicate => 0,
        Class::Modified => 1,
        Class::Control => 2,
        Class::Transient => 3,
    }
}

/// The stronger of two classes.
pub open spec fn escalate(a: Class, b: Class) -> Class {
    if rank(b) > rank(a) {
        b
    } else {
        a
    }
}

/// Context in which an identifier occurrence is met.
pub enum Scope {
    /// A statement sequence, loop body or the program root.
    Block,
    /// The test of an `if` or `switch`.
    ControlCondition,
    /// The right-hand side of a declaration or assignment of the given name.
    Assignment(String),
}

/// Mathematical value of a [`Scope`].
pub enum ScopeModel {
    Block,
    ControlCondition,
    Assignment(Seq<char>),
}

impl View for Scope {
    type V = ScopeModel;

    open spec fn view(&self) -> ScopeModel {
        match self {
            Scope::Block => ScopeModel::Block,
            Scope::ControlCondition => ScopeModel::ControlCondition,
            Scope::Assignment(t) => ScopeModel::Assignment(t@),
        }
    }
}

/// Class implied by an occurrence in scope `sc`.
pub open spec fn implied_class(sc: ScopeModel) -> Class {
    match sc {
        ScopeModel::Block => Class::Transient,
        ScopeModel::ControlCondition => Class::Control,
        ScopeModel::Assignment(_) => Class::Modified,
    }
}

/// Name of the input sentinel.
pub open spec fn input_name() -> Seq<char> {
    "%INPUT%"@
}

/// Name of the output sentinel.
pub open spec fn output_name() -> Seq<char> {
    "%OUTPUT%"@
}

/// Mathematical value of an [`IdentRecord`].
pub struct RecordModel {
    pub class: Class,
    pub count: nat,
    pub used_with: Seq<Seq<char>>,
}

/// What is known of one identifier.
pub struct IdentRecord {
    class: Class,
    count: u64,
    used_with: Vec<String>,
}

impl View for IdentRecord {
    type V = RecordModel;

    closed spec fn view(&self) -> RecordModel {
        RecordModel { class: self.class, count: self.count as nat, used_with: self.used_with@.map_values(|s: String| s@) }
    }
}

pub type GraphModel = Seq<(Seq<char>, RecordModel)>;

/// Record of `k`, meaningful when [`has_key`] holds.
pub open spec fn record_of(g: GraphModel, k: Seq<char>) -> RecordModel {
    g[key_index(g, k)].1
}

/// Names used with `k`: empty when `k` has no record.
pub open spec fn neighbours(g: GraphModel, k: Seq<char>) -> Seq<Seq<char>> {
    if has_key(g, k) {
        record_of(g, k).used_with
    } else {
        Seq::empty()
    }
}

/// Adds `n` to a list of names unless it is there already.
pub open spec fn add_name(l: Seq<Seq<char>>, n: Seq<char>) -> Seq<Seq<char>> {
    if l.contains(n) {
        l
    } else {
        l.push(n)
    }
}

/// Adds `b` to the names used with `a`, when `a` has a record.
pub open spec fn half_link(g: GraphModel, a: Seq<char>, b: Seq<char>) -> GraphModel {
    if has_key(g, a) {
        let r = record_of(g, a);
        g.update(key_index(g, a), (a, RecordModel { used_with: add_name(r.used_with, b), ..r }))
    } else {
        g
    }
}

/// The undirected edge `a` – `b`.
pub open spec fn link(g: GraphModel, a: Seq<char>, b: Seq<char>) -> GraphModel {
    half_link(half_link(g, a, b), b, a)
}

/// One occurrence of `name` with implied class `c`: a new record, or the
/// class escalated and the count raised by one.
pub open spec fn note(g: GraphModel, name: Seq<char>, c: Class) -> GraphModel {
    if has_key(g, name) {
        let r = record_of(g, name);
        g.update(
            key_index(g, name),
            (name, RecordModel { class: escalate(r.class, c), count: r.count + 1, used_with: r.used_with }),
        )
    } else {
        g.push((name, RecordModel { class: c, count: 1, used_with: Seq::empty() }))
    }
}

/// One occurrence of `name` in scope `sc`; under an assignment to `t` it is
/// also linked with `t`.
pub open spec fn observe(g: GraphModel, name: Seq<char>, sc: ScopeModel) -> GraphModel {
    let g1 = note(g, name, implied_class(sc));
    match sc {
        ScopeModel::Assignment(t) => link(g1, name, t),
        _ => g1,
    }
}

/// Observing `name` would push its count beyond `u64`.
pub open spec fn observe_full(g: GraphModel, name: Seq<char>) -> bool {
    has_key(g, name) && record_of(g, name).count >= u64::MAX
}

/// Identifier records keyed by name.
pub struct IdentGraph {
    entries: Vec<(String, IdentRecord)>,
}

impl View for IdentGraph {
    type V = GraphModel;

    closed spec fn view(&self) -> GraphModel {
        self.entries@.map_values(|e: (String, IdentRecord)| (e.0@, e.1@))
    }
}

fn contains_name(l: &Vec<String>, n: &String) -> (r: bool)
    ensures
        r == l@.map_values(|s: String| s@).contains(n@),
{
    let ghost m = l@.map_values(|s: String| s@);
    let mut i: usize = 0;
    while i < l.len()
        invariant
            i <= l@.len(),
            m == l@.map_values(|s: String| s@),
            forall|j: int| 0 <= j < i ==> m[j] != n@,
        decreases l@.len() - i,
    {
        if l[i] == *n {
            assert(m[i as int] == n@);
            return true;
        }
        i = i + 1;
    }
    false
}

impl IdentGraph {
    /// Keys are unique.
    pub closed spec fn wf(&self) -> bool {
        unique_keys(self@)
    }

    pub fn new() -> (r: IdentGraph)
        ensures
            r.wf(),
            r@ == Seq::<(Seq<char>, RecordModel)>::empty(),
    {
        let r = IdentGraph { entries: Vec::new() };
        assert(r@ =~= Seq::<(Seq<char>, RecordModel)>::empty());
        r
    }

    proof fn lemma_index(&self, i: int, k: Seq<char>)
        requires
            self.wf(),
            0 <= i < self@.len(),
            self@[i].0 == k,
        ensures
            has_key(self@, k),
            key_index(self@, k) == i,
    {
        let j = key_index(self@, k);
        assert(self@[j].0 == self@[i].0);
    }

    fn half_link(&mut self, a: &String, b: &String)
        requires
            old(self).wf(),
        ensures
            final(self).wf(),
            final(self)@ == half_link(old(self)@, a@, b@),
    {
        let ghost g = self@;
        match find_key(&self.entries, a) {
            Some(i) => {
                proof { self.lemma_index(i as int, a@); }
                let (k, mut rec) = self.entries.remove(i);
                if !contains_name(&rec.used_with, b) {
                    rec.used_with.push(b.clone());
                }
                assert(rec@.used_with =~= add_name(g[i as int].1.used_with, b@));
                self.entries.insert(i, (k, rec));
                assert(self@ =~= half_link(g, a@, b@));
            },
            None => {
                assert(!has_key(g, a@));
            },
        }
    }

    fn note(&mut self, name: &String, c: Class) -> (r: Result<(), AnalysisError>)
        requires
            old(self).wf(),
        ensures
            final(self).wf(),
            r is Err <==> observe_full(old(self)@, name@),
            r is Err ==> r == Err::<(), AnalysisError>(AnalysisError::CounterOverflow),
            r is Ok ==> final(self)@ == note(old(self)@, name@, c),
    {
        let ghost g = self@;
        match find_key(&self.entries, name) {
            Some(i) => {
                proof { self.lemma_index(i as int, name@); }
                if self.entries[i].1.count == u64::MAX {
                    return Err(AnalysisError::CounterOverflow);
                }
                let (k, mut rec) = self.entries.remove(i);
                rec.count = rec.count + 1;
                if (c == Class::Control && rec.class != Class::Transient)
                    || c == Class::Transient
                    || (c == Class::Modified && rec.class == Class::Predicate) {
                    rec.class = c;
                }
                self.entries.insert(i, (k, rec));
                assert(self@ =~= note(g, name@, c));
                Ok(())
            },
            None => {
                assert(!has_key(g, name@));
                let rec = IdentRecord { class: c, count: 1, used_with: Vec::new() };
                assert(rec@.used_with =~= Seq::empty());
                self.entries.push((name.clone(), rec));
                assert(self@ =~= note(g, name@, c));
                Ok(())
            },
        }
    }

    /// Records one occurrence of `name` in scope `sc`.
    pub fn observe(&mut self, name: &String, sc: &Scope) -> (r: Result<(), AnalysisError>)
        requires
            old(self).wf(),
            sc@ matches ScopeModel::Assignment(t) ==> has_key(old(self)@, t),
        ensures
            final(self).wf(),
            r is Err <==> observe_full(old(self)@, name@),
            r is Err ==> r == Err::<(), AnalysisError>(AnalysisError::CounterOverflow),
            r is Ok ==> final(self)@ == observe(old(self)@, name@, sc@),
    {
        let c = match sc {
            Scope::Block => Class::Transient,
            Scope::ControlCondition => Class::Control,
            Scope::Assignment(_) => Class::Modified,
        };
        self.note(name, c)?;
        match sc {
            Scope::Assignment(t) => {
                self.half_link(name, t);
                self.half_link(t, name);
            },
            _ => {},
        }
        Ok(())
    }
}

/// Depth-first search from `n` for the output sentinel along used-with
/// edges. A name already on the current `path` is a dead end, and so is a
/// path as long as the graph has records.
pub open spec fn reaches_output(g: GraphModel, n: Seq<char>, path: Seq<Seq<char>>) -> bool
    decreases g.len() - path.len(), neighbours(g, n).len() + 1,
{
    if n == output_name() {
        true
    } else if path.contains(n) || path.len() >= g.len() {
        false
    } else {
        any_reaches(g, neighbours(g, n), 0, path.push(n))
    }
}

/// Some name of `list[i..]` reaches the output sentinel.
pub open spec fn any_reaches(g: GraphModel, list: Seq<Seq<char>>, i: int, path: Seq<Seq<char>>) -> bool
    decreases g.len() - path.len() + 1, list.len() - i,
{
    if path.len() <= g.len() && 0 <= i < list.len() {
        reaches_output(g, list[i], path) || any_reaches(g, list, i + 1, path)
    } else {
        false
    }
}

/// Final class of the record at `i`: a name other than the input sentinel
/// that cannot reach the output is Transient; otherwise a direct neighbour
/// of the input is Predicate; otherwise the class of the walk stays.
pub open spec fn final_class(g: GraphModel, i: int) -> Class {
    if g[i].0 != input_name() && !reaches_output(g, g[i].0, Seq::empty()) {
        Class::Transient
    } else if g[i].1.used_with.contains(input_name()) {
        Class::Predicate
    } else {
        g[i].1.class
    }
}

/// The graph with every record's class made final.
pub open spec fn finalized(g: GraphModel) -> GraphModel {
    Seq::new(g.len(), |i: int| (g[i].0, RecordModel { class: final_class(g, i), ..g[i].1 }))
}

impl IdentGraph {
    /// Seeds the input and output sentinels.
    pub fn seeded() -> (r: IdentGraph)
        ensures
            r.wf(),
            r@ == seeded_graph(),
    {
        let mut entries: Vec<(String, IdentRecord)> = Vec::new();
        entries.push(("%INPUT%".to_string(), IdentRecord { class: Class::Transient, count: 0, used_with: Vec::new() }));
        entries.push(("%OUTPUT%".to_string(), IdentRecord { class: Class::Transient, count: 0, used_with: Vec::new() }));
        let r = IdentGraph { entries };
        proof {
            reveal_strlit("%INPUT%");
            reveal_strlit("%OUTPUT%");
            assert(r@[0].0[1] != r@[1].0[1]);
            assert(r@[0].1.used_with =~= Seq::empty());
            assert(r@[1].1.used_with =~= Seq::empty());
        }
        assert(r@ =~= seeded_graph());
        r
    }

    fn reaches(&self, n: &String, path: &mut Vec<String>) -> (r: bool)
        requires
            self.wf(),
        ensures
            r == reaches_output(self@, n@, old(path)@.map_values(|s: String| s@)),
            final(path)@.map_values(|s: String| s@) == old(path)@.map_values(|s: String| s@),
        decreases self@.len() - path@.len(), neighbours(self@, n@).len() + 1,
    {
        let ghost g = self@;
        let ghost p = path@.map_values(|s: String| s@);
        if *n == "%OUTPUT%".to_string() {
            return true;
        }
        if contains_name(path, n) || path.len() >= self.entries.len() {
            return false;
        }
        match find_key(&self.entries, n) {
            None => {
                assert(!has_key(g, n@));
                false
            },
            Some(idx) => {
                proof { self.lemma_index(idx as int, n@); }
                path.push(n.clone());
                assert(path@.map_values(|s: String| s@) =~= p.push(n@));
                let list = &self.entries[idx].1.used_with;
                let ghost l = neighbours(g, n@);
                assert(l =~= list@.map_values(|s: String| s@));
                let mut i: usize = 0;
                let mut found = false;
                while i < list.len() && !found
                    invariant
                        self.wf(),
                        g == self@,
                        i <= list@.len(),
                        l == list@.map_values(|s: String| s@),
                        l == neighbours(g, n@),
                        path@.map_values(|s: String| s@) == p.push(n@),
                        path@.len() == p.len() + 1,
                        p.len() == old(path)@.len(),
                        p.len() < g.len(),
                        any_reaches(g, l, 0, p.push(n@)) == (found || any_reaches(g, l, i as int, p.push(n@))),
                    decreases list@.len() - i,
                {
                    found = self.reaches(&list[i], path);
                    i = i + 1;
                }
                let ghost full = path@;
                path.pop();
                assert(path@ =~= full.drop_last());
                assert forall|j: int| 0 <= j < p.len() implies path@.map_values(|s: String| s@)[j] == p[j] by {
                    assert(full.map_values(|s: String| s@)[j] == p.push(n@)[j]);
                }
                assert(path@.map_values(|s: String| s@) =~= p);
                found
            },
        }
    }

    /// Makes every class final after the walk: neighbours of the input
    /// become Predicate, then every name but the input that cannot reach the
    /// output becomes Transient.
    pub fn finalize(&mut self)
        requires
            old(self).wf(),
        ensures
            final(self).wf(),
            final(self)@ == finalized(old(self)@),
    {
        let ghost g = self@;
        let mut reach: Vec<bool> = Vec::new();
        let mut i: usize = 0;
        while i < self.entries.len()
            invariant
                self.wf(),
                g == self@,
                i <= g.len(),
                reach@.len() == i,
                forall|j: int| 0 <= j < i ==> reach@[j] == reaches_output(g, g[j].0, Seq::empty()),
            decreases g.len() - i,
        {
            let mut path: Vec<String> = Vec::new();
            assert(path@.map_values(|s: String| s@) =~= Seq::<Seq<char>>::empty());
            let r = self.reaches(&self.entries[i].0, &mut path);
            reach.push(r);
            i = i + 1;
        }
        let input = "%INPUT%".to_string();
        let mut i: usize = 0;
        while i < self.entries.len()
            invariant
                self.wf(),
                i <= g.len(),
                self@.len() == g.len(),
                reach@.len() == g.len(),
                forall|j: int| 0 <= j < g.len() ==> reach@[j] == reaches_output(g, g[j].0, Seq::empty()),
                input@ == input_name(),
                forall|j: int| 0 <= j < i ==> self@[j] == finalized(g)[j],
                forall|j: int| i <= j < g.len() ==> self@[j] == g[j],
            decreases g.len() - i,
        {
            let ghost before = self@;
            let (k, mut rec) = self.entries.remove(i);
            let is_input = k == input;
            if !is_input && !reach[i] {
                rec.class = Class::Transient;
            } else if contains_name(&rec.used_with, &input) {
                rec.class = Class::Predicate;
            }
            self.entries.insert(i, (k, rec));
            assert(self@ =~= before.update(i as int, finalized(g)[i as int]));
            i = i + 1;
        }
        assert(self@ =~= finalized(g));
    }
}

/// The graph before any occurrence: the two sentinels, Transient, unseen.
pub open spec fn seeded_graph() -> GraphModel {
    seq![
        (input_name(), RecordModel { class: Class::Transient, count: 0, used_with: Seq::empty() }),
        (output_name(), RecordModel { class: Class::Transient, count: 0, used_with: Seq::empty() }),
    ]
}

/// Class of `k`, if it has a record.
pub open spec fn class_in(g: GraphModel, k: Seq<char>) -> Option<Class> {
    if has_key(g, k) {
        Some(record_of(g, k).class)
    } else {
        None
    }
}

/// Source names of class `c`, in order of first occurrence; the sentinels
/// are left out.
pub open spec fn group(g: GraphModel, c: Class) -> Seq<Seq<char>>
    decreases g.len(),
{
    if g.len() == 0 {
        Seq::empty()
    } else {
        let rest = group(g.drop_last(), c);
        let e = g.last();
        if e.1.class == c && e.0 != input_name() && e.0 != output_name() {
            rest.push(e.0)
        } else {
            rest
        }
    }
}

impl IdentGraph {
    /// Class of `name`, if it was seen.
    pub fn class_of(&self, name: &String) -> (r: Option<Class>)
        requires
            self.wf(),
        ensures
            r == class_in(self@, name@),
    {
        match find_key(&self.entries, name) {
            Some(i) => {
                proof { self.lemma_index(i as int, name@); }
                Some(self.entries[i].1.class)
            },
            None => None,
        }
    }

    /// Number of occurrences of `name`, zero if it was never seen.
    pub fn occurrences(&self, name: &String) -> (r: u64)
        requires
            self.wf(),
        ensures
            has_key(self@, name@) ==> r == record_of(self@, name@).count,
            !has_key(self@, name@) ==> r == 0,
    {
        match find_key(&self.entries, name) {
            Some(i) => {
                proof { self.lemma_index(i as int, name@); }
                self.entries[i].1.count
            },
            None => 0,
        }
    }

    /// Whether `b` is among the names used with `a`.
    pub fn linked(&self, a: &String, b: &String) -> (r: bool)
        requires
            self.wf(),
        ensures
            r == neighbours(self@, a@).contains(b@),
    {
        match find_key(&self.entries, a) {
            Some(i) => {
                proof { self.lemma_index(i as int, a@); }
                contains_name(&self.entries[i].1.used_with, b)
            },
            None => false,
        }
    }

    /// Source names of class `c`, in order of first occurrence.
    pub fn group(&self, c: Class) -> (r: Vec<String>)
        ensures
            r@.map_values(|s: String| s@) == group(self@, c),
    {
        let input = "%INPUT%".to_string();
        let output = "%OUTPUT%".to_string();
        let mut r: Vec<String> = Vec::new();
        let mut i: usize = 0;
        while i < self.entries.len()
            invariant
                i <= self@.len(),
                input@ == input_name(),
                output@ == output_name(),
                r@.map_values(|s: String| s@) == group(self@.take(i as int), c),
            decreases self@.len() - i,
        {
            assert(self@.take(i as int + 1).drop_last() =~= self@.take(i as int));
            let e = &self.entries[i];
            if e.1.class == c && !(e.0 == input) && !(e.0 == output) {
                r.push(e.0.clone());
                assert(r@.map_values(|s: String| s@) =~= group(self@.take(i as int), c).push(e.0@));
            }
            i = i + 1;
        }
        assert(self@.take(i as int) =~= self@);
        r
    }
}

/// `p` follows used-with edges from its first name to its last.
pub open spec fn is_path(g: GraphModel, p: Seq<Seq<char>>) -> bool {
    &&& p.len() >= 1
    &&& forall|j: int| 0 <= j < p.len() - 1 ==> neighbours(g, #[trigger] p[j]).contains(p[j + 1])
}

/// Some path along used-with edges leads from `n` to the output sentinel.
pub open spec fn connected_to_output(g: GraphModel, n: Seq<char>) -> bool {
    exists|p: Seq<Seq<char>>| #[trigger] is_path(g, p) && p[0] == n && p.last() == output_name()
}

proof fn lemma_reaches_connected(g: GraphModel, n: Seq<char>, path: Seq<Seq<char>>)
    requires
        reaches_output(g, n, path),
    ensures
        connected_to_output(g, n),
    decreases g.len() - path.len(), neighbours(g, n).len() + 1,
{
    if n == output_name() {
        let p = seq![n];
        assert(is_path(g, p));
    } else {
        let l = neighbours(g, n);
        lemma_any_connected(g, l, 0, path.push(n));
        let j = choose|j: int| 0 <= j < l.len() && connected_to_output(g, l[j]);
        let q = choose|q: Seq<Seq<char>>| #[trigger] is_path(g, q) && q[0] == l[j] && q.last() == output_name();
        let p = seq![n] + q;
        assert forall|k: int| 0 <= k < p.len() - 1 implies neighbours(g, #[trigger] p[k]).contains(p[k + 1]) by {
            if k == 0 {
                assert(p[1] == l[j]);
            } else {
                assert(p[k] == q[k - 1]);
                assert(p[k + 1] == q[k]);
            }
        }
        assert(is_path(g, p));
        assert(p.last() == q.last());
    }
}

proof fn lemma_any_connected(g: GraphModel, l: Seq<Seq<char>>, i: int, path: Seq<Seq<char>>)
    requires
        any_reaches(g, l, i, path),
    ensures
        exists|j: int| i <= j < l.len() && connected_to_output(g, #[trigger] l[j]),
    decreases g.len() - path.len() + 1, l.len() - i,
{
    if reaches_output(g, l[i], path) {
        lemma_reaches_connected(g, l[i], path);
    } else {
        lemma_any_connected(g, l, i + 1, path);
        let j = choose|j: int| i + 1 <= j < l.len() && connected_to_output(g, #[trigger] l[j]);
        assert(i <= j < l.len() && connected_to_output(g, l[j]));
    }
}

/// A name other than the input sentinel from which no path of used-with
/// edges leads to the output sentinel ends Transient, whatever the walk
/// made of it.
pub proof fn lemma_unconnected_is_transient(g: GraphModel, i: int)
    requires
        0 <= i < g.len(),
        g[i].0 != input_name(),
        !connected_to_output(g, g[i].0),
    ensures
        finalized(g)[i].1.class == Class::Transient,
{
    if reaches_output(g, g[i].0, Seq::empty()) {
        lemma_reaches_connected(g, g[i].0, Seq::empty());
    }
}

/// A name used with the input sentinel ends Predicate when it reaches the
/// output sentinel, and Transient when it does not.
pub proof fn lemma_input_neighbour(g: GraphModel, i: int)
    requires
        0 <= i < g.len(),
        g[i].0 != input_name(),
        g[i].1.used_with.contains(input_name()),
    ensures
        finalized(g)[i].1.class == if reaches_output(g, g[i].0, Seq::empty()) {
            Class::Predicate
        } else {
            Class::Transient
        },
{
}

proof fn lemma_any_from(g: GraphModel, l: Seq<Seq<char>>, i: int, j: int, path: Seq<Seq<char>>)
    requires
        0 <= i <= j < l.len(),
        path.len() <= g.len(),
        reaches_output(g, l[j], path),
    ensures
        any_reaches(g, l, i, path),
    decreases j - i,
{
    if i < j {
        lemma_any_from(g, l, i + 1, j, path);
    }
}

proof fn lemma_path_tail(g: GraphModel, q: Seq<Seq<char>>)
    requires
        is_path(g, q),
        q.len() >= 2,
    ensures
        is_path(g, q.drop_first()),
{
    let t = q.drop_first();
    assert forall|j: int| 0 <= j < t.len() - 1 implies neighbours(g, #[trigger] t[j]).contains(t[j + 1]) by {
        assert(t[j] == q[j + 1]);
        assert(t[j + 1] == q[j + 2]);
    }
}

/// The search succeeds along a path without repeated names that avoids the
/// names on the current search path, when that path leaves room for it.
proof fn lemma_simple_path_search(g: GraphModel, q: Seq<Seq<char>>, path: Seq<Seq<char>>)
    requires
        is_path(g, q),
        q.last() == output_name(),
        q.no_duplicates(),
        forall|j: int| 0 <= j < q.len() ==> !path.contains(#[trigger] q[j]),
        path.len() + q.len() - 1 <= g.len(),
    ensures
        reaches_output(g, q[0], path),
    decreases q.len(),
{
    let n = q[0];
    if n != output_name() {
        assert(q.len() >= 2);
        let l = neighbours(g, n);
        let p2 = path.push(n);
        let t = q.drop_first();
        lemma_path_tail(g, q);
        assert forall|j: int| 0 <= j < t.len() implies !p2.contains(#[trigger] t[j]) by {
            assert(t[j] == q[j + 1]);
            assert(q[j + 1] != q[0]);
            assert(!path.contains(q[j + 1]));
            if p2.contains(t[j]) {
                let k = choose|k: int| 0 <= k < p2.len() && p2[k] == t[j];
                if k < path.len() {
                    assert(path[k] == p2[k]);
                }
            }
        }
        assert(t.last() == q.last());
        lemma_simple_path_search(g, t, p2);
        assert(l.contains(q[1]));
        let jj = choose|jj: int| 0 <= jj < l.len() && l[jj] == q[1];
        assert(t[0] == q[1]);
        lemma_any_from(g, l, 0, jj, p2);
    }
}

/// A path to the output sentinel can be cut to one without repeated names,
/// from the same first name.
proof fn lemma_shorten(g: GraphModel, q: Seq<Seq<char>>)
    requires
        is_path(g, q),
        q.last() == output_name(),
    ensures
        exists|r: Seq<Seq<char>>|
            #[trigger] is_path(g, r) && r[0] == q[0] && r.last() == output_name() && r.no_duplicates(),
    decreases q.len(),
{
    if q.no_duplicates() {
        assert(is_path(g, q) && q[0] == q[0] && q.last() == output_name() && q.no_duplicates());
    } else {
        let (i, j) = choose|i: int, j: int| 0 <= i < q.len() && 0 <= j < q.len() && i != j && q[i] == q[j];
        let (a, b) = if i < j { (i, j) } else { (j, i) };
        let r = q.take(a) + q.skip(b);
        assert forall|k: int| 0 <= k < r.len() - 1 implies neighbours(g, #[trigger] r[k]).contains(r[k + 1]) by {
            if k < a - 1 {
                assert(r[k] == q[k] && r[k + 1] == q[k + 1]);
            } else if k == a - 1 {
                assert(r[k] == q[a - 1] && r[k + 1] == q[b]);
                assert(q[b] == q[a]);
            } else {
                assert(r[k] == q[k - a + b] && r[k + 1] == q[k + 1 - a + b]);
            }
        }
        assert(r[0] == q[0]) by {
            if a == 0 {
                assert(r[0] == q[b]);
            }
        }
        assert(r.last() == q.last());
        lemma_shorten(g, r);
        let w = choose|w: Seq<Seq<char>>|
            #[trigger] is_path(g, w) && w[0] == r[0] && w.last() == output_name() && w.no_duplicates();
        assert(is_path(g, w) && w[0] == q[0]);
    }
}

/// Names of a graph's records, in order.
pub open spec fn keys(g: GraphModel) -> Seq<Seq<char>> {
    g.map_values(|e: (Seq<char>, RecordModel)| e.0)
}

/// A path without repeated names has at most one name more than the graph
/// has records: all its names but the last have edges, hence records.
proof fn lemma_simple_path_len(g: GraphModel, q: Seq<Seq<char>>)
    requires
        is_path(g, q),
        q.no_duplicates(),
    ensures
        q.len() - 1 <= g.len(),
{
    let pre = q.drop_last();
    assert(pre.no_duplicates()) by {
        assert forall|x: int, y: int| 0 <= x < pre.len() && 0 <= y < pre.len() && x != y implies pre[x] != pre[y] by {
            assert(pre[x] == q[x] && pre[y] == q[y]);
        }
    }
    pre.unique_seq_to_set();
    let ks = keys(g);
    assert forall|x: Seq<char>| pre.to_set().contains(x) implies ks.to_set().contains(x) by {
        let j = choose|j: int| 0 <= j < pre.len() && pre[j] == x;
        assert(neighbours(g, q[j]).contains(q[j + 1]));
        assert(has_key(g, x));
        let i = choose|i: int| 0 <= i < g.len() && g[i].0 == x;
        assert(ks[i] == x);
    }
    ks.lemma_cardinality_of_set();
    vstd::set_lib::lemma_len_subset(pre.to_set(), ks.to_set());
}

/// From a name with a path of used-with edges to the output sentinel the
/// search reaches the output: together with the converse, reaching the
/// output is the same as being connected to it.
pub proof fn lemma_connected_reaches(g: GraphModel, n: Seq<char>)
    requires
        connected_to_output(g, n),
    ensures
        reaches_output(g, n, Seq::empty()),
{
    let q = choose|q: Seq<Seq<char>>| #[trigger] is_path(g, q) && q[0] == n && q.last() == output_name();
    lemma_shorten(g, q);
    let r = choose|r: Seq<Seq<char>>|
        #[trigger] is_path(g, r) && r[0] == q[0] && r.last() == output_name() && r.no_duplicates();
    lemma_simple_path_len(g, r);
    lemma_simple_path_search(g, r, Seq::empty());
}

/// A name used with the input sentinel and connected to the output
/// sentinel ends Predicate.
pub proof fn lemma_connected_input_neighbour(g: GraphModel, i: int)
    requires
        0 <= i < g.len(),
        g[i].0 != input_name(),
        g[i].1.used_with.contains(input_name()),
        connected_to_output(g, g[i].0),
    ensures
        finalized(g)[i].1.class == Class::Predicate,
{
    lemma_connected_reaches(g, g[i].0);
}

/// Some record of `x` lists `m` among the names used with it.
pub open spec fn has_edge(g: GraphModel, x: Seq<char>, m: Seq<char>) -> bool {
    exists|i: int| 0 <= i < g.len() && g[i].0 == x && #[trigger] g[i].1.used_with.contains(m)
}

/// Every edge of `g` is an edge of `h`.
pub open spec fn edges_grow(g: GraphModel, h: GraphModel) -> bool {
    forall|x: Seq<char>, m: Seq<char>| #[trigger] has_edge(g, x, m) ==> has_edge(h, x, m)
}

proof fn lemma_half_link_edges(g: GraphModel, a: Seq<char>, b: Seq<char>)
    ensures
        edges_grow(g, half_link(g, a, b)),
        has_key(g, a) ==> has_edge(half_link(g, a, b), a, b),
{
    let h = half_link(g, a, b);
    assert forall|x: Seq<char>, m: Seq<char>| #[trigger] has_edge(g, x, m) implies has_edge(h, x, m) by {
        let i = choose|i: int| 0 <= i < g.len() && g[i].0 == x && #[trigger] g[i].1.used_with.contains(m);
        if has_key(g, a) && i == key_index(g, a) {
            let l = g[i].1.used_with;
            let k = choose|k: int| 0 <= k < l.len() && l[k] == m;
            assert(add_name(l, b)[k] == m);
            assert(h[i].1.used_with.contains(m));
        } else {
            assert(h[i] == g[i]);
        }
    }
    if has_key(g, a) {
        let i = key_index(g, a);
        let l = g[i].1.used_with;
        if !l.contains(b) {
            assert(add_name(l, b)[l.len() as int] == b);
        }
        assert(h[i].1.used_with.contains(b));
    }
}

/// Observing a name keeps every edge; under an assignment to `t`, with `t`
/// already recorded, it adds the edge from `t` to the name.
pub proof fn lemma_observe_edges(g: GraphModel, name: Seq<char>, sc: ScopeModel)
    ensures
        edges_grow(g, observe(g, name, sc)),
        sc is Assignment && has_key(g, sc->Assignment_0) ==> has_edge(observe(g, name, sc), sc->Assignment_0, name),
{
    let g1 = note(g, name, implied_class(sc));
    assert forall|x: Seq<char>, m: Seq<char>| #[trigger] has_edge(g, x, m) implies has_edge(g1, x, m) by {
        let i = choose|i: int| 0 <= i < g.len() && g[i].0 == x && #[trigger] g[i].1.used_with.contains(m);
        assert(g1[i].0 == g[i].0 && g1[i].1.used_with == g[i].1.used_with);
    }
    if let ScopeModel::Assignment(t) = sc {
        let g2 = half_link(g1, name, t);
        lemma_half_link_edges(g1, name, t);
        lemma_half_link_edges(g2, t, name);
        if has_key(g, t) {
            let j = choose|j: int| 0 <= j < g.len() && g[j].0 == t;
            assert(g1[j].0 == t);
            assert(g2[j].0 == t);
        }
    }
}

} // verus!
