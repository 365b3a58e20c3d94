//! Narrowing a collection of standards down, one criterion at a time.
use vstd::prelude::*;
use crate::standard::{all_wf, matches_spec, Standard, StandardView};
use crate::text::{chars_of, lowercase, to_lowercase};

verus! {

/// The views of a sequence of standards.
pub open spec fn views(s: Seq<Standard>) -> Seq<StandardView> {
    s.map_values(|x: Standard| x@)
}

/// A collection of standards, in order, that further criteria can narrow down.
#[derive(Debug, Clone)]
pub struct StandardsFilter {
    pub standards: Vec<Standard>,
}

/// A text in lowercase with its underscores taken out, so that `air_pressure`,
/// `airPressure` and `AIR_PRESSURE` read alike.
pub open spec fn folded(s: Seq<char>) -> Seq<char> {
    lowercase(s).filter(|c: char| c != '_')
}

/// One of the standard's common variable names reads like `name`.
pub open spec fn has_variable_name(s: StandardView, name: Seq<char>) -> bool {
    exists|i: int| 0 <= i < s.common_variable_names.len() && folded(#[trigger] s.common_variable_names[i]) == folded(name)
}

/// The standard's IOOS category is `category`, ignoring case.
pub open spec fn in_category(s: StandardView, category: Seq<char>) -> bool {
    match s.ioos_category {
        Some(c) => lowercase(c) == lowercase(category),
        None => false,
    }
}

/// The standard is measured in `unit`.
pub open spec fn has_unit(s: StandardView, unit: Seq<char>) -> bool {
    s.unit == unit
}

/// The standard has QARTOD test suites.
pub open spec fn has_tests(s: StandardView) -> bool {
    s.qartod.len() > 0
}

/// The standard is named `q`.
pub open spec fn is_named(s: StandardView, q: Seq<char>) -> bool {
    s.name == q
}

/// `q` is one of the standard's aliases.
pub open spec fn is_alias(s: StandardView, q: Seq<char>) -> bool {
    s.aliases.contains(q)
}

/// The message for a name or alias that no standard has.
pub open spec fn not_found() -> Seq<char> {
    "Standard not found"@
}

/// Filtering a sequence with one more item at its end.
pub proof fn lemma_filter_push<A>(s: Seq<A>, x: A, p: spec_fn(A) -> bool)
    ensures
        s.push(x).filter(p) == if p(x) {
            s.filter(p).push(x)
        } else {
            s.filter(p)
        },
{
    assert(s.push(x) =~= s + seq![x]);
    Seq::filter_distributes_over_add(s, seq![x], p);
    reveal_with_fuel(Seq::filter, 2);
    if p(x) {
        assert(seq![x].filter(p) =~= seq![x]);
        assert(s.filter(p) + seq![x] =~= s.filter(p).push(x));
    } else {
        assert(seq![x].filter(p) =~= Seq::<A>::empty());
        assert(s.filter(p) + Seq::<A>::empty() =~= s.filter(p));
    }
}

/// `s` in lowercase without underscores.
fn fold_text(s: &str) -> (r: Vec<char>)
    ensures
        r@ == folded(s@),
{
    let lower = to_lowercase(s);
    let cs = chars_of(lower.as_str());
    let ghost p = |c: char| c != '_';
    let mut out: Vec<char> = Vec::new();
    let mut i: usize = 0;
    assert(cs@.take(0) =~= Seq::<char>::empty());
    while i < cs.len()
        invariant
            i <= cs.len(),
            p == (|c: char| c != '_'),
            out@ == cs@.take(i as int).filter(p),
        decreases cs.len() - i,
    {
        proof {
            assert(cs@.take(i + 1) =~= cs@.take(i as int).push(cs@[i as int]));
            lemma_filter_push(cs@.take(i as int), cs@[i as int], p);
        }
        if cs[i] != '_' {
            out.push(cs[i]);
        }
        i = i + 1;
    }
    assert(cs@.take(cs.len() as int) =~= cs@);
    out
}

fn chars_eq(a: &Vec<char>, b: &Vec<char>) -> (r: bool)
    ensures
        r == (a@ == b@),
{
    if a.len() != b.len() {
        return false;
    }
    let mut i: usize = 0;
    while i < a.len()
        invariant
            i <= a.len(),
            a.len() == b.len(),
            forall|j: int| 0 <= j < i ==> a@[j] == b@[j],
        decreases a.len() - i,
    {
        if a[i] != b[i] {
            return false;
        }
        i = i + 1;
    }
    assert(a@ =~= b@);
    true
}

fn variable_name_matches(s: &Standard, name: &Vec<char>, ghost_name: Ghost<Seq<char>>) -> (r: bool)
    requires
        name@ == folded(ghost_name@),
    ensures
        r == has_variable_name(s@, ghost_name@),
{
    let mut i: usize = 0;
    while i < s.common_variable_names.len()
        invariant
            i <= s.common_variable_names.len(),
            name@ == folded(ghost_name@),
            forall|j: int| 0 <= j < i ==> folded(#[trigger] s@.common_variable_names[j]) != folded(ghost_name@),
        decreases s.common_variable_names.len() - i,
    {
        let f = fold_text(s.common_variable_names[i].as_str());
        assert(s@.common_variable_names[i as int] == s.common_variable_names@[i as int]@);
        if chars_eq(&f, name) {
            return true;
        }
        i = i + 1;
    }
    false
}

impl StandardsFilter {
    /// The standards, their extra attributes in key order.
    pub open spec fn wf(&self) -> bool {
        all_wf(self.standards@)
    }

    /// Return standards by common variable name, ignoring case and underscores
    pub fn by_variable_name(&self, variable_name: &str) -> (r: StandardsFilter)
        requires
            self.wf(),
        ensures
            r.wf(),
            views(r.standards@) == views(self.standards@).filter(|s: StandardView| has_variable_name(s, variable_name@)),
    {
        let name = fold_text(variable_name);
        let mut keep: Vec<bool> = Vec::new();
        let mut i: usize = 0;
        while i < self.standards.len()
            invariant
                i <= self.standards.len(),
                name@ == folded(variable_name@),
                keep@.len() == i,
                forall|j: int| 0 <= j < i ==> keep@[j] == has_variable_name(#[trigger] self.standards@[j]@, variable_name@),
            decreases self.standards.len() - i,
        {
            keep.push(variable_name_matches(&self.standards[i], &name, Ghost(variable_name@)));
            i = i + 1;
        }
        select(&self.standards, &keep, Ghost(|s: StandardView| has_variable_name(s, variable_name@)))
    }

    /// Return standards by IOOS category, ignoring case
    pub fn by_ioos_category(&self, category: &str) -> (r: StandardsFilter)
        requires
            self.wf(),
        ensures
            r.wf(),
            views(r.standards@) == views(self.standards@).filter(|s: StandardView| in_category(s, category@)),
    {
        let wanted = to_lowercase(category);
        let mut keep: Vec<bool> = Vec::new();
        let mut i: usize = 0;
        while i < self.standards.len()
            invariant
                i <= self.standards.len(),
                wanted@ == lowercase(category@),
                keep@.len() == i,
                forall|j: int| 0 <= j < i ==> keep@[j] == in_category(#[trigger] self.standards@[j]@, category@),
            decreases self.standards.len() - i,
        {
            let k = match &self.standards[i].ioos_category {
                Some(c) => to_lowercase(c.as_str()) == wanted,
                None => false,
            };
            keep.push(k);
            i = i + 1;
        }
        select(&self.standards, &keep, Ghost(|s: StandardView| in_category(s, category@)))
    }

    /// Return standards for a given unit
    pub fn by_unit(&self, unit: &str) -> (r: StandardsFilter)
        requires
            self.wf(),
        ensures
            r.wf(),
            views(r.standards@) == views(self.standards@).filter(|s: StandardView| has_unit(s, unit@)),
    {
        let wanted = String::from_str(unit);
        let mut keep: Vec<bool> = Vec::new();
        let mut i: usize = 0;
        while i < self.standards.len()
            invariant
                i <= self.standards.len(),
                wanted@ == unit@,
                keep@.len() == i,
                forall|j: int| 0 <= j < i ==> keep@[j] == has_unit(#[trigger] self.standards@[j]@, unit@),
            decreases self.standards.len() - i,
        {
            keep.push(self.standards[i].unit == wanted);
            i = i + 1;
        }
        select(&self.standards, &keep, Ghost(|s: StandardView| has_unit(s, unit@)))
    }

    /// Return standards that have QARTOD tests
    pub fn has_qartod_tests(&self) -> (r: StandardsFilter)
        requires
            self.wf(),
        ensures
            r.wf(),
            views(r.standards@) == views(self.standards@).filter(|s: StandardView| has_tests(s)),
    {
        let mut keep: Vec<bool> = Vec::new();
        let mut i: usize = 0;
        while i < self.standards.len()
            invariant
                i <= self.standards.len(),
                keep@.len() == i,
                forall|j: int| 0 <= j < i ==> keep@[j] == has_tests(#[trigger] self.standards@[j]@),
            decreases self.standards.len() - i,
        {
            keep.push(self.standards[i].qartod.len() > 0);
            i = i + 1;
        }
        select(&self.standards, &keep, Ghost(|s: StandardView| has_tests(s)))
    }

    /// Return standards that match a search pattern
    pub fn search(&self, search_str: &str) -> (r: StandardsFilter)
        requires
            self.wf(),
        ensures
            r.wf(),
            views(r.standards@) == views(self.standards@).filter(|s: StandardView| matches_spec(s, search_str@)),
    {
        let mut keep: Vec<bool> = Vec::new();
        let mut i: usize = 0;
        while i < self.standards.len()
            invariant
                i <= self.standards.len(),
                keep@.len() == i,
                forall|j: int| 0 <= j < i ==> keep@[j] == matches_spec(#[trigger] self.standards@[j]@, search_str@),
            decreases self.standards.len() - i,
        {
            keep.push(self.standards[i].matches_pattern(search_str));
            i = i + 1;
        }
        select(&self.standards, &keep, Ghost(|s: StandardView| matches_spec(s, search_str@)))
    }

    /// Get a specific standard by name, or else by alias: the first standard with that
    /// name, or where none has it, the first with that alias
    pub fn get(&self, standard_name_or_alias: &str) -> (r: Result<&Standard, &'static str>)
        ensures
            match r {
                Ok(s) => exists|i: int| 0 <= i < self.standards.len() && *s == #[trigger] self.standards@[i] && (
                    if exists|j: int| 0 <= j < self.standards.len() && is_named(#[trigger] self.standards@[j]@, standard_name_or_alias@) {
                        is_named(s@, standard_name_or_alias@) && forall|j: int| 0 <= j < i ==> !is_named(#[trigger] self.standards@[j]@, standard_name_or_alias@)
                    } else {
                        is_alias(s@, standard_name_or_alias@) && forall|j: int| 0 <= j < i ==> !is_alias(#[trigger] self.standards@[j]@, standard_name_or_alias@)
                    }
                ),
                Err(e) => e@ == not_found() && forall|j: int| 0 <= j < self.standards.len() ==> !is_named(#[trigger] self.standards@[j]@, standard_name_or_alias@) && !is_alias(self.standards@[j]@, standard_name_or_alias@),
            },
    {
        let q = String::from_str(standard_name_or_alias);
        let mut i: usize = 0;
        while i < self.standards.len()
            invariant
                i <= self.standards.len(),
                q@ == standard_name_or_alias@,
                forall|j: int| 0 <= j < i ==> !is_named(#[trigger] self.standards@[j]@, standard_name_or_alias@),
            decreases self.standards.len() - i,
        {
            if self.standards[i].name == q {
                return Ok(&self.standards[i]);
            }
            i = i + 1;
        }
        let mut i: usize = 0;
        while i < self.standards.len()
            invariant
                i <= self.standards.len(),
                q@ == standard_name_or_alias@,
                forall|j: int| 0 <= j < self.standards.len() ==> !is_named(#[trigger] self.standards@[j]@, standard_name_or_alias@),
                forall|j: int| 0 <= j < i ==> !is_alias(#[trigger] self.standards@[j]@, standard_name_or_alias@),
            decreases self.standards.len() - i,
        {
            let aliases = &self.standards[i].aliases;
            let mut k: usize = 0;
            while k < aliases.len()
                invariant
                    k <= aliases.len(),
                    i < self.standards.len(),
                    q@ == standard_name_or_alias@,
                    *aliases == self.standards@[i as int].aliases,
                    forall|j: int| 0 <= j < self.standards.len() ==> !is_named(#[trigger] self.standards@[j]@, standard_name_or_alias@),
                    forall|j: int| 0 <= j < i ==> !is_alias(#[trigger] self.standards@[j]@, standard_name_or_alias@),
                    forall|m: int| 0 <= m < k ==> aliases@[m]@ != q@,
                decreases aliases.len() - k,
            {
                if aliases[k] == q {
                    assert(self.standards@[i as int]@.aliases[k as int] == q@);
                    assert(is_alias(self.standards@[i as int]@, standard_name_or_alias@));
                    return Ok(&self.standards[i]);
                }
                k = k + 1;
            }
            proof {
                if self.standards@[i as int]@.aliases.contains(q@) {
                    let m = choose|m: int| 0 <= m < self.standards@[i as int]@.aliases.len() && self.standards@[i as int]@.aliases[m] == q@;
                    assert(aliases@[m]@ == q@);
                }
            }
            i = i + 1;
        }
        Err("Standard not found")
    }
}

/// The standards whose decision in `keep` is set, in order.
fn select(standards: &Vec<Standard>, keep: &Vec<bool>, p: Ghost<spec_fn(StandardView) -> bool>) -> (r: StandardsFilter)
    requires
        all_wf(standards@),
        keep.len() == standards.len(),
        forall|j: int| 0 <= j < keep.len() ==> keep@[j] == (p@)(#[trigger] standards@[j]@),
    ensures
        r.wf(),
        views(r.standards@) == views(standards@).filter(p@),
{
    let mut out: Vec<Standard> = Vec::new();
    let mut i: usize = 0;
    assert(views(standards@).take(0) =~= Seq::<StandardView>::empty());
    while i < standards.len()
        invariant
            i <= standards.len(),
            keep.len() == standards.len(),
            forall|j: int| 0 <= j < keep.len() ==> keep@[j] == (p@)(#[trigger] standards@[j]@),
            all_wf(standards@),
            all_wf(out@),
            views(out@) == views(standards@).take(i as int).filter(p@),
        decreases standards.len() - i,
    {
        proof {
            assert(views(standards@).take(i + 1) =~= views(standards@).take(i as int).push(standards@[i as int]@));
            lemma_filter_push(views(standards@).take(i as int), standards@[i as int]@, p@);
        }
        if keep[i] {
            let ghost before = out@;
            out.push(standards[i].copy());
            assert(views(out@) =~= views(before).push(standards@[i as int]@));
        }
        i = i + 1;
    }
    assert(views(standards@).take(standards.len() as int) =~= views(standards@));
    StandardsFilter { standards: out }
}

} // verus!
