//! The library of standards: CF standards by name, with community knowledge applied.
use vstd::prelude::*;
use crate::assoc::{entries_of, keys_sorted, text_map, text_merge};
use crate::cf::{cf_standards_map, cf_yaml_to_standards, CfYaml};
use crate::knowledge::{Knowledge, KnowledgeView};
use crate::standard::{
    all_wf, copy_pairs, copy_suites, lemma_standards_map_at, name_index, names_unique, standards_map,
    suites, QcSuite, QcSuiteV, Standard, StandardView,
};
use crate::standards_filter::{not_found, views, StandardsFilter};
use crate::text::{concat_strings, copy_opt, copy_strings, opt_str, strs};
use crate::tree::{config_text, copy_tree, read_config_text, tree_view, Tree, TreeV};

verus! {

/// CF standards, each under its name.
#[derive(Debug, Clone)]
pub struct StandardsLibrary {
    pub standards: Vec<Standard>,
}

impl View for StandardsLibrary {
    type V = Map<Seq<char>, StandardView>;

    open spec fn view(&self) -> Map<Seq<char>, StandardView> {
        standards_map(self.standards@)
    }
}

/// The map `m` with each standard of `s` put under its name, in order.
pub open spec fn extend_map(m: Map<Seq<char>, StandardView>, s: Seq<StandardView>) -> Map<Seq<char>, StandardView>
    decreases s.len(),
{
    if s.len() == 0 {
        m
    } else {
        extend_map(m, s.drop_last()).insert(s.last().name, s.last())
    }
}

/// The test suite a knowledge entry configures under `slug`: its name and description are
/// the configuration's `name` and `description` texts.
pub open spec fn qc_suite(slug: Seq<char>, config: TreeV) -> QcSuiteV {
    QcSuiteV {
        slug,
        name: config_text(config, "name"@),
        description: config_text(config, "description"@),
        config,
    }
}

/// The test suites a knowledge entry brings, in slug order.
pub open spec fn qc_suites(q: Option<Seq<(Seq<char>, TreeV)>>) -> Seq<QcSuiteV> {
    match q {
        Some(e) => e.map_values(|x: (Seq<char>, TreeV)| qc_suite(x.0, x.1)),
        None => Seq::empty(),
    }
}

/// A standard updated with knowledge: the long name, IOOS category, other units and
/// comments are the knowledge's; common variable names, related and sibling standards and
/// test suites are extended by the knowledge's; its extra attributes override.
pub open spec fn merged(s: StandardView, k: KnowledgeView) -> StandardView {
    StandardView {
        long_name: k.long_name,
        ioos_category: k.ioos_category,
        common_variable_names: s.common_variable_names + k.common_variable_names,
        related_standards: s.related_standards + k.related_standards,
        sibling_standards: s.sibling_standards + k.sibling_standards,
        extra_attrs: s.extra_attrs.union_prefer_right(k.extra_attrs),
        other_units: k.other_units,
        comments: k.comments,
        qartod: s.qartod + qc_suites(k.qc),
        ..s
    }
}

/// The library after one knowledge entry: only a standard of that name changes.
pub open spec fn apply_one(m: Map<Seq<char>, StandardView>, k: KnowledgeView) -> Map<Seq<char>, StandardView> {
    if m.contains_key(k.name) {
        m.insert(k.name, merged(m[k.name], k))
    } else {
        m
    }
}

/// The library after knowledge entries, applied in order.
pub open spec fn apply_all(m: Map<Seq<char>, StandardView>, ks: Seq<KnowledgeView>) -> Map<Seq<char>, StandardView>
    decreases ks.len(),
{
    if ks.len() == 0 {
        m
    } else {
        apply_one(apply_all(m, ks.drop_last()), ks.last())
    }
}

/// The library with the test suites of the standard `name`, if present, replaced.
pub open spec fn with_suites(m: Map<Seq<char>, StandardView>, name: Seq<char>, q: Seq<QcSuiteV>) -> Map<Seq<char>, StandardView> {
    if m.contains_key(name) {
        m.insert(name, StandardView { qartod: q, ..m[name] })
    } else {
        m
    }
}

/// The library with test suites set standard by standard, in order.
pub open spec fn suites_all(m: Map<Seq<char>, StandardView>, s: Seq<(Seq<char>, Seq<QcSuiteV>)>) -> Map<Seq<char>, StandardView>
    decreases s.len(),
{
    if s.len() == 0 {
        m
    } else {
        let l = s.last();
        with_suites(suites_all(m, s.drop_last()), l.0, l.1)
    }
}

/// The IOOS categories of the standards in the library.
pub open spec fn categories(m: Map<Seq<char>, StandardView>) -> Set<Seq<char>> {
    Set::new(|c: Seq<char>| exists|k: Seq<char>| m.contains_key(k) && #[trigger] m[k].ioos_category == Some(c))
}

/// The views of a list of knowledge entries.
pub open spec fn kviews(ks: Seq<Knowledge>) -> Seq<KnowledgeView> {
    ks.map_values(|k: Knowledge| k@)
}

proof fn lemma_map_set(s: Seq<Standard>, i: int, st: Standard)
    requires
        names_unique(s),
        0 <= i < s.len(),
        s[i].name@ == st.name@,
    ensures
        names_unique(s.update(i, st)),
        standards_map(s.update(i, st)) == standards_map(s).insert(st.name@, st@),
{
    let t = s.update(i, st);
    assert forall|a: int, b: int| 0 <= a < t.len() && 0 <= b < t.len() && a != b implies #[trigger] t[a].name@ != #[trigger] t[b].name@ by {
        assert(t[a].name@ == s[a].name@);
        assert(t[b].name@ == s[b].name@);
    }
    let m = standards_map(s).insert(st.name@, st@);
    assert forall|k: Seq<char>| standards_map(t).contains_key(k) <==> m.contains_key(k) by {
        if standards_map(t).contains_key(k) {
            let j = name_index(t, k);
            assert(s[j].name@ == k);
        }
        if standards_map(s).contains_key(k) {
            let j = name_index(s, k);
            assert(t[j].name@ == k);
        }
        if k == st.name@ {
            assert(t[i].name@ == k);
        }
    }
    assert forall|k: Seq<char>| #[trigger] standards_map(t).contains_key(k) implies standards_map(t)[k] == m[k] by {
        let j = name_index(t, k);
        lemma_standards_map_at(t, j);
        if j != i {
            lemma_standards_map_at(s, j);
        }
    }
    assert(standards_map(t) =~= m);
}

proof fn lemma_map_push(s: Seq<Standard>, st: Standard)
    requires
        names_unique(s),
        forall|j: int| 0 <= j < s.len() ==> #[trigger] s[j].name@ != st.name@,
    ensures
        names_unique(s.push(st)),
        standards_map(s.push(st)) == standards_map(s).insert(st.name@, st@),
{
    let t = s.push(st);
    assert forall|a: int, b: int| 0 <= a < t.len() && 0 <= b < t.len() && a != b implies #[trigger] t[a].name@ != #[trigger] t[b].name@ by {
        if a < s.len() && b < s.len() {
            assert(t[a] == s[a] && t[b] == s[b]);
        } else if a < s.len() {
            assert(t[a] == s[a]);
        } else {
            assert(t[b] == s[b]);
        }
    }
    let m = standards_map(s).insert(st.name@, st@);
    assert forall|k: Seq<char>| standards_map(t).contains_key(k) <==> m.contains_key(k) by {
        if standards_map(t).contains_key(k) {
            let j = name_index(t, k);
            if j < s.len() {
                assert(s[j].name@ == k);
            }
        }
        if standards_map(s).contains_key(k) {
            let j = name_index(s, k);
            assert(t[j].name@ == k);
        }
        if k == st.name@ {
            assert(t[s.len() as int].name@ == k);
        }
    }
    assert forall|k: Seq<char>| #[trigger] standards_map(t).contains_key(k) implies standards_map(t)[k] == m[k] by {
        let j = name_index(t, k);
        lemma_standards_map_at(t, j);
        if j < s.len() {
            assert(t[j] == s[j]);
            lemma_standards_map_at(s, j);
        }
    }
    assert(standards_map(t) =~= m);
}

/// Putting standards with distinct names one by one amounts to taking their map over.
pub proof fn lemma_extend_unique(m: Map<Seq<char>, StandardView>, v: Seq<Standard>)
    requires
        names_unique(v),
    ensures
        extend_map(m, views(v)) == m.union_prefer_right(standards_map(v)),
    decreases v.len(),
{
    if v.len() == 0 {
        assert(standards_map(v) =~= Map::<Seq<char>, StandardView>::empty());
        assert(m.union_prefer_right(standards_map(v)) =~= m);
    } else {
        let u = v.drop_last();
        assert(views(v).drop_last() =~= views(u));
        assert forall|a: int, b: int| 0 <= a < u.len() && 0 <= b < u.len() && a != b implies #[trigger] u[a].name@ != #[trigger] u[b].name@ by {
            assert(u[a] == v[a] && u[b] == v[b]);
        }
        lemma_extend_unique(m, u);
        assert forall|j: int| 0 <= j < u.len() implies #[trigger] u[j].name@ != v.last().name@ by {
            assert(u[j] == v[j]);
            assert(v[v.len() - 1] == v.last());
        }
        lemma_map_push(u, v.last());
        assert(u.push(v.last()) =~= v);
        assert(m.union_prefer_right(standards_map(u)).insert(v.last().name@, v.last()@) =~= m.union_prefer_right(
            standards_map(u).insert(v.last().name@, v.last()@),
        ));
    }
}

/// The library's standard `s` with knowledge `k` applied.
fn merge(s: &Standard, k: &Knowledge) -> (r: Standard)
    requires
        s.wf(),
        k.wf(),
    ensures
        r.wf(),
        r@ == merged(s@, k@),
{
    let mut extra_attrs = copy_pairs(&s.extra_attrs);
    text_merge(&mut extra_attrs, &k.extra_attrs);
    let mut qartod = copy_suites(&s.qartod);
    if let Some(qc) = &k.qc {
        let ghost start = suites(qartod@);
        let ghost e = entries_of(qc@, |x: Tree| tree_view(x));
        let mut i: usize = 0;
        while i < qc.len()
            invariant
                i <= qc.len(),
                start == suites(s.qartod@),
                e == entries_of(qc@, |x: Tree| tree_view(x)),
                suites(qartod@) == start + qc_suites(Some(e)).take(i as int),
            decreases qc.len() - i,
        {
            let ghost before = qartod@;
            qartod.push(
                QcSuite {
                    slug: qc[i].0.clone(),
                    name: read_config_text(&qc[i].1, "name"),
                    description: read_config_text(&qc[i].1, "description"),
                    config: copy_tree(&qc[i].1),
                },
            );
            assert(suites(qartod@) =~= suites(before).push(qc_suites(Some(e))[i as int]));
            assert(qc_suites(Some(e)).take(i + 1) =~= qc_suites(Some(e)).take(i as int).push(qc_suites(Some(e))[i as int]));
            i = i + 1;
        }
        assert(qc_suites(Some(e)).take(qc.len() as int) =~= qc_suites(Some(e)));
    } else {
        assert(suites(s.qartod@) + qc_suites(None) =~= suites(s.qartod@));
    }
    let r = Standard {
        name: s.name.clone(),
        long_name: copy_opt(&k.long_name),
        unit: s.unit.clone(),
        description: s.description.clone(),
        aliases: copy_strings(&s.aliases),
        ioos_category: copy_opt(&k.ioos_category),
        common_variable_names: concat_strings(&s.common_variable_names, &k.common_variable_names),
        related_standards: concat_strings(&s.related_standards, &k.related_standards),
        sibling_standards: concat_strings(&s.sibling_standards, &k.sibling_standards),
        extra_attrs,
        other_units: copy_strings(&k.other_units),
        comments: copy_opt(&k.comments),
        qartod,
    };
    assert(strs(r.common_variable_names@) =~= strs(s.common_variable_names@) + strs(k.common_variable_names@));
    assert(strs(r.related_standards@) =~= strs(s.related_standards@) + strs(k.related_standards@));
    assert(strs(r.sibling_standards@) =~= strs(s.sibling_standards@) + strs(k.sibling_standards@));
    r
}

impl StandardsLibrary {
    /// No two standards share a name, and each is well formed.
    pub open spec fn wf(&self) -> bool {
        names_unique(self.standards@) && all_wf(self.standards@)
    }

    /// The index of the standard named `name`, if there is one.
    fn find_name(&self, name: &String) -> (r: Option<usize>)
        ensures
            match r {
                Some(i) => i < self.standards.len() && self.standards@[i as int].name@ == name@,
                None => forall|j: int| 0 <= j < self.standards.len() ==> #[trigger] self.standards@[j].name@ != name@,
            },
    {
        let mut i: usize = 0;
        while i < self.standards.len()
            invariant
                i <= self.standards.len(),
                forall|j: int| 0 <= j < i ==> #[trigger] self.standards@[j].name@ != name@,
            decreases self.standards.len() - i,
        {
            if self.standards[i].name == *name {
                return Some(i);
            }
            i = i + 1;
        }
        None
    }

    /// Puts `standard` under its name, replacing a standard of that name.
    fn put(&mut self, standard: Standard)
        requires
            old(self).wf(),
            standard.wf(),
        ensures
            final(self).wf(),
            final(self)@ == old(self)@.insert(standard.name@, standard@),
    {
        let ghost s0 = self.standards@;
        let ghost st = standard;
        match self.find_name(&standard.name) {
            Some(i) => {
                self.standards.set(i, standard);
                proof {
                    lemma_map_set(s0, i as int, st);
                    assert(self.standards@ == s0.update(i as int, st));
                }
            },
            None => {
                self.standards.push(standard);
                proof {
                    lemma_map_push(s0, st);
                    assert(self.standards@ == s0.push(st));
                }
            },
        }
        proof {
            assert forall|j: int| 0 <= j < self.standards@.len() implies (#[trigger] self.standards@[j]).wf() by {
                if j < s0.len() && self.standards@[j] != st {
                    assert(self.standards@[j] == s0[j]);
                }
            }
        }
    }

    /// Load CF standards from an already-deserialized vec.
    pub fn load_cf_standards_from_vec(&mut self, standards: Vec<Standard>)
        requires
            old(self).wf(),
            all_wf(standards@),
        ensures
            final(self).wf(),
            final(self)@ == extend_map(old(self)@, views(standards@)),
    {
        let mut i: usize = 0;
        while i < standards.len()
            invariant
                i <= standards.len(),
                self.wf(),
                all_wf(standards@),
                self@ == extend_map(old(self)@, views(standards@).take(i as int)),
            decreases standards.len() - i,
        {
            let s = standards[i].copy();
            self.put(s);
            proof {
                assert(views(standards@).take(i + 1).drop_last() =~= views(standards@).take(i as int));
            }
            i = i + 1;
        }
        assert(views(standards@).take(standards.len() as int) =~= views(standards@));
    }

    /// Load the CF standards of a standard name table: each of its standards, with its
    /// aliases, goes under its name, replacing a standard of that name.
    pub fn load_cf_standards(&mut self, table: CfYaml)
        requires
            old(self).wf(),
            table.wf(),
        ensures
            final(self).wf(),
            final(self)@ == old(self)@.union_prefer_right(cf_standards_map(table@)),
    {
        let ghost c = table@;
        let standards = cf_yaml_to_standards(table);
        let ghost v = standards@;
        self.load_cf_standards_from_vec(standards);
        proof {
            lemma_extend_unique(old(self)@, v);
        }
    }

    pub fn filter(&self) -> (r: StandardsFilter)
        requires
            self.wf(),
        ensures
            r.wf(),
            views(r.standards@) == views(self.standards@),
    {
        let mut out: Vec<Standard> = Vec::new();
        let mut i: usize = 0;
        while i < self.standards.len()
            invariant
                i <= self.standards.len(),
                self.wf(),
                all_wf(out@),
                out@.len() == i,
                forall|j: int| 0 <= j < i ==> (#[trigger] out@[j])@ == self.standards@[j]@,
            decreases self.standards.len() - i,
        {
            out.push(self.standards[i].copy());
            i = i + 1;
        }
        assert(views(out@) =~= views(self.standards@));
        StandardsFilter { standards: out }
    }

    /// Return a standard by name or alias: the standard of that name where there is one,
    /// else one that has it as an alias
    pub fn get(&self, standard_name_or_alias: &str) -> (r: Result<Standard, &'static str>)
        requires
            self.wf(),
        ensures
            match r {
                Ok(s) => {
                    &&& s.wf()
                    &&& self@.contains_key(s@.name)
                    &&& self@[s@.name] == s@
                    &&& if self@.contains_key(standard_name_or_alias@) {
                        s@.name == standard_name_or_alias@
                    } else {
                        s@.aliases.contains(standard_name_or_alias@)
                    }
                },
                Err(e) => {
                    &&& e@ == not_found()
                    &&& !self@.contains_key(standard_name_or_alias@)
                    &&& forall|k: Seq<char>| #[trigger] self@.contains_key(k) ==> !self@[k].aliases.contains(standard_name_or_alias@)
                },
            },
    {
        let filter = self.filter();
        let ghost q = standard_name_or_alias@;
        proof {
            assert(views(filter.standards@).len() == views(self.standards@).len());
            assert(filter.standards@.len() == self.standards@.len());
            assert forall|j: int| 0 <= j < filter.standards.len() implies (#[trigger] filter.standards@[j])@ == self.standards@[j]@ by {
                assert(views(filter.standards@)[j] == views(self.standards@)[j]);
            }
        }
        match filter.get(standard_name_or_alias) {
            Ok(standard) => {
                proof {
                    let i = choose|i: int| 0 <= i < filter.standards.len() && *standard == #[trigger] filter.standards@[i] && (
                        if exists|j: int| 0 <= j < filter.standards.len() && crate::standards_filter::is_named(#[trigger] filter.standards@[j]@, q) {
                            crate::standards_filter::is_named(standard@, q) && forall|j: int| 0 <= j < i ==> !crate::standards_filter::is_named(#[trigger] filter.standards@[j]@, q)
                        } else {
                            crate::standards_filter::is_alias(standard@, q) && forall|j: int| 0 <= j < i ==> !crate::standards_filter::is_alias(#[trigger] filter.standards@[j]@, q)
                        }
                    );
                    assert(standard@ == self.standards@[i]@);
                    lemma_standards_map_at(self.standards@, i);
                    if self@.contains_key(q) {
                        let j = name_index(self.standards@, q);
                        assert(filter.standards@[j]@ == self.standards@[j]@);
                        assert(crate::standards_filter::is_named(filter.standards@[j]@, q));
                    } else {
                        if exists|j: int| 0 <= j < filter.standards.len() && crate::standards_filter::is_named(#[trigger] filter.standards@[j]@, q) {
                            let j = choose|j: int| 0 <= j < filter.standards.len() && crate::standards_filter::is_named(#[trigger] filter.standards@[j]@, q);
                            assert(self.standards@[j].name@ == q);
                            assert(self@.contains_key(q));
                        }
                    }
                }
                Ok(standard.copy())
            },
            Err(e) => {
                proof {
                    assert forall|k: Seq<char>| #[trigger] self@.contains_key(k) implies !self@[k].aliases.contains(q) by {
                        let j = name_index(self.standards@, k);
                        lemma_standards_map_at(self.standards@, j);
                        assert(filter.standards@[j]@ == self.standards@[j]@);
                    }
                    if self@.contains_key(q) {
                        let j = name_index(self.standards@, q);
                        assert(filter.standards@[j]@ == self.standards@[j]@);
                    }
                }
                Err(e)
            },
        }
    }

    /// Update the loaded standards with knowledge
    pub fn apply_knowledge(&mut self, knowledge: Vec<Knowledge>)
        requires
            old(self).wf(),
            forall|i: int| 0 <= i < knowledge.len() ==> (#[trigger] knowledge@[i]).wf(),
        ensures
            final(self).wf(),
            final(self)@ == apply_all(old(self)@, kviews(knowledge@)),
    {
        let mut i: usize = 0;
        while i < knowledge.len()
            invariant
                i <= knowledge.len(),
                self.wf(),
                forall|j: int| 0 <= j < knowledge.len() ==> (#[trigger] knowledge@[j]).wf(),
                self@ == apply_all(old(self)@, kviews(knowledge@).take(i as int)),
            decreases knowledge.len() - i,
        {
            let know = &knowledge[i];
            let ghost m = self@;
            match self.find_name(&know.name) {
                Some(j) => {
                    proof {
                        lemma_standards_map_at(self.standards@, j as int);
                    }
                    let updated = merge(&self.standards[j], know);
                    self.put(updated);
                },
                None => {
                    proof {
                        if m.contains_key(know.name@) {
                            let j = name_index(self.standards@, know.name@);
                            assert(self.standards@[j].name@ == know.name@);
                        }
                    }
                },
            }
            proof {
                assert(kviews(knowledge@).take(i + 1).drop_last() =~= kviews(knowledge@).take(i as int));
                assert(kviews(knowledge@).take(i + 1).last() == knowledge@[i as int]@);
            }
            i = i + 1;
        }
        assert(kviews(knowledge@).take(knowledge.len() as int) =~= kviews(knowledge@));
    }

    /// Set test suites: each standard named in `suites` gets the suites given for it
    pub fn load_test_suites(&mut self, suites: Vec<(String, Vec<QcSuite>)>)
        requires
            old(self).wf(),
        ensures
            final(self).wf(),
            final(self)@ == suites_all(old(self)@, suites@.map_values(|e: (String, Vec<QcSuite>)| (e.0@, crate::standard::suites(e.1@)))),
    {
        let ghost sv = suites@.map_values(|e: (String, Vec<QcSuite>)| (e.0@, crate::standard::suites(e.1@)));
        let mut i: usize = 0;
        while i < suites.len()
            invariant
                i <= suites.len(),
                self.wf(),
                sv == suites@.map_values(|e: (String, Vec<QcSuite>)| (e.0@, crate::standard::suites(e.1@))),
                self@ == suites_all(old(self)@, sv.take(i as int)),
            decreases suites.len() - i,
        {
            let ghost m = self@;
            match self.find_name(&suites[i].0) {
                Some(j) => {
                    proof {
                        lemma_standards_map_at(self.standards@, j as int);
                    }
                    let s = &self.standards[j];
                    let updated = Standard {
                        name: s.name.clone(),
                        long_name: copy_opt(&s.long_name),
                        unit: s.unit.clone(),
                        description: s.description.clone(),
                        aliases: copy_strings(&s.aliases),
                        ioos_category: copy_opt(&s.ioos_category),
                        common_variable_names: copy_strings(&s.common_variable_names),
                        related_standards: copy_strings(&s.related_standards),
                        sibling_standards: copy_strings(&s.sibling_standards),
                        extra_attrs: copy_pairs(&s.extra_attrs),
                        other_units: copy_strings(&s.other_units),
                        comments: copy_opt(&s.comments),
                        qartod: copy_suites(&suites[i].1),
                    };
                    self.put(updated);
                },
                None => {
                    proof {
                        if m.contains_key(suites@[i as int].0@) {
                            let j = name_index(self.standards@, suites@[i as int].0@);
                            assert(self.standards@[j].name@ == suites@[i as int].0@);
                        }
                    }
                },
            }
            proof {
                assert(sv.take(i + 1).drop_last() =~= sv.take(i as int));
                assert(sv.take(i + 1).last() == sv[i as int]);
            }
            i = i + 1;
        }
        assert(sv.take(suites.len() as int) =~= sv);
    }

    /// Return the set of all known IOOS categories, each once
    pub fn known_ioos_categories(&self) -> (r: Vec<String>)
        requires
            self.wf(),
        ensures
            strs(r@).no_duplicates(),
            strs(r@).to_set() == categories(self@),
    {
        let mut out: Vec<String> = Vec::new();
        let mut i: usize = 0;
        while i < self.standards.len()
            invariant
                i <= self.standards.len(),
                self.wf(),
                strs(out@).no_duplicates(),
                forall|c: Seq<char>| strs(out@).contains(c) <==> exists|j: int| 0 <= j < i && #[trigger] self.standards@[j]@.ioos_category == Some(c),
            decreases self.standards.len() - i,
        {
            if let Some(c) = &self.standards[i].ioos_category {
                let mut seen = false;
                let mut k: usize = 0;
                while k < out.len()
                    invariant
                        k <= out.len(),
                        seen == exists|m: int| 0 <= m < k && out@[m]@ == c@,
                    decreases out.len() - k,
                {
                    if out[k] == *c {
                        seen = true;
                    }
                    k = k + 1;
                }
                let ghost before = out@;
                if !seen {
                    out.push(c.clone());
                    proof {
                        assert(strs(out@) =~= strs(before).push(c@));
                        assert forall|m: int| 0 <= m < before.len() implies strs(before)[m] != c@ by {
                            assert(before[m]@ == strs(before)[m]);
                        }
                    }
                }
                proof {
                    assert forall|d: Seq<char>| strs(out@).contains(d) <==> exists|j: int| 0 <= j < i + 1 && #[trigger] self.standards@[j]@.ioos_category == Some(d) by {
                        if strs(out@).contains(d) && !strs(before).contains(d) {
                            assert(d == c@);
                            assert(self.standards@[i as int]@.ioos_category == Some(d));
                        }
                        if strs(before).contains(d) {
                            let m = choose|m: int| 0 <= m < strs(before).len() && strs(before)[m] == d;
                            if seen {
                                assert(strs(out@) == strs(before));
                            } else {
                                assert(strs(out@)[m] == d);
                            }
                        }
                        if exists|j: int| 0 <= j < i + 1 && #[trigger] self.standards@[j]@.ioos_category == Some(d) {
                            let j = choose|j: int| 0 <= j < i + 1 && #[trigger] self.standards@[j]@.ioos_category == Some(d);
                            if j == i {
                                assert(d == c@);
                                if seen {
                                    let m = choose|m: int| 0 <= m < out@.len() && out@[m]@ == c@;
                                    assert(strs(out@)[m] == d);
                                } else {
                                    assert(strs(out@)[before.len() as int] == d);
                                }
                            } else {
                                assert(strs(before).contains(d));
                                if !seen {
                                    let m = choose|m: int| 0 <= m < strs(before).len() && strs(before)[m] == d;
                                    assert(strs(out@)[m] == d);
                                }
                            }
                        }
                    }
                }
            } else {
                proof {
                    assert forall|d: Seq<char>| strs(out@).contains(d) <==> exists|j: int| 0 <= j < i + 1 && #[trigger] self.standards@[j]@.ioos_category == Some(d) by {
                        if exists|j: int| 0 <= j < i + 1 && #[trigger] self.standards@[j]@.ioos_category == Some(d) {
                            let j = choose|j: int| 0 <= j < i + 1 && #[trigger] self.standards@[j]@.ioos_category == Some(d);
                            assert(j != i);
                        }
                    }
                }
            }
            i = i + 1;
        }
        proof {
            assert forall|c: Seq<char>| strs(out@).to_set().contains(c) <==> categories(self@).contains(c) by {
                if strs(out@).contains(c) {
                    let j = choose|j: int| 0 <= j < self.standards.len() && #[trigger] self.standards@[j]@.ioos_category == Some(c);
                    lemma_standards_map_at(self.standards@, j);
                    assert(self@[self.standards@[j].name@].ioos_category == Some(c));
                }
                if categories(self@).contains(c) {
                    let k = choose|k: Seq<char>| self@.contains_key(k) && #[trigger] self@[k].ioos_category == Some(c);
                    let j = name_index(self.standards@, k);
                    lemma_standards_map_at(self.standards@, j);
                }
            }
            assert(strs(out@).to_set() =~= categories(self@));
        }
        out
    }
}

impl Default for StandardsLibrary {
    fn default() -> (r: StandardsLibrary)
        ensures
            r.wf(),
            r@ == Map::<Seq<char>, StandardView>::empty(),
    {
        let r = StandardsLibrary { standards: Vec::new() };
        assert(r@ =~= Map::<Seq<char>, StandardView>::empty());
        r
    }
}

} // verus!
