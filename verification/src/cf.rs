//! The CF standard name table, and the standards it describes.
use vstd::prelude::*;
use crate::assoc::{
    assoc_find, assoc_insert, assoc_map, has_key, keys_sorted, lemma_assoc_map_at,
    lemma_sorted_keys_distinct, lemma_sorted_listing, sorted_listing, text_entries, text_map,
};
use crate::standard::{all_wf, names_unique, name_index, standards_map, Standard, StandardView};
use crate::text::{copy_strings, strs, text_lt};

verus! {

/// A standard as the CF table describes it.
#[derive(Debug, Clone)]
pub struct CfStandard {
    pub description: String,
    pub unit: String,
}

impl View for CfStandard {
    /// The description and the unit.
    type V = (Seq<char>, Seq<char>);

    open spec fn view(&self) -> (Seq<char>, Seq<char>) {
        (self.description@, self.unit@)
    }
}

/// The CF standard name table: aliases to standard names, and standard names to their
/// description and unit, both in key order.
#[derive(Debug, Clone)]
pub struct CfYaml {
    pub aliases: Vec<(String, String)>,
    pub standard_names: Vec<(String, CfStandard)>,
}

/// The mathematical value of the CF table.
pub struct CfYamlView {
    pub aliases: Map<Seq<char>, Seq<char>>,
    pub standard_names: Map<Seq<char>, (Seq<char>, Seq<char>)>,
}

/// The view of a map of CF standards.
pub open spec fn cf_map(s: Seq<(String, CfStandard)>) -> Map<Seq<char>, (Seq<char>, Seq<char>)> {
    assoc_map(s).map_values(|c: CfStandard| c@)
}

impl View for CfYaml {
    type V = CfYamlView;

    open spec fn view(&self) -> CfYamlView {
        CfYamlView { aliases: text_map(self.aliases@), standard_names: cf_map(self.standard_names@) }
    }
}

impl CfYaml {
    /// Both maps are in key order.
    pub open spec fn wf(&self) -> bool {
        keys_sorted(self.aliases@) && keys_sorted(self.standard_names@)
    }
}

/// The aliases, in the order of the alias entries, that stand for the standard `name`.
pub open spec fn aliases_for(entries: Seq<(Seq<char>, Seq<char>)>, name: Seq<char>) -> Seq<Seq<char>> {
    entries.filter(targets(name)).map_values(|e: (Seq<char>, Seq<char>)| e.0)
}

/// The alias entries that stand for `name`.
pub open spec fn targets(name: Seq<char>) -> spec_fn((Seq<char>, Seq<char>)) -> bool {
    |e: (Seq<char>, Seq<char>)| e.1 == name
}

/// Each standard name that some alias stands for, with its aliases.
pub open spec fn grouped(entries: Seq<(Seq<char>, Seq<char>)>) -> Map<Seq<char>, Seq<Seq<char>>> {
    Map::new(
        |n: Seq<char>| exists|j: int| 0 <= j < entries.len() && #[trigger] entries[j].1 == n,
        |n: Seq<char>| aliases_for(entries, n),
    )
}

proof fn lemma_aliases_for_push(e: Seq<(Seq<char>, Seq<char>)>, x: (Seq<char>, Seq<char>), n: Seq<char>)
    ensures
        aliases_for(e.push(x), n) == if x.1 == n {
            aliases_for(e, n).push(x.0)
        } else {
            aliases_for(e, n)
        },
{
    let p = targets(n);
    assert(e.push(x) =~= e + seq![x]);
    Seq::filter_distributes_over_add(e, seq![x], p);
    reveal_with_fuel(Seq::filter, 2);
    if x.1 == n {
        assert(seq![x].filter(p) =~= seq![x]);
        assert((e.filter(p) + seq![x]).map_values(|y: (Seq<char>, Seq<char>)| y.0) =~= e.filter(p).map_values(
            |y: (Seq<char>, Seq<char>)| y.0,
        ).push(x.0));
    } else {
        assert(seq![x].filter(p) =~= Seq::<(Seq<char>, Seq<char>)>::empty());
        assert(e.filter(p) + Seq::<(Seq<char>, Seq<char>)>::empty() =~= e.filter(p));
    }
}

proof fn lemma_aliases_for_none(e: Seq<(Seq<char>, Seq<char>)>, n: Seq<char>)
    requires
        forall|j: int| 0 <= j < e.len() ==> #[trigger] e[j].1 != n,
    ensures
        aliases_for(e, n) == Seq::<Seq<char>>::empty(),
{
    let p = targets(n);
    e.lemma_all_neg_filter_empty(p);
    assert(aliases_for(e, n) =~= Seq::<Seq<char>>::empty());
}

/// Returns, for each standard name, the aliases that stand for it (in alias order)
pub fn aliases_by_standard_name(cf_yaml: &CfYaml) -> (r: Vec<(String, Vec<String>)>)
    requires
        cf_yaml.wf(),
    ensures
        keys_sorted(r@),
        assoc_map(r@).map_values(|v: Vec<String>| strs(v@)) == grouped(sorted_listing(cf_yaml@.aliases)),
{
    let aliases = &cf_yaml.aliases;
    proof {
        lemma_sorted_listing(aliases@);
    }
    let ghost e = text_entries(aliases@);
    let ghost g = |v: Vec<String>| strs(v@);
    let mut standards: Vec<(String, Vec<String>)> = Vec::new();
    assert(e.take(0) =~= Seq::<(Seq<char>, Seq<char>)>::empty());
    assert(assoc_map(standards@).map_values(g) =~= grouped(e.take(0)));
    let mut i: usize = 0;
    while i < aliases.len()
        invariant
            i <= aliases.len(),
            e == text_entries(aliases@),
            g == (|v: Vec<String>| strs(v@)),
            keys_sorted(standards@),
            assoc_map(standards@).map_values(g) == grouped(e.take(i as int)),
        decreases aliases.len() - i,
    {
        let alias = aliases[i].0.clone();
        let standard_name = aliases[i].1.clone();
        let ghost before = e.take(i as int);
        let ghost x = e[i as int];
        let ghost old_map = assoc_map(standards@);
        proof {
            assert(e.take(i + 1) =~= before.push(x));
            assert forall|n: Seq<char>| #[trigger] grouped(before.push(x)).contains_key(n) <==> grouped(before).insert(x.1, aliases_for(before, x.1).push(x.0)).contains_key(n) by {
                if n != x.1 && grouped(before.push(x)).contains_key(n) {
                    let j = choose|j: int| 0 <= j < before.push(x).len() && #[trigger] before.push(x)[j].1 == n;
                    assert(before[j].1 == n);
                }
                if n == x.1 {
                    assert(before.push(x)[before.len() as int].1 == n);
                }
                if grouped(before).contains_key(n) {
                    let j = choose|j: int| 0 <= j < before.len() && #[trigger] before[j].1 == n;
                    assert(before.push(x)[j].1 == n);
                }
            }
            assert forall|n: Seq<char>| #[trigger] grouped(before.push(x)).contains_key(n) implies grouped(before.push(x))[n] == grouped(before).insert(x.1, aliases_for(before, x.1).push(x.0))[n] by {
                lemma_aliases_for_push(before, x, n);
            }
            assert(grouped(before.push(x)) =~= grouped(before).insert(x.1, aliases_for(before, x.1).push(x.0)));
        }
        let group = match assoc_find(&standards, &standard_name) {
            Some(j) => {
                proof {
                    lemma_assoc_map_at(standards@, j as int);
                    assert(old_map.map_values(g)[standard_name@] == g(standards@[j as int].1));
                }
                let mut v = copy_strings(&standards[j].1);
                v.push(alias);
                assert(strs(v@) =~= strs(standards@[j as int].1@).push(x.0));
                v
            },
            None => {
                proof {
                    assert forall|j: int| 0 <= j < before.len() implies #[trigger] before[j].1 != x.1 by {
                        if before[j].1 == x.1 {
                            assert(grouped(before).contains_key(x.1));
                            assert(old_map.map_values(g).contains_key(x.1));
                        }
                    }
                    lemma_aliases_for_none(before, x.1);
                }
                let mut v: Vec<String> = Vec::new();
                v.push(alias);
                assert(strs(v@) =~= seq![x.0]);
                assert(aliases_for(before, x.1).push(x.0) =~= seq![x.0]);
                v
            },
        };
        let ghost gv = group;
        assoc_insert(&mut standards, standard_name, group);
        proof {
            assert(assoc_map(standards@).map_values(g) =~= old_map.map_values(g).insert(x.1, g(gv)));
        }
        i = i + 1;
    }
    assert(e.take(aliases.len() as int) =~= e);
    standards
}

/// What the CF table says of the standard `n`.
pub open spec fn cf_standard_view(c: CfYamlView, n: Seq<char>) -> StandardView {
    StandardView {
        name: n,
        long_name: None,
        unit: c.standard_names[n].1,
        description: c.standard_names[n].0,
        aliases: aliases_for(sorted_listing(c.aliases), n),
        ioos_category: None,
        common_variable_names: Seq::empty(),
        related_standards: Seq::empty(),
        sibling_standards: Seq::empty(),
        extra_attrs: Map::empty(),
        other_units: Seq::empty(),
        comments: None,
        qartod: Seq::empty(),
    }
}

/// The standards the CF table describes, by name.
pub open spec fn cf_standards_map(c: CfYamlView) -> Map<Seq<char>, StandardView> {
    Map::new(|n: Seq<char>| c.standard_names.contains_key(n), |n: Seq<char>| cf_standard_view(c, n))
}

/// The standards are listed in the order of their names.
pub open spec fn names_in_order(v: Seq<Standard>) -> bool {
    forall|i: int, j: int| 0 <= i < j < v.len() ==> text_lt(#[trigger] v[i].name@, #[trigger] v[j].name@)
}

/// The standards the CF table describes, each with its aliases, in name order
pub fn cf_yaml_to_standards(cf_yaml: CfYaml) -> (r: Vec<Standard>)
    requires
        cf_yaml.wf(),
    ensures
        names_in_order(r@),
        names_unique(r@),
        all_wf(r@),
        standards_map(r@) == cf_standards_map(cf_yaml@),
{
    let alias_map = aliases_by_standard_name(&cf_yaml);
    let ghost c = cf_yaml@;
    let ghost g = |v: Vec<String>| strs(v@);
    let names = &cf_yaml.standard_names;
    let mut standards: Vec<Standard> = Vec::new();
    let mut i: usize = 0;
    while i < names.len()
        invariant
            i <= names.len(),
            c == cf_yaml@,
            names@ == cf_yaml.standard_names@,
            g == (|v: Vec<String>| strs(v@)),
            keys_sorted(names@),
            keys_sorted(alias_map@),
            assoc_map(alias_map@).map_values(g) == grouped(sorted_listing(c.aliases)),
            standards@.len() == i,
            forall|j: int| 0 <= j < i ==> (#[trigger] standards@[j]).name@ == names@[j].0@,
            forall|j: int| 0 <= j < i ==> (#[trigger] standards@[j]).wf(),
            forall|j: int| 0 <= j < i ==> (#[trigger] standards@[j])@ == cf_standard_view(c, names@[j].0@),
        decreases names.len() - i,
    {
        let name = &names[i].0;
        proof {
            lemma_assoc_map_at(names@, i as int);
        }
        let aliases = match assoc_find(&alias_map, name) {
            Some(j) => {
                proof {
                    lemma_assoc_map_at(alias_map@, j as int);
                    assert(assoc_map(alias_map@).map_values(g)[name@] == g(alias_map@[j as int].1));
                }
                copy_strings(&alias_map[j].1)
            },
            None => {
                proof {
                    let l = sorted_listing(c.aliases);
                    assert forall|j: int| 0 <= j < l.len() implies #[trigger] l[j].1 != name@ by {
                        if l[j].1 == name@ {
                            assert(grouped(l).contains_key(name@));
                            assert(assoc_map(alias_map@).map_values(g).contains_key(name@));
                        }
                    }
                    lemma_aliases_for_none(l, name@);
                }
                let v: Vec<String> = Vec::new();
                assert(strs(v@) =~= Seq::<Seq<char>>::empty());
                v
            },
        };
        let standard = Standard {
            name: name.clone(),
            long_name: None,
            unit: names[i].1.unit.clone(),
            description: names[i].1.description.clone(),
            aliases,
            ioos_category: None,
            common_variable_names: Vec::new(),
            related_standards: Vec::new(),
            sibling_standards: Vec::new(),
            extra_attrs: Vec::new(),
            other_units: Vec::new(),
            comments: None,
            qartod: Vec::new(),
        };
        proof {
            assert(text_map(standard.extra_attrs@) =~= Map::<Seq<char>, Seq<char>>::empty());
            assert(strs(standard.common_variable_names@) =~= Seq::<Seq<char>>::empty());
            assert(strs(standard.related_standards@) =~= Seq::<Seq<char>>::empty());
            assert(strs(standard.sibling_standards@) =~= Seq::<Seq<char>>::empty());
            assert(strs(standard.other_units@) =~= Seq::<Seq<char>>::empty());
            assert(crate::standard::suites(standard.qartod@) =~= Seq::<crate::standard::QcSuiteV>::empty());
            let w = cf_standard_view(c, names@[i as int].0@);
            assert(c.standard_names == cf_map(names@));
            assert(assoc_map(names@).contains_key(names@[i as int].0@));
            assert(cf_map(names@)[names@[i as int].0@] == names@[i as int].1@);
            assert(standard@.unit == w.unit);
            assert(standard@.description == w.description);
            assert(standard@.aliases == w.aliases);
            assert(standard@ == w);
        }
        standards.push(standard);
        i = i + 1;
    }
    proof {
        assert forall|a: int, b: int| 0 <= a < standards@.len() && 0 <= b < standards@.len() && a != b implies #[trigger] standards@[a].name@ != #[trigger] standards@[b].name@ by {
            lemma_sorted_keys_distinct(names@, a, b);
        }
        let m = standards_map(standards@);
        let want = cf_standards_map(c);
        assert forall|n: Seq<char>| m.contains_key(n) <==> want.contains_key(n) by {
            if m.contains_key(n) {
                let j = name_index(standards@, n);
                assert(names@[j].0@ == n);
                assert(has_key(names@, n));
            }
            if want.contains_key(n) {
                let j = crate::assoc::key_index(names@, n);
                assert(standards@[j].name@ == n);
            }
        }
        assert forall|n: Seq<char>| #[trigger] m.contains_key(n) implies m[n] == want[n] by {
            let j = name_index(standards@, n);
            assert(standards@[j].name@ == n);
        }
        assert(m =~= want);
    }
    standards
}

} // verus!
