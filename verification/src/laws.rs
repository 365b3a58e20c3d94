//! What holds of the library across its operations.
use vstd::prelude::*;
use crate::cf::{aliases_for, cf_standard_view, cf_standards_map, targets, CfYamlView};
use crate::assoc::{entries_map, entries_sorted, sorted_listing};
use crate::knowledge::KnowledgeView;
use crate::standard::{xarray_map, StandardView};
use crate::standards_library::{apply_all, apply_one, categories, merged, suites_all, with_suites};
use crate::standard::{
    aliases_part, all_text, category_part, closing_part, extra_part, matches_spec, related_part, short_text,
    index_texts, siblings_part, suite_slugs, suites_part, units_part, variables_part, QcSuiteV,
};
use crate::text::{ascii_lower, contains_text, is_ascii_text, join, lowercase, occurs_at};
use crate::standards_filter::{folded, has_tests, has_unit, has_variable_name, in_category, lemma_filter_push};

verus! {

/// Loading a CF table puts each of its standards under its name, with the table's unit and
/// description, whatever the library held before.
pub proof fn law_load_then_get(m: Map<Seq<char>, StandardView>, c: CfYamlView, n: Seq<char>)
    requires
        c.standard_names.contains_key(n),
    ensures
        m.union_prefer_right(cf_standards_map(c)).contains_key(n),
        m.union_prefer_right(cf_standards_map(c))[n] == cf_standard_view(c, n),
        m.union_prefer_right(cf_standards_map(c))[n].unit == c.standard_names[n].1,
        m.union_prefer_right(cf_standards_map(c))[n].description == c.standard_names[n].0,
{
}

/// Loading a CF table leaves the standards it does not name as they were.
pub proof fn law_load_keeps_others(m: Map<Seq<char>, StandardView>, c: CfYamlView, n: Seq<char>)
    requires
        m.contains_key(n),
        !c.standard_names.contains_key(n),
    ensures
        m.union_prefer_right(cf_standards_map(c)).contains_key(n),
        m.union_prefer_right(cf_standards_map(c))[n] == m[n],
{
}

/// Loading the same CF table twice leaves the library as loading it once.
pub proof fn law_load_twice(m: Map<Seq<char>, StandardView>, c: CfYamlView)
    ensures
        m.union_prefer_right(cf_standards_map(c)).union_prefer_right(cf_standards_map(c)) == m.union_prefer_right(
            cf_standards_map(c),
        ),
{
    assert(m.union_prefer_right(cf_standards_map(c)).union_prefer_right(cf_standards_map(c)) =~= m.union_prefer_right(
        cf_standards_map(c),
    ));
}

/// Every alias of the CF table is an alias of the standard it stands for.
pub proof fn law_alias_belongs(c: CfYamlView, a: Seq<char>)
    requires
        c.aliases.dom().finite(),
        c.aliases.contains_key(a),
        c.standard_names.contains_key(c.aliases[a]),
    ensures
        cf_standards_map(c)[c.aliases[a]].aliases.contains(a),
{
    let n = c.aliases[a];
    let l = sorted_listing(c.aliases);
    crate::assoc::lemma_listing_exists(c.aliases);
    assert(entries_sorted(l) && entries_map(l) == c.aliases);
    let i = crate::assoc::entry_index(l, a);
    crate::assoc::lemma_entries_map_index(l, i);
    assert(l[i].1 == n);
    let p = targets(n);
    let f = l.filter(p);
    l.lemma_filter_contains(p, i);
    assert(f.contains(l[i]));
    let k = choose|k: int| 0 <= k < f.len() && f[k] == l[i];
    assert(aliases_for(l, n)[k] == a);
}

/// The standards of a CF table carry only aliases that the table gives them.
pub proof fn law_aliases_from_table(c: CfYamlView, n: Seq<char>, a: Seq<char>)
    requires
        c.aliases.dom().finite(),
        c.standard_names.contains_key(n),
        cf_standards_map(c)[n].aliases.contains(a),
    ensures
        c.aliases.contains_key(a),
        c.aliases[a] == n,
{
    let l = sorted_listing(c.aliases);
    crate::assoc::lemma_listing_exists(c.aliases);
    let p = targets(n);
    let f = l.filter(p);
    let k = choose|k: int| 0 <= k < aliases_for(l, n).len() && aliases_for(l, n)[k] == a;
    assert(f[k].0 == a);
    l.lemma_filter_pred(p, k);
    assert(p(f[k]));
    assert(f.contains(f[k]));
    l.lemma_filter_contains_rev(p, f[k]);
    assert(l.contains(f[k]));
    let i = choose|i: int| 0 <= i < l.len() && l[i] == f[k];
    crate::assoc::lemma_entries_map_index(l, i);
}

/// Applying knowledge never adds or removes a standard.
pub proof fn law_apply_keeps_names(m: Map<Seq<char>, StandardView>, ks: Seq<KnowledgeView>)
    ensures
        apply_all(m, ks).dom() == m.dom(),
    decreases ks.len(),
{
    if ks.len() > 0 {
        law_apply_keeps_names(m, ks.drop_last());
        let m1 = apply_all(m, ks.drop_last());
        if m1.contains_key(ks.last().name) {
            assert(m1.insert(ks.last().name, merged(m1[ks.last().name], ks.last())).dom() =~= m1.dom());
        }
    }
}

/// Knowledge about a standard the library does not hold changes nothing; a standard that
/// no knowledge entry names stays as it was.
pub proof fn law_apply_untouched(m: Map<Seq<char>, StandardView>, ks: Seq<KnowledgeView>, n: Seq<char>)
    requires
        m.contains_key(n),
        forall|i: int| 0 <= i < ks.len() ==> #[trigger] ks[i].name != n,
    ensures
        apply_all(m, ks).contains_key(n),
        apply_all(m, ks)[n] == m[n],
    decreases ks.len(),
{
    if ks.len() > 0 {
        assert forall|i: int| 0 <= i < ks.drop_last().len() implies #[trigger] ks.drop_last()[i].name != n by {
            assert(ks.drop_last()[i] == ks[i]);
        }
        law_apply_untouched(m, ks.drop_last(), n);
        assert(ks[ks.len() - 1] == ks.last());
    }
}

/// Knowledge that names no standard of the library leaves the library as it was.
pub proof fn law_apply_unknown(m: Map<Seq<char>, StandardView>, ks: Seq<KnowledgeView>)
    requires
        forall|i: int| 0 <= i < ks.len() ==> !m.contains_key(#[trigger] ks[i].name),
    ensures
        apply_all(m, ks) == m,
    decreases ks.len(),
{
    if ks.len() > 0 {
        assert forall|i: int| 0 <= i < ks.drop_last().len() implies !m.contains_key(#[trigger] ks.drop_last()[i].name) by {
            assert(ks.drop_last()[i] == ks[i]);
        }
        law_apply_unknown(m, ks.drop_last());
        assert(ks[ks.len() - 1] == ks.last());
    }
}

/// Applying knowledge keeps what the standard knew of its names and units, and extends
/// its common variable names, related and sibling standards and test suites by the
/// knowledge's, in order; the long name, category, other units and comments become the
/// knowledge's.
pub proof fn law_apply_one(m: Map<Seq<char>, StandardView>, k: KnowledgeView)
    requires
        m.contains_key(k.name),
    ensures
        apply_one(m, k)[k.name].name == m[k.name].name,
        apply_one(m, k)[k.name].unit == m[k.name].unit,
        apply_one(m, k)[k.name].description == m[k.name].description,
        apply_one(m, k)[k.name].aliases == m[k.name].aliases,
        apply_one(m, k)[k.name].common_variable_names == m[k.name].common_variable_names + k.common_variable_names,
        apply_one(m, k)[k.name].related_standards == m[k.name].related_standards + k.related_standards,
        apply_one(m, k)[k.name].sibling_standards == m[k.name].sibling_standards + k.sibling_standards,
        apply_one(m, k)[k.name].qartod.subrange(0, m[k.name].qartod.len() as int) == m[k.name].qartod,
        apply_one(m, k)[k.name].extra_attrs == m[k.name].extra_attrs.union_prefer_right(k.extra_attrs),
        apply_one(m, k)[k.name].long_name == k.long_name,
        apply_one(m, k)[k.name].ioos_category == k.ioos_category,
        apply_one(m, k)[k.name].other_units == k.other_units,
        apply_one(m, k)[k.name].comments == k.comments,
{
    let q = apply_one(m, k)[k.name].qartod;
    assert(q.subrange(0, m[k.name].qartod.len() as int) =~= m[k.name].qartod);
}

/// A category that knowledge gives a standard of the library is among the known
/// categories afterwards.
pub proof fn law_category_known(m: Map<Seq<char>, StandardView>, k: KnowledgeView, c: Seq<char>)
    requires
        m.contains_key(k.name),
        k.ioos_category == Some(c),
    ensures
        categories(apply_one(m, k)).contains(c),
{
    assert(apply_one(m, k).contains_key(k.name) && apply_one(m, k)[k.name].ioos_category == Some(c));
}

/// Setting test suites never adds or removes a standard, and replaces only the test
/// suites of the standards it names.
pub proof fn law_suites_keep_names(m: Map<Seq<char>, StandardView>, s: Seq<(Seq<char>, Seq<QcSuiteV>)>)
    ensures
        suites_all(m, s).dom() == m.dom(),
        forall|n: Seq<char>| #[trigger] m.contains_key(n) ==> {
            let r = suites_all(m, s)[n];
            &&& r.name == m[n].name
            &&& r.unit == m[n].unit
            &&& r.aliases == m[n].aliases
            &&& r.common_variable_names == m[n].common_variable_names
            &&& r.extra_attrs == m[n].extra_attrs
            &&& r == StandardView { qartod: r.qartod, ..m[n] }
        },
    decreases s.len(),
{
    if s.len() > 0 {
        law_suites_keep_names(m, s.drop_last());
        let m1 = suites_all(m, s.drop_last());
        let l = s.last();
        if m1.contains_key(l.0) {
            assert(with_suites(m1, l.0, l.1).dom() =~= m1.dom());
        }
    }
}

/// The Xarray attributes name the standard, unless an extra attribute says otherwise.
pub proof fn law_xarray_names_standard(s: StandardView)
    requires
        !s.extra_attrs.contains_key("standard_name"@),
    ensures
        xarray_map(s).contains_key("standard_name"@),
        xarray_map(s)["standard_name"@] == s.name,
{
    reveal_strlit("standard_name");
    reveal_strlit("units");
    reveal_strlit("long_name");
    reveal_strlit("ioos_category");
    assert("units"@.len() != "standard_name"@.len());
    assert("long_name"@.len() != "standard_name"@.len());
    assert("ioos_category"@ != "standard_name"@) by {
        assert("ioos_category"@[0] != "standard_name"@[0]);
    }
}

/// Every extra attribute is among the Xarray attributes, with its value.
pub proof fn law_xarray_extra(s: StandardView, k: Seq<char>)
    requires
        s.extra_attrs.contains_key(k),
    ensures
        xarray_map(s).contains_key(k),
        xarray_map(s)[k] == s.extra_attrs[k],
{
}

/// Chaining two filters keeps, in order, exactly the standards that meet both criteria.
pub proof fn law_filters_chain(
    s: Seq<StandardView>,
    p: spec_fn(StandardView) -> bool,
    q: spec_fn(StandardView) -> bool,
)
    ensures
        s.filter(p).filter(q) == s.filter(|x: StandardView| p(x) && q(x)),
    decreases s.len(),
{
    let both = |x: StandardView| p(x) && q(x);
    if s.len() == 0 {
        assert(s.filter(p) =~= s);
        assert(s.filter(p).filter(q) =~= s);
        assert(s.filter(both) =~= s);
    } else {
        let t = s.drop_last();
        let x = s.last();
        law_filters_chain(t, p, q);
        assert(s =~= t.push(x));
        lemma_filter_push(t, x, p);
        lemma_filter_push(t, x, both);
        if p(x) {
            lemma_filter_push(t.filter(p), x, q);
        }
    }
}

/// The empty pattern matches every standard.
pub proof fn law_empty_pattern_matches(s: StandardView)
    ensures
        matches_spec(s, Seq::<char>::empty()),
{
    let p = lowercase(Seq::<char>::empty());
    assert(p =~= Seq::<char>::empty());
    let h = lowercase(s.name);
    assert(h.subrange(0, 0) =~= p);
    assert(crate::text::occurs_at(h, p, 0));
}

/// Search ignores ASCII case: two ASCII patterns that differ only in the case of their
/// letters match the same standards.
pub proof fn law_search_ignores_ascii_case(s: StandardView, a: Seq<char>, b: Seq<char>)
    requires
        is_ascii_text(a),
        is_ascii_text(b),
        a.len() == b.len(),
        forall|i: int| 0 <= i < a.len() ==> ascii_lower(#[trigger] a[i]) == ascii_lower(b[i]),
    ensures
        matches_spec(s, a) == matches_spec(s, b),
{
    assert(lowercase(a) =~= lowercase(b));
}

/// The full display of a standard starts with its short display and ends with its
/// description, then its comments where it has some; a standard with nothing more to show
/// displays as its short form and its description.
pub proof fn law_display_all_frame(s: StandardView)
    ensures
        all_text(s).len() >= short_text(s).len(),
        all_text(s).subrange(0, short_text(s).len() as int) == short_text(s),
        ({
            let tail = match s.comments {
                Some(c) => "\n\n"@ + s.description + "\n\nComments: "@ + c,
                None => "\n\n"@ + s.description,
            };
            &&& all_text(s).len() >= tail.len()
            &&& all_text(s).subrange(all_text(s).len() - tail.len(), all_text(s).len() as int) == tail
        }),
        (s.aliases.len() == 0 && s.ioos_category is None && s.common_variable_names.len() == 0
            && s.related_standards.len() == 0 && s.sibling_standards.len() == 0
            && s.extra_attrs.dom() == Set::<Seq<char>>::empty() && s.other_units.len() == 0
            && s.qartod.len() == 0 && s.comments is None) ==> all_text(s) == short_text(s) + "\n\n"@
            + s.description,
{
    let p = short_text(s);
    let n = p.len() as int;
    let x1 = p + aliases_part(s);
    assert(x1.subrange(0, n) =~= p);
    let x2 = x1 + category_part(s);
    assert(x2.subrange(0, n) =~= x1.subrange(0, n));
    let x3 = x2 + variables_part(s);
    assert(x3.subrange(0, n) =~= x2.subrange(0, n));
    let x4 = x3 + related_part(s);
    assert(x4.subrange(0, n) =~= x3.subrange(0, n));
    let x5 = x4 + siblings_part(s);
    assert(x5.subrange(0, n) =~= x4.subrange(0, n));
    let x6 = x5 + extra_part(s);
    assert(x6.subrange(0, n) =~= x5.subrange(0, n));
    let x7 = x6 + units_part(s);
    assert(x7.subrange(0, n) =~= x6.subrange(0, n));
    let x8 = x7 + suites_part(s);
    assert(x8.subrange(0, n) =~= x7.subrange(0, n));
    let a = x8 + closing_part(s);
    assert(a == all_text(s));
    assert(a.subrange(0, n) =~= x8.subrange(0, n));
    let t = closing_part(s);
    assert(a.subrange(a.len() - t.len(), a.len() as int) =~= t);
    if s.aliases.len() == 0 && s.ioos_category is None && s.common_variable_names.len() == 0
        && s.related_standards.len() == 0 && s.sibling_standards.len() == 0
        && s.extra_attrs.dom() == Set::<Seq<char>>::empty() && s.other_units.len() == 0
        && s.qartod.len() == 0 && s.comments is None {
        assert(x8 =~= p);
        assert(a =~= p + "\n\n"@ + s.description);
    }
}

/// Setting test suites gives a standard the suites of the last entry that names it, and
/// leaves a standard that no entry names with its own suites.
pub proof fn law_suites_given(m: Map<Seq<char>, StandardView>, s: Seq<(Seq<char>, Seq<QcSuiteV>)>, n: Seq<char>)
    requires
        m.contains_key(n),
    ensures
        suites_all(m, s).contains_key(n),
        (forall|i: int| 0 <= i < s.len() ==> #[trigger] s[i].0 != n) ==> suites_all(m, s)[n] == m[n],
        forall|i: int|
            0 <= i < s.len() && #[trigger] s[i].0 == n && (forall|j: int| i < j < s.len() ==> #[trigger] s[j].0 != n)
                ==> suites_all(m, s)[n].qartod == s[i].1,
    decreases s.len(),
{
    law_suites_keep_names(m, s);
    if s.len() > 0 {
        let t = s.drop_last();
        law_suites_given(m, t, n);
        assert forall|i: int|
            0 <= i < s.len() && #[trigger] s[i].0 == n && (forall|j: int| i < j < s.len() ==> #[trigger] s[j].0 != n)
            implies suites_all(m, s)[n].qartod == s[i].1 by {
            if i < s.len() - 1 {
                assert(s[s.len() - 1].0 != n);
                assert(t[i] == s[i]);
                assert forall|j: int| i < j < t.len() implies #[trigger] t[j].0 != n by {
                    assert(t[j] == s[j]);
                }
            }
        }
        if forall|i: int| 0 <= i < s.len() ==> #[trigger] s[i].0 != n {
            assert forall|i: int| 0 <= i < t.len() implies #[trigger] t[i].0 != n by {
                assert(t[i] == s[i]);
            }
            assert(s[s.len() - 1].0 != n);
        }
    }
}

/// The Xarray attributes hold the unit, the long name and the IOOS category whenever they
/// are given and not empty, each independently of the others, unless an extra attribute
/// of that key says otherwise.
pub proof fn law_xarray_fields(s: StandardView)
    ensures
        s.unit.len() > 0 && !s.extra_attrs.contains_key("units"@) ==> xarray_map(s).contains_key("units"@)
            && xarray_map(s)["units"@] == s.unit,
        (s.long_name matches Some(l) && l.len() > 0) && !s.extra_attrs.contains_key("long_name"@)
            ==> xarray_map(s).contains_key("long_name"@) && Some(xarray_map(s)["long_name"@]) == s.long_name,
        (s.ioos_category matches Some(c) && c.len() > 0) && !s.extra_attrs.contains_key("ioos_category"@)
            ==> xarray_map(s).contains_key("ioos_category"@) && Some(xarray_map(s)["ioos_category"@])
            == s.ioos_category,
        s.unit.len() == 0 && !s.extra_attrs.contains_key("units"@) ==> !xarray_map(s).contains_key("units"@),
        (s.long_name is None || s.long_name == Some(Seq::<char>::empty())) && !s.extra_attrs.contains_key(
            "long_name"@,
        ) ==> !xarray_map(s).contains_key("long_name"@),
        (s.ioos_category is None || s.ioos_category == Some(Seq::<char>::empty())) && !s.extra_attrs.contains_key(
            "ioos_category"@,
        ) ==> !xarray_map(s).contains_key("ioos_category"@),
{
    reveal_strlit("standard_name");
    reveal_strlit("units");
    reveal_strlit("long_name");
    reveal_strlit("ioos_category");
    assert("units"@.len() != "standard_name"@.len());
    assert("long_name"@.len() != "standard_name"@.len());
    assert("long_name"@.len() != "units"@.len());
    assert("ioos_category"@ != "standard_name"@) by {
        assert("ioos_category"@[0] != "standard_name"@[0]);
    }
    assert("ioos_category"@.len() != "units"@.len());
    assert("ioos_category"@.len() != "long_name"@.len());
}

/// What occurs in one text of a chain, each the one before with a tail appended, occurs
/// in the last.
proof fn lemma_occurs_later(xs: Seq<Seq<char>>, ts: Seq<Seq<char>>, k: int, y: Seq<char>)
    requires
        xs.len() == ts.len() + 1,
        forall|j: int| 0 <= j < ts.len() ==> #[trigger] xs[j + 1] == xs[j] + ts[j],
        0 <= k < xs.len(),
        contains_text(xs[k], y),
    ensures
        contains_text(xs[xs.len() - 1], y),
    decreases xs.len() - k,
{
    if k < xs.len() - 1 {
        assert(xs[k + 1] == xs[k] + ts[k]);
        lemma_occurs_extended(xs[k], y, ts[k]);
        lemma_occurs_later(xs, ts, k + 1, y);
    }
}

/// `y` occurs in `x + y`.
proof fn lemma_occurs_at_end(x: Seq<char>, y: Seq<char>)
    ensures
        contains_text(x + y, y),
{
    assert((x + y).subrange(x.len() as int, (x.len() + y.len()) as int) =~= y);
    assert(occurs_at(x + y, y, x.len() as int));
}

/// What occurs in `x` occurs in `x + z`.
proof fn lemma_occurs_extended(x: Seq<char>, y: Seq<char>, z: Seq<char>)
    requires
        contains_text(x, y),
    ensures
        contains_text(x + z, y),
{
    let i = choose|i: int| occurs_at(x, y, i);
    assert((x + z).subrange(i, i + y.len()) =~= x.subrange(i, i + y.len()));
    assert(occurs_at(x + z, y, i));
}

/// The full display shows each list that a standard has: its aliases, IOOS category,
/// common variable names, related and sibling standards, other units and test suites,
/// each under its heading.
pub proof fn law_display_shows_fields(s: StandardView)
    ensures
        s.aliases.len() > 0 ==> contains_text(all_text(s), "\n  Aliases: "@ + join(s.aliases, ", "@)),
        s.ioos_category matches Some(c) ==> contains_text(all_text(s), "\n  IOOS Category: "@ + c),
        s.common_variable_names.len() > 0 ==> contains_text(
            all_text(s),
            "\n  Common variables:\n  - "@ + join(s.common_variable_names, "\n  - "@),
        ),
        s.related_standards.len() > 0 ==> contains_text(
            all_text(s),
            "\n  Related standards: "@ + join(s.related_standards, ", "@),
        ),
        s.sibling_standards.len() > 0 ==> contains_text(
            all_text(s),
            "\n  Sibling standards: "@ + join(s.sibling_standards, ", "@),
        ),
        s.other_units.len() > 0 ==> contains_text(all_text(s), "\n  Other units: "@ + join(s.other_units, ", "@)),
        s.qartod.len() > 0 ==> contains_text(
            all_text(s),
            "\n\n  QARTOD Test Suites:\n  - "@ + join(suite_slugs(s.qartod), "\n  - "@),
        ),
{
    let x0 = short_text(s);
    let x1 = x0 + aliases_part(s);
    let x2 = x1 + category_part(s);
    let x3 = x2 + variables_part(s);
    let x4 = x3 + related_part(s);
    let x5 = x4 + siblings_part(s);
    let x6 = x5 + extra_part(s);
    let x7 = x6 + units_part(s);
    let x8 = x7 + suites_part(s);
    let a = x8 + closing_part(s);
    assert(a == all_text(s));
    let xs = seq![x1, x2, x3, x4, x5, x6, x7, x8, a];
    let tails = seq![category_part(s), variables_part(s), related_part(s), siblings_part(s), extra_part(s), units_part(s), suites_part(s), closing_part(s)];
    assert forall|j: int| 0 <= j < 8 implies #[trigger] xs[j + 1] == xs[j] + tails[j] by {}
    assert forall|k: int, y: Seq<char>| 0 <= k < 9 && #[trigger] contains_text(xs[k], y) implies contains_text(a, y) by {
        lemma_occurs_later(xs, tails, k, y);
    }
    lemma_occurs_at_end(x0, aliases_part(s));
    lemma_occurs_at_end(x1, category_part(s));
    lemma_occurs_at_end(x2, variables_part(s));
    lemma_occurs_at_end(x3, related_part(s));
    lemma_occurs_at_end(x4, siblings_part(s));
    lemma_occurs_at_end(x6, units_part(s));
    lemma_occurs_at_end(x7, suites_part(s));
    assert(xs[0] == x1 && xs[1] == x2 && xs[2] == x3 && xs[3] == x4 && xs[4] == x5 && xs[6] == x7 && xs[7] == x8);
}

/// With test suites, the QARTOD section comes right before the description.
pub proof fn law_display_suites_before_description(s: StandardView)
    requires
        s.qartod.len() > 0,
    ensures
        ({
            let q = "\n\n  QARTOD Test Suites:\n  - "@ + join(suite_slugs(s.qartod), "\n  - "@);
            let t = match s.comments {
                Some(c) => "\n\n"@ + s.description + "\n\nComments: "@ + c,
                None => "\n\n"@ + s.description,
            };
            &&& all_text(s).len() >= q.len() + t.len()
            &&& all_text(s).subrange(all_text(s).len() - t.len() - q.len(), all_text(s).len() as int) == q + t
        }),
{
    let q = suites_part(s);
    let t = closing_part(s);
    let x7 = short_text(s) + aliases_part(s) + category_part(s) + variables_part(s) + related_part(s)
        + siblings_part(s) + extra_part(s) + units_part(s);
    let a = x7 + q + t;
    assert(a == all_text(s));
    assert(a.subrange(a.len() - t.len() - q.len(), a.len() as int) =~= q + t);
}

/// Search finds a standard through any of its searched fields: a field whose lowercase
/// form holds the lowercase form of the pattern makes the standard match.
pub proof fn law_search_fields(s: StandardView, p: Seq<char>, i: int)
    ensures
        contains_text(lowercase(s.name), lowercase(p)) ==> matches_spec(s, p),
        contains_text(lowercase(s.unit), lowercase(p)) ==> matches_spec(s, p),
        contains_text(lowercase(s.description), lowercase(p)) ==> matches_spec(s, p),
        (s.long_name matches Some(l) && contains_text(lowercase(l), lowercase(p))) ==> matches_spec(s, p),
        (s.ioos_category matches Some(c) && contains_text(lowercase(c), lowercase(p))) ==> matches_spec(s, p),
        (s.comments matches Some(c) && contains_text(lowercase(c), lowercase(p))) ==> matches_spec(s, p),
        0 <= i < s.aliases.len() && contains_text(lowercase(s.aliases[i]), lowercase(p)) ==> matches_spec(s, p),
        0 <= i < s.common_variable_names.len() && contains_text(lowercase(s.common_variable_names[i]), lowercase(p))
            ==> matches_spec(s, p),
        0 <= i < s.related_standards.len() && contains_text(lowercase(s.related_standards[i]), lowercase(p))
            ==> matches_spec(s, p),
        0 <= i < s.other_units.len() && contains_text(lowercase(s.other_units[i]), lowercase(p)) ==> matches_spec(
            s,
            p,
        ),
{
    if 0 <= i < s.aliases.len() && contains_text(lowercase(s.aliases[i]), lowercase(p)) {
        assert(crate::standard::hit(s.aliases[i], lowercase(p)));
    }
    if 0 <= i < s.common_variable_names.len() && contains_text(lowercase(s.common_variable_names[i]), lowercase(p)) {
        assert(crate::standard::hit(s.common_variable_names[i], lowercase(p)));
    }
    if 0 <= i < s.related_standards.len() && contains_text(lowercase(s.related_standards[i]), lowercase(p)) {
        assert(crate::standard::hit(s.related_standards[i], lowercase(p)));
    }
    if 0 <= i < s.other_units.len() && contains_text(lowercase(s.other_units[i]), lowercase(p)) {
        assert(crate::standard::hit(s.other_units[i], lowercase(p)));
    }
}

/// Search finds a standard only through its searched fields: where none of the name, long
/// name, unit, description, aliases, IOOS category, common variable names, related
/// standards, other units and comments holds the pattern (ignoring case), it does not match.
pub proof fn law_search_only_fields(s: StandardView, p: Seq<char>)
    requires
        !contains_text(lowercase(s.name), lowercase(p)),
        !contains_text(lowercase(s.unit), lowercase(p)),
        !contains_text(lowercase(s.description), lowercase(p)),
        !(s.long_name matches Some(l) && contains_text(lowercase(l), lowercase(p))),
        !(s.ioos_category matches Some(c) && contains_text(lowercase(c), lowercase(p))),
        !(s.comments matches Some(c) && contains_text(lowercase(c), lowercase(p))),
        forall|i: int| 0 <= i < s.aliases.len() ==> !contains_text(lowercase(#[trigger] s.aliases[i]), lowercase(p)),
        forall|i: int|
            0 <= i < s.common_variable_names.len() ==> !contains_text(
                lowercase(#[trigger] s.common_variable_names[i]),
                lowercase(p),
            ),
        forall|i: int|
            0 <= i < s.related_standards.len() ==> !contains_text(lowercase(#[trigger] s.related_standards[i]), lowercase(p)),
        forall|i: int| 0 <= i < s.other_units.len() ==> !contains_text(lowercase(#[trigger] s.other_units[i]), lowercase(p)),
    ensures
        !matches_spec(s, p),
{
}

/// A standard is kept by a variable-name filter whenever any one of its common variable
/// names reads like the name asked for, ignoring case and underscores, and only then.
pub proof fn law_variable_name_any(s: StandardView, name: Seq<char>, i: int)
    ensures
        0 <= i < s.common_variable_names.len() && folded(s.common_variable_names[i]) == folded(name)
            ==> has_variable_name(s, name),
        has_variable_name(s, name) ==> exists|j: int|
            0 <= j < s.common_variable_names.len() && lowercase(#[trigger] s.common_variable_names[j]).filter(
                |c: char| c != '_',
            ) == lowercase(name).filter(|c: char| c != '_'),
{
    if 0 <= i < s.common_variable_names.len() && folded(s.common_variable_names[i]) == folded(name) {
        assert(folded(s.common_variable_names[i]) == folded(name));
    }
}

/// The short display starts with the name and ends with the unit, with the long name
/// between them where there is one.
pub proof fn law_short_display(s: StandardView)
    ensures
        short_text(s).len() >= s.name.len() + s.unit.len(),
        short_text(s).subrange(0, s.name.len() as int) == s.name,
        short_text(s).subrange(short_text(s).len() - s.unit.len(), short_text(s).len() as int) == s.unit,
        s.long_name matches Some(l) ==> contains_text(short_text(s), " - "@ + l + " - "@),
        s.long_name is None ==> short_text(s) == s.name + " - "@ + s.unit,
{
    let t = short_text(s);
    assert(t.subrange(0, s.name.len() as int) =~= s.name);
    assert(t.subrange(t.len() - s.unit.len(), t.len() as int) =~= s.unit);
    if let Some(l) = s.long_name {
        let m = " - "@ + l + " - "@;
        assert(t =~= s.name + m + s.unit);
        lemma_occurs_at_end(s.name, m);
        lemma_occurs_extended(s.name + m, m, s.unit);
    }
}

/// The criteria of the filters: a unit filter keeps exactly the standards in that unit, a
/// category filter those whose category is the one asked for in any ASCII case, and the
/// test-suite filter those with at least one suite.
pub proof fn law_filter_criteria(s: StandardView, u: Seq<char>, a: Seq<char>, b: Seq<char>)
    ensures
        has_unit(s, u) <==> s.unit == u,
        has_tests(s) <==> s.qartod.len() > 0,
        s.ioos_category == Some(a) ==> in_category(s, a),
        s.ioos_category is None ==> !in_category(s, a),
        is_ascii_text(a) && is_ascii_text(b) && a.len() == b.len() && (forall|i: int|
            0 <= i < a.len() ==> ascii_lower(#[trigger] a[i]) == ascii_lower(b[i])) ==> in_category(s, a)
            == in_category(s, b),
{
    if is_ascii_text(a) && is_ascii_text(b) && a.len() == b.len() && (forall|i: int|
        0 <= i < a.len() ==> ascii_lower(#[trigger] a[i]) == ascii_lower(b[i])) {
        assert(lowercase(a) =~= lowercase(b));
    }
}

/// A standard is found in a search index under its non-empty name, each alias, common
/// variable name, related and sibling standard and other unit, and the name and the
/// description of each test suite.
pub proof fn law_index_holds(s: StandardView, i: int)
    requires
        s.extra_attrs.dom().finite(),
    ensures
        s.name.len() > 0 ==> index_texts(s).contains(s.name),
        0 <= i < s.aliases.len() ==> index_texts(s).contains(s.aliases[i]),
        0 <= i < s.common_variable_names.len() ==> index_texts(s).contains(s.common_variable_names[i]),
        0 <= i < s.related_standards.len() ==> index_texts(s).contains(s.related_standards[i]),
        0 <= i < s.sibling_standards.len() ==> index_texts(s).contains(s.sibling_standards[i]),
        0 <= i < s.other_units.len() ==> index_texts(s).contains(s.other_units[i]),
        0 <= i < s.qartod.len() ==> index_texts(s).contains(s.qartod[i].name),
        0 <= i < s.qartod.len() ==> index_texts(s).contains(s.qartod[i].description),
        forall|k: int| 0 <= k < index_texts(s).len() && #[trigger] index_texts(s)[k] == Seq::<char>::empty() ==> {
            ||| s.aliases.contains(Seq::<char>::empty())
            ||| s.common_variable_names.contains(Seq::<char>::empty())
            ||| s.related_standards.contains(Seq::<char>::empty())
            ||| s.sibling_standards.contains(Seq::<char>::empty())
            ||| s.extra_attrs.contains_key(Seq::<char>::empty())
            ||| s.other_units.contains(Seq::<char>::empty())
            ||| crate::standard::suite_names(s.qartod).contains(Seq::<char>::empty())
            ||| crate::standard::suite_descriptions(s.qartod).contains(Seq::<char>::empty())
        },
{
    let f = |x: Seq<char>| x.len() > 0;
    let six = seq![s.name, crate::standard::or_empty(s.long_name), s.unit, s.description, crate::standard::or_empty(s.ioos_category), crate::standard::or_empty(s.comments)];
    let h = six.filter(f);
    let keys = sorted_listing(s.extra_attrs).map_values(|e: (Seq<char>, Seq<char>)| e.0);
    let sn = crate::standard::suite_names(s.qartod);
    let sd = crate::standard::suite_descriptions(s.qartod);
    let a1 = h + s.aliases;
    let a2 = a1 + s.common_variable_names;
    let a3 = a2 + s.related_standards;
    let a4 = a3 + s.sibling_standards;
    let a5 = a4 + keys;
    let a6 = a5 + s.other_units;
    let a7 = a6 + sn;
    let a8 = a7 + sd;
    assert(a8 == index_texts(s));
    broadcast use vstd::seq_lib::group_filter_ensures;
    if s.name.len() > 0 {
        assert(six[0] == s.name);
        assert(h.contains(s.name));
        assert(a8[h.index_of(s.name)] == s.name);
    }
    if 0 <= i < s.aliases.len() {
        assert(a8[h.len() + i] == s.aliases[i]);
    }
    if 0 <= i < s.common_variable_names.len() {
        assert(a8[a1.len() + i] == s.common_variable_names[i]);
    }
    if 0 <= i < s.related_standards.len() {
        assert(a8[a2.len() + i] == s.related_standards[i]);
    }
    if 0 <= i < s.sibling_standards.len() {
        assert(a8[a3.len() + i] == s.sibling_standards[i]);
    }
    if 0 <= i < s.other_units.len() {
        assert(a8[a5.len() + i] == s.other_units[i]);
    }
    if 0 <= i < s.qartod.len() {
        assert(a8[a6.len() + i] == s.qartod[i].name);
        assert(a8[a7.len() + i] == s.qartod[i].description);
    }
    assert forall|k: int| 0 <= k < a8.len() && #[trigger] a8[k] == Seq::<char>::empty() implies {
        ||| s.aliases.contains(Seq::<char>::empty())
        ||| s.common_variable_names.contains(Seq::<char>::empty())
        ||| s.related_standards.contains(Seq::<char>::empty())
        ||| s.sibling_standards.contains(Seq::<char>::empty())
        ||| s.extra_attrs.contains_key(Seq::<char>::empty())
        ||| s.other_units.contains(Seq::<char>::empty())
        ||| sn.contains(Seq::<char>::empty())
        ||| sd.contains(Seq::<char>::empty())
    } by {
        if k < h.len() {
            assert(f(h[k]));
        } else if k < a1.len() {
            assert(s.aliases[k - h.len()] == a8[k]);
        } else if k < a2.len() {
            assert(s.common_variable_names[k - a1.len()] == a8[k]);
        } else if k < a3.len() {
            assert(s.related_standards[k - a2.len()] == a8[k]);
        } else if k < a4.len() {
            assert(s.sibling_standards[k - a3.len()] == a8[k]);
        } else if k < a5.len() {
            let j = k - a4.len();
            crate::assoc::lemma_listing_exists(s.extra_attrs);
            assert(keys[j] == sorted_listing(s.extra_attrs)[j].0);
            crate::assoc::lemma_entries_map_index(sorted_listing(s.extra_attrs), j);
        } else if k < a6.len() {
            assert(s.other_units[k - a5.len()] == a8[k]);
        } else if k < a7.len() {
            assert(sn[k - a6.len()] == a8[k]);
        } else {
            assert(sd[k - a7.len()] == a8[k]);
        }
    }
}

} // verus!
