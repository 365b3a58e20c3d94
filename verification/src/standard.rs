//! A CF standard together with the operational knowledge attached to it.
use vstd::prelude::*;
use crate::assoc::{keys_sorted, lemma_sorted_listing, sorted_listing, text_entries, text_insert, text_map, text_merge};
use crate::text::{
    opt_eq, strings_eq, chars_of, contains_ignoring_case, contains_text, copy_opt, copy_strings, join, join_strings,
    lines_of, lowercase, opt_str, prefix_lines, prefixed, string_from_chars, strs, to_lowercase,
};
use crate::tree::{copy_tree, Tree, TreeV};

verus! {

/// A QARTOD test suite attached to a standard: its slug, the name and description it
/// presents itself with, and its configuration document.
#[derive(Debug, Clone)]
pub struct QcSuite {
    pub slug: String,
    pub name: String,
    pub description: String,
    pub config: Tree,
}

/// The mathematical value of a test suite.
pub struct QcSuiteV {
    pub slug: Seq<char>,
    pub name: Seq<char>,
    pub description: Seq<char>,
    pub config: TreeV,
}

impl View for QcSuite {
    type V = QcSuiteV;

    open spec fn view(&self) -> QcSuiteV {
        QcSuiteV { slug: self.slug@, name: self.name@, description: self.description@, config: self.config@ }
    }
}

/// The views of a sequence of test suites.
pub open spec fn suites(v: Seq<QcSuite>) -> Seq<QcSuiteV> {
    v.map_values(|q: QcSuite| q@)
}

/// A copy of a vector of test suites.
pub fn copy_suites(v: &Vec<QcSuite>) -> (r: Vec<QcSuite>)
    ensures
        suites(r@) == suites(v@),
{
    let mut out: Vec<QcSuite> = Vec::new();
    let mut i: usize = 0;
    while i < v.len()
        invariant
            i <= v.len(),
            out@.len() == i,
            forall|j: int| 0 <= j < i ==> (#[trigger] out@[j])@ == v@[j]@,
        decreases v.len() - i,
    {
        out.push(
            QcSuite {
                slug: v[i].slug.clone(),
                name: v[i].name.clone(),
                description: v[i].description.clone(),
                config: copy_tree(&v[i].config),
            },
        );
        i = i + 1;
    }
    assert(suites(out@) =~= suites(v@));
    out
}

/// A CF standard name and what is known about it.
#[derive(Debug, Clone)]
pub struct Standard {
    pub name: String,
    /// Human readable name
    pub long_name: Option<String>,
    pub unit: String,
    pub description: String,
    pub aliases: Vec<String>,
    /// Usual IOOS category for the standard
    pub ioos_category: Option<String>,
    /// Common variable names in a dataset
    pub common_variable_names: Vec<String>,
    /// Other standards to consider
    pub related_standards: Vec<String>,
    /// Standards that are usually used together
    pub sibling_standards: Vec<String>,
    /// Extra attributes that are usually included in Xarray or NetCDF metadata,
    /// kept in key order
    pub extra_attrs: Vec<(String, String)>,
    /// Other units that may be seen
    pub other_units: Vec<String>,
    /// Community comments on standard usage
    pub comments: Option<String>,
    /// QARTOD test suites
    pub qartod: Vec<QcSuite>,
}

/// The mathematical value of a standard.
pub struct StandardView {
    pub name: Seq<char>,
    pub long_name: Option<Seq<char>>,
    pub unit: Seq<char>,
    pub description: Seq<char>,
    pub aliases: Seq<Seq<char>>,
    pub ioos_category: Option<Seq<char>>,
    pub common_variable_names: Seq<Seq<char>>,
    pub related_standards: Seq<Seq<char>>,
    pub sibling_standards: Seq<Seq<char>>,
    pub extra_attrs: Map<Seq<char>, Seq<char>>,
    pub other_units: Seq<Seq<char>>,
    pub comments: Option<Seq<char>>,
    pub qartod: Seq<QcSuiteV>,
}

impl View for Standard {
    type V = StandardView;

    open spec fn view(&self) -> StandardView {
        StandardView {
            name: self.name@,
            long_name: opt_str(self.long_name),
            unit: self.unit@,
            description: self.description@,
            aliases: strs(self.aliases@),
            ioos_category: opt_str(self.ioos_category),
            common_variable_names: strs(self.common_variable_names@),
            related_standards: strs(self.related_standards@),
            sibling_standards: strs(self.sibling_standards@),
            extra_attrs: text_map(self.extra_attrs@),
            other_units: strs(self.other_units@),
            comments: opt_str(self.comments),
            qartod: suites(self.qartod@),
        }
    }
}

/// `name - long_name - unit`, or `name - unit` without a long name.
pub open spec fn short_text(s: StandardView) -> Seq<char> {
    match s.long_name {
        Some(l) => s.name + " - "@ + l + " - "@ + s.unit,
        None => s.name + " - "@ + s.unit,
    }
}

/// The attributes a standard gives an Xarray variable: its name, unit, long name and
/// IOOS category where they are not empty, with the extra attributes over them.
pub open spec fn xarray_map(s: StandardView) -> Map<Seq<char>, Seq<char>> {
    let m0 = Map::<Seq<char>, Seq<char>>::empty().insert("standard_name"@, s.name);
    let m1 = if s.unit.len() > 0 {
        m0.insert("units"@, s.unit)
    } else {
        m0
    };
    let m2 = match s.long_name {
        Some(l) => if l.len() > 0 {
            m1.insert("long_name"@, l)
        } else {
            m1
        },
        None => m1,
    };
    let m3 = match s.ioos_category {
        Some(c) => if c.len() > 0 {
            m2.insert("ioos_category"@, c)
        } else {
            m2
        },
        None => m2,
    };
    m3.union_prefer_right(s.extra_attrs)
}

/// One line per attribute, in key order: `\n  "key": "value",`.
pub open spec fn attr_lines(e: Seq<(Seq<char>, Seq<char>)>) -> Seq<char>
    decreases e.len(),
{
    if e.len() == 0 {
        Seq::empty()
    } else {
        attr_lines(e.drop_last()) + "\n  \""@ + e.last().0 + "\": \""@ + e.last().1 + "\","@
    }
}

/// The Xarray attributes of a standard as text.
pub open spec fn xarray_text(s: StandardView) -> Seq<char> {
    "{"@ + attr_lines(sorted_listing(xarray_map(s))) + "\n}"@
}

/// The lowercase form of `field` holds `pattern`.
pub open spec fn hit(field: Seq<char>, pattern: Seq<char>) -> bool {
    contains_text(lowercase(field), pattern)
}

/// The field is present and its lowercase form holds `pattern`.
pub open spec fn opt_hit(field: Option<Seq<char>>, pattern: Seq<char>) -> bool {
    match field {
        Some(f) => hit(f, pattern),
        None => false,
    }
}

/// The lowercase form of one of `fields` holds `pattern`.
pub open spec fn any_hit(fields: Seq<Seq<char>>, pattern: Seq<char>) -> bool {
    exists|i: int| 0 <= i < fields.len() && hit(#[trigger] fields[i], pattern)
}

/// The lowercase form of `search` occurs in the lowercase form of the name, long name,
/// unit, description, an alias, the IOOS category, a common variable name, a related
/// standard, another unit or the comments.
pub open spec fn matches_spec(s: StandardView, search: Seq<char>) -> bool {
    let p = lowercase(search);
    ||| hit(s.name, p)
    ||| opt_hit(s.long_name, p)
    ||| hit(s.unit, p)
    ||| hit(s.description, p)
    ||| any_hit(s.aliases, p)
    ||| opt_hit(s.ioos_category, p)
    ||| any_hit(s.common_variable_names, p)
    ||| any_hit(s.related_standards, p)
    ||| any_hit(s.other_units, p)
    ||| opt_hit(s.comments, p)
}

/// The slugs of a sequence of test suites.
pub open spec fn suite_slugs(q: Seq<QcSuiteV>) -> Seq<Seq<char>> {
    q.map_values(|x: QcSuiteV| x.slug)
}

/// The names of a sequence of test suites.
pub open spec fn suite_names(q: Seq<QcSuiteV>) -> Seq<Seq<char>> {
    q.map_values(|x: QcSuiteV| x.name)
}

/// The descriptions of a sequence of test suites.
pub open spec fn suite_descriptions(q: Seq<QcSuiteV>) -> Seq<Seq<char>> {
    q.map_values(|x: QcSuiteV| x.description)
}

/// The aliases line of the full display, where there are aliases.
pub open spec fn aliases_part(s: StandardView) -> Seq<char> {
    if s.aliases.len() > 0 {
        "\n  Aliases: "@ + join(s.aliases, ", "@)
    } else {
        Seq::empty()
    }
}

/// The IOOS category line of the full display, where there is a category.
pub open spec fn category_part(s: StandardView) -> Seq<char> {
    match s.ioos_category {
        Some(c) => "\n  IOOS Category: "@ + c,
        None => Seq::empty(),
    }
}

/// The common variable names of the full display, one per line, where there are some.
pub open spec fn variables_part(s: StandardView) -> Seq<char> {
    if s.common_variable_names.len() > 0 {
        "\n  Common variables:\n  - "@ + join(s.common_variable_names, "\n  - "@)
    } else {
        Seq::empty()
    }
}

/// The related standards line of the full display, where there are some.
pub open spec fn related_part(s: StandardView) -> Seq<char> {
    if s.related_standards.len() > 0 {
        "\n  Related standards: "@ + join(s.related_standards, ", "@)
    } else {
        Seq::empty()
    }
}

/// The sibling standards line of the full display, where there are some.
pub open spec fn siblings_part(s: StandardView) -> Seq<char> {
    if s.sibling_standards.len() > 0 {
        "\n  Sibling standards: "@ + join(s.sibling_standards, ", "@)
    } else {
        Seq::empty()
    }
}

/// The Xarray attributes of the full display, indented, where there are extra attributes.
pub open spec fn extra_part(s: StandardView) -> Seq<char> {
    if s.extra_attrs.dom() != Set::<Seq<char>>::empty() {
        "\n  Extra attributes:\n"@ + join(prefixed(lines_of(xarray_text(s)), "    "@), seq!['\n'])
    } else {
        Seq::empty()
    }
}

/// The other units line of the full display, where there are some.
pub open spec fn units_part(s: StandardView) -> Seq<char> {
    if s.other_units.len() > 0 {
        "\n  Other units: "@ + join(s.other_units, ", "@)
    } else {
        Seq::empty()
    }
}

/// The test suites of the full display, one per line, where there are some.
pub open spec fn suites_part(s: StandardView) -> Seq<char> {
    if s.qartod.len() > 0 {
        "\n\n  QARTOD Test Suites:\n  - "@ + join(suite_slugs(s.qartod), "\n  - "@)
    } else {
        Seq::empty()
    }
}

/// The end of the full display: the description, then the comments where there are some.
pub open spec fn closing_part(s: StandardView) -> Seq<char> {
    match s.comments {
        Some(c) => "\n\n"@ + s.description + "\n\nComments: "@ + c,
        None => "\n\n"@ + s.description,
    }
}

/// Everything known of a standard, as text: the short form, then each part in turn.
pub open spec fn all_text(s: StandardView) -> Seq<char> {
    short_text(s) + aliases_part(s) + category_part(s) + variables_part(s) + related_part(s) + siblings_part(s)
        + extra_part(s) + units_part(s) + suites_part(s) + closing_part(s)
}

fn any_contains(fields: &Vec<String>, pattern: &Vec<char>) -> (r: bool)
    ensures
        r == any_hit(strs(fields@), pattern@),
{
    let mut i: usize = 0;
    while i < fields.len()
        invariant
            i <= fields.len(),
            forall|j: int| 0 <= j < i ==> !hit(#[trigger] strs(fields@)[j], pattern@),
        decreases fields.len() - i,
    {
        if contains_ignoring_case(fields[i].as_str(), pattern) {
            assert(hit(strs(fields@)[i as int], pattern@));
            return true;
        }
        i = i + 1;
    }
    false
}

fn opt_contains(field: &Option<String>, pattern: &Vec<char>) -> (r: bool)
    ensures
        r == opt_hit(opt_str(*field), pattern@),
{
    match field {
        Some(f) => contains_ignoring_case(f.as_str(), pattern),
        None => false,
    }
}

/// The text of an optional field, empty where it is absent.
pub open spec fn or_empty(o: Option<Seq<char>>) -> Seq<char> {
    match o {
        Some(x) => x,
        None => Seq::empty(),
    }
}

/// The texts under which a standard is found in a search index: its non-empty name,
/// long name, unit, description, IOOS category and comments, then its aliases, common
/// variable names, related and sibling standards, extra attribute keys in key order,
/// other units, and the names and then the descriptions of the test suites.
pub open spec fn index_texts(s: StandardView) -> Seq<Seq<char>> {
    seq![s.name, or_empty(s.long_name), s.unit, s.description, or_empty(s.ioos_category), or_empty(s.comments)]
        .filter(|x: Seq<char>| x.len() > 0) + s.aliases + s.common_variable_names + s.related_standards
        + s.sibling_standards + sorted_listing(s.extra_attrs).map_values(
        |e: (Seq<char>, Seq<char>)| e.0,
    ) + s.other_units + suite_names(s.qartod) + suite_descriptions(s.qartod)
}

proof fn lemma_filter_six(six: Seq<Seq<char>>, f: spec_fn(Seq<char>) -> bool)
    requires
        six.len() == 6,
    ensures
        six.filter(f) == seq![six[0]].filter(f) + seq![six[1]].filter(f) + seq![six[2]].filter(f)
            + seq![six[3]].filter(f) + seq![six[4]].filter(f) + seq![six[5]].filter(f),
{
    assert(six =~= seq![six[0]] + seq![six[1]] + seq![six[2]] + seq![six[3]] + seq![six[4]] + seq![six[5]]);
    Seq::filter_distributes_over_add(seq![six[0]] + seq![six[1]] + seq![six[2]] + seq![six[3]] + seq![six[4]], seq![six[5]], f);
    Seq::filter_distributes_over_add(seq![six[0]] + seq![six[1]] + seq![six[2]] + seq![six[3]], seq![six[4]], f);
    Seq::filter_distributes_over_add(seq![six[0]] + seq![six[1]] + seq![six[2]], seq![six[3]], f);
    Seq::filter_distributes_over_add(seq![six[0]] + seq![six[1]], seq![six[2]], f);
    Seq::filter_distributes_over_add(seq![six[0]], seq![six[1]], f);
}

fn push_strings(out: &mut Vec<String>, v: &Vec<String>)
    ensures
        strs(final(out)@) == strs(old(out)@) + strs(v@),
{
    let ghost init = strs(out@);
    let mut i: usize = 0;
    while i < v.len()
        invariant
            i <= v.len(),
            strs(out@) == init + strs(v@).take(i as int),
        decreases v.len() - i,
    {
        let ghost prev = out@;
        out.push(v[i].clone());
        assert(strs(out@) =~= strs(prev).push(v@[i as int]@));
        assert(strs(out@) =~= init + strs(v@).take(i + 1));
        i = i + 1;
    }
    assert(strs(v@).take(v.len() as int) =~= strs(v@));
}

fn push_nonempty(out: &mut Vec<String>, s: &String)
    ensures
        strs(final(out)@) == strs(old(out)@) + seq![s@].filter(|x: Seq<char>| x.len() > 0),
{
    proof {
        reveal_with_fuel(Seq::filter, 2);
    }
    if !s.as_str().is_empty() {
        out.push(s.clone());
        assert(seq![s@].filter(|x: Seq<char>| x.len() > 0) =~= seq![s@]);
        assert(strs(out@) =~= strs(old(out)@) + seq![s@]);
    } else {
        assert(seq![s@].filter(|x: Seq<char>| x.len() > 0) =~= Seq::<Seq<char>>::empty());
        assert(strs(out@) =~= strs(old(out)@) + Seq::<Seq<char>>::empty());
    }
}

impl Default for Standard {
    fn default() -> (r: Standard)
        ensures
            r.wf(),
            r@.name == Seq::<char>::empty(),
            r@.long_name is None,
            r@.unit == Seq::<char>::empty(),
            r@.description == Seq::<char>::empty(),
            r@.aliases.len() == 0,
            r@.ioos_category is None,
            r@.common_variable_names.len() == 0,
            r@.related_standards.len() == 0,
            r@.sibling_standards.len() == 0,
            r@.extra_attrs == Map::<Seq<char>, Seq<char>>::empty(),
            r@.other_units.len() == 0,
            r@.comments is None,
            r@.qartod.len() == 0,
    {
        let r = Standard {
            name: String::new(),
            long_name: None,
            unit: String::new(),
            description: String::new(),
            aliases: Vec::new(),
            ioos_category: None,
            common_variable_names: Vec::new(),
            related_standards: Vec::new(),
            sibling_standards: Vec::new(),
            extra_attrs: Vec::new(),
            other_units: Vec::new(),
            comments: None,
            qartod: Vec::new(),
        };
        assert(text_map(r.extra_attrs@) =~= Map::<Seq<char>, Seq<char>>::empty());
        r
    }
}

impl Standard {
    /// The extra attributes are in key order.
    pub open spec fn wf(&self) -> bool {
        keys_sorted(self.extra_attrs@)
    }

    /// A copy of this standard.
    pub fn copy(&self) -> (r: Standard)
        ensures
            r@ == self@,
            r.extra_attrs@ == self.extra_attrs@,
    {
        Standard {
            name: self.name.clone(),
            long_name: copy_opt(&self.long_name),
            unit: self.unit.clone(),
            description: self.description.clone(),
            aliases: copy_strings(&self.aliases),
            ioos_category: copy_opt(&self.ioos_category),
            common_variable_names: copy_strings(&self.common_variable_names),
            related_standards: copy_strings(&self.related_standards),
            sibling_standards: copy_strings(&self.sibling_standards),
            extra_attrs: copy_pairs(&self.extra_attrs),
            other_units: copy_strings(&self.other_units),
            comments: copy_opt(&self.comments),
            qartod: copy_suites(&self.qartod),
        }
    }

    /// Short format
    pub fn display_short(&self) -> (r: String)
        ensures
            r@ == short_text(self@),
    {
        let mut out = self.name.clone();
        out.append(" - ");
        if let Some(long_name) = &self.long_name {
            out.append(long_name.as_str());
            out.append(" - ");
        }
        out.append(self.unit.as_str());
        out
    }

    /// Attributes displayed with Xarray, in key order
    pub fn xarray_attrs(&self) -> (r: Vec<(String, String)>)
        requires
            self.wf(),
        ensures
            keys_sorted(r@),
            text_map(r@) == xarray_map(self@),
    {
        let ghost s = self@;
        let mut map: Vec<(String, String)> = Vec::new();
        assert(text_map(map@) =~= Map::<Seq<char>, Seq<char>>::empty());
        text_insert(&mut map, String::from_str("standard_name"), self.name.clone());
        if !self.unit.as_str().is_empty() {
            text_insert(&mut map, String::from_str("units"), self.unit.clone());
        }
        if let Some(long_name) = &self.long_name {
            if !long_name.as_str().is_empty() {
                text_insert(&mut map, String::from_str("long_name"), long_name.clone());
            }
        }
        if let Some(ioos_category) = &self.ioos_category {
            if !ioos_category.as_str().is_empty() {
                text_insert(&mut map, String::from_str("ioos_category"), ioos_category.clone());
            }
        }
        text_merge(&mut map, &self.extra_attrs);
        map
    }

    /// Do any of the fields in the standard match a search pattern
    pub fn matches_pattern(&self, search_str: &str) -> (r: bool)
        ensures
            r == matches_spec(self@, search_str@),
    {
        let lower = to_lowercase(search_str);
        let p = chars_of(lower.as_str());
        contains_ignoring_case(self.name.as_str(), &p) || opt_contains(&self.long_name, &p)
            || contains_ignoring_case(self.unit.as_str(), &p) || contains_ignoring_case(
            self.description.as_str(),
            &p,
        ) || any_contains(&self.aliases, &p) || opt_contains(&self.ioos_category, &p)
            || any_contains(&self.common_variable_names, &p) || any_contains(
            &self.related_standards,
            &p,
        ) || any_contains(&self.other_units, &p) || opt_contains(&self.comments, &p)
    }

    /// Display all the fields for a standard
    pub fn display_all(&self) -> (r: String)
        requires
            self.wf(),
        ensures
            r@ == all_text(self@),
    {
        let mut output = self.display_short();
        self.push_lists(&mut output);
        self.push_extra(&mut output);
        self.push_closing(&mut output);
        output
    }

    /// Appends the aliases, IOOS category, common variable names, related and sibling
    /// standards parts of the full display.
    fn push_lists(&self, output: &mut String)
        ensures
            final(output)@ == old(output)@ + aliases_part(self@) + category_part(self@) + variables_part(self@)
                + related_part(self@) + siblings_part(self@),
    {
        let ghost v = self@;
        let ghost o = output@;
        if self.aliases.len() > 0 {
            output.append("\n  Aliases: ");
            output.append(join_strings(&self.aliases, ", ").as_str());
        }
        assert(output@ =~= o + aliases_part(v));
        let ghost o = output@;
        if let Some(ioos_category) = &self.ioos_category {
            output.append("\n  IOOS Category: ");
            output.append(ioos_category.as_str());
        }
        assert(output@ =~= o + category_part(v));
        let ghost o = output@;
        if self.common_variable_names.len() > 0 {
            output.append("\n  Common variables:\n  - ");
            output.append(join_strings(&self.common_variable_names, "\n  - ").as_str());
        }
        assert(output@ =~= o + variables_part(v));
        let ghost o = output@;
        if self.related_standards.len() > 0 {
            output.append("\n  Related standards: ");
            output.append(join_strings(&self.related_standards, ", ").as_str());
        }
        assert(output@ =~= o + related_part(v));
        let ghost o = output@;
        if self.sibling_standards.len() > 0 {
            output.append("\n  Sibling standards: ");
            output.append(join_strings(&self.sibling_standards, ", ").as_str());
        }
        assert(output@ =~= o + siblings_part(v));
    }

    /// Appends the extra attributes part of the full display.
    fn push_extra(&self, output: &mut String)
        requires
            self.wf(),
        ensures
            final(output)@ == old(output)@ + extra_part(self@),
    {
        proof {
            if self.extra_attrs.len() > 0 {
                assert(text_map(self.extra_attrs@).dom().contains(self.extra_attrs@[0].0@));
            } else {
                assert(text_map(self.extra_attrs@).dom() =~= Set::<Seq<char>>::empty());
            }
        }
        let ghost o = output@;
        if self.extra_attrs.len() > 0 {
            let attrs_text = self.display_xarray_attrs();
            let text_chars = chars_of(attrs_text.as_str());
            let indent = chars_of("    ");
            let indented = prefix_lines(&text_chars, &indent);
            output.append("\n  Extra attributes:\n");
            output.append(string_from_chars(&indented).as_str());
        }
        assert(output@ =~= o + extra_part(self@));
    }

    /// Appends the other units, test suites and closing parts of the full display.
    fn push_closing(&self, output: &mut String)
        ensures
            final(output)@ == old(output)@ + units_part(self@) + suites_part(self@) + closing_part(self@),
    {
        let ghost v = self@;
        let ghost o = output@;
        if self.other_units.len() > 0 {
            output.append("\n  Other units: ");
            output.append(join_strings(&self.other_units, ", ").as_str());
        }
        assert(output@ =~= o + units_part(v));
        let ghost o = output@;
        if self.qartod.len() > 0 {
            let mut slugs: Vec<String> = Vec::new();
            let mut i: usize = 0;
            while i < self.qartod.len()
                invariant
                    i <= self.qartod.len(),
                    slugs@.len() == i,
                    forall|j: int| 0 <= j < i ==> (#[trigger] slugs@[j])@ == self.qartod@[j].slug@,
                decreases self.qartod.len() - i,
            {
                slugs.push(self.qartod[i].slug.clone());
                i = i + 1;
            }
            assert(strs(slugs@) =~= suite_slugs(suites(self.qartod@)));
            output.append("\n\n  QARTOD Test Suites:\n  - ");
            output.append(join_strings(&slugs, "\n  - ").as_str());
        }
        assert(output@ =~= o + suites_part(v));
        let ghost o = output@;
        output.append("\n\n");
        output.append(self.description.as_str());
        if let Some(comments) = &self.comments {
            output.append("\n\nComments: ");
            output.append(comments.as_str());
        }
        assert(output@ =~= o + closing_part(v));
    }

    /// The texts under which this standard is found in a search index.
    pub fn index_strings(&self) -> (r: Vec<String>)
        requires
            self.wf(),
        ensures
            strs(r@) == index_texts(self@),
    {
        let ghost s = self@;
        let empty = String::new();
        let long_name = match &self.long_name { Some(x) => x.clone(), None => String::new() };
        let ioos = match &self.ioos_category { Some(x) => x.clone(), None => String::new() };
        let comments = match &self.comments { Some(x) => x.clone(), None => String::new() };
        let mut out: Vec<String> = Vec::new();
        push_nonempty(&mut out, &self.name);
        push_nonempty(&mut out, &long_name);
        push_nonempty(&mut out, &self.unit);
        push_nonempty(&mut out, &self.description);
        push_nonempty(&mut out, &ioos);
        push_nonempty(&mut out, &comments);
        proof {
            let f = |x: Seq<char>| x.len() > 0;
            let six = seq![s.name, or_empty(s.long_name), s.unit, s.description, or_empty(s.ioos_category), or_empty(s.comments)];
            lemma_filter_six(six, f);
            assert(strs(out@) =~= six.filter(f));
        }
        push_strings(&mut out, &self.aliases);
        push_strings(&mut out, &self.common_variable_names);
        push_strings(&mut out, &self.related_standards);
        push_strings(&mut out, &self.sibling_standards);
        let mut keys: Vec<String> = Vec::new();
        let mut i: usize = 0;
        while i < self.extra_attrs.len()
            invariant
                i <= self.extra_attrs.len(),
                keys@.len() == i,
                forall|j: int| 0 <= j < i ==> (#[trigger] keys@[j])@ == self.extra_attrs@[j].0@,
            decreases self.extra_attrs.len() - i,
        {
            keys.push(self.extra_attrs[i].0.clone());
            i = i + 1;
        }
        proof {
            lemma_sorted_listing(self.extra_attrs@);
            assert(strs(keys@) =~= sorted_listing(s.extra_attrs).map_values(
                |e: (Seq<char>, Seq<char>)| e.0,
            ));
        }
        push_strings(&mut out, &keys);
        push_strings(&mut out, &self.other_units);
        let mut names: Vec<String> = Vec::new();
        let mut descriptions: Vec<String> = Vec::new();
        let mut i: usize = 0;
        while i < self.qartod.len()
            invariant
                i <= self.qartod.len(),
                names@.len() == i,
                descriptions@.len() == i,
                forall|j: int| 0 <= j < i ==> (#[trigger] names@[j])@ == self.qartod@[j].name@,
                forall|j: int| 0 <= j < i ==> (#[trigger] descriptions@[j])@ == self.qartod@[j].description@,
            decreases self.qartod.len() - i,
        {
            names.push(self.qartod[i].name.clone());
            descriptions.push(self.qartod[i].description.clone());
            i = i + 1;
        }
        assert(strs(names@) =~= suite_names(s.qartod));
        assert(strs(descriptions@) =~= suite_descriptions(s.qartod));
        push_strings(&mut out, &names);
        push_strings(&mut out, &descriptions);
        out
    }

    /// Formatted Xarray attributes
    pub fn display_xarray_attrs(&self) -> (r: String)
        requires
            self.wf(),
        ensures
            r@ == xarray_text(self@),
    {
        let attrs = self.xarray_attrs();
        proof {
            lemma_sorted_listing(attrs@);
        }
        let ghost e = text_entries(attrs@);
        let mut out = String::from_str("{");
        let mut i: usize = 0;
        while i < attrs.len()
            invariant
                i <= attrs.len(),
                e == text_entries(attrs@),
                out@ == "{"@ + attr_lines(e.take(i as int)),
            decreases attrs.len() - i,
        {
            out.append("\n  \"");
            out.append(attrs[i].0.as_str());
            out.append("\": \"");
            out.append(attrs[i].1.as_str());
            out.append("\",");
            proof {
                assert(e.take(i + 1).drop_last() =~= e.take(i as int));
            }
            i = i + 1;
        }
        out.append("\n}");
        assert(e.take(attrs.len() as int) =~= e);
        out
    }
}

/// A copy of a vector of pairs of strings.
pub fn copy_pairs(v: &Vec<(String, String)>) -> (r: Vec<(String, String)>)
    ensures
        r@ == v@,
{
    let mut out: Vec<(String, String)> = Vec::new();
    let mut i: usize = 0;
    while i < v.len()
        invariant
            i <= v.len(),
            out@ == v@.take(i as int),
        decreases v.len() - i,
    {
        out.push((v[i].0.clone(), v[i].1.clone()));
        assert(out@ =~= v@.take(i + 1));
        i = i + 1;
    }
    assert(v@.take(v.len() as int) =~= v@);
    out
}

/// No two of the standards share a name.
pub open spec fn names_unique(s: Seq<Standard>) -> bool {
    forall|i: int, j: int| 0 <= i < s.len() && 0 <= j < s.len() && i != j ==> #[trigger] s[i].name@ != #[trigger] s[j].name@
}

/// Every standard of `s` is well formed.
pub open spec fn all_wf(s: Seq<Standard>) -> bool {
    forall|i: int| 0 <= i < s.len() ==> (#[trigger] s[i]).wf()
}

/// An index of `s` holding the standard named `k`, where there is one.
pub open spec fn name_index(s: Seq<Standard>, k: Seq<char>) -> int {
    choose|i: int| 0 <= i < s.len() && #[trigger] s[i].name@ == k
}

/// The standards of `s` by name: what a map keyed by standard name holds.
pub open spec fn standards_map(s: Seq<Standard>) -> Map<Seq<char>, StandardView> {
    Map::new(
        |k: Seq<char>| exists|i: int| 0 <= i < s.len() && #[trigger] s[i].name@ == k,
        |k: Seq<char>| s[name_index(s, k)]@,
    )
}

pub proof fn lemma_standards_map_at(s: Seq<Standard>, i: int)
    requires
        names_unique(s),
        0 <= i < s.len(),
    ensures
        standards_map(s).contains_key(s[i].name@),
        standards_map(s)[s[i].name@] == s[i]@,
{
    let k = s[i].name@;
    assert(standards_map(s).contains_key(k));
    let j = name_index(s, k);
    assert(j == i);
}

/// Two standards agree in every field but their test suites, of which they have as many.
pub open spec fn same_standard(a: Standard, b: Standard) -> bool {
    &&& a.name@ == b.name@
    &&& opt_str(a.long_name) == opt_str(b.long_name)
    &&& a.unit@ == b.unit@
    &&& a.description@ == b.description@
    &&& strs(a.aliases@) == strs(b.aliases@)
    &&& opt_str(a.ioos_category) == opt_str(b.ioos_category)
    &&& strs(a.common_variable_names@) == strs(b.common_variable_names@)
    &&& strs(a.related_standards@) == strs(b.related_standards@)
    &&& strs(a.sibling_standards@) == strs(b.sibling_standards@)
    &&& text_entries(a.extra_attrs@) == text_entries(b.extra_attrs@)
    &&& strs(a.other_units@) == strs(b.other_units@)
    &&& opt_str(a.comments) == opt_str(b.comments)
    &&& a.qartod@.len() == b.qartod@.len()
}

fn pairs_eq(a: &Vec<(String, String)>, b: &Vec<(String, String)>) -> (r: bool)
    ensures
        r == (text_entries(a@) == text_entries(b@)),
{
    if a.len() != b.len() {
        assert(text_entries(a@).len() != text_entries(b@).len());
        return false;
    }
    let mut i: usize = 0;
    while i < a.len()
        invariant
            i <= a.len(),
            a.len() == b.len(),
            forall|j: int| 0 <= j < i ==> a@[j].0@ == b@[j].0@ && a@[j].1@ == b@[j].1@,
        decreases a.len() - i,
    {
        if a[i].0 != b[i].0 || a[i].1 != b[i].1 {
            assert(text_entries(a@)[i as int] != text_entries(b@)[i as int]);
            return false;
        }
        i = i + 1;
    }
    assert(text_entries(a@) =~= text_entries(b@));
    true
}

impl PartialEq for Standard {
    fn eq(&self, other: &Self) -> (r: bool) {
        self.name == other.name && opt_eq(&self.long_name, &other.long_name) && self.unit
            == other.unit && self.description == other.description && strings_eq(
            &self.aliases,
            &other.aliases,
        ) && opt_eq(&self.ioos_category, &other.ioos_category) && strings_eq(
            &self.common_variable_names,
            &other.common_variable_names,
        ) && strings_eq(&self.related_standards, &other.related_standards) && strings_eq(
            &self.sibling_standards,
            &other.sibling_standards,
        ) && pairs_eq(&self.extra_attrs, &other.extra_attrs) && strings_eq(
            &self.other_units,
            &other.other_units,
        ) && opt_eq(&self.comments, &other.comments) && self.qartod.len() == other.qartod.len()
    }
}

impl vstd::std_specs::cmp::PartialEqSpecImpl for Standard {
    open spec fn obeys_eq_spec() -> bool {
        true
    }

    open spec fn eq_spec(&self, other: &Standard) -> bool {
        same_standard(*self, *other)
    }
}

} // verus!
