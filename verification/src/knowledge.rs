//! Community knowledge about a standard.
use vstd::prelude::*;
use crate::assoc::{entries_of, keys_sorted, text_map};
use crate::text::{opt_str, strs};
use crate::tree::{tree_view, Tree, TreeV};

verus! {

/// A knowledge is a subset of a Standard
#[derive(Debug, Clone)]
pub struct Knowledge {
    /// Standard name the knowledge applies to
    pub name: String,
    /// Human readable name
    pub long_name: Option<String>,
    /// Usual IOOS category for the standard
    pub ioos_category: Option<String>,
    /// Common variable names in a dataset
    pub common_variable_names: Vec<String>,
    /// Other standards to consider
    pub related_standards: Vec<String>,
    /// Standards that are usually used together
    pub sibling_standards: Vec<String>,
    /// Extra attributes that are usually included in Xarray or NetCDF metadata, in key order
    pub extra_attrs: Vec<(String, String)>,
    /// Other units that may be seen
    pub other_units: Vec<String>,
    /// Community comments on standard usage
    pub comments: Option<String>,
    /// QARTOD test suites, by slug in key order
    pub qc: Option<Vec<(String, Tree)>>,
}

/// The mathematical value of a knowledge entry.
pub struct KnowledgeView {
    pub name: Seq<char>,
    pub long_name: Option<Seq<char>>,
    pub ioos_category: Option<Seq<char>>,
    pub common_variable_names: Seq<Seq<char>>,
    pub related_standards: Seq<Seq<char>>,
    pub sibling_standards: Seq<Seq<char>>,
    pub extra_attrs: Map<Seq<char>, Seq<char>>,
    pub other_units: Seq<Seq<char>>,
    pub comments: Option<Seq<char>>,
    pub qc: Option<Seq<(Seq<char>, TreeV)>>,
}

/// The view of a list of test suite configurations.
pub open spec fn qc_view(q: Option<Vec<(String, Tree)>>) -> Option<Seq<(Seq<char>, TreeV)>> {
    match q {
        Some(v) => Some(entries_of(v@, |x: Tree| tree_view(x))),
        None => None,
    }
}

impl View for Knowledge {
    type V = KnowledgeView;

    open spec fn view(&self) -> KnowledgeView {
        KnowledgeView {
            name: self.name@,
            long_name: opt_str(self.long_name),
            ioos_category: opt_str(self.ioos_category),
            common_variable_names: strs(self.common_variable_names@),
            related_standards: strs(self.related_standards@),
            sibling_standards: strs(self.sibling_standards@),
            extra_attrs: text_map(self.extra_attrs@),
            other_units: strs(self.other_units@),
            comments: opt_str(self.comments),
            qc: qc_view(self.qc),
        }
    }
}

impl Knowledge {
    /// The extra attributes and the test suites are in key order.
    pub open spec fn wf(&self) -> bool {
        &&& keys_sorted(self.extra_attrs@)
        &&& match self.qc {
            Some(v) => keys_sorted(v@),
            None => true,
        }
    }
}

impl Default for Knowledge {
    fn default() -> (r: Knowledge)
        ensures
            r.wf(),
            r.name@ == Seq::<char>::empty(),
            r.long_name is None,
            r.ioos_category is None,
            r.common_variable_names@.len() == 0,
            r.related_standards@.len() == 0,
            r.sibling_standards@.len() == 0,
            r.extra_attrs@.len() == 0,
            r.other_units@.len() == 0,
            r.comments is None,
            r.qc is None,
    {
        Knowledge {
            name: String::new(),
            long_name: None,
            ioos_category: None,
            common_variable_names: Vec::new(),
            related_standards: Vec::new(),
            sibling_standards: Vec::new(),
            extra_attrs: Vec::new(),
            other_units: Vec::new(),
            comments: None,
            qc: None,
        }
    }
}

/// Knowledge as a per-standard file holds it, every key optional.
#[derive(Debug, Clone)]
pub struct YamlKnowledge {
    pub name: Option<String>,
    /// Human readable name
    pub long_name: Option<String>,
    /// Usual IOOS category for the standard
    pub ioos_category: Option<String>,
    /// Common variable names in a dataset
    pub common_variable_names: Option<Vec<String>>,
    /// Other standards to consider
    pub related_standards: Option<Vec<String>>,
    /// Standards that are usually used together
    pub sibling_standards: Option<Vec<String>>,
    /// Extra attributes that are usually included in Xarray or NetCDF metadata, in key order
    pub extra_attrs: Option<Vec<(String, String)>>,
    /// Other units that may be seen
    pub other_units: Option<Vec<String>>,
    /// Community comments on standard usage
    pub comments: Option<String>,
    /// QARTOD test suites, by slug in key order
    pub qc: Option<Vec<(String, Tree)>>,
}

fn or_empty_list(v: Option<Vec<String>>) -> (r: Vec<String>)
    ensures
        strs(r@) == match v {
            Some(x) => strs(x@),
            None => Seq::empty(),
        },
{
    match v {
        Some(x) => x,
        None => {
            let r: Vec<String> = Vec::new();
            assert(strs(r@) =~= Seq::<Seq<char>>::empty());
            r
        },
    }
}

impl YamlKnowledge {
    /// The knowledge this file holds for the standard `name` (the file's name), absent
    /// lists and attributes taken as empty.
    pub fn into_knowledge(self, name: String) -> (r: Knowledge)
        requires
            match self.extra_attrs {
                Some(a) => keys_sorted(a@),
                None => true,
            },
            match self.qc {
                Some(q) => keys_sorted(q@),
                None => true,
            },
        ensures
            r.wf(),
            r@.name == name@,
            r@.long_name == opt_str(self.long_name),
            r@.ioos_category == opt_str(self.ioos_category),
            r@.common_variable_names == match self.common_variable_names {
                Some(x) => strs(x@),
                None => Seq::empty(),
            },
            r@.related_standards == match self.related_standards {
                Some(x) => strs(x@),
                None => Seq::empty(),
            },
            r@.sibling_standards == match self.sibling_standards {
                Some(x) => strs(x@),
                None => Seq::empty(),
            },
            r@.extra_attrs == match self.extra_attrs {
                Some(a) => text_map(a@),
                None => Map::empty(),
            },
            r@.other_units == match self.other_units {
                Some(x) => strs(x@),
                None => Seq::empty(),
            },
            r@.comments == opt_str(self.comments),
            r@.qc == qc_view(self.qc),
    {
        let extra_attrs = match self.extra_attrs {
            Some(a) => a,
            None => {
                let a: Vec<(String, String)> = Vec::new();
                assert(text_map(a@) =~= Map::<Seq<char>, Seq<char>>::empty());
                a
            },
        };
        Knowledge {
            name,
            long_name: self.long_name,
            ioos_category: self.ioos_category,
            common_variable_names: or_empty_list(self.common_variable_names),
            related_standards: or_empty_list(self.related_standards),
            sibling_standards: or_empty_list(self.sibling_standards),
            extra_attrs,
            other_units: or_empty_list(self.other_units),
            comments: self.comments,
            qc: self.qc,
        }
    }
}

} // verus!
