//! A plain document tree: a configuration document (such as a test suite's), as library
//! values.
use vstd::prelude::*;

verus! {

/// A configuration document.
#[derive(Debug)]
pub enum Tree {
    Null,
    Bool(bool),
    /// A number, kept as text.
    Number(String),
    Text(String),
    List(Vec<Tree>),
    /// A mapping, its entries in the order they were handed over.
    Dict(Vec<(Tree, Tree)>),
    /// A YAML `!Tag` and the value it tags.
    Tagged(String, Box<Tree>),
}

/// The mathematical value of a document tree.
pub enum TreeV {
    Null,
    Bool(bool),
    Number(Seq<char>),
    Text(Seq<char>),
    List(Seq<TreeV>),
    Dict(Seq<(TreeV, TreeV)>),
    Tagged(Seq<char>, Box<TreeV>),
}

pub open spec fn tree_view(t: Tree) -> TreeV
    decreases t,
{
    match t {
        Tree::Null => TreeV::Null,
        Tree::Bool(b) => TreeV::Bool(b),
        Tree::Number(n) => TreeV::Number(n@),
        Tree::Text(s) => TreeV::Text(s@),
        Tree::List(v) => TreeV::List(
            Seq::new(v@.len(), |i: int| if 0 <= i < v@.len() { tree_view(v@[i]) } else { TreeV::Null }),
        ),
        Tree::Dict(v) => TreeV::Dict(
            Seq::new(
                v@.len(),
                |i: int|
                    if 0 <= i < v@.len() {
                        (tree_view(v@[i].0), tree_view(v@[i].1))
                    } else {
                        (TreeV::Null, TreeV::Null)
                    },
            ),
        ),
        Tree::Tagged(tag, inner) => TreeV::Tagged(tag@, Box::new(tree_view(*inner))),
    }
}

impl View for Tree {
    type V = TreeV;

    open spec fn view(&self) -> TreeV {
        tree_view(*self)
    }
}

/// A copy of `t`.
pub fn copy_tree(t: &Tree) -> (r: Tree)
    ensures
        r@ == t@,
    decreases t,
{
    match t {
        Tree::Null => Tree::Null,
        Tree::Bool(b) => Tree::Bool(*b),
        Tree::Number(n) => Tree::Number(n.clone()),
        Tree::Text(s) => Tree::Text(s.clone()),
        Tree::List(v) => {
            let mut out: Vec<Tree> = Vec::new();
            let mut i: usize = 0;
            while i < v.len()
                invariant
                    i <= v.len(),
                    out@.len() == i,
                    forall|j: int| 0 <= j < i ==> (#[trigger] out@[j])@ == v@[j]@,
                    *t == Tree::List(*v),
                decreases v.len() - i,
            {
                proof {
                    vstd::std_specs::vec::axiom_vec_index_decreases(*v, i as int);
                    assert(decreases_to!(*t => (*t)->List_0));
                }
                out.push(copy_tree(&v[i]));
                i = i + 1;
            }
            let r = Tree::List(out);
            assert(r@ == t@) by {
                if let TreeV::List(a) = r@ {
                    if let TreeV::List(b) = t@ {
                        assert(a =~= b);
                    }
                }
            }
            r
        },
        Tree::Dict(v) => {
            let mut out: Vec<(Tree, Tree)> = Vec::new();
            let mut i: usize = 0;
            while i < v.len()
                invariant
                    i <= v.len(),
                    out@.len() == i,
                    forall|j: int| 0 <= j < i ==> (#[trigger] out@[j]).0@ == v@[j].0@ && out@[j].1@ == v@[j].1@,
                    *t == Tree::Dict(*v),
                decreases v.len() - i,
            {
                proof {
                    vstd::std_specs::vec::axiom_vec_index_decreases(*v, i as int);
                    assert(decreases_to!(*t => (*t)->Dict_0));
                    assert(decreases_to!(v@[i as int] => v@[i as int].0));
                    assert(decreases_to!(v@[i as int] => v@[i as int].1));
                }
                let k = copy_tree(&v[i].0);
                let x = copy_tree(&v[i].1);
                out.push((k, x));
                i = i + 1;
            }
            let r = Tree::Dict(out);
            assert(r@ == t@) by {
                if let TreeV::Dict(a) = r@ {
                    if let TreeV::Dict(b) = t@ {
                        assert(a =~= b);
                    }
                }
            }
            r
        },
        Tree::Tagged(tag, inner) => Tree::Tagged(tag.clone(), Box::new(copy_tree(inner))),
    }
}

impl Clone for Tree {
    fn clone(&self) -> (r: Tree)
        ensures
            r@ == self@,
    {
        copy_tree(self)
    }
}

/// The text under `key` in a mapping: the value of its first entry whose key is the text
/// `key`, where that value is a text; empty otherwise.
pub open spec fn config_text(t: TreeV, key: Seq<char>) -> Seq<char> {
    match t {
        TreeV::Dict(e) => entry_text(e, key),
        _ => Seq::empty(),
    }
}

/// The text of the first entry of `e` keyed by the text `key`, where it is a text.
pub open spec fn entry_text(e: Seq<(TreeV, TreeV)>, key: Seq<char>) -> Seq<char>
    decreases e.len(),
{
    if e.len() == 0 {
        Seq::empty()
    } else if e[0].0 == TreeV::Text(key) {
        match e[0].1 {
            TreeV::Text(x) => x,
            _ => Seq::empty(),
        }
    } else {
        entry_text(e.drop_first(), key)
    }
}

/// Reads the text under `key` in a mapping.
pub fn read_config_text(t: &Tree, key: &str) -> (r: String)
    ensures
        r@ == config_text(t@, key@),
{
    match t {
        Tree::Dict(e) => {
            let ghost pv = t@->Dict_0;
            assert(pv.len() == e@.len());
            let wanted = String::from_str(key);
            let mut i: usize = 0;
            assert(pv.skip(0) =~= pv);
            while i < e.len()
                invariant
                    i <= e.len(),
                    wanted@ == key@,
                    *t == Tree::Dict(*e),
                    pv == t@->Dict_0,
                    pv.len() == e@.len(),
                    entry_text(pv, key@) == entry_text(pv.skip(i as int), key@),
                decreases e.len() - i,
            {
                proof {
                    assert(pv[i as int] == (e@[i as int].0@, e@[i as int].1@));
                    assert(pv.skip(i as int)[0] == pv[i as int]);
                    assert(pv.skip(i as int).drop_first() =~= pv.skip(i + 1));
                }
                let is_key = match &e[i].0 {
                    Tree::Text(k) => *k == wanted,
                    _ => false,
                };
                if is_key {
                    return match &e[i].1 {
                        Tree::Text(x) => x.clone(),
                        _ => String::new(),
                    };
                }
                i = i + 1;
            }
            assert(pv.skip(i as int) =~= Seq::<(TreeV, TreeV)>::empty());
            String::new()
        },
        _ => String::new(),
    }
}

} // verus!
