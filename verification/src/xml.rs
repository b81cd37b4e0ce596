//! XML documents as a flat list of nodes in document order.
use vstd::prelude::*;
use crate::seqs::{find, lemma_find_is};
use crate::text::{opt_text, str_eq};

verus! {

/// A node. `tag` is the local name of an element; `text` is an element's leading
/// text, or the own text of a text node or a comment.
#[derive(Debug)]
pub struct XmlNode {
    pub parent: Option<usize>,
    pub tag: Option<String>,
    pub text: Option<String>,
    pub attributes: Vec<(String, String)>,
}

#[verifier::ext_equal]
pub struct XmlNodeV {
    pub parent: Option<usize>,
    pub tag: Option<Seq<char>>,
    pub text: Option<Seq<char>>,
    pub attributes: Seq<(Seq<char>, Seq<char>)>,
}

pub open spec fn attribute_views(v: Seq<(String, String)>) -> Seq<(Seq<char>, Seq<char>)> {
    v.map_values(|a: (String, String)| (a.0@, a.1@))
}

impl View for XmlNode {
    type V = XmlNodeV;

    open spec fn view(&self) -> XmlNodeV {
        XmlNodeV {
            parent: self.parent,
            tag: opt_text(self.tag),
            text: opt_text(self.text),
            attributes: attribute_views(self.attributes@),
        }
    }
}

pub open spec fn node_views(v: Seq<XmlNode>) -> Seq<XmlNodeV> {
    v.map_values(|n: XmlNode| n@)
}

pub open spec fn nodes_result(r: Result<Vec<XmlNode>, String>) -> Result<
    Seq<XmlNodeV>,
    Seq<char>,
> {
    match r {
        Ok(v) => Ok(node_views(v@)),
        Err(e) => Err(e@),
    }
}

/// What `roxmltree::Document::parse` makes of a text: its nodes in document
/// order, or the words of its error.
pub uninterp spec fn parsed_xml(text: Seq<char>) -> Result<Seq<XmlNodeV>, Seq<char>>;

/// `roxmltree::Document::parse`. Every node of `descendants` is handed out with
/// what `parent`, `tag_name`, `text` and `attributes` say of it; the parent is
/// given by its `NodeId`, which counts the nodes in document order.
#[verifier::external_body]
pub(crate) fn read_xml(text: &str) -> (r: Result<Vec<XmlNode>, String>)
    ensures
        nodes_result(r) == parsed_xml(text@),
{
    let owned = |a: roxmltree::Attribute| (a.name().to_owned(), a.value().to_owned());
    let node = |n: roxmltree::Node| XmlNode {
        parent: n.parent().map(|p| p.id().get_usize()),
        tag: n.is_element().then_some(n.tag_name().name().to_owned()),
        text: n.text().map(str::to_owned),
        attributes: n.attributes().map(owned).collect(),
    };
    match roxmltree::Document::parse(text) {
        Ok(doc) => Ok(doc.descendants().map(node).collect()),
        Err(e) => Err(e.to_string()),
    }
}

/// An element with the local name `tag`.
pub open spec fn tagged(tag: Seq<char>) -> spec_fn(XmlNodeV) -> bool {
    |n: XmlNodeV| n.tag == Some(tag)
}

/// A child of the node `a` with the local name `tag`.
pub open spec fn child_of(a: int, tag: Seq<char>) -> spec_fn(XmlNodeV) -> bool {
    |n: XmlNodeV|
        n.tag == Some(tag) && match n.parent {
            Some(p) => p == a,
            None => false,
        }
}

/// The first child of `a` with the local name `tag`, or the number of nodes.
pub open spec fn child(nodes: Seq<XmlNodeV>, a: int, tag: Seq<char>) -> int {
    find(nodes, child_of(a, tag), 0) as int
}

/// Is `n` the node `a` or below it?
pub open spec fn within(nodes: Seq<XmlNodeV>, n: nat, a: nat) -> bool
    decreases n,
{
    n == a || match nodes[n as int].parent {
        Some(p) => p < n && within(nodes, p as nat, a),
        None => false,
    }
}

/// The text of the first child of `a` with the local name `tag`.
pub open spec fn child_text(nodes: Seq<XmlNodeV>, a: int, tag: Seq<char>) -> Option<Seq<char>> {
    let k = child(nodes, a, tag);
    if k < nodes.len() {
        nodes[k].text
    } else {
        None
    }
}

/// The value of the first attribute `name` from `i` on.
pub open spec fn attribute_from(
    attrs: Seq<(Seq<char>, Seq<char>)>,
    name: Seq<char>,
    i: nat,
) -> Option<Seq<char>>
    decreases attrs.len() - i,
{
    if i >= attrs.len() {
        None
    } else if attrs[i as int].0 == name {
        Some(attrs[i as int].1)
    } else {
        attribute_from(attrs, name, i + 1)
    }
}

impl XmlNode {
    pub fn has_tag(&self, tag: &str) -> (r: bool)
        ensures
            r == tagged(tag@)(self@),
    {
        match &self.tag {
            Some(t) => str_eq(t.as_str(), tag),
            None => false,
        }
    }

    pub fn is_child_of(&self, a: usize, tag: &str) -> (r: bool)
        ensures
            r == child_of(a as int, tag@)(self@),
    {
        match self.parent {
            Some(p) => p == a && self.has_tag(tag),
            None => false,
        }
    }

    /// Is the attribute `name` there with this value?
    pub fn has_attribute(&self, name: &str, value: &str) -> (r: bool)
        ensures
            r == (attribute_from(self@.attributes, name@, 0) == Some(value@)),
    {
        let mut i: usize = 0;
        while i < self.attributes.len()
            invariant
                i <= self.attributes@.len(),
                attribute_from(self@.attributes, name@, 0) == attribute_from(
                    self@.attributes,
                    name@,
                    i as nat,
                ),
            decreases self.attributes@.len() - i,
        {
            assert(self@.attributes[i as int] == (
                self.attributes@[i as int].0@,
                self.attributes@[i as int].1@,
            ));
            if str_eq(self.attributes[i].0.as_str(), name) {
                return str_eq(self.attributes[i].1.as_str(), value);
            }
            i += 1;
        }
        false
    }
}

/// The first child of `a` with the local name `tag`, or the number of nodes.
pub fn find_child(nodes: &Vec<XmlNode>, a: usize, tag: &str) -> (k: usize)
    ensures
        k == child(node_views(nodes@), a as int, tag@),
        k <= nodes@.len(),
{
    let mut k: usize = 0;
    while k < nodes.len() && !nodes[k].is_child_of(a, tag)
        invariant
            k <= nodes@.len(),
            forall|i: int|
                0 <= i < k ==> !child_of(a as int, tag@)(#[trigger] node_views(nodes@)[i]),
        decreases nodes@.len() - k,
    {
        k += 1;
    }
    proof {
        lemma_find_is(node_views(nodes@), child_of(a as int, tag@), k as nat);
    }
    k
}

/// The text of the first child of `a` with the local name `tag`.
pub fn text_of_child<'a>(nodes: &'a Vec<XmlNode>, a: usize, tag: &str) -> (r: Option<&'a str>)
    ensures
        crate::text::opt_str(r) == child_text(node_views(nodes@), a as int, tag@),
{
    let k = find_child(nodes, a, tag);
    if k < nodes.len() {
        assert(node_views(nodes@)[k as int] == nodes@[k as int]@);
        match &nodes[k].text {
            Some(t) => Some(t.as_str()),
            None => None,
        }
    } else {
        None
    }
}

/// Is `n` the node `a` or below it?
pub fn is_within(nodes: &Vec<XmlNode>, n: usize, a: usize) -> (r: bool)
    requires
        n < nodes@.len(),
    ensures
        r == within(node_views(nodes@), n as nat, a as nat),
{
    let ghost ns = node_views(nodes@);
    let mut cur: usize = n;
    loop
        invariant
            cur < nodes@.len(),
            ns == node_views(nodes@),
            within(ns, n as nat, a as nat) == within(ns, cur as nat, a as nat),
        decreases cur,
    {
        assert(ns[cur as int] == nodes@[cur as int]@);
        if cur == a {
            return true;
        }
        match nodes[cur].parent {
            Some(p) => {
                if p >= cur {
                    return false;
                }
                cur = p;
            },
            None => {
                return false;
            },
        }
    }
}

} // verus!
