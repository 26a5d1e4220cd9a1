//! The node tree that parsing produces: text leaves and tagged elements with
//! attributes, children, optional extracted framework state, and an optional
//! framework tag.

use vstd::prelude::*;

verus! {

/// The client-side rendering framework a page was produced by, as far as its
/// markup shows it.
#[derive(Clone, Copy, Debug, PartialEq, Eq, Structural)]
pub enum FrameworkType {
    ReactNext,
    Angular,
    VueNuxt,
    SvelteKit,
    WasmModule,
}

/// A parsed markup node: a text leaf, or an element with a tag, attributes,
/// children in document order, optional extracted JSON state (kept as the
/// extracted text), and the framework tag stamped by detection.
#[derive(Debug)]
pub enum ParsedNode {
    Text(String),
    Element {
        tag: String,
        attrs: Vec<(String, String)>,
        children: Vec<ParsedNode>,
        reactive_state: Option<String>,
        framework: Option<FrameworkType>,
    },
}

/// Mathematical model of a `ParsedNode`: the same shape over sequences.
pub enum NodeV {
    Text(Seq<char>),
    Element {
        tag: Seq<char>,
        attrs: Seq<(Seq<char>, Seq<char>)>,
        children: Seq<NodeV>,
        reactive_state: Option<Seq<char>>,
        framework: Option<FrameworkType>,
    },
}

/// The models of a sequence of attribute pairs, in order.
pub open spec fn attrs_views(s: Seq<(String, String)>) -> Seq<(Seq<char>, Seq<char>)> {
    s.map_values(|a: (String, String)| (a.0@, a.1@))
}

impl View for ParsedNode {
    type V = NodeV;

    open spec fn view(&self) -> NodeV
        decreases self,
    {
        match self {
            ParsedNode::Text(s) => NodeV::Text(s@),
            ParsedNode::Element { tag, attrs, children, reactive_state, framework } => {
                NodeV::Element {
                    tag: tag@,
                    attrs: attrs_views(attrs@),
                    children: views_of(children@),
                    reactive_state: match reactive_state {
                        Some(s) => Some(s@),
                        None => None,
                    },
                    framework: *framework,
                }
            },
        }
    }
}

/// The models of a sequence of nodes, in order.
pub open spec fn views_of(s: Seq<ParsedNode>) -> Seq<NodeV>
    decreases s,
{
    if s.len() == 0 {
        Seq::empty()
    } else {
        views_of(s.drop_last()).push(s.last()@)
    }
}

/// `views_of` is the element-wise model of a node sequence.
pub broadcast proof fn lemma_views_of(s: Seq<ParsedNode>)
    ensures
        (#[trigger] views_of(s)).len() == s.len(),
        forall|i: int| 0 <= i < s.len() ==> views_of(s)[i] == s[i]@,
    decreases s.len(),
{
    if s.len() > 0 {
        lemma_views_of(s.drop_last());
        assert(views_of(s) == views_of(s.drop_last()).push(s.last()@));
        assert forall|i: int| 0 <= i < s.len() implies views_of(s)[i] == s[i]@ by {
            if i < s.len() - 1 {
                assert(s.drop_last()[i] == s[i]);
            }
        }
    }
}

impl Clone for ParsedNode {
    /// A clone is a deep copy: the model of the copy equals the model of the
    /// original.
    #[verifier::loop_isolation(false)]
    fn clone(&self) -> (res: Self)
        ensures
            res@ == self@,
        decreases self,
    {
        match self {
            ParsedNode::Text(s) => ParsedNode::Text(s.clone()),
            ParsedNode::Element { tag, attrs, children, reactive_state, framework } => {
                let mut attrs2: Vec<(String, String)> = Vec::new();
                let mut i: usize = 0;
                while i < attrs.len()
                    invariant
                        i <= attrs.len(),
                        attrs2@.len() == i as int,
                        forall|k: int| 0 <= k < i as int ==> attrs2@[k].0@ == attrs@[k].0@
                            && attrs2@[k].1@ == attrs@[k].1@,
                    decreases attrs.len() - i,
                {
                    let a = &attrs[i];
                    attrs2.push((a.0.clone(), a.1.clone()));
                    i += 1;
                }
                let mut children2: Vec<ParsedNode> = Vec::new();
                let mut j: usize = 0;
                while j < children.len()
                    invariant
                        j <= children.len(),
                        children2@.len() == j as int,
                        forall|k: int| 0 <= k < j as int ==> children2@[k]@ == children@[k]@,
                    decreases children.len() - j,
                {
                    proof {
                        broadcast use vstd::seq::axiom_seq_index_decreases;

                        assert(decreases_to!(*self => self->Element_children));
                        assert(decreases_to!(self->Element_children => children@[j as int]));
                    }
                    children2.push(children[j].clone());
                    j += 1;
                }
                let res = ParsedNode::Element {
                    tag: tag.clone(),
                    attrs: attrs2,
                    children: children2,
                    reactive_state: match reactive_state {
                        Some(s) => Some(s.clone()),
                        None => None,
                    },
                    framework: *framework,
                };
                proof {
                    assert(attrs_views(attrs2@) =~= attrs_views(attrs@));
                    lemma_views_of(children2@);
                    lemma_views_of(children@);
                    assert(views_of(children2@) =~= views_of(children@));
                }
                res
            },
        }
    }
}

/// The value of the first attribute named `key`, if any.
pub open spec fn attr_of(attrs: Seq<(Seq<char>, Seq<char>)>, key: Seq<char>) -> Option<Seq<char>>
    decreases attrs,
{
    if attrs.len() == 0 {
        None
    } else if attrs.first().0 == key {
        Some(attrs.first().1)
    } else {
        attr_of(attrs.drop_first(), key)
    }
}

/// Whether an attribute named `key` is present.
pub open spec fn has_attr(attrs: Seq<(Seq<char>, Seq<char>)>, key: Seq<char>) -> bool {
    attr_of(attrs, key) is Some
}

/// Look up the first attribute named `key`.
#[verifier::loop_isolation(false)]
pub fn attr_get<'a>(attrs: &'a Vec<(String, String)>, key: &str) -> (r: Option<&'a String>)
    ensures
        match r {
            Some(v) => attr_of(attrs_views(attrs@), key@) == Some(v@),
            None => attr_of(attrs_views(attrs@), key@) is None,
        },
{
    let ghost vs = attrs_views(attrs@);
    proof {
        assert(vs.subrange(0, vs.len() as int) =~= vs);
    }
    let mut i: usize = 0;
    while i < attrs.len()
        invariant
            0 <= i <= attrs.len(),
            attr_of(vs, key@) == attr_of(vs.subrange(i as int, vs.len() as int), key@),
        decreases attrs.len() - i,
    {
        proof {
            let rest = vs.subrange(i as int, vs.len() as int);
            assert(rest.first() == vs[i as int]);
            assert(rest.drop_first() =~= vs.subrange(i + 1, vs.len() as int));
        }
        if crate::text::str_eq(attrs[i].0.as_str(), key) {
            return Some(&attrs[i].1);
        }
        i += 1;
    }
    proof {
        assert(vs.subrange(i as int, vs.len() as int) =~= Seq::<(Seq<char>, Seq<char>)>::empty());
    }
    None
}

/// Copy a list of attribute pairs; the model is kept.
pub fn clone_attrs(attrs: &Vec<(String, String)>) -> (r: Vec<(String, String)>)
    ensures
        attrs_views(r@) == attrs_views(attrs@),
{
    let mut out: Vec<(String, String)> = Vec::new();
    let mut i: usize = 0;
    while i < attrs.len()
        invariant
            0 <= i <= attrs.len(),
            out@.len() == i as int,
            forall|k: int|
                0 <= k < i as int ==> out@[k].0@ == attrs@[k].0@ && out@[k].1@ == attrs@[k].1@,
        decreases attrs.len() - i,
    {
        let a = &attrs[i];
        out.push((a.0.clone(), a.1.clone()));
        i += 1;
    }
    proof {
        assert(attrs_views(out@) =~= attrs_views(attrs@));
    }
    out
}

/// Copy a list of nodes; the models are kept.
pub fn clone_nodes(nodes: &Vec<ParsedNode>) -> (r: Vec<ParsedNode>)
    ensures
        views_of(r@) == views_of(nodes@),
{
    let mut out: Vec<ParsedNode> = Vec::new();
    let mut i: usize = 0;
    while i < nodes.len()
        invariant
            0 <= i <= nodes.len(),
            out@.len() == i as int,
            forall|k: int| 0 <= k < i as int ==> out@[k]@ == nodes@[k]@,
        decreases nodes.len() - i,
    {
        out.push(nodes[i].clone());
        i += 1;
    }
    proof {
        lemma_views_of(out@);
        lemma_views_of(nodes@);
        assert(views_of(out@) =~= views_of(nodes@));
    }
    out
}

/// The text a node displays: its own text, or the texts of its descendants
/// joined with single spaces, empty ones left out.
pub open spec fn text_of(n: NodeV) -> Seq<char>
    decreases n,
{
    match n {
        NodeV::Text(t) => t,
        NodeV::Element { children, .. } => texts_join(children),
    }
}

/// The joined display texts of a sequence of nodes.
pub open spec fn texts_join(cs: Seq<NodeV>) -> Seq<char>
    decreases cs,
{
    if cs.len() == 0 {
        Seq::empty()
    } else {
        let rest = texts_join(cs.drop_last());
        let t = text_of(cs.last());
        if t.len() == 0 {
            rest
        } else if rest.len() == 0 {
            t
        } else {
            rest + " "@ + t
        }
    }
}

/// Concatenate the text content of a node and its descendants, separated by
/// single spaces.
#[verifier::loop_isolation(false)]
pub fn collect_text(node: &ParsedNode) -> (r: String)
    ensures
        r@ == text_of(node@),
    decreases node,
{
    match node {
        ParsedNode::Text(t) => t.clone(),
        ParsedNode::Element { children, .. } => {
            let ghost vs = views_of(children@);
            proof {
                lemma_views_of(children@);
                assert(vs.subrange(0, 0) =~= Seq::<NodeV>::empty());
            }
            let mut text = String::new();
            let mut i: usize = 0;
            while i < children.len()
                invariant
                    0 <= i <= children.len(),
                    vs.len() == children@.len(),
                    text@ == texts_join(vs.subrange(0, i as int)),
                decreases children.len() - i,
            {
                proof {
                    assert(decreases_to!(*node => node->Element_children));
                    assert(decreases_to!(node->Element_children => children@[i as int]));
                }
                let ct = collect_text(&children[i]);
                proof {
                    let t = vs.subrange(0, i + 1);
                    assert(t.drop_last() =~= vs.subrange(0, i as int));
                    assert(t.last() == vs[i as int]);
                }
                if !ct.as_str().is_empty() {
                    if !text.as_str().is_empty() {
                        text.append(" ");
                    }
                    text.append(ct.as_str());
                }
                i += 1;
            }
            proof {
                assert(vs.subrange(0, vs.len() as int) =~= vs);
            }
            text
        },
    }
}

} // verus!
