//! Markup parsing: a trusted front end builds a raw document tree through an
//! external HTML5 tree-construction algorithm, and verified code locates the
//! document body and converts it into the library's `ParsedNode` tree.

use vstd::prelude::*;

use crate::node::{attrs_views, views_of, FrameworkType, NodeV, ParsedNode};
use crate::text::{str_eq, trim_str, trimmed};
use html5ever::tendril::TendrilSink;
use markup5ever_rcdom::NodeData;

verus! {

/// A node of the raw document tree, before body extraction: a text node, an
/// element (name lowercased), or any other kind of node (document, doctype,
/// comment, processing instruction), kept only for its children.
pub enum RawNode {
    Text(String),
    Element { name: String, attrs: Vec<(String, String)>, children: Vec<RawNode> },
    Other { children: Vec<RawNode> },
}

/// Mathematical model of a `RawNode`.
pub enum RawNodeV {
    Text(Seq<char>),
    Element { name: Seq<char>, attrs: Seq<(Seq<char>, Seq<char>)>, children: Seq<RawNodeV> },
    Other { children: Seq<RawNodeV> },
}

impl View for RawNode {
    type V = RawNodeV;

    open spec fn view(&self) -> RawNodeV
        decreases self,
    {
        match self {
            RawNode::Text(s) => RawNodeV::Text(s@),
            RawNode::Element { name, attrs, children } => RawNodeV::Element {
                name: name@,
                attrs: attrs_views(attrs@),
                children: raw_views_of(children@),
            },
            RawNode::Other { children } => RawNodeV::Other { children: raw_views_of(children@) },
        }
    }
}

/// The models of a sequence of raw nodes, in order.
pub open spec fn raw_views_of(s: Seq<RawNode>) -> Seq<RawNodeV>
    decreases s,
{
    if s.len() == 0 {
        Seq::empty()
    } else {
        raw_views_of(s.drop_last()).push(s.last()@)
    }
}

/// `raw_views_of` is the element-wise model of a raw node sequence.
pub broadcast proof fn lemma_raw_views_of(s: Seq<RawNode>)
    ensures
        (#[trigger] raw_views_of(s)).len() == s.len(),
        forall|i: int| 0 <= i < s.len() ==> raw_views_of(s)[i] == s[i]@,
    decreases s.len(),
{
    if s.len() > 0 {
        lemma_raw_views_of(s.drop_last());
        assert(raw_views_of(s) == raw_views_of(s.drop_last()).push(s.last()@));
        assert forall|i: int| 0 <= i < s.len() implies raw_views_of(s)[i] == s[i]@ by {
            if i < s.len() - 1 {
                assert(s.drop_last()[i] == s[i]);
            }
        }
    }
}

/// The external parser's document tree for a given text, converted to
/// `RawNode` form. Depends on the input text alone.
pub uninterp spec fn dom_of(html: Seq<char>) -> RawNodeV;

/// Declares markup5ever_rcdom's `Node` (the pointee of `Handle`) so that the
/// conversion below can take a reference to one; the type stays opaque.
#[verifier::external_type_specification]
#[verifier::external_body]
pub struct ExRcDomNode(markup5ever_rcdom::Node);

/// Relies on markup5ever_rcdom's node layout: converts one node and its
/// children into a `RawNode`, field for field, lowercasing element names.
/// Only the body of `parse_document_raw` calls it.
#[verifier::external_body]
fn raw_of_handle(h: &markup5ever_rcdom::Handle) -> RawNode {
    match &h.data {
        NodeData::Text { contents } => RawNode::Text(contents.borrow().to_string()),
        NodeData::Element { name, attrs, .. } => RawNode::Element {
            name: name.local.to_lowercase(),
            attrs: attrs.borrow().iter().map(
                |a| (a.name.local.to_string(), a.value.to_string()),
            ).collect(),
            children: h.children.borrow().iter().map(|c| raw_of_handle(c)).collect(),
        },
        _ => RawNode::Other { children: h.children.borrow().iter().map(
            |c| raw_of_handle(c),
        ).collect() },
    }
}

/// Relies on html5ever's `parse_document`: HTML5 tree construction with error
/// recovery, which never fails and builds, from the input text alone, a
/// document tree that `raw_of_handle` converts node for node (element names
/// lowercased, as the tokenizer already produces them); `dom_of` names the
/// converted tree.
#[verifier::external_body]
fn parse_document_raw(html: &str) -> (r: RawNode)
    ensures
        r@ == dom_of(html@),
{
    let dom = html5ever::parse_document(
        markup5ever_rcdom::RcDom::default(),
        Default::default(),
    ).one(html);
    raw_of_handle(&dom.document)
}

/// The first element named `body`, in depth-first pre-order, if any.
pub open spec fn body_of(n: RawNodeV) -> Option<RawNodeV>
    decreases n,
{
    match n {
        RawNodeV::Text(_) => None,
        RawNodeV::Element { name, children, .. } => {
            if name == "body"@ {
                Some(n)
            } else {
                body_in(children)
            }
        },
        RawNodeV::Other { children } => body_in(children),
    }
}

/// The first `body` element found in a sequence of trees, in order.
pub open spec fn body_in(cs: Seq<RawNodeV>) -> Option<RawNodeV>
    decreases cs,
{
    if cs.len() == 0 {
        None
    } else {
        match body_of(cs.first()) {
            Some(b) => Some(b),
            None => body_in(cs.drop_first()),
        }
    }
}

/// Locate the document body by depth-first search.
#[verifier::loop_isolation(false)]
fn find_body<'a>(n: &'a RawNode) -> (r: Option<&'a RawNode>)
    ensures
        match r {
            Some(b) => body_of(n@) == Some(b@),
            None => body_of(n@) is None,
        },
    decreases n,
{
    match n {
        RawNode::Text(_) => None,
        RawNode::Element { name, children, .. } => {
            if str_eq(name.as_str(), "body") {
                Some(n)
            } else {
                find_body_in(children)
            }
        },
        RawNode::Other { children } => find_body_in(children),
    }
}

/// Locate the first body element among a sequence of trees.
#[verifier::loop_isolation(false)]
fn find_body_in<'a>(cs: &'a Vec<RawNode>) -> (r: Option<&'a RawNode>)
    ensures
        match r {
            Some(b) => body_in(raw_views_of(cs@)) == Some(b@),
            None => body_in(raw_views_of(cs@)) is None,
        },
    decreases cs,
{
    proof {
        lemma_raw_views_of(cs@);
    }
    let ghost vs = raw_views_of(cs@);
    proof {
        assert(vs.subrange(0, vs.len() as int) =~= vs);
    }
    let mut i: usize = 0;
    while i < cs.len()
        invariant
            0 <= i <= cs.len(),
            vs.len() == cs@.len(),
            body_in(vs) == body_in(vs.subrange(i as int, vs.len() as int)),
        decreases cs.len() - i,
    {
        proof {
            assert(decreases_to!(*cs => cs@));
            assert(decreases_to!(cs@ => cs@[i as int]));
        }
        match find_body(&cs[i]) {
            Some(b) => {
                proof {
                    let rest = vs.subrange(i as int, vs.len() as int);
                    assert(rest.first() == vs[i as int]);
                }
                return Some(b);
            },
            None => {
                proof {
                    let rest = vs.subrange(i as int, vs.len() as int);
                    assert(rest.first() == vs[i as int]);
                    assert(rest.drop_first() =~= vs.subrange(i + 1, vs.len() as int));
                }
                i += 1;
            },
        }
    }
    proof {
        assert(vs.subrange(i as int, vs.len() as int) =~= Seq::<RawNodeV>::empty());
    }
    None
}

/// Whether a node model is an empty text leaf.
pub open spec fn is_empty_text(n: NodeV) -> bool {
    n matches NodeV::Text(t) && t.len() == 0
}

/// The `ParsedNode` model that converting a raw node yields: text trimmed,
/// `script`/`style` elements emptied, other kinds of nodes emptied, empty
/// text children dropped, no state and no framework tag yet.
pub open spec fn processed(n: RawNodeV) -> NodeV
    decreases n,
{
    match n {
        RawNodeV::Text(t) => NodeV::Text(trimmed(t)),
        RawNodeV::Element { name, attrs, children } => {
            if name == "script"@ || name == "style"@ {
                NodeV::Text(Seq::empty())
            } else {
                NodeV::Element {
                    tag: name,
                    attrs: attrs,
                    children: processed_children(children),
                    reactive_state: None,
                    framework: None,
                }
            }
        },
        RawNodeV::Other { .. } => NodeV::Text(Seq::empty()),
    }
}

/// The converted children of an element, with empty text leaves dropped.
pub open spec fn processed_children(cs: Seq<RawNodeV>) -> Seq<NodeV>
    decreases cs,
{
    if cs.len() == 0 {
        Seq::empty()
    } else {
        let rest = processed_children(cs.drop_last());
        let p = processed(cs.last());
        if is_empty_text(p) {
            rest
        } else {
            rest.push(p)
        }
    }
}

/// Convert a raw node into a `ParsedNode`.
#[verifier::loop_isolation(false)]
fn process_node(n: &RawNode) -> (r: ParsedNode)
    ensures
        r@ == processed(n@),
    decreases n,
{
    match n {
        RawNode::Text(t) => ParsedNode::Text(trim_str(t.as_str()).to_owned()),
        RawNode::Element { name, attrs, children } => {
            if str_eq(name.as_str(), "script") || str_eq(name.as_str(), "style") {
                ParsedNode::Text(String::new())
            } else {
                let mut out: Vec<ParsedNode> = Vec::new();
                proof {
                    lemma_raw_views_of(children@);
                    assert(raw_views_of(children@).subrange(0, 0) =~= Seq::<RawNodeV>::empty());
                }
                let mut i: usize = 0;
                while i < children.len()
                    invariant
                        0 <= i <= children.len(),
                        raw_views_of(children@).len() == children@.len(),
                        views_of(out@) == processed_children(
                            raw_views_of(children@).subrange(0, i as int),
                        ),
                    decreases children.len() - i,
                {
                    proof {
                        lemma_raw_views_of(children@);
                        assert(decreases_to!(*n => n->Element_children));
                        assert(decreases_to!(n->Element_children => children@[i as int]));
                    }
                    let p = process_node(&children[i]);
                    let keep = match &p {
                        ParsedNode::Text(t) => !t.as_str().is_empty(),
                        _ => true,
                    };
                    proof {
                        let rvs = raw_views_of(children@);
                        let t = rvs.subrange(0, i + 1);
                        assert(t.drop_last() =~= rvs.subrange(0, i as int));
                        assert(t.last() == rvs[i as int]);
                        assert(p@ == processed(rvs[i as int]));
                        assert(keep == !is_empty_text(p@));
                    }
                    if keep {
                        let ghost prev = out@;
                        out.push(p);
                        proof {
                            let rvs = raw_views_of(children@);
                            assert(out@.drop_last() =~= prev);
                            assert(views_of(out@) == views_of(prev).push(p@));
                            assert(views_of(out@) == processed_children(rvs.subrange(0, i + 1)));
                        }
                    } else {
                        proof {
                            let rvs = raw_views_of(children@);
                            assert(views_of(out@) == processed_children(rvs.subrange(0, i + 1)));
                        }
                    }
                    i += 1;
                }
                proof {
                    let rvs = raw_views_of(children@);
                    assert(rvs.subrange(0, rvs.len() as int) =~= rvs);
                }
                let mut attrs2: Vec<(String, String)> = Vec::new();
                let mut j: usize = 0;
                while j < attrs.len()
                    invariant
                        0 <= j <= attrs.len(),
                        attrs2@.len() == j as int,
                        forall|k: int| 0 <= k < j as int ==> attrs2@[k].0@ == attrs@[k].0@
                            && attrs2@[k].1@ == attrs@[k].1@,
                    decreases attrs.len() - j,
                {
                    let a = &attrs[j];
                    attrs2.push((a.0.clone(), a.1.clone()));
                    j += 1;
                }
                proof {
                    assert(attrs_views(attrs2@) =~= attrs_views(attrs@));
                }
                ParsedNode::Element {
                    tag: name.clone(),
                    attrs: attrs2,
                    children: out,
                    reactive_state: None,
                    framework: None,
                }
            }
        },
        RawNode::Other { .. } => ParsedNode::Text(String::new()),
    }
}

/// The parsed body of a document: the converted body element, or an empty
/// text leaf where the document has none.
pub open spec fn parsed_body_of(html: Seq<char>) -> NodeV {
    match body_of(dom_of(html)) {
        Some(b) => processed(b),
        None => NodeV::Text(Seq::empty()),
    }
}

/// Parse a text into the body's node tree, before framework detection.
pub fn parse_body(html: &str) -> (r: ParsedNode)
    ensures
        r@ == parsed_body_of(html@),
{
    let raw = parse_document_raw(html);
    match find_body(&raw) {
        Some(b) => process_node(b),
        None => ParsedNode::Text(String::new()),
    }
}

/// The result of a full parse of a text: the body's tree with the winning
/// framework tag and state stamped on, and that tag.
pub open spec fn parse_process_spec(html: Seq<char>) -> (NodeV, Option<FrameworkType>) {
    crate::detect::detect_spec(parsed_body_of(html), html)
}

/// Parse a raw text into the body's node tree, run framework detection over
/// it, and return the stamped tree together with the detected tag.
pub fn parse_and_process(html: &str) -> (r: (ParsedNode, Option<FrameworkType>))
    ensures
        r.0@ == parse_process_spec(html@).0,
        r.1 == parse_process_spec(html@).1,
{
    let body = parse_body(html);
    crate::detect::detect_node(&body, html)
}

/// How many tags a sequence of trees carries, split around an appended tree.
proof fn lemma_stamped_in_push(cs: Seq<NodeV>, x: NodeV)
    ensures
        crate::detect::stamped_count_in(cs.push(x)) == crate::detect::stamped_count_in(cs)
            + crate::detect::stamped_count(x),
    decreases cs,
{
    assert(cs.push(x).len() == cs.len() + 1);
    assert(crate::detect::stamped_count_in(cs.push(x)) == crate::detect::stamped_count(
        cs.push(x).first(),
    ) + crate::detect::stamped_count_in(cs.push(x).drop_first()));
    if cs.len() == 0 {
        assert(cs.push(x).first() == x);
        assert(cs.push(x).drop_first() =~= Seq::<NodeV>::empty());
        assert(crate::detect::stamped_count_in(Seq::<NodeV>::empty()) == 0);
    } else {
        assert(cs.push(x).first() == cs.first());
        assert(cs.push(x).drop_first() =~= cs.drop_first().push(x));
        lemma_stamped_in_push(cs.drop_first(), x);
        assert(crate::detect::stamped_count_in(cs) == crate::detect::stamped_count(cs.first())
            + crate::detect::stamped_count_in(cs.drop_first()));
    }
}

/// A freshly converted tree carries no framework tag.
pub proof fn lemma_processed_unstamped(n: RawNodeV)
    ensures
        crate::detect::stamped_count(processed(n)) == 0,
    decreases n,
{
    match n {
        RawNodeV::Text(_) => {},
        RawNodeV::Other { .. } => {},
        RawNodeV::Element { name, children, .. } => {
            if name == "script"@ || name == "style"@ {
            } else {
                lemma_processed_children_unstamped(children);
            }
        },
    }
}

/// Freshly converted children carry no framework tag.
pub proof fn lemma_processed_children_unstamped(cs: Seq<RawNodeV>)
    ensures
        crate::detect::stamped_count_in(processed_children(cs)) == 0,
    decreases cs,
{
    if cs.len() > 0 {
        lemma_processed_children_unstamped(cs.drop_last());
        lemma_processed_unstamped(cs.last());
        let p = processed(cs.last());
        if !is_empty_text(p) {
            lemma_stamped_in_push(processed_children(cs.drop_last()), p);
        }
    }
}

/// A full parse stamps at most one node: exactly one where detection
/// answers with a tag, none otherwise.
pub proof fn lemma_parse_stamps_at_most_one(html: Seq<char>)
    ensures
        crate::detect::stamped_count(parse_process_spec(html).0) == (
        if parse_process_spec(html).1 is Some {
            1int
        } else {
            0int
        }),
{
    let base = parsed_body_of(html);
    match body_of(dom_of(html)) {
        Some(b) => {
            lemma_processed_unstamped(b);
        },
        None => {},
    }
    crate::detect::lemma_detect_stamps_at_most_one(base, html);
}

/// The earlier match wins across a full parse: the detection answer is the
/// first signature match in depth-first pre-order over the parsed body,
/// whatever stands at the later matches.
pub proof fn lemma_parse_first_match(html: Seq<char>)
    ensures
        parse_process_spec(html).1 == (
        if crate::detect::dfs_matches(parsed_body_of(html), html).len() > 0 {
            Some(crate::detect::dfs_matches(parsed_body_of(html), html).first())
        } else {
            None::<FrameworkType>
        }),
{
    crate::detect::lemma_detect_first_match(parsed_body_of(html), html);
}

/// Parsing is deterministic: the parse result is a function of the input
/// text, so two parses of the same text yield structurally identical trees
/// and the same detection answer.
pub proof fn lemma_parse_deterministic(
    html: Seq<char>,
    a: (NodeV, Option<FrameworkType>),
    b: (NodeV, Option<FrameworkType>),
)
    requires
        a == parse_process_spec(html),
        b == parse_process_spec(html),
    ensures
        a.0 == b.0,
        a.1 == b.1,
{
}

} // verus!
