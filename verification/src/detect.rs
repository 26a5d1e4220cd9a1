//! Framework detection: signature checks over the raw text and the node
//! tree's attributes, embedded-state extraction (exact script-tag form and a
//! brace-balancing fallback), and stamping the winning tag onto the tree.

use vstd::prelude::*;

use crate::node::{
    attr_get, attrs_views, clone_attrs, clone_nodes, has_attr, views_of, FrameworkType, NodeV,
    ParsedNode,
};
use crate::text::{
    balance, brace_delta, contains_sub, find_at, find_sub, find_sub_from, has_match,
    lemma_balance_snoc, lemma_find_at_some, trim_str, trimmed,
};

verus! {

/// Declares serde_json's `Value` so that the parse check below can return it;
/// the type stays opaque.
#[verifier::external_type_specification]
#[verifier::external_body]
pub struct ExJsonValue(serde_json::Value);

/// Declares serde_json's `Error` for the same reason.
#[verifier::external_type_specification]
#[verifier::external_body]
pub struct ExJsonError(serde_json::Error);

/// Whether a text parses as a JSON document. Depends on the text alone.
pub uninterp spec fn json_parse_ok(s: Seq<char>) -> bool;

/// Relies on serde_json's `from_str` for `Value`: whether a text is accepted
/// as JSON depends on the text alone; `json_parse_ok` names that outcome.
#[verifier::external_body]
fn parse_json_value(s: &str) -> (r: Result<serde_json::Value, serde_json::Error>)
    ensures
        r is Ok <==> json_parse_ok(s@),
{
    serde_json::from_str::<serde_json::Value>(s)
}

/// The opening tag that the exact extraction strategy looks for.
pub open spec fn script_open_tag(p: Seq<char>) -> Seq<char> {
    "<script id=\""@ + p + "\" type=\"application/json\">"@
}

/// The brace scan: starting at position `i` with `depth` braces open, the
/// position just past the character at which the count first returns to
/// zero, if the text ever balances.
pub open spec fn bscan(s: Seq<char>, i: int, depth: int) -> Option<int>
    decreases s.len() - i,
{
    if i < 0 || i >= s.len() {
        None
    } else {
        let d = depth + brace_delta(s[i]);
        if s[i] == '}' && d == 0 {
            Some(i + 1)
        } else {
            bscan(s, i + 1, d)
        }
    }
}

/// What the brace scan computes, in terms of the brace balance: the least
/// cut past `start` at which the braces balance, or `None` if no cut does.
pub proof fn lemma_bscan_balance(s: Seq<char>, start: int, i: int, d: int)
    requires
        0 <= start < i <= s.len(),
        d == balance(s.subrange(start, i)),
        d >= 1,
        forall|j: int| start < j <= i ==> balance(s.subrange(start, j)) != 0,
    ensures
        match bscan(s, i, d) {
            Some(end) => {
                &&& i <= end <= s.len()
                &&& balance(s.subrange(start, end)) == 0
                &&& forall|j: int| start < j < end ==> balance(s.subrange(start, j)) != 0
            },
            None => forall|j: int|
                start < j <= s.len() ==> balance(s.subrange(start, j)) != 0,
        },
    decreases s.len() - i,
{
    if i < s.len() {
        lemma_balance_snoc(s, start, i);
        let d2 = d + brace_delta(s[i]);
        if s[i] == '}' && d2 == 0 {
        } else {
            assert(d2 >= 1);
            lemma_bscan_balance(s, start, i + 1, d2);
        }
    }
}

/// The extracted state for a marker, by the fallback strategy: from the first
/// occurrence of the marker up to the next script-close tag (or the end), the
/// first `{` starts a brace scan, and the balanced span is the state.
pub open spec fn extract_fallback(html: Seq<char>, p: Seq<char>) -> Option<Seq<char>> {
    match find_at(html, p, 0) {
        Some(start) => {
            let stop = match find_at(html, "</script>"@, start) {
                Some(e) => e,
                None => html.len() as int,
            };
            let content = html.subrange(start, stop);
            match find_at(content, "{"@, 0) {
                Some(js) => match bscan(content, js, 0) {
                    Some(end) => Some(content.subrange(js, end)),
                    None => None,
                },
                None => None,
            }
        },
        None => None,
    }
}

/// The extracted state for a marker: the trimmed inner text of a script tag
/// with the marker as id and a JSON media type, where such a tag exists and
/// closes; else the fallback strategy on the bare marker.
pub open spec fn extract_spec(html: Seq<char>, p: Seq<char>) -> Option<Seq<char>> {
    match find_at(html, script_open_tag(p), 0) {
        Some(start) => {
            let cs = start + script_open_tag(p).len();
            match find_at(html, "</script>"@, cs) {
                Some(end) => Some(trimmed(html.subrange(cs, end))),
                None => None,
            }
        },
        None => extract_fallback(html, p),
    }
}

/// Extract the serialized state that a framework marker points at, from the
/// raw text: the exact script-tag form first, then the brace-balancing
/// fallback.
pub fn extract_script_content(html: &str, pattern: &str) -> (r: Option<String>)
    ensures
        match r {
            Some(t) => extract_spec(html@, pattern@) == Some(t@),
            None => extract_spec(html@, pattern@) is None,
        },
{
    let tag: String = "<script id=\"".to_owned().concat(pattern).concat(
        "\" type=\"application/json\">",
    );
    let n = html.unicode_len();
    match find_sub(html, tag.as_str()) {
        Some(start) => {
            proof {
                lemma_find_at_some(html@, tag@, 0, start as int);
            }
            let cs = start + tag.as_str().unicode_len();
            match find_sub_from(html, "</script>", cs) {
                Some(end) => {
                    proof {
                        lemma_find_at_some(html@, "</script>"@, cs as int, end as int);
                    }
                    let content = html.substring_char(cs, end);
                    Some(trim_str(content).to_owned())
                },
                None => None,
            }
        },
        None => {
            match find_sub(html, pattern) {
                Some(start) => {
                    proof {
                        lemma_find_at_some(html@, pattern@, 0, start as int);
                    }
                    let stop = match find_sub_from(html, "</script>", start) {
                        Some(e) => {
                            proof {
                                lemma_find_at_some(html@, "</script>"@, start as int, e as int);
                            }
                            e
                        },
                        None => n,
                    };
                    let content = html.substring_char(start, stop);
                    match find_sub(content, "{") {
                        Some(js) => {
                            proof {
                                lemma_find_at_some(content@, "{"@, 0, js as int);
                                reveal_strlit("{");
                                assert("{"@.len() == 1);
                                assert(content@.subrange(js as int, js as int + 1) == "{"@);
                                assert(content@[js as int] == content@.subrange(
                                    js as int,
                                    js as int + 1,
                                )[0]);
                                assert(content@[js as int] == '{');
                            }
                            match crate::text::balanced_end(content, js) {
                                Some(endx) => {
                                    proof {
                                        lemma_scan_agrees(content@, js as int);
                                    }
                                    Some(content.substring_char(js, endx).to_owned())
                                },
                                None => {
                                    proof {
                                        lemma_scan_agrees(content@, js as int);
                                    }
                                    None
                                },
                            }
                        },
                        None => None,
                    }
                },
                None => None,
            }
        },
    }
}

/// The brace scan from an opening brace and the least-balanced-cut reading of
/// it agree; stated so that the executable scanner's answer can be matched
/// against `bscan`.
proof fn lemma_scan_agrees(s: Seq<char>, js: int)
    requires
        0 <= js < s.len(),
        s[js] == '{',
    ensures
        match bscan(s, js, 0) {
            Some(end) => {
                &&& js < end <= s.len()
                &&& balance(s.subrange(js, end)) == 0
                &&& forall|j: int| js < j < end ==> balance(s.subrange(js, j)) != 0
            },
            None => forall|j: int| js < j <= s.len() ==> balance(s.subrange(js, j)) != 0,
        },
{
    lemma_balance_snoc(s, js, js);
    assert(s.subrange(js, js) =~= Seq::<char>::empty());
    assert(balance(s.subrange(js, js + 1)) == 1);
    assert(bscan(s, js, 0) == bscan(s, js + 1, 1));
    if js + 1 <= s.len() {
        lemma_bscan_balance(s, js, js + 1, 1);
    }
}

/// The signature check at one node, strictly in order of priority: an
/// embedded next-data script, an `ng-version` attribute, a Nuxt global-state
/// marker, a SvelteKit fetch marker or hash-data attribute, a wasm reference
/// or module-type script tag. The second component is the state to store,
/// where the winning signature extracts one that parses as JSON.
pub open spec fn detect_at(html: Seq<char>, attrs: Seq<(Seq<char>, Seq<char>)>) -> Option<
    (FrameworkType, Option<Seq<char>>),
> {
    if has_match(html, "id=\"__NEXT_DATA__\""@) {
        match extract_spec(html, "__NEXT_DATA__"@) {
            Some(t) => Some(
                (
                    FrameworkType::ReactNext,
                    if json_parse_ok(t) {
                        Some(t)
                    } else {
                        None
                    },
                ),
            ),
            None => None,
        }
    } else if has_attr(attrs, "ng-version"@) {
        Some((FrameworkType::Angular, None))
    } else if has_match(html, "window.__NUXT__"@) {
        match extract_spec(html, "__NUXT__"@) {
            Some(t) => Some(
                (
                    FrameworkType::VueNuxt,
                    if json_parse_ok(t) {
                        Some(t)
                    } else {
                        None
                    },
                ),
            ),
            None => None,
        }
    } else if has_match(html, "data-sveltekit-fetched"@) || has_attr(attrs, "data-h"@) {
        match extract_spec(html, "data-sveltekit-fetched"@) {
            Some(t) => Some(
                (
                    FrameworkType::SvelteKit,
                    if json_parse_ok(t) {
                        Some(t)
                    } else {
                        None
                    },
                ),
            ),
            None => None,
        }
    } else if has_match(html, ".wasm"@) || has_match(html, "<script type=\"module\">"@) {
        Some((FrameworkType::WasmModule, None))
    } else {
        None
    }
}

/// The model of an optional detection answer.
pub open spec fn det_view(r: Option<(FrameworkType, Option<String>)>) -> Option<
    (FrameworkType, Option<Seq<char>>),
> {
    match r {
        Some((fw, Some(s))) => Some((fw, Some(s@))),
        Some((fw, None)) => Some((fw, None)),
        None => None,
    }
}

/// Evaluate the signature checks for one node.
fn detect_markers(html: &str, attrs: &Vec<(String, String)>) -> (r: Option<
    (FrameworkType, Option<String>),
>)
    ensures
        det_view(r) == detect_at(html@, attrs_views(attrs@)),
{
    if contains_sub(html, "id=\"__NEXT_DATA__\"") {
        match extract_script_content(html, "__NEXT_DATA__") {
            Some(t) => {
                let ok = match parse_json_value(t.as_str()) {
                    Ok(_) => true,
                    Err(_) => false,
                };
                Some(
                    (
                        FrameworkType::ReactNext,
                        if ok {
                            Some(t)
                        } else {
                            None
                        },
                    ),
                )
            },
            None => None,
        }
    } else if attr_get(attrs, "ng-version").is_some() {
        Some((FrameworkType::Angular, None))
    } else if contains_sub(html, "window.__NUXT__") {
        match extract_script_content(html, "__NUXT__") {
            Some(t) => {
                let ok = match parse_json_value(t.as_str()) {
                    Ok(_) => true,
                    Err(_) => false,
                };
                Some(
                    (
                        FrameworkType::VueNuxt,
                        if ok {
                            Some(t)
                        } else {
                            None
                        },
                    ),
                )
            },
            None => None,
        }
    } else if contains_sub(html, "data-sveltekit-fetched") || attr_get(attrs, "data-h").is_some() {
        match extract_script_content(html, "data-sveltekit-fetched") {
            Some(t) => {
                let ok = match parse_json_value(t.as_str()) {
                    Ok(_) => true,
                    Err(_) => false,
                };
                Some(
                    (
                        FrameworkType::SvelteKit,
                        if ok {
                            Some(t)
                        } else {
                            None
                        },
                    ),
                )
            },
            None => None,
        }
    } else if contains_sub(html, ".wasm") || contains_sub(html, "<script type=\"module\">") {
        Some((FrameworkType::WasmModule, None))
    } else {
        None
    }
}

/// Detection over a tree: the first signature match in depth-first pre-order
/// wins; its tag (and extracted state, if any) is stamped on the matching
/// node, and nothing below or after the match is changed.
pub open spec fn detect_spec(n: NodeV, html: Seq<char>) -> (NodeV, Option<FrameworkType>)
    decreases n, 0int,
{
    match n {
        NodeV::Text(_) => (n, None),
        NodeV::Element { tag, attrs, children, reactive_state, framework } => {
            match detect_at(html, attrs) {
                Some(fs) => (
                    NodeV::Element {
                        tag,
                        attrs,
                        children,
                        reactive_state: if fs.1 is Some {
                            fs.1
                        } else {
                            reactive_state
                        },
                        framework: Some(fs.0),
                    },
                    Some(fs.0),
                ),
                None => {
                    let cf = detect_children(children, html);
                    (
                        NodeV::Element {
                            tag,
                            attrs,
                            children: cf.0,
                            reactive_state,
                            framework: None,
                        },
                        cf.1,
                    )
                },
            }
        },
    }
}

/// Detection over a sequence of sibling trees, in order: the first subtree
/// with a match keeps its stamp and ends the search.
pub open spec fn detect_children(cs: Seq<NodeV>, html: Seq<char>) -> (
    Seq<NodeV>,
    Option<FrameworkType>,
)
    decreases cs, cs.len() + 1,
{
    if cs.len() == 0 {
        (cs, None)
    } else {
        let hd = detect_spec(cs.first(), html);
        if hd.1 is Some {
            (cs.update(0, hd.0), hd.1)
        } else {
            let rest = detect_children(cs.drop_first(), html);
            (seq![hd.0] + rest.0, rest.1)
        }
    }
}

/// Run detection over a tree, returning the stamped tree and the winning
/// framework tag, if any.
pub fn detect_node(n: &ParsedNode, html: &str) -> (r: (ParsedNode, Option<FrameworkType>))
    ensures
        r.0@ == detect_spec(n@, html@).0,
        r.1 == detect_spec(n@, html@).1,
    decreases n, 0int,
{
    match n {
        ParsedNode::Text(_) => (n.clone(), None),
        ParsedNode::Element { tag, attrs, children, reactive_state, framework: _ } => {
            match detect_markers(html, attrs) {
                Some((fw, upd)) => {
                    let state2: Option<String> = match upd {
                        Some(t) => Some(t),
                        None => match reactive_state {
                            Some(s) => Some(s.clone()),
                            None => None,
                        },
                    };
                    let node2 = ParsedNode::Element {
                        tag: tag.clone(),
                        attrs: clone_attrs(attrs),
                        children: clone_nodes(children),
                        reactive_state: state2,
                        framework: Some(fw),
                    };
                    (node2, Some(fw))
                },
                None => {
                    proof {
                        assert(decreases_to!(*n => n->Element_children));
                    }
                    let kf = detect_kids(children, 0, html);
                    proof {
                        crate::node::lemma_views_of(children@);
                        assert(views_of(children@).subrange(0, children@.len() as int)
                            =~= views_of(children@));
                    }
                    let node2 = ParsedNode::Element {
                        tag: tag.clone(),
                        attrs: clone_attrs(attrs),
                        children: kf.0,
                        reactive_state: match reactive_state {
                            Some(s) => Some(s.clone()),
                            None => None,
                        },
                        framework: None,
                    };
                    (node2, kf.1)
                },
            }
        },
    }
}

/// Run detection over the siblings `cs[from..]`, in order.
#[verifier::loop_isolation(false)]
fn detect_kids(cs: &Vec<ParsedNode>, from: usize, html: &str) -> (r: (
    Vec<ParsedNode>,
    Option<FrameworkType>,
))
    requires
        from <= cs@.len(),
    ensures
        views_of(r.0@) == detect_children(
            views_of(cs@).subrange(from as int, cs@.len() as int),
            html@,
        ).0,
        r.1 == detect_children(views_of(cs@).subrange(from as int, cs@.len() as int), html@).1,
    decreases cs, cs@.len() - from,
{
    proof {
        crate::node::lemma_views_of(cs@);
    }
    let ghost suffix = views_of(cs@).subrange(from as int, cs@.len() as int);
    if from == cs.len() {
        let out: Vec<ParsedNode> = Vec::new();
        proof {
            assert(suffix =~= Seq::<NodeV>::empty());
            assert(views_of(out@) == Seq::<NodeV>::empty());
        }
        (out, None)
    } else {
        proof {
            assert(decreases_to!(*cs => cs@));
            assert(decreases_to!(cs@ => cs@[from as int]));
            assert(suffix.first() == cs@[from as int]@);
        }
        let hf = detect_node(&cs[from], html);
        let hd = hf.0;
        match hf.1 {
            Some(fw) => {
                let mut out: Vec<ParsedNode> = Vec::new();
                out.push(hd);
                let mut i: usize = from + 1;
                while i < cs.len()
                    invariant
                        from + 1 <= i <= cs@.len(),
                        out@.len() == i - from,
                        out@[0]@ == detect_spec(cs@[from as int]@, html@).0,
                        forall|k: int| 1 <= k < i - from ==> out@[k]@ == cs@[from + k]@,
                    decreases cs@.len() - i,
                {
                    out.push(cs[i].clone());
                    i += 1;
                }
                proof {
                    crate::node::lemma_views_of(out@);
                    assert(views_of(out@) =~= suffix.update(
                        0,
                        detect_spec(suffix.first(), html@).0,
                    ));
                }
                (out, Some(fw))
            },
            None => {
                let rf = detect_kids(cs, from + 1, html);
                let mut rest = rf.0;
                let mut out: Vec<ParsedNode> = Vec::new();
                out.push(hd);
                out.append(&mut rest);
                proof {
                    crate::node::lemma_views_of(out@);
                    crate::node::lemma_views_of(rf.0@);
                    assert(suffix.drop_first() =~= views_of(cs@).subrange(
                        from + 1,
                        cs@.len() as int,
                    ));
                    assert(views_of(out@) =~= seq![
                        detect_spec(suffix.first(), html@).0,
                    ] + detect_children(suffix.drop_first(), html@).0);
                }
                (out, rf.1)
            },
        }
    }
}

/// Detect framework markers in a tree: the first match in depth-first
/// pre-order is stamped onto its node, together with any extracted state,
/// and returned.
pub fn hydrate_framework_markers(node: &mut ParsedNode, html: &str) -> (r: Option<FrameworkType>)
    ensures
        final(node)@ == detect_spec(old(node)@, html@).0,
        r == detect_spec(old(node)@, html@).1,
{
    let nf = detect_node(node, html);
    *node = nf.0;
    nf.1
}

/// How many nodes of a tree carry a framework tag.
pub open spec fn stamped_count(n: NodeV) -> int
    decreases n,
{
    match n {
        NodeV::Text(_) => 0,
        NodeV::Element { framework, children, .. } => (if framework is Some {
            1int
        } else {
            0int
        }) + stamped_count_in(children),
    }
}

/// How many nodes of a sequence of trees carry a framework tag.
pub open spec fn stamped_count_in(cs: Seq<NodeV>) -> int
    decreases cs,
{
    if cs.len() == 0 {
        0
    } else {
        stamped_count(cs.first()) + stamped_count_in(cs.drop_first())
    }
}

/// Stamp counts are never negative.
pub proof fn lemma_stamped_nonneg(n: NodeV)
    ensures
        stamped_count(n) >= 0,
    decreases n,
{
    match n {
        NodeV::Text(_) => {},
        NodeV::Element { children, .. } => {
            lemma_stamped_nonneg_in(children);
        },
    }
}

/// Stamp counts of sequences are never negative.
pub proof fn lemma_stamped_nonneg_in(cs: Seq<NodeV>)
    ensures
        stamped_count_in(cs) >= 0,
    decreases cs,
{
    if cs.len() > 0 {
        lemma_stamped_nonneg(cs.first());
        lemma_stamped_nonneg_in(cs.drop_first());
    }
}

/// Detection stamps at most one node: on a tree with no tag yet, it leaves
/// exactly one node tagged when it answers with a tag, and none otherwise.
pub proof fn lemma_detect_stamps_at_most_one(n: NodeV, html: Seq<char>)
    requires
        stamped_count(n) == 0,
    ensures
        stamped_count(detect_spec(n, html).0) == (if detect_spec(n, html).1 is Some {
            1int
        } else {
            0int
        }),
    decreases n,
{
    match n {
        NodeV::Text(_) => {},
        NodeV::Element { tag, attrs, children, reactive_state, framework } => {
            lemma_stamped_nonneg_in(children);
            match detect_at(html, attrs) {
                Some(fs) => {},
                None => {
                    lemma_detect_stamps_at_most_one_in(children, html);
                },
            }
        },
    }
}

/// Detection over siblings stamps at most one node among them.
pub proof fn lemma_detect_stamps_at_most_one_in(cs: Seq<NodeV>, html: Seq<char>)
    requires
        stamped_count_in(cs) == 0,
    ensures
        stamped_count_in(detect_children(cs, html).0) == (if detect_children(cs, html).1 is Some {
            1int
        } else {
            0int
        }),
    decreases cs,
{
    if cs.len() > 0 {
        lemma_stamped_nonneg(cs.first());
        lemma_stamped_nonneg_in(cs.drop_first());
        let hd = detect_spec(cs.first(), html);
        lemma_detect_stamps_at_most_one(cs.first(), html);
        if hd.1 is Some {
            let out = cs.update(0, hd.0);
            assert(out.first() == hd.0);
            assert(out.drop_first() =~= cs.drop_first());
        } else {
            lemma_detect_stamps_at_most_one_in(cs.drop_first(), html);
            let rest = detect_children(cs.drop_first(), html);
            let out = seq![hd.0] + rest.0;
            assert(out.first() == hd.0);
            assert(out.drop_first() =~= rest.0);
        }
    }
}

/// The tags of all nodes whose signature check matches, in depth-first
/// pre-order over the tree as it stands before detection.
pub open spec fn dfs_matches(n: NodeV, html: Seq<char>) -> Seq<FrameworkType>
    decreases n,
{
    match n {
        NodeV::Text(_) => Seq::empty(),
        NodeV::Element { attrs, children, .. } => {
            let own = match detect_at(html, attrs) {
                Some(fs) => seq![fs.0],
                None => Seq::<FrameworkType>::empty(),
            };
            own + dfs_matches_in(children, html)
        },
    }
}

/// The matching tags of a sequence of sibling trees, in order.
pub open spec fn dfs_matches_in(cs: Seq<NodeV>, html: Seq<char>) -> Seq<FrameworkType>
    decreases cs,
{
    if cs.len() == 0 {
        Seq::empty()
    } else {
        dfs_matches(cs.first(), html) + dfs_matches_in(cs.drop_first(), html)
    }
}

/// The earlier match wins, in general: detection answers with the first
/// signature match in depth-first pre-order, whatever stands at or after
/// the later matches, and with nothing when no node matches.
pub proof fn lemma_detect_first_match(n: NodeV, html: Seq<char>)
    ensures
        detect_spec(n, html).1 == (if dfs_matches(n, html).len() > 0 {
            Some(dfs_matches(n, html).first())
        } else {
            None::<FrameworkType>
        }),
    decreases n,
{
    match n {
        NodeV::Text(_) => {},
        NodeV::Element { attrs, children, .. } => {
            match detect_at(html, attrs) {
                Some(fs) => {
                    assert(dfs_matches(n, html).first() == fs.0);
                },
                None => {
                    lemma_detect_first_match_in(children, html);
                    assert(dfs_matches(n, html) =~= dfs_matches_in(children, html));
                },
            }
        },
    }
}

/// The earlier sibling's match wins, in general.
pub proof fn lemma_detect_first_match_in(cs: Seq<NodeV>, html: Seq<char>)
    ensures
        detect_children(cs, html).1 == (if dfs_matches_in(cs, html).len() > 0 {
            Some(dfs_matches_in(cs, html).first())
        } else {
            None::<FrameworkType>
        }),
    decreases cs,
{
    if cs.len() > 0 {
        lemma_detect_first_match(cs.first(), html);
        let hd = detect_spec(cs.first(), html);
        if hd.1 is Some {
            assert(dfs_matches_in(cs, html).first() == dfs_matches(cs.first(), html).first());
        } else {
            lemma_detect_first_match_in(cs.drop_first(), html);
            assert(dfs_matches_in(cs, html) =~= dfs_matches_in(cs.drop_first(), html));
        }
    }
}

/// Where the signature check matches at a node, that match wins: detection
/// of the whole tree answers with it, whatever stands in the children.
pub proof fn lemma_detect_shallow_wins(n: NodeV, html: Seq<char>, fw: FrameworkType)
    requires
        n is Element,
        detect_at(html, n->Element_attrs) matches Some(fs) && fs.0 == fw,
    ensures
        detect_spec(n, html).1 == Some(fw),
{
}

/// Where the first of several sibling trees answers with a tag, that answer
/// wins: detection of the siblings returns it, whatever stands in the later
/// siblings.
pub proof fn lemma_detect_earlier_wins(cs: Seq<NodeV>, html: Seq<char>, fw: FrameworkType)
    requires
        cs.len() > 0,
        detect_spec(cs.first(), html).1 == Some(fw),
    ensures
        detect_children(cs, html).1 == Some(fw),
{
}

} // verus!
