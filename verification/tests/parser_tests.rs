//! Tests for parsing, extraction, and framework detection.

use yuaibro::detect::extract_script_content;
use yuaibro::node::{FrameworkType, ParsedNode};
use yuaibro::parser::parse_and_process;

/// Structural equality of two trees: same kinds, tags, attributes, child
/// order, states, and framework tags.
fn same_tree(a: &ParsedNode, b: &ParsedNode) -> bool {
    match (a, b) {
        (ParsedNode::Text(x), ParsedNode::Text(y)) => x == y,
        (
            ParsedNode::Element {
                tag: t1,
                attrs: a1,
                children: c1,
                reactive_state: s1,
                framework: f1,
            },
            ParsedNode::Element {
                tag: t2,
                attrs: a2,
                children: c2,
                reactive_state: s2,
                framework: f2,
            },
        ) => {
            t1 == t2
                && a1 == a2
                && s1 == s2
                && f1 == f2
                && c1.len() == c2.len()
                && c1.iter().zip(c2.iter()).all(|(x, y)| same_tree(x, y))
        }
        _ => false,
    }
}

fn tag_of(n: &ParsedNode) -> &str {
    match n {
        ParsedNode::Element { tag, .. } => tag.as_str(),
        ParsedNode::Text(_) => "",
    }
}

fn children_of(n: &ParsedNode) -> &Vec<ParsedNode> {
    match n {
        ParsedNode::Element { children, .. } => children,
        ParsedNode::Text(_) => panic!("expected an element"),
    }
}

#[test]
fn parse_simple_body() {
    let (tree, fw) = parse_and_process("<body><div>hi</div></body>");
    assert_eq!(fw, None);
    assert_eq!(tag_of(&tree), "body");
    let kids = children_of(&tree);
    assert_eq!(kids.len(), 1);
    assert_eq!(tag_of(&kids[0]), "div");
    match &children_of(&kids[0])[0] {
        ParsedNode::Text(t) => assert_eq!(t, "hi"),
        _ => panic!("expected text"),
    }
}

#[test]
fn parse_deterministic() {
    let html = "<body><p>one</p><ul><li>two</li><li>three</li></ul></body>";
    let (a, fa) = parse_and_process(html);
    let (b, fb) = parse_and_process(html);
    assert!(same_tree(&a, &b));
    assert_eq!(fa, fb);
}

#[test]
fn script_and_style_bodies_dropped() {
    let (tree, _) = parse_and_process("<body><style>p{color:red}</style>hi<script>var x=1;</script></body>");
    let kids = children_of(&tree);
    assert_eq!(kids.len(), 1);
    match &kids[0] {
        ParsedNode::Text(t) => assert_eq!(t, "hi"),
        _ => panic!("expected only the text child"),
    }
}

#[test]
fn text_is_trimmed_and_empty_text_dropped() {
    let (tree, _) = parse_and_process("<body><div>  padded  </div>   </body>");
    let kids = children_of(&tree);
    assert_eq!(kids.len(), 1);
    match &children_of(&kids[0])[0] {
        ParsedNode::Text(t) => assert_eq!(t, "padded"),
        _ => panic!("expected text"),
    }
}

#[test]
fn attributes_carried_over() {
    let (tree, _) = parse_and_process("<body><a href=\"http://x\" rel=\"nofollow\">Go</a></body>");
    let a = &children_of(&tree)[0];
    match a {
        ParsedNode::Element { tag, attrs, .. } => {
            assert_eq!(tag, "a");
            assert!(attrs.iter().any(|p| p.0 == "href" && p.1 == "http://x"));
            assert!(attrs.iter().any(|p| p.0 == "rel" && p.1 == "nofollow"));
        }
        _ => panic!("expected the anchor"),
    }
}

#[test]
fn extract_exact_form() {
    let html = "<script id=\"X\" type=\"application/json\">{\"a\":1}</script>";
    assert_eq!(extract_script_content(html, "X").as_deref(), Some("{\"a\":1}"));
}

#[test]
fn extract_exact_form_trims() {
    let html = "<script id=\"X\" type=\"application/json\">  {\"a\":1}\n</script>";
    assert_eq!(extract_script_content(html, "X").as_deref(), Some("{\"a\":1}"));
}

#[test]
fn extract_exact_form_unclosed_fails() {
    let html = "<script id=\"X\" type=\"application/json\">{\"a\":1}";
    assert_eq!(extract_script_content(html, "X"), None);
}

#[test]
fn extract_fallback_balanced() {
    let html = "var MARKER={\"x\":{\"y\":1}};";
    assert_eq!(
        extract_script_content(html, "MARKER").as_deref(),
        Some("{\"x\":{\"y\":1}}")
    );
}

#[test]
fn extract_fallback_stops_at_script_close() {
    let html = "window.MARKER={\"a\":2};</script><p>{</p>";
    assert_eq!(extract_script_content(html, "MARKER").as_deref(), Some("{\"a\":2}"));
}

#[test]
fn extract_fallback_unbalanced_fails() {
    let html = "var MARKER={\"x\":{\"y\":1};";
    assert_eq!(extract_script_content(html, "MARKER"), None);
}

#[test]
fn extract_no_marker_fails() {
    assert_eq!(extract_script_content("<p>nothing here</p>", "MARKER"), None);
}

#[test]
fn detect_react_next_with_state() {
    let html = "<body><div>app</div><script id=\"__NEXT_DATA__\" type=\"application/json\">{\"page\":\"/\"}</script></body>";
    let (tree, fw) = parse_and_process(html);
    assert_eq!(fw, Some(FrameworkType::ReactNext));
    match &tree {
        ParsedNode::Element { framework, reactive_state, .. } => {
            assert_eq!(*framework, Some(FrameworkType::ReactNext));
            assert_eq!(reactive_state.as_deref(), Some("{\"page\":\"/\"}"));
        }
        _ => panic!("expected the body element"),
    }
}

#[test]
fn detect_react_next_invalid_state_withheld() {
    let html = "<body><script id=\"__NEXT_DATA__\" type=\"application/json\">{\"page\"</script></body>";
    let (tree, fw) = parse_and_process(html);
    assert_eq!(fw, Some(FrameworkType::ReactNext));
    match &tree {
        ParsedNode::Element { reactive_state, .. } => assert_eq!(*reactive_state, None),
        _ => panic!("expected the body element"),
    }
}

#[test]
fn detect_angular_on_inner_node() {
    let html = "<body><div ng-version=\"12.0\"><span>x</span></div></body>";
    let (tree, fw) = parse_and_process(html);
    assert_eq!(fw, Some(FrameworkType::Angular));
    match &tree {
        ParsedNode::Element { framework, .. } => assert_eq!(*framework, None),
        _ => panic!("expected the body element"),
    }
    match &children_of(&tree)[0] {
        ParsedNode::Element { framework, .. } => {
            assert_eq!(*framework, Some(FrameworkType::Angular))
        }
        _ => panic!("expected the div"),
    }
}

#[test]
fn detect_shallower_match_wins() {
    let html = "<body><div ng-version=\"12\"><span ng-version=\"9\">x</span></div></body>";
    let (tree, fw) = parse_and_process(html);
    assert_eq!(fw, Some(FrameworkType::Angular));
    let div = &children_of(&tree)[0];
    match div {
        ParsedNode::Element { framework, .. } => {
            assert_eq!(*framework, Some(FrameworkType::Angular))
        }
        _ => panic!("expected the div"),
    }
    match &children_of(div)[0] {
        ParsedNode::Element { framework, .. } => assert_eq!(*framework, None),
        _ => panic!("expected the span"),
    }
}

#[test]
fn detect_at_most_one_tag() {
    // Two signatures are present (a wasm reference in the raw text, and an
    // Angular attribute deeper down); exactly one node is stamped.
    let html = "<body><div ng-version=\"12\">see app.wasm</div></body>";
    let (tree, fw) = parse_and_process(html);
    assert_eq!(fw, Some(FrameworkType::WasmModule));
    fn count_tags(n: &ParsedNode) -> usize {
        match n {
            ParsedNode::Text(_) => 0,
            ParsedNode::Element { framework, children, .. } => {
                (framework.is_some() as usize)
                    + children.iter().map(count_tags).sum::<usize>()
            }
        }
    }
    assert_eq!(count_tags(&tree), 1);
}

#[test]
fn detect_signature_order_within_a_node() {
    // Both the next-data and the Nuxt signature are present; the next-data
    // check stands first and wins.
    let html = "<body><script id=\"__NEXT_DATA__\" type=\"application/json\">{\"a\":1}</script><script>window.__NUXT__={\"b\":2};</script></body>";
    let (tree, fw) = parse_and_process(html);
    assert_eq!(fw, Some(FrameworkType::ReactNext));
    match &tree {
        ParsedNode::Element { reactive_state, .. } => {
            assert_eq!(reactive_state.as_deref(), Some("{\"a\":1}"));
        }
        _ => panic!("expected the body element"),
    }
}

#[test]
fn detect_nuxt_from_raw_text() {
    let html = "<body><div id=\"app\"></div><script>window.__NUXT__={\"state\":{\"n\":1}};</script></body>";
    let (tree, fw) = parse_and_process(html);
    assert_eq!(fw, Some(FrameworkType::VueNuxt));
    match &tree {
        ParsedNode::Element { reactive_state, .. } => {
            assert_eq!(reactive_state.as_deref(), Some("{\"state\":{\"n\":1}}"));
        }
        _ => panic!("expected the body element"),
    }
}

#[test]
fn detect_sveltekit_marker_without_state_suppressed() {
    // The hash-data attribute alone, with no extractable state, names no
    // framework for that node.
    let html = "<body><div data-h=\"abc\">x</div></body>";
    let (_, fw) = parse_and_process(html);
    assert_eq!(fw, None);
}

#[test]
fn detect_wasm_module_script() {
    let html = "<body><p>app</p><script type=\"module\">import x;</script></body>";
    let (_, fw) = parse_and_process(html);
    assert_eq!(fw, Some(FrameworkType::WasmModule));
}

#[test]
fn detect_nothing_in_plain_markup() {
    let (_, fw) = parse_and_process("<body><p>plain</p></body>");
    assert_eq!(fw, None);
}

#[test]
fn empty_input_yields_empty_body() {
    let (tree, fw) = parse_and_process("");
    assert_eq!(fw, None);
    assert_eq!(tag_of(&tree), "body");
    assert!(children_of(&tree).is_empty());
}

#[test]
fn collect_text_joins_with_spaces() {
    let (tree, _) = parse_and_process("<body><p>one</p><p>two</p>three</body>");
    assert_eq!(yuaibro::node::collect_text(&tree), "one two three");
}
