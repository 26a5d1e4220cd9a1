//! Tests for the node renderer: per-tag dispatch, interaction queues, and
//! the image cache.

use yuaibro::node::ParsedNode;
use yuaibro::parser::parse_and_process;
use yuaibro::tree::{DomRenderer, ImageEntry, WidgetSurface};

/// A recording surface: every call is logged, and the answers are scripted.
#[derive(Default)]
struct MockSurface {
    events: Vec<String>,
    activate_links: bool,
    activate_buttons: bool,
    edited_text: Option<String>,
    toggled: Option<bool>,
    next_texture: u64,
}

impl WidgetSurface for MockSurface {
    fn render_label(&mut self, text: &str) {
        self.events.push(format!("label:{}", text));
    }
    fn render_link(&mut self, label: &str) -> bool {
        self.events.push(format!("link:{}", label));
        self.activate_links
    }
    fn render_button(&mut self, label: &str) -> bool {
        self.events.push(format!("button:{}", label));
        self.activate_buttons
    }
    fn render_text_field(&mut self, value: &str, placeholder: &str) -> Option<String> {
        self.events.push(format!("field:{}:{}", value, placeholder));
        self.edited_text.clone()
    }
    fn render_checkbox(&mut self, checked: bool) -> Option<bool> {
        self.events.push(format!("checkbox:{}", checked));
        self.toggled
    }
    fn render_radio(&mut self, selected: bool) -> Option<bool> {
        self.events.push(format!("radio:{}", selected));
        self.toggled
    }
    fn render_image(&mut self, texture: u64) {
        self.events.push(format!("image:{}", texture));
    }
    fn create_placeholder_texture(&mut self) -> u64 {
        self.next_texture += 1;
        self.next_texture
    }
    fn begin_group(&mut self) {
        self.events.push("begin_group".to_string());
    }
    fn end_group(&mut self) {
        self.events.push("end_group".to_string());
    }
    fn begin_inline(&mut self) {
        self.events.push("begin_inline".to_string());
    }
    fn end_inline(&mut self) {
        self.events.push("end_inline".to_string());
    }
    fn begin_collapsible(&mut self, header: &str) {
        self.events.push(format!("begin_collapsible:{}", header));
    }
    fn end_collapsible(&mut self) {
        self.events.push("end_collapsible".to_string());
    }
    fn render_separator(&mut self) {
        self.events.push("separator".to_string());
    }
    fn line_break(&mut self) {
        self.events.push("line_break".to_string());
    }
    fn render_monospace(&mut self, text: &str) {
        self.events.push(format!("monospace:{}", text));
    }
}

fn parse(html: &str) -> ParsedNode {
    parse_and_process(html).0
}

#[test]
fn end_to_end_link_and_button() {
    let tree = parse("<body><div><a href=\"http://x\">Go</a><button>Click</button></div></body>");
    // One container with exactly the link and the button.
    match &tree {
        ParsedNode::Element { children, .. } => {
            assert_eq!(children.len(), 1);
            match &children[0] {
                ParsedNode::Element { tag, children, .. } => {
                    assert_eq!(tag, "div");
                    assert_eq!(children.len(), 2);
                }
                _ => panic!("expected the div"),
            }
        }
        _ => panic!("expected the body"),
    }
    let mut surface = MockSurface { activate_links: true, activate_buttons: true, ..Default::default() };
    let mut r = DomRenderer::new();
    r.render_node(&mut surface, &tree);
    assert!(surface.events.contains(&"link:Go".to_string()));
    assert!(surface.events.contains(&"button:Click".to_string()));
    assert_eq!(r.clicked_links.len(), 1);
    assert_eq!(r.clicked_links[0], "http://x");
    assert_eq!(r.clicked_buttons.len(), 1);
    assert_eq!(r.clicked_buttons[0], "button");
    assert!(r.needs_repaint);
}

#[test]
fn no_activation_queues_nothing() {
    let tree = parse("<body><a href=\"http://x\">Go</a><button>Click</button></body>");
    let mut surface = MockSurface::default();
    let mut r = DomRenderer::new();
    r.clear_repaint_flag();
    r.render_node(&mut surface, &tree);
    assert!(r.clicked_links.is_empty());
    assert!(r.clicked_buttons.is_empty());
}

#[test]
fn unsupported_input_type_renders_placeholder() {
    let tree = parse("<body><input type=\"date\"></body>");
    let mut surface = MockSurface::default();
    let mut r = DomRenderer::new();
    r.render_node(&mut surface, &tree);
    assert!(surface
        .events
        .iter()
        .any(|e| e == "label:[unsupported input type: date]"));
    assert!(r.clicked_links.is_empty());
    assert!(r.clicked_buttons.is_empty());
}

#[test]
fn text_field_edit_queues_change() {
    let tree = parse("<body><input type=\"TEXT\" value=\"v\" placeholder=\"p\"></body>");
    let mut surface = MockSurface { edited_text: Some("new".to_string()), ..Default::default() };
    let mut r = DomRenderer::new();
    r.render_node(&mut surface, &tree);
    assert!(surface.events.contains(&"field:v:p".to_string()));
    assert_eq!(r.clicked_buttons[0], "input_changed:new");
}

#[test]
fn checkbox_toggle_queues_change() {
    let tree = parse("<body><input type=\"checkbox\" checked></body>");
    let mut surface = MockSurface { toggled: Some(false), ..Default::default() };
    let mut r = DomRenderer::new();
    r.render_node(&mut surface, &tree);
    assert!(surface.events.contains(&"checkbox:true".to_string()));
    assert_eq!(r.clicked_buttons[0], "checkbox_changed:false");
}

#[test]
fn radio_select_queues_change() {
    let tree = parse("<body><input type=\"radio\"></body>");
    let mut surface = MockSurface { toggled: Some(true), ..Default::default() };
    let mut r = DomRenderer::new();
    r.render_node(&mut surface, &tree);
    assert!(surface.events.contains(&"radio:false".to_string()));
    assert_eq!(r.clicked_buttons[0], "radio_selected:true");
}

#[test]
fn image_miss_inserts_placeholder_and_requests_fetch() {
    let tree = parse("<body><img src=\"http://img/1.png\"></body>");
    let mut surface = MockSurface::default();
    let mut r = DomRenderer::new();
    r.render_node(&mut surface, &tree);
    assert!(surface.events.contains(&"label:[loading image...]".to_string()));
    assert!(matches!(
        r.image_state("http://img/1.png"),
        Some(ImageEntry::Placeholder(_))
    ));
    let fetches = r.take_pending_fetches();
    assert_eq!(fetches, vec!["http://img/1.png".to_string()]);
}

#[test]
fn duplicate_image_sources_fetch_once() {
    let tree = parse("<body><img src=\"u\"><img src=\"u\"><img src=\"w\"></body>");
    let mut surface = MockSurface::default();
    let mut r = DomRenderer::new();
    r.render_node(&mut surface, &tree);
    let fetches = r.take_pending_fetches();
    assert_eq!(fetches, vec!["u".to_string(), "w".to_string()]);
}

#[test]
fn image_hit_renders_texture_without_refetch() {
    let tree = parse("<body><img src=\"u\"></body>");
    let mut surface = MockSurface::default();
    let mut r = DomRenderer::new();
    r.render_node(&mut surface, &tree);
    let _ = r.take_pending_fetches();
    r.apply_image_result("u", Some(7));
    assert_eq!(r.image_state("u"), Some(ImageEntry::Ready(7)));
    let mut surface2 = MockSurface::default();
    r.render_node(&mut surface2, &tree);
    assert!(surface2.events.contains(&"image:7".to_string()));
    assert!(r.take_pending_fetches().is_empty());
}

#[test]
fn stale_fetch_never_overwrites_ready_image() {
    let mut r = DomRenderer::new();
    r.apply_image_result("u", Some(7));
    r.apply_image_result("u", Some(9));
    assert_eq!(r.image_state("u"), Some(ImageEntry::Ready(7)));
}

#[test]
fn failed_fetch_leaves_placeholder() {
    let tree = parse("<body><img src=\"u\"></body>");
    let mut surface = MockSurface::default();
    let mut r = DomRenderer::new();
    r.render_node(&mut surface, &tree);
    let before = r.image_state("u");
    assert!(matches!(before, Some(ImageEntry::Placeholder(_))));
    r.process_image_responses(&vec![("u".to_string(), None)]);
    assert_eq!(r.image_state("u"), before);
}

#[test]
fn batch_of_results_applied_in_order() {
    let mut r = DomRenderer::new();
    r.clear_repaint_flag();
    r.process_image_responses(&vec![
        ("a".to_string(), Some(1)),
        ("b".to_string(), None),
        ("a".to_string(), Some(2)),
    ]);
    assert_eq!(r.image_state("a"), Some(ImageEntry::Ready(1)));
    assert_eq!(r.image_state("b"), None);
    assert!(r.needs_repaint);
}

#[test]
fn details_renders_collapsible_with_summary_header() {
    let tree = parse("<body><details><summary>More</summary><p>body text</p></details></body>");
    let mut surface = MockSurface::default();
    let mut r = DomRenderer::new();
    r.clear_repaint_flag();
    r.render_node(&mut surface, &tree);
    assert!(surface.events.contains(&"begin_collapsible:More".to_string()));
    assert!(surface.events.contains(&"label:body text".to_string()));
    // The summary is the header, not part of the body.
    assert!(!surface.events.contains(&"label:More".to_string()));
    assert!(r.needs_repaint);
}

#[test]
fn structural_tags_dispatch() {
    let tree = parse("<body><p>a</p><hr><br><pre>  raw  text</pre><ul><li>item</li></ul></body>");
    let mut surface = MockSurface::default();
    let mut r = DomRenderer::new();
    r.render_node(&mut surface, &tree);
    assert!(surface.events.contains(&"begin_group".to_string()));
    assert!(surface.events.contains(&"separator".to_string()));
    assert!(surface.events.contains(&"line_break".to_string()));
    assert!(surface.events.contains(&"monospace:raw  text".to_string()));
    assert!(surface.events.contains(&"label:\u{2022}".to_string()));
    assert!(surface.events.contains(&"label:item".to_string()));
}

#[test]
fn queue_order_is_first_in_first_out() {
    let tree =
        parse("<body><a href=\"u1\">one</a><a href=\"u2\">two</a></body>");
    let mut surface = MockSurface { activate_links: true, ..Default::default() };
    let mut r = DomRenderer::new();
    r.render_node(&mut surface, &tree);
    assert_eq!(r.get_last_link_click().as_deref(), Some("u1"));
    assert_eq!(r.get_last_link_click().as_deref(), Some("u2"));
    assert_eq!(r.get_last_link_click(), None);
}
