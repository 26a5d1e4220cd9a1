//! Tests for the render cache controller: parse caching, repaint handling,
//! and the interaction queues at the top level.

use yuaibro::hydrate::{HydrationError, ReactiveCoreTrait};
use yuaibro::node::{FrameworkType, ParsedNode};
use yuaibro::page_state::PageState;
use yuaibro::render::HtmlRenderer;
use yuaibro::tree::WidgetSurface;

/// A surface that can be told to activate every link and button.
#[derive(Default)]
struct ClickSurface {
    activate: bool,
    labels: Vec<String>,
}

impl WidgetSurface for ClickSurface {
    fn render_label(&mut self, text: &str) {
        self.labels.push(text.to_string());
    }
    fn render_link(&mut self, _label: &str) -> bool {
        self.activate
    }
    fn render_button(&mut self, _label: &str) -> bool {
        self.activate
    }
    fn render_text_field(&mut self, _value: &str, _placeholder: &str) -> Option<String> {
        None
    }
    fn render_checkbox(&mut self, _checked: bool) -> Option<bool> {
        None
    }
    fn render_radio(&mut self, _selected: bool) -> Option<bool> {
        None
    }
    fn render_image(&mut self, _texture: u64) {}
    fn create_placeholder_texture(&mut self) -> u64 {
        0
    }
    fn begin_group(&mut self) {}
    fn end_group(&mut self) {}
    fn begin_inline(&mut self) {}
    fn end_inline(&mut self) {}
    fn begin_collapsible(&mut self, _header: &str) {}
    fn end_collapsible(&mut self) {}
    fn render_separator(&mut self) {}
    fn line_break(&mut self) {}
    fn render_monospace(&mut self, _text: &str) {}
}

/// Hooks that do nothing and never fail.
#[derive(Default)]
struct QuietHooks;

impl ReactiveCoreTrait<ClickSurface> for QuietHooks {
    fn create_signals(&mut self, _state: &str) -> Result<(), HydrationError> {
        Ok(())
    }
    fn bind_angular_scopes(&mut self, _node: &ParsedNode) -> Result<(), HydrationError> {
        Ok(())
    }
    fn create_stores(&mut self, _state: &str) -> Result<(), HydrationError> {
        Ok(())
    }
    fn apply_svelte_hashes(&mut self, _node: &ParsedNode) -> Result<(), HydrationError> {
        Ok(())
    }
    fn load_wasm_module(&mut self, _node: &ParsedNode) -> Result<(), HydrationError> {
        Ok(())
    }
    fn incremental_render(
        &mut self,
        _surface: &mut ClickSurface,
        _node: &ParsedNode,
    ) -> Result<(), HydrationError> {
        Ok(())
    }
}

#[test]
fn identical_html_parses_once() {
    let mut c = HtmlRenderer::new(1000);
    let mut surface = ClickSurface::default();
    let mut hooks = QuietHooks;
    let html = "<body><p>cached</p></body>";
    c.render_html_ui(&mut surface, &mut hooks, html).unwrap();
    assert_eq!(c.parse_count, 1);
    c.render_html_ui(&mut surface, &mut hooks, html).unwrap();
    c.render_html_ui(&mut surface, &mut hooks, html).unwrap();
    assert_eq!(c.parse_count, 1);
    assert!(c.cached_node.is_some());
}

#[test]
fn changed_html_reparses() {
    let mut c = HtmlRenderer::new(1000);
    let mut surface = ClickSurface::default();
    let mut hooks = QuietHooks;
    c.render_html_ui(&mut surface, &mut hooks, "<body>a</body>").unwrap();
    c.render_html_ui(&mut surface, &mut hooks, "<body>b</body>").unwrap();
    assert_eq!(c.parse_count, 2);
    assert_eq!(c.last_html, "<body>b</body>");
}

#[test]
fn detection_reported_on_parse_then_quiet() {
    let mut c = HtmlRenderer::new(1000);
    let mut surface = ClickSurface::default();
    let mut hooks = QuietHooks;
    let html = "<body><div ng-version=\"12\">x</div></body>";
    let first = c.render_html_ui(&mut surface, &mut hooks, html).unwrap();
    // The tag stands on an inner node; the root's hydrate step reports no
    // newly hydrated framework, so the parse's answer comes through.
    assert_eq!(first, Some(FrameworkType::Angular));
    let second = c.render_html_ui(&mut surface, &mut hooks, html).unwrap();
    assert_eq!(second, None);
}

#[test]
fn repaint_flag_cleared_after_frame() {
    let mut c = HtmlRenderer::new(1000);
    let mut surface = ClickSurface::default();
    let mut hooks = QuietHooks;
    c.render_html_ui(&mut surface, &mut hooks, "<body>x</body>").unwrap();
    assert!(!c.needs_repaint);
}

#[test]
fn scale_change_owes_repaint() {
    let mut c = HtmlRenderer::new(1000);
    let mut surface = ClickSurface::default();
    let mut hooks = QuietHooks;
    c.render_html_ui(&mut surface, &mut hooks, "<body>x</body>").unwrap();
    c.set_scale_factor(1005);
    assert!(!c.needs_repaint);
    c.set_scale_factor(1500);
    assert!(c.needs_repaint);
    assert_eq!(c.scale_millis, 1500);
}

#[test]
fn clicks_surface_through_controller_in_order() {
    let mut c = HtmlRenderer::new(1000);
    let mut surface = ClickSurface { activate: true, ..Default::default() };
    let mut hooks = QuietHooks;
    let html = "<body><a href=\"http://x\">Go</a><a href=\"http://y\">On</a><button>B</button></body>";
    c.render_html_ui(&mut surface, &mut hooks, html).unwrap();
    assert_eq!(c.get_last_link_click().as_deref(), Some("http://x"));
    assert!(c.needs_repaint);
    assert_eq!(c.get_last_link_click().as_deref(), Some("http://y"));
    assert_eq!(c.get_last_link_click(), None);
    assert_eq!(c.get_last_button_click().as_deref(), Some("button"));
    assert_eq!(c.get_last_button_click(), None);
}

#[test]
fn image_results_flow_through_controller() {
    let mut c = HtmlRenderer::new(1000);
    let mut surface = ClickSurface::default();
    let mut hooks = QuietHooks;
    c.render_html_ui(&mut surface, &mut hooks, "<body><img src=\"u\"></body>").unwrap();
    let fetches = c.take_pending_fetches();
    assert_eq!(fetches, vec!["u".to_string()]);
    c.process_image_responses(&vec![("u".to_string(), Some(3))]);
    assert_eq!(
        c.dom_renderer.image_state("u"),
        Some(yuaibro::tree::ImageEntry::Ready(3))
    );
    assert!(c.needs_repaint());
}

#[test]
fn framework_names_parse_exactly() {
    assert_eq!(
        PageState::parse_framework_type("ReactNext"),
        Some(FrameworkType::ReactNext)
    );
    assert_eq!(PageState::parse_framework_type("Angular"), Some(FrameworkType::Angular));
    assert_eq!(PageState::parse_framework_type("VueNuxt"), Some(FrameworkType::VueNuxt));
    assert_eq!(
        PageState::parse_framework_type("SvelteKit"),
        Some(FrameworkType::SvelteKit)
    );
    assert_eq!(
        PageState::parse_framework_type("WasmModule"),
        Some(FrameworkType::WasmModule)
    );
    assert_eq!(PageState::parse_framework_type("reactnext"), None);
    assert_eq!(PageState::parse_framework_type(""), None);
}

#[test]
fn default_page_state_is_empty() {
    let p = PageState::default();
    assert_eq!(p.url, "");
    assert_eq!(p.html, "");
    assert_eq!(p.dom, "");
    assert_eq!(p.detected_framework, None);
}
