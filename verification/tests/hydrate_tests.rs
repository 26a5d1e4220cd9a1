//! Tests for the hydration engine: dedup, hook dispatch, and failure
//! scoping.

use yuaibro::hydrate::{hydrate_and_render, HydrationError, HydrationLedger, ReactiveCoreTrait};
use yuaibro::node::{FrameworkType, ParsedNode};
use yuaibro::tree::{DomRenderer, WidgetSurface};

/// A surface that ignores every call and reports no interaction.
#[derive(Default)]
struct QuietSurface;

impl WidgetSurface for QuietSurface {
    fn render_label(&mut self, _text: &str) {}
    fn render_link(&mut self, _label: &str) -> bool {
        false
    }
    fn render_button(&mut self, _label: &str) -> bool {
        false
    }
    fn render_text_field(&mut self, _value: &str, _placeholder: &str) -> Option<String> {
        None
    }
    fn render_checkbox(&mut self, _checked: bool) -> Option<bool> {
        None
    }
    fn render_radio(&mut self, _selected: bool) -> Option<bool> {
        None
    }
    fn render_image(&mut self, _texture: u64) {}
    fn create_placeholder_texture(&mut self) -> u64 {
        0
    }
    fn begin_group(&mut self) {}
    fn end_group(&mut self) {}
    fn begin_inline(&mut self) {}
    fn end_inline(&mut self) {}
    fn begin_collapsible(&mut self, _header: &str) {}
    fn end_collapsible(&mut self) {}
    fn render_separator(&mut self) {}
    fn line_break(&mut self) {}
    fn render_monospace(&mut self, _text: &str) {}
}

/// Hooks that count their invocations and can be told to fail.
#[derive(Default)]
struct CountingHooks {
    signals: usize,
    scopes: usize,
    stores: usize,
    hashes: usize,
    wasm: usize,
    renders: usize,
    fail: bool,
}

impl CountingHooks {
    fn outcome(&self) -> Result<(), HydrationError> {
        if self.fail {
            Err(HydrationError { message: "hook refused".to_string() })
        } else {
            Ok(())
        }
    }
}

impl ReactiveCoreTrait<QuietSurface> for CountingHooks {
    fn create_signals(&mut self, _state: &str) -> Result<(), HydrationError> {
        self.signals += 1;
        self.outcome()
    }
    fn bind_angular_scopes(&mut self, _node: &ParsedNode) -> Result<(), HydrationError> {
        self.scopes += 1;
        self.outcome()
    }
    fn create_stores(&mut self, _state: &str) -> Result<(), HydrationError> {
        self.stores += 1;
        self.outcome()
    }
    fn apply_svelte_hashes(&mut self, _node: &ParsedNode) -> Result<(), HydrationError> {
        self.hashes += 1;
        self.outcome()
    }
    fn load_wasm_module(&mut self, _node: &ParsedNode) -> Result<(), HydrationError> {
        self.wasm += 1;
        self.outcome()
    }
    fn incremental_render(
        &mut self,
        _surface: &mut QuietSurface,
        _node: &ParsedNode,
    ) -> Result<(), HydrationError> {
        self.renders += 1;
        self.outcome()
    }
}

fn tagged_node(fw: FrameworkType, id: &str, state: Option<&str>) -> ParsedNode {
    ParsedNode::Element {
        tag: "div".to_string(),
        attrs: vec![("id".to_string(), id.to_string())],
        children: Vec::new(),
        reactive_state: state.map(|s| s.to_string()),
        framework: Some(fw),
    }
}

#[test]
fn hydration_runs_hook_once_per_key() {
    let mut surface = QuietSurface;
    let mut renderer = DomRenderer::new();
    let mut ledger = HydrationLedger::new();
    let mut hooks = CountingHooks::default();
    let node = tagged_node(FrameworkType::ReactNext, "root", Some("{\"a\":1}"));
    let r1 = hydrate_and_render(&mut surface, &mut renderer, &mut ledger, &mut hooks, &node);
    assert_eq!(r1.unwrap(), Some(FrameworkType::ReactNext));
    // A second node with the same dedup key: the hook is not run again.
    let node2 = tagged_node(FrameworkType::ReactNext, "root", Some("{\"b\":2}"));
    let r2 = hydrate_and_render(&mut surface, &mut renderer, &mut ledger, &mut hooks, &node2);
    assert_eq!(r2.unwrap(), None);
    assert_eq!(hooks.signals, 1);
    assert_eq!(hooks.renders, 1);
}

#[test]
fn distinct_keys_each_hydrate() {
    let mut surface = QuietSurface;
    let mut renderer = DomRenderer::new();
    let mut ledger = HydrationLedger::new();
    let mut hooks = CountingHooks::default();
    let a = tagged_node(FrameworkType::Angular, "a", None);
    let b = tagged_node(FrameworkType::Angular, "b", None);
    let c = tagged_node(FrameworkType::SvelteKit, "a", None);
    hydrate_and_render(&mut surface, &mut renderer, &mut ledger, &mut hooks, &a).unwrap();
    hydrate_and_render(&mut surface, &mut renderer, &mut ledger, &mut hooks, &b).unwrap();
    hydrate_and_render(&mut surface, &mut renderer, &mut ledger, &mut hooks, &c).unwrap();
    assert_eq!(hooks.scopes, 2);
    assert_eq!(hooks.hashes, 1);
    assert_eq!(hooks.renders, 3);
}

#[test]
fn state_requiring_framework_without_state_skips_its_hook() {
    let mut surface = QuietSurface;
    let mut renderer = DomRenderer::new();
    let mut ledger = HydrationLedger::new();
    let mut hooks = CountingHooks::default();
    let node = tagged_node(FrameworkType::VueNuxt, "app", None);
    let r = hydrate_and_render(&mut surface, &mut renderer, &mut ledger, &mut hooks, &node);
    assert_eq!(r.unwrap(), Some(FrameworkType::VueNuxt));
    assert_eq!(hooks.stores, 0);
    // The generic incremental render still ran.
    assert_eq!(hooks.renders, 1);
}

#[test]
fn untagged_node_is_only_rendered() {
    let mut surface = QuietSurface;
    let mut renderer = DomRenderer::new();
    let mut ledger = HydrationLedger::new();
    let mut hooks = CountingHooks::default();
    let node = ParsedNode::Text("plain".to_string());
    let r = hydrate_and_render(&mut surface, &mut renderer, &mut ledger, &mut hooks, &node);
    assert_eq!(r.unwrap(), None);
    assert_eq!(hooks.renders, 0);
}

#[test]
fn hook_failure_is_scoped_and_recorded() {
    let mut surface = QuietSurface;
    let mut renderer = DomRenderer::new();
    let mut ledger = HydrationLedger::new();
    let mut hooks = CountingHooks { fail: true, ..Default::default() };
    let node = tagged_node(FrameworkType::WasmModule, "m", None);
    let r = hydrate_and_render(&mut surface, &mut renderer, &mut ledger, &mut hooks, &node);
    assert!(r.is_err());
    // The key was recorded before the hook failed: a retry is a no-op.
    hooks.fail = false;
    let r2 = hydrate_and_render(&mut surface, &mut renderer, &mut ledger, &mut hooks, &node);
    assert_eq!(r2.unwrap(), None);
    assert_eq!(hooks.wasm, 1);
}

#[test]
fn missing_id_nodes_share_the_empty_key() {
    let mut surface = QuietSurface;
    let mut renderer = DomRenderer::new();
    let mut ledger = HydrationLedger::new();
    let mut hooks = CountingHooks::default();
    let a = ParsedNode::Element {
        tag: "div".to_string(),
        attrs: Vec::new(),
        children: Vec::new(),
        reactive_state: None,
        framework: Some(FrameworkType::Angular),
    };
    let b = ParsedNode::Element {
        tag: "section".to_string(),
        attrs: vec![("class".to_string(), "x".to_string())],
        children: Vec::new(),
        reactive_state: None,
        framework: Some(FrameworkType::Angular),
    };
    hydrate_and_render(&mut surface, &mut renderer, &mut ledger, &mut hooks, &a).unwrap();
    // Same framework, and both without an id: the dedup key is shared.
    let r = hydrate_and_render(&mut surface, &mut renderer, &mut ledger, &mut hooks, &b).unwrap();
    assert_eq!(r, None);
    assert_eq!(hooks.scopes, 1);
}

#[test]
fn wasm_and_svelte_hooks_dispatch_by_tag() {
    let mut surface = QuietSurface;
    let mut renderer = DomRenderer::new();
    let mut ledger = HydrationLedger::new();
    let mut hooks = CountingHooks::default();
    let w = tagged_node(FrameworkType::WasmModule, "w", None);
    let s = tagged_node(FrameworkType::SvelteKit, "s", Some("{}"));
    hydrate_and_render(&mut surface, &mut renderer, &mut ledger, &mut hooks, &w).unwrap();
    hydrate_and_render(&mut surface, &mut renderer, &mut ledger, &mut hooks, &s).unwrap();
    assert_eq!(hooks.wasm, 1);
    assert_eq!(hooks.hashes, 1);
    assert_eq!(hooks.signals, 0);
    assert_eq!(hooks.stores, 0);
}
