//! The render cache controller: once per frame it re-parses when the raw
//! text changed, reuses the cached tree otherwise, and runs the
//! hydrate-and-render path only when the text changed or a repaint was
//! requested.

use vstd::prelude::*;

use crate::hydrate::{
    hydration_due, ledger_set, HydrationError, HydrationLedger, ReactiveCoreTrait,
};
use crate::node::{FrameworkType, ParsedNode};
use crate::parser::{parse_and_process, parse_process_spec};
use crate::tree::{render_covers, render_step_ok, DomRenderer, WidgetSurface};

verus! {

/// A counter bumped by one, stopping at its ceiling.
pub open spec fn bumped(c: u64) -> u64 {
    if c < u64::MAX {
        (c + 1) as u64
    } else {
        c
    }
}

/// What one frame of the controller does, for a pre-state, a post-state,
/// the frame's raw text, and its answer. The text is re-parsed only where it
/// differs from the cached one (or nothing is cached); otherwise the cached
/// tree is reused untouched and the parser does not run. The
/// hydrate-and-render path runs only where the text changed or a repaint was
/// requested, recording at most one hydration key; the tree is rendered
/// either way, and the repaint flag is consumed. The answer is the framework
/// newly hydrated this frame, else the one a parse detected this frame.
pub open spec fn frame_spec(
    pre: HtmlRenderer,
    post: HtmlRenderer,
    html: Seq<char>,
    r: Result<Option<FrameworkType>, HydrationError>,
) -> bool {
    let changed = pre.last_html@ != html || pre.cached_node is None;
    let tree = if changed {
        parse_process_spec(html).0
    } else {
        pre.cached_node->0@
    };
    let hydrated = changed || pre.needs_repaint;
    let due = hydration_due(tree, ledger_set(pre.ledger.keys@));
    &&& post.last_html@ == html
    &&& post.cached_node is Some
    &&& post.cached_node->0@ == tree
    &&& (!changed ==> post.cached_node == pre.cached_node)
    &&& post.parse_count == (if changed {
        bumped(pre.parse_count)
    } else {
        pre.parse_count
    })
    &&& !post.needs_repaint
    &&& post.scale_millis == pre.scale_millis
    &&& (if hydrated && due is Some {
        ledger_set(post.ledger.keys@) == ledger_set(pre.ledger.keys@).insert(due->0)
    } else {
        ledger_set(post.ledger.keys@) == ledger_set(pre.ledger.keys@)
    })
    &&& render_step_ok(pre.dom_renderer, post.dom_renderer, tree)
    &&& render_covers(post.dom_renderer, tree)
    &&& (!hydrated ==> (r matches Ok(f) && f is None))
    &&& (hydrated ==> match r {
        Ok(f) => f == (match due {
            Some(k) => Some(k.0),
            None => if changed {
                parse_process_spec(html).1
            } else {
                None::<FrameworkType>
            },
        }),
        Err(_) => due is Some,
    })
}

/// Cache reuse: after a frame for some text, a further frame for the
/// byte-identical text does not run the parser and reuses the cached tree.
pub proof fn lemma_cache_reuse(
    s0: HtmlRenderer,
    s1: HtmlRenderer,
    s2: HtmlRenderer,
    html: Seq<char>,
    r1: Result<Option<FrameworkType>, HydrationError>,
    r2: Result<Option<FrameworkType>, HydrationError>,
)
    requires
        frame_spec(s0, s1, html, r1),
        frame_spec(s1, s2, html, r2),
    ensures
        s2.parse_count == s1.parse_count,
        s2.cached_node == s1.cached_node,
{
}

/// The cache-aware frame renderer: it owns the node renderer, the hydration
/// ledger, and the render cache entry (last raw text, cached tree, repaint
/// flag).
pub struct HtmlRenderer {
    /// The node renderer with its queues and image cache.
    pub dom_renderer: DomRenderer,
    /// The dedup ledger that gates hydration hooks.
    pub ledger: HydrationLedger,
    /// The display scale, in thousandths.
    pub scale_millis: u32,
    /// The raw text of the last parse.
    pub last_html: String,
    /// The tree that text parsed into.
    pub cached_node: Option<ParsedNode>,
    /// Whether the next frame must run the hydrate-and-render path.
    pub needs_repaint: bool,
    /// How many times the parser has run.
    pub parse_count: u64,
}

impl HtmlRenderer {
    /// A fresh controller at the given scale: nothing cached, repaint owed.
    pub fn new(scale_millis: u32) -> (r: HtmlRenderer)
        ensures
            r.scale_millis == scale_millis,
            r.last_html@ == Seq::<char>::empty(),
            r.cached_node is None,
            r.needs_repaint,
            r.parse_count == 0,
            r.dom_renderer.clicked_links@ == Seq::<String>::empty(),
            r.dom_renderer.clicked_buttons@ == Seq::<String>::empty(),
            r.dom_renderer.pending_fetches@ == Seq::<String>::empty(),
            ledger_set(r.ledger.keys@) == Set::<(FrameworkType, Seq<char>)>::empty(),
    {
        HtmlRenderer {
            dom_renderer: DomRenderer::new(),
            ledger: HydrationLedger::new(),
            scale_millis,
            last_html: String::new(),
            cached_node: None,
            needs_repaint: true,
            parse_count: 0,
        }
    }

    /// Change the display scale; a change of more than a hundredth owes a
    /// repaint, a smaller one is ignored.
    pub fn set_scale_factor(&mut self, scale_millis: u32)
        ensures
            ({
                let d = if scale_millis >= old(self).scale_millis {
                    scale_millis - old(self).scale_millis
                } else {
                    old(self).scale_millis - scale_millis
                };
                if d > 10 {
                    final(self).scale_millis == scale_millis && final(self).needs_repaint
                } else {
                    *final(self) == *old(self)
                }
            }),
            final(self).dom_renderer == old(self).dom_renderer,
            final(self).ledger == old(self).ledger,
            final(self).last_html == old(self).last_html,
            final(self).cached_node == old(self).cached_node,
            final(self).parse_count == old(self).parse_count,
    {
        let d = if scale_millis >= self.scale_millis {
            scale_millis - self.scale_millis
        } else {
            self.scale_millis - scale_millis
        };
        if d > 10 {
            self.scale_millis = scale_millis;
            self.needs_repaint = true;
        }
    }

    /// Whether the next frame must run the hydrate-and-render path.
    pub fn needs_repaint(&self) -> (r: bool)
        ensures
            r == (self.needs_repaint || self.dom_renderer.needs_repaint),
    {
        self.needs_repaint || self.dom_renderer.needs_repaint()
    }

    /// Clear both repaint flags; nothing else changes.
    pub fn clear_repaint_flag(&mut self)
        ensures
            !final(self).needs_repaint,
            !final(self).dom_renderer.needs_repaint,
            final(self).dom_renderer.clicked_links == old(self).dom_renderer.clicked_links,
            final(self).dom_renderer.clicked_buttons == old(self).dom_renderer.clicked_buttons,
            final(self).dom_renderer.images == old(self).dom_renderer.images,
            final(self).dom_renderer.pending_fetches == old(self).dom_renderer.pending_fetches,
            final(self).ledger == old(self).ledger,
            final(self).last_html == old(self).last_html,
            final(self).cached_node == old(self).cached_node,
            final(self).parse_count == old(self).parse_count,
            final(self).scale_millis == old(self).scale_millis,
    {
        self.needs_repaint = false;
        self.dom_renderer.clear_repaint_flag();
    }

    /// Dequeue the oldest link activation; a hit owes a repaint.
    pub fn get_last_link_click(&mut self) -> (r: Option<String>)
        ensures
            match r {
                Some(l) => old(self).dom_renderer.clicked_links@.len() > 0 && l == old(self).dom_renderer.clicked_links@.first() && final(self).dom_renderer.clicked_links@
                    == old(self).dom_renderer.clicked_links@.drop_first() && final(self).needs_repaint,
                None => old(self).dom_renderer.clicked_links@.len() == 0 && final(self).dom_renderer.clicked_links@ == old(self).dom_renderer.clicked_links@ && final(self).needs_repaint == old(self).needs_repaint,
            },
            final(self).dom_renderer.clicked_buttons == old(self).dom_renderer.clicked_buttons,
            final(self).dom_renderer.images == old(self).dom_renderer.images,
            final(self).dom_renderer.pending_fetches == old(self).dom_renderer.pending_fetches,
            final(self).ledger == old(self).ledger,
            final(self).last_html == old(self).last_html,
            final(self).cached_node == old(self).cached_node,
            final(self).parse_count == old(self).parse_count,
    {
        match self.dom_renderer.get_last_link_click() {
            Some(l) => {
                self.needs_repaint = true;
                Some(l)
            },
            None => None,
        }
    }

    /// Dequeue the oldest button activation; a hit owes a repaint.
    pub fn get_last_button_click(&mut self) -> (r: Option<String>)
        ensures
            match r {
                Some(l) => old(self).dom_renderer.clicked_buttons@.len() > 0 && l == old(self).dom_renderer.clicked_buttons@.first() && final(self).dom_renderer.clicked_buttons@ == old(self).dom_renderer.clicked_buttons@.drop_first() && final(self).needs_repaint,
                None => old(self).dom_renderer.clicked_buttons@.len() == 0 && final(self).dom_renderer.clicked_buttons@ == old(self).dom_renderer.clicked_buttons@
                    && final(self).needs_repaint == old(self).needs_repaint,
            },
            final(self).dom_renderer.clicked_links == old(self).dom_renderer.clicked_links,
            final(self).dom_renderer.images == old(self).dom_renderer.images,
            final(self).dom_renderer.pending_fetches == old(self).dom_renderer.pending_fetches,
            final(self).ledger == old(self).ledger,
            final(self).last_html == old(self).last_html,
            final(self).cached_node == old(self).cached_node,
            final(self).parse_count == old(self).parse_count,
    {
        match self.dom_renderer.get_last_button_click() {
            Some(l) => {
                self.needs_repaint = true;
                Some(l)
            },
            None => None,
        }
    }

    /// Drain a batch of completed background image fetches into the node
    /// renderer's cache.
    pub fn process_image_responses(&mut self, results: &Vec<(String, Option<u64>)>)
        ensures
            ({
                let f = crate::tree::apply_results(
                    crate::tree::img_map(crate::tree::images_views(old(self).dom_renderer.images@)),
                    old(self).dom_renderer.needs_repaint,
                    crate::tree::results_views(results@),
                );
                crate::tree::img_map(crate::tree::images_views(final(self).dom_renderer.images@))
                    == f.0 && final(self).dom_renderer.needs_repaint == f.1
            }),
            final(self).dom_renderer.clicked_links == old(self).dom_renderer.clicked_links,
            final(self).dom_renderer.clicked_buttons == old(self).dom_renderer.clicked_buttons,
            final(self).dom_renderer.pending_fetches == old(self).dom_renderer.pending_fetches,
            final(self).ledger == old(self).ledger,
            final(self).last_html == old(self).last_html,
            final(self).cached_node == old(self).cached_node,
            final(self).parse_count == old(self).parse_count,
            final(self).needs_repaint == old(self).needs_repaint,
            final(self).scale_millis == old(self).scale_millis,
    {
        self.dom_renderer.process_image_responses(results);
    }

    /// Run one frame for the given raw text: re-parse when the text differs
    /// from the cached one (or nothing is cached yet), else reuse the cached
    /// tree without touching the parser; run the hydrate-and-render path
    /// when the text changed or a repaint was requested, else only render
    /// the cached tree; clear the controller's repaint flag. The answer is
    /// the framework newly hydrated this frame, else the one detected by a
    /// parse this frame, else nothing; a hook failure is reported after the
    /// frame is still rendered.
    pub fn render_html_ui<S: WidgetSurface, H: ReactiveCoreTrait<S>>(
        &mut self,
        surface: &mut S,
        hooks: &mut H,
        html: &str,
    ) -> (r: Result<Option<FrameworkType>, HydrationError>)
        ensures
            frame_spec(*old(self), *final(self), html@, r),
    {
        let was_repaint = self.needs_repaint;
        let changed_now = !crate::text::str_eq(self.last_html.as_str(), html)
            || self.cached_node.is_none();
        let mut detected: Option<FrameworkType> = None;
        let mut should_hydrate = false;
        if changed_now {
            let pf = parse_and_process(html);
            self.last_html = html.to_owned();
            self.cached_node = Some(pf.0);
            if self.parse_count < u64::MAX {
                self.parse_count = self.parse_count + 1;
            }
            self.needs_repaint = true;
            should_hydrate = true;
            detected = pf.1;
        } else {
            if was_repaint {
                should_hydrate = true;
            }
        }
        let mut outcome: Result<Option<FrameworkType>, HydrationError> = Ok(None);
        if should_hydrate {
            match &self.cached_node {
                Some(n) => {
                    let hr = crate::hydrate::hydrate_and_render(
                        surface,
                        &mut self.dom_renderer,
                        &mut self.ledger,
                        hooks,
                        n,
                    );
                    outcome = match hr {
                        Ok(f) => Ok(
                            match f {
                                Some(fw) => Some(fw),
                                None => detected,
                            },
                        ),
                        Err(e) => Err(e),
                    };
                },
                None => {},
            }
        } else {
            match &self.cached_node {
                Some(n) => self.dom_renderer.render_node(surface, n),
                None => {},
            }
        }
        self.needs_repaint = false;
        outcome
    }

    /// Hand out the fetch requests the last render queued.
    pub fn take_pending_fetches(&mut self) -> (r: Vec<String>)
        ensures
            r == old(self).dom_renderer.pending_fetches,
            final(self).dom_renderer.pending_fetches@ == Seq::<String>::empty(),
            final(self).dom_renderer.clicked_links == old(self).dom_renderer.clicked_links,
            final(self).dom_renderer.clicked_buttons == old(self).dom_renderer.clicked_buttons,
            final(self).dom_renderer.images == old(self).dom_renderer.images,
            final(self).dom_renderer.needs_repaint == old(self).dom_renderer.needs_repaint,
            final(self).ledger == old(self).ledger,
            final(self).last_html == old(self).last_html,
            final(self).cached_node == old(self).cached_node,
            final(self).parse_count == old(self).parse_count,
    {
        self.dom_renderer.take_pending_fetches()
    }
}

} // verus!
