//! The node renderer: an owned widget-surface walker with two interaction
//! queues, a per-renderer image cache with placeholder entries and
//! fire-and-forget fetch requests, and a repaint flag.

use std::collections::VecDeque;
use vstd::prelude::*;
use vstd::seq_lib::*;

use crate::node::{attr_get, attr_of, attrs_views, NodeV, ParsedNode};

verus! {

/// An entry of the image cache: the placeholder texture inserted when a
/// source is first referenced, or the real texture a completed fetch yielded.
#[derive(Clone, Copy, Debug, PartialEq, Eq, Structural)]
pub enum ImageEntry {
    Placeholder(u64),
    Ready(u64),
}

/// The models of the image cache's entries, in order.
pub open spec fn images_views(s: Seq<(String, ImageEntry)>) -> Seq<(Seq<char>, ImageEntry)> {
    s.map_values(|e: (String, ImageEntry)| (e.0@, e.1))
}

/// The map that the image cache's entries stand for: the first entry for a
/// source wins.
pub open spec fn img_map(s: Seq<(Seq<char>, ImageEntry)>) -> Map<Seq<char>, ImageEntry>
    decreases s,
{
    if s.len() == 0 {
        Map::empty()
    } else {
        img_map(s.drop_first()).insert(s.first().0, s.first().1)
    }
}

/// Where the first `i` entries are not for `key`, the map's answer for `key`
/// comes from the remaining entries.
pub proof fn lemma_img_map_skip(s: Seq<(Seq<char>, ImageEntry)>, key: Seq<char>, i: int)
    requires
        0 <= i <= s.len(),
        forall|j: int| 0 <= j < i ==> s[j].0 != key,
    ensures
        img_map(s).contains_key(key) == img_map(s.subrange(i, s.len() as int)).contains_key(key),
        img_map(s).contains_key(key) ==> img_map(s)[key] == img_map(
            s.subrange(i, s.len() as int),
        )[key],
    decreases i,
{
    if i == 0 {
        assert(s.subrange(0, s.len() as int) =~= s);
    } else {
        assert(s.drop_first().subrange(i - 1, s.drop_first().len() as int) =~= s.subrange(
            i,
            s.len() as int,
        ));
        lemma_img_map_skip(s.drop_first(), key, i - 1);
    }
}

/// Whether some anchor element in the tree carries `url` as its `href`.
pub open spec fn has_link(n: NodeV, url: Seq<char>) -> bool
    decreases n,
{
    match n {
        NodeV::Text(_) => false,
        NodeV::Element { tag, attrs, children, .. } => (tag == "a"@ && attr_of(attrs, "href"@)
            == Some(url)) || exists|i: int|
            0 <= i < children.len() && has_link(#[trigger] children[i], url),
    }
}

/// Whether some image element in the tree carries `url` as its `src`.
pub open spec fn has_img(n: NodeV, url: Seq<char>) -> bool
    decreases n,
{
    match n {
        NodeV::Text(_) => false,
        NodeV::Element { tag, attrs, children, .. } => (tag == "img"@ && attr_of(attrs, "src"@)
            == Some(url)) || exists|i: int|
            0 <= i < children.len() && has_img(#[trigger] children[i], url),
    }
}

/// Whether an element of this tag renders all of its children: interactive
/// controls, images, preformatted text, breaks and separators render none,
/// and a collapsible section chooses its own.
pub open spec fn renders_all_children(tag: Seq<char>) -> bool {
    !(tag == "a"@ || tag == "button"@ || tag == "input"@ || tag == "img"@ || tag == "details"@
        || tag == "br"@ || tag == "hr"@ || tag == "pre"@)
}

/// Whether a collapsible section's body renders this child: an element that
/// is not the summary.
pub open spec fn in_details_body(n: NodeV) -> bool {
    n is Element && n->Element_tag != "summary"@
}

/// Whether a render pass over `n` visits an image element whose source is
/// `url`.
pub open spec fn visited_img(n: NodeV, url: Seq<char>) -> bool
    decreases n,
{
    match n {
        NodeV::Text(_) => false,
        NodeV::Element { tag, attrs, children, .. } => {
            if tag == "img"@ {
                attr_of(attrs, "src"@) == Some(url)
            } else if tag == "details"@ {
                visited_img_in(children, true, url)
            } else if renders_all_children(tag) {
                visited_img_in(children, false, url)
            } else {
                false
            }
        },
    }
}

/// Whether rendering these children (only the collapsible body's own ones,
/// in `details_only` mode) visits an image element with source `url`.
pub open spec fn visited_img_in(cs: Seq<NodeV>, details_only: bool, url: Seq<char>) -> bool
    decreases cs,
{
    exists|i: int|
        0 <= i < cs.len() && (!details_only || in_details_body(#[trigger] cs[i])) && visited_img(
            cs[i],
            url,
        )
}

/// Whether a render pass over `n` visits a collapsible (`details`) element.
pub open spec fn visits_details(n: NodeV) -> bool
    decreases n,
{
    match n {
        NodeV::Text(_) => false,
        NodeV::Element { tag, children, .. } => {
            if tag == "details"@ {
                true
            } else if renders_all_children(tag) {
                visits_details_in(children, false)
            } else {
                false
            }
        },
    }
}

/// Whether rendering these children visits a collapsible element.
pub open spec fn visits_details_in(cs: Seq<NodeV>, details_only: bool) -> bool
    decreases cs,
{
    exists|i: int|
        0 <= i < cs.len() && (!details_only || in_details_body(#[trigger] cs[i]))
            && visits_details(cs[i])
}

/// The button-queue entries an input control may add: an edit event carrying
/// the new text, or a toggle event of a boolean control.
pub open spec fn is_input_event(s: Seq<char>) -> bool {
    (exists|v: Seq<char>| s == #[trigger] ("input_changed:"@ + v)) || s
        == "checkbox_changed:true"@ || s == "checkbox_changed:false"@ || s
        == "radio_selected:true"@ || s == "radio_selected:false"@
}

/// The button-queue entries a render pass may add: the fixed button
/// identifier, or an input event.
pub open spec fn is_render_event(s: Seq<char>) -> bool {
    s == "button"@ || is_input_event(s)
}

/// The models of a batch of fetch results: each is a source and the texture
/// a successful fetch produced, or `None` for a failed one.
pub open spec fn results_views(s: Seq<(String, Option<u64>)>) -> Seq<(Seq<char>, Option<u64>)> {
    s.map_values(|r: (String, Option<u64>)| (r.0@, r.1))
}

/// The cache map and repaint flag after a batch of fetch completions,
/// applied in order: a success fills its entry unless a real image stands
/// there; a failure changes nothing.
pub open spec fn apply_results(
    m: Map<Seq<char>, ImageEntry>,
    repaint: bool,
    rs: Seq<(Seq<char>, Option<u64>)>,
) -> (Map<Seq<char>, ImageEntry>, bool)
    decreases rs,
{
    if rs.len() == 0 {
        (m, repaint)
    } else {
        let src = rs.first().0;
        let step = match rs.first().1 {
            Some(t) => if m.contains_key(src) && m[src] is Ready {
                (m, repaint)
            } else {
                (m.insert(src, ImageEntry::Ready(t)), true)
            },
            None => (m, repaint),
        };
        apply_results(step.0, step.1, rs.drop_first())
    }
}

/// What one rendering step may do to a renderer, relative to the tree `n`
/// it renders. The queues and the fetch list only grow; every queued link is
/// an `href` of the tree and every new button entry has the shape of an
/// activation or input event; the repaint flag is never cleared. The image
/// cache only grows and existing entries are never overwritten; every entry
/// the step adds is a placeholder that was also queued for fetching, with a
/// repaint owed; and every fetch the step queues is a source of the tree
/// that was not cached before, is cached afterwards, and is queued only
/// once.
pub open spec fn render_step_ok(pre: DomRenderer, post: DomRenderer, n: NodeV) -> bool {
    let pm = img_map(images_views(pre.images@));
    let qm = img_map(images_views(post.images@));
    &&& pre.clicked_links@.is_prefix_of(post.clicked_links@)
    &&& forall|j: int|
        pre.clicked_links@.len() <= j < post.clicked_links@.len() ==> has_link(
            n,
            post.clicked_links@[j]@,
        )
    &&& pre.clicked_buttons@.is_prefix_of(post.clicked_buttons@)
    &&& forall|j: int|
        pre.clicked_buttons@.len() <= j < post.clicked_buttons@.len() ==> is_render_event(
            post.clicked_buttons@[j]@,
        )
    &&& pre.pending_fetches@.is_prefix_of(post.pending_fetches@)
    &&& forall|j: int|
        pre.pending_fetches@.len() <= j < post.pending_fetches@.len() ==> {
            &&& has_img(n, #[trigger] post.pending_fetches@[j]@)
            &&& !pm.contains_key(post.pending_fetches@[j]@)
            &&& qm.contains_key(post.pending_fetches@[j]@)
        }
    &&& forall|j: int, k: int|
        pre.pending_fetches@.len() <= j < k < post.pending_fetches@.len()
            ==> #[trigger] post.pending_fetches@[j]@ != #[trigger] post.pending_fetches@[k]@
    &&& (pre.needs_repaint ==> post.needs_repaint)
    &&& pm.dom() <= qm.dom()
    &&& forall|key: Seq<char>| #[trigger] pm.contains_key(key) ==> qm[key] == pm[key]
    &&& forall|key: Seq<char>|
        #[trigger] qm.contains_key(key) && !pm.contains_key(key) ==> {
            &&& qm[key] is Placeholder
            &&& post.needs_repaint
            &&& exists|j: int|
                pre.pending_fetches@.len() <= j < post.pending_fetches@.len()
                    && #[trigger] post.pending_fetches@[j]@ == key
        }
}

/// What a render pass must itself have done, beyond `render_step_ok`: every
/// image source it visits is cached afterwards, and a visited collapsible
/// section owes a repaint. With `render_step_ok` this forces the cache-miss
/// work: a visited source not cached before ends up cached, hence queued for
/// fetching exactly once, with the repaint flag raised; and a cache hit
/// leaves the entry as it was.
pub open spec fn render_covers(post: DomRenderer, n: NodeV) -> bool {
    &&& forall|url: Seq<char>|
        #[trigger] visited_img(n, url) ==> img_map(images_views(post.images@)).contains_key(url)
    &&& (visits_details(n) ==> post.needs_repaint)
}

/// A pass over a container element covers what its children's runs have
/// covered.
proof fn lemma_covers_container(post: DomRenderer, n: NodeV)
    requires
        n is Element,
        renders_all_children(n->Element_tag),
        forall|url: Seq<char>|
            #[trigger] visited_img_in(n->Element_children, false, url) ==> img_map(
                images_views(post.images@),
            ).contains_key(url),
        visits_details_in(n->Element_children, false) ==> post.needs_repaint,
    ensures
        render_covers(post, n),
{
    assert forall|url: Seq<char>| #[trigger] visited_img(n, url) implies img_map(
        images_views(post.images@),
    ).contains_key(url) by {
        assert(visited_img_in(n->Element_children, false, url));
    }
}

/// A pass over a collapsible element covers what its body's run has covered,
/// with the repaint it owes.
proof fn lemma_covers_details(post: DomRenderer, n: NodeV)
    requires
        n is Element,
        n->Element_tag == "details"@,
        "details"@ != "img"@,
        forall|url: Seq<char>|
            #[trigger] visited_img_in(n->Element_children, true, url) ==> img_map(
                images_views(post.images@),
            ).contains_key(url),
        post.needs_repaint,
    ensures
        render_covers(post, n),
{
    assert forall|url: Seq<char>| #[trigger] visited_img(n, url) implies img_map(
        images_views(post.images@),
    ).contains_key(url) by {
        assert(visited_img_in(n->Element_children, true, url));
    }
}

/// Renders node trees onto a widget surface, queueing the interactions the
/// surface reports and managing the image cache.
pub struct DomRenderer {
    /// Activated link targets, oldest first.
    pub clicked_links: VecDeque<String>,
    /// Activated button and input-change identifiers, oldest first.
    pub clicked_buttons: VecDeque<String>,
    /// The image cache: one entry per referenced source.
    pub images: Vec<(String, ImageEntry)>,
    /// Fetches requested by rendering and not yet handed out.
    pub pending_fetches: Vec<String>,
    /// Whether a repaint is owed.
    pub needs_repaint: bool,
}

impl DomRenderer {
    /// A fresh renderer: empty queues, empty cache, repaint owed.
    pub fn new() -> (r: DomRenderer)
        ensures
            r.clicked_links@ == Seq::<String>::empty(),
            r.clicked_buttons@ == Seq::<String>::empty(),
            r.images@ == Seq::<(String, ImageEntry)>::empty(),
            r.pending_fetches@ == Seq::<String>::empty(),
            r.needs_repaint,
    {
        DomRenderer {
            clicked_links: VecDeque::new(),
            clicked_buttons: VecDeque::new(),
            images: Vec::new(),
            pending_fetches: Vec::new(),
            needs_repaint: true,
        }
    }

    /// Whether a repaint is owed.
    pub fn needs_repaint(&self) -> (r: bool)
        ensures
            r == self.needs_repaint,
    {
        self.needs_repaint
    }

    /// Clear the repaint flag; nothing else changes.
    pub fn clear_repaint_flag(&mut self)
        ensures
            !final(self).needs_repaint,
            final(self).clicked_links == old(self).clicked_links,
            final(self).clicked_buttons == old(self).clicked_buttons,
            final(self).images == old(self).images,
            final(self).pending_fetches == old(self).pending_fetches,
    {
        self.needs_repaint = false;
    }

    /// Dequeue the oldest queued link activation, if any.
    pub fn get_last_link_click(&mut self) -> (r: Option<String>)
        ensures
            final(self).clicked_buttons == old(self).clicked_buttons,
            final(self).images == old(self).images,
            final(self).pending_fetches == old(self).pending_fetches,
            final(self).needs_repaint == old(self).needs_repaint,
            match r {
                Some(l) => old(self).clicked_links@.len() > 0 && l == old(
                    self,
                ).clicked_links@.first() && final(self).clicked_links@ == old(
                    self,
                ).clicked_links@.drop_first(),
                None => old(self).clicked_links@.len() == 0 && final(self).clicked_links@ == old(
                    self,
                ).clicked_links@,
            },
    {
        proof {
            if old(self).clicked_links@.len() > 0 {
                assert(old(self).clicked_links@.subrange(
                    1,
                    old(self).clicked_links@.len() as int,
                ) =~= old(self).clicked_links@.drop_first());
            }
        }
        self.clicked_links.pop_front()
    }

    /// Dequeue the oldest queued button activation, if any.
    pub fn get_last_button_click(&mut self) -> (r: Option<String>)
        ensures
            final(self).clicked_links == old(self).clicked_links,
            final(self).images == old(self).images,
            final(self).pending_fetches == old(self).pending_fetches,
            final(self).needs_repaint == old(self).needs_repaint,
            match r {
                Some(l) => old(self).clicked_buttons@.len() > 0 && l == old(
                    self,
                ).clicked_buttons@.first() && final(self).clicked_buttons@ == old(
                    self,
                ).clicked_buttons@.drop_first(),
                None => old(self).clicked_buttons@.len() == 0 && final(self).clicked_buttons@
                    == old(self).clicked_buttons@,
            },
    {
        proof {
            if old(self).clicked_buttons@.len() > 0 {
                assert(old(self).clicked_buttons@.subrange(
                    1,
                    old(self).clicked_buttons@.len() as int,
                ) =~= old(self).clicked_buttons@.drop_first());
            }
        }
        self.clicked_buttons.pop_front()
    }

    /// The cached entry for an image source, if any.
    pub fn image_state(&self, src: &str) -> (r: Option<ImageEntry>)
        ensures
            match r {
                Some(e) => img_map(images_views(self.images@)).contains_key(src@) && img_map(
                    images_views(self.images@),
                )[src@] == e,
                None => !img_map(images_views(self.images@)).contains_key(src@),
            },
    {
        let ghost vs = images_views(self.images@);
        let mut i: usize = 0;
        while i < self.images.len()
            invariant
                0 <= i <= self.images@.len(),
                vs == images_views(self.images@),
                vs.len() == self.images@.len(),
                forall|j: int| 0 <= j < i as int ==> vs[j].0 != src@,
            decreases self.images@.len() - i,
        {
            proof {
                assert(vs[i as int] == (self.images@[i as int].0@, self.images@[i as int].1));
            }
            if crate::text::str_eq(self.images[i].0.as_str(), src) {
                proof {
                    lemma_img_map_skip(vs, src@, i as int);
                    let rest = vs.subrange(i as int, vs.len() as int);
                    assert(rest.first() == vs[i as int]);
                    assert(rest.drop_first() =~= vs.subrange(i + 1, vs.len() as int));
                }
                return Some(self.images[i].1);
            }
            i += 1;
        }
        proof {
            lemma_img_map_skip(vs, src@, i as int);
            assert(vs.subrange(i as int, vs.len() as int) =~= Seq::<(Seq<char>,
                ImageEntry,
            )>::empty());
        }
        None
    }

    /// Store an entry for a source: afterwards the cache maps the source to
    /// it, and every other source as before.
    fn store_image(&mut self, src: &str, e: ImageEntry)
        ensures
            img_map(images_views(final(self).images@)) == img_map(
                images_views(old(self).images@),
            ).insert(src@, e),
            final(self).clicked_links == old(self).clicked_links,
            final(self).clicked_buttons == old(self).clicked_buttons,
            final(self).pending_fetches == old(self).pending_fetches,
            final(self).needs_repaint == old(self).needs_repaint,
    {
        self.images.insert(0, (src.to_owned(), e));
        proof {
            let vs = images_views(self.images@);
            assert(vs.first() == (src@, e));
            assert(vs.drop_first() =~= images_views(old(self).images@));
        }
    }

    /// Record one completed background fetch: a successful fetch fills the
    /// source's entry and owes a repaint, unless a real image is already
    /// cached for it (a newer result is never overwritten by a stale one); a
    /// failed fetch changes nothing, so a placeholder stays in place.
    pub fn apply_image_result(&mut self, src: &str, texture: Option<u64>)
        ensures
            ({
                let pre = img_map(images_views(old(self).images@));
                let post = img_map(images_views(final(self).images@));
                match texture {
                    Some(t) => if pre.contains_key(src@) && pre[src@] is Ready {
                        post == pre && final(self).needs_repaint == old(self).needs_repaint
                    } else {
                        post == pre.insert(src@, ImageEntry::Ready(t))
                            && final(self).needs_repaint
                    },
                    None => post == pre && final(self).needs_repaint == old(self).needs_repaint,
                }
            }),
            final(self).clicked_links == old(self).clicked_links,
            final(self).clicked_buttons == old(self).clicked_buttons,
            final(self).pending_fetches == old(self).pending_fetches,
    {
        match texture {
            Some(t) => {
                let keep = match self.image_state(src) {
                    Some(ImageEntry::Ready(_)) => true,
                    _ => false,
                };
                if !keep {
                    self.store_image(src, ImageEntry::Ready(t));
                    self.needs_repaint = true;
                }
            },
            None => {},
        }
    }

    /// Drain a batch of completed background fetches into the cache, in
    /// order: each successful result fills its source's entry and owes a
    /// repaint, unless a real image is already cached; each failure leaves
    /// the cache as it stands, placeholder included.
    pub fn process_image_responses(&mut self, results: &Vec<(String, Option<u64>)>)
        ensures
            ({
                let f = apply_results(
                    img_map(images_views(old(self).images@)),
                    old(self).needs_repaint,
                    results_views(results@),
                );
                img_map(images_views(final(self).images@)) == f.0 && final(self).needs_repaint
                    == f.1
            }),
            final(self).clicked_links == old(self).clicked_links,
            final(self).clicked_buttons == old(self).clicked_buttons,
            final(self).pending_fetches == old(self).pending_fetches,
    {
        let ghost rv = results_views(results@);
        let ghost m0 = img_map(images_views(self.images@));
        let ghost r0 = self.needs_repaint;
        proof {
            assert(rv.subrange(0, rv.len() as int) =~= rv);
        }
        let mut i: usize = 0;
        while i < results.len()
            invariant
                0 <= i <= results@.len(),
                rv.len() == results@.len(),
                rv == results_views(results@),
                apply_results(m0, r0, rv) == apply_results(
                    img_map(images_views(self.images@)),
                    self.needs_repaint,
                    rv.subrange(i as int, rv.len() as int),
                ),
                self.clicked_links == old(self).clicked_links,
                self.clicked_buttons == old(self).clicked_buttons,
                self.pending_fetches == old(self).pending_fetches,
            decreases results@.len() - i,
        {
            proof {
                let rest = rv.subrange(i as int, rv.len() as int);
                assert(rest.first() == rv[i as int]);
                assert(rest.drop_first() =~= rv.subrange(i + 1, rv.len() as int));
            }
            let r = &results[i];
            self.apply_image_result(r.0.as_str(), r.1);
            i += 1;
        }
        proof {
            assert(rv.subrange(i as int, rv.len() as int) =~= Seq::<(Seq<char>,
                Option<u64>,
            )>::empty());
        }
    }

    /// Hand out the fetch requests queued by rendering, clearing the list;
    /// the caller dispatches them as fire-and-forget background work.
    pub fn take_pending_fetches(&mut self) -> (r: Vec<String>)
        ensures
            r == old(self).pending_fetches,
            final(self).pending_fetches@ == Seq::<String>::empty(),
            final(self).clicked_links == old(self).clicked_links,
            final(self).clicked_buttons == old(self).clicked_buttons,
            final(self).images == old(self).images,
            final(self).needs_repaint == old(self).needs_repaint,
    {
        let mut out: Vec<String> = Vec::new();
        std::mem::swap(&mut out, &mut self.pending_fetches);
        out
    }
}

/// The widget surface a backend offers: one capability per control. The
/// answers report user interaction: whether a link or button was activated,
/// and the changed value or state of an input control.
pub trait WidgetSurface {
    /// Show plain text.
    fn render_label(&mut self, text: &str);

    /// Show a link with the given label; answers whether it was activated.
    fn render_link(&mut self, label: &str) -> bool;

    /// Show a button; answers whether it was activated.
    fn render_button(&mut self, label: &str) -> bool;

    /// Show an editable text field; answers the text after an edit.
    fn render_text_field(&mut self, value: &str, placeholder: &str) -> Option<String>;

    /// Show a checkbox; answers the state after a toggle.
    fn render_checkbox(&mut self, checked: bool) -> Option<bool>;

    /// Show a radio control; answers the state after a selection.
    fn render_radio(&mut self, selected: bool) -> Option<bool>;

    /// Show a cached texture.
    fn render_image(&mut self, texture: u64);

    /// Create the small gray placeholder texture for a loading image.
    fn create_placeholder_texture(&mut self) -> u64;

    /// Open a visual grouping.
    fn begin_group(&mut self);

    /// Close the innermost grouping.
    fn end_group(&mut self);

    /// Open an inline, wrapped run of content.
    fn begin_inline(&mut self);

    /// Close the innermost inline run.
    fn end_inline(&mut self);

    /// Open a collapsible section with the given header.
    fn begin_collapsible(&mut self, header: &str);

    /// Close the innermost collapsible section.
    fn end_collapsible(&mut self);

    /// Show a horizontal separator.
    fn render_separator(&mut self);

    /// End the current line.
    fn line_break(&mut self);

    /// Show preformatted text in a fixed-width style.
    fn render_monospace(&mut self, text: &str);
}

/// The bound side of the render contract is reflexive: a step may leave the
/// renderer as it is. The work a pass must do is what `render_covers`
/// states; a pass that stands still fails that side on any tree with an
/// image or a collapsible section.
pub proof fn lemma_step_refl(a: DomRenderer, n: NodeV)
    ensures
        render_step_ok(a, a, n),
{
    assert(a.clicked_links@.is_prefix_of(a.clicked_links@)) by {
        assert(a.clicked_links@.subrange(0, a.clicked_links@.len() as int) =~= a.clicked_links@);
    }
    assert(a.clicked_buttons@.is_prefix_of(a.clicked_buttons@)) by {
        assert(a.clicked_buttons@.subrange(0, a.clicked_buttons@.len() as int)
            =~= a.clicked_buttons@);
    }
    assert(a.pending_fetches@.is_prefix_of(a.pending_fetches@)) by {
        assert(a.pending_fetches@.subrange(0, a.pending_fetches@.len() as int)
            =~= a.pending_fetches@);
    }
}

/// Two rendering steps over the same tree compose.
pub proof fn lemma_step_trans(a: DomRenderer, b: DomRenderer, c: DomRenderer, n: NodeV)
    requires
        render_step_ok(a, b, n),
        render_step_ok(b, c, n),
    ensures
        render_step_ok(a, c, n),
{
    let am = img_map(images_views(a.images@));
    let bm = img_map(images_views(b.images@));
    let cm = img_map(images_views(c.images@));
    assert forall|j: int|
        a.clicked_links@.len() <= j < c.clicked_links@.len() implies has_link(
        n,
        c.clicked_links@[j]@,
    ) by {
        if j < b.clicked_links@.len() {
            assert(c.clicked_links@[j] == b.clicked_links@[j]);
        }
    }
    assert forall|j: int|
        a.clicked_buttons@.len() <= j < c.clicked_buttons@.len() implies is_render_event(
        c.clicked_buttons@[j]@,
    ) by {
        if j < b.clicked_buttons@.len() {
            assert(c.clicked_buttons@[j] == b.clicked_buttons@[j]);
        }
    }
    assert forall|j: int|
        a.pending_fetches@.len() <= j < c.pending_fetches@.len() implies {
        &&& has_img(n, #[trigger] c.pending_fetches@[j]@)
        &&& !am.contains_key(c.pending_fetches@[j]@)
        &&& cm.contains_key(c.pending_fetches@[j]@)
    } by {
        if j < b.pending_fetches@.len() {
            assert(c.pending_fetches@[j] == b.pending_fetches@[j]);
            assert(has_img(n, b.pending_fetches@[j]@));
            assert(bm.contains_key(b.pending_fetches@[j]@));
        }
    }
    assert forall|j: int, k: int|
        a.pending_fetches@.len() <= j < k < c.pending_fetches@.len()
            implies #[trigger] c.pending_fetches@[j]@ != #[trigger] c.pending_fetches@[k]@ by {
        if k < b.pending_fetches@.len() {
            assert(c.pending_fetches@[j] == b.pending_fetches@[j]);
            assert(c.pending_fetches@[k] == b.pending_fetches@[k]);
        } else if j >= b.pending_fetches@.len() {
        } else {
            // The earlier fetch is cached once the middle state stands; the
            // later one was not cached there.
            assert(c.pending_fetches@[j] == b.pending_fetches@[j]);
            assert(bm.contains_key(b.pending_fetches@[j]@));
            assert(!bm.contains_key(c.pending_fetches@[k]@));
        }
    }
    assert forall|key: Seq<char>| #[trigger] am.contains_key(key) implies cm[key] == am[key] by {
        assert(bm.contains_key(key));
    }
    assert forall|key: Seq<char>|
        #[trigger] cm.contains_key(key) && !am.contains_key(key) implies {
        &&& cm[key] is Placeholder
        &&& c.needs_repaint
        &&& exists|j: int|
            a.pending_fetches@.len() <= j < c.pending_fetches@.len()
                && #[trigger] c.pending_fetches@[j]@ == key
    } by {
        if bm.contains_key(key) {
            assert(cm[key] == bm[key]);
            let j = choose|j: int|
                a.pending_fetches@.len() <= j < b.pending_fetches@.len()
                    && #[trigger] b.pending_fetches@[j]@ == key;
            assert(c.pending_fetches@[j] == b.pending_fetches@[j]);
            assert(c.pending_fetches@[j]@ == key);
        } else {
            let j = choose|j: int|
                b.pending_fetches@.len() <= j < c.pending_fetches@.len()
                    && #[trigger] c.pending_fetches@[j]@ == key;
            assert(c.pending_fetches@[j]@ == key);
        }
    }
}

/// A step taken while rendering a child is a step of the parent: what was
/// queued for the child belongs to the parent's tree too.
pub proof fn lemma_step_child(a: DomRenderer, b: DomRenderer, n: NodeV, i: int)
    requires
        n is Element,
        0 <= i < n->Element_children.len(),
        render_step_ok(a, b, n->Element_children[i]),
    ensures
        render_step_ok(a, b, n),
{
    let child = n->Element_children[i];
    let am = img_map(images_views(a.images@));
    let bm = img_map(images_views(b.images@));
    assert forall|j: int|
        a.clicked_links@.len() <= j < b.clicked_links@.len() implies has_link(
        n,
        b.clicked_links@[j]@,
    ) by {
        assert(has_link(child, b.clicked_links@[j]@));
    }
    assert forall|j: int|
        a.pending_fetches@.len() <= j < b.pending_fetches@.len() implies {
        &&& has_img(n, #[trigger] b.pending_fetches@[j]@)
        &&& !am.contains_key(b.pending_fetches@[j]@)
        &&& bm.contains_key(b.pending_fetches@[j]@)
    } by {
        assert(has_img(child, b.pending_fetches@[j]@));
    }
}

/// The per-tag dispatch classes, settled on the tag literals.
proof fn lemma_tag_classes()
    ensures
        renders_all_children("span"@),
        renders_all_children("ul"@),
        renders_all_children("ol"@),
        renders_all_children("li"@),
        renders_all_children("p"@),
        renders_all_children("div"@),
        renders_all_children("section"@),
        "a"@ != "img"@ && "a"@ != "details"@,
        "button"@ != "img"@ && "button"@ != "details"@,
        "input"@ != "img"@ && "input"@ != "details"@,
        "br"@ != "img"@ && "br"@ != "details"@,
        "hr"@ != "img"@ && "hr"@ != "details"@,
        "pre"@ != "img"@ && "pre"@ != "details"@,
        "img"@ != "details"@,
{
    reveal_strlit("a");
    reveal_strlit("br");
    reveal_strlit("button");
    reveal_strlit("details");
    reveal_strlit("div");
    reveal_strlit("hr");
    reveal_strlit("img");
    reveal_strlit("input");
    reveal_strlit("li");
    reveal_strlit("ol");
    reveal_strlit("p");
    reveal_strlit("pre");
    reveal_strlit("section");
    reveal_strlit("span");
    reveal_strlit("ul");
    assert("a"@.len() == 1);
    assert("br"@.len() == 2);
    assert("button"@.len() == 6);
    assert("details"@.len() == 7);
    assert("div"@.len() == 3);
    assert("hr"@.len() == 2);
    assert("img"@.len() == 3);
    assert("input"@.len() == 5);
    assert("li"@.len() == 2);
    assert("ol"@.len() == 2);
    assert("p"@.len() == 1);
    assert("pre"@.len() == 3);
    assert("section"@.len() == 7);
    assert("span"@.len() == 4);
    assert("ul"@.len() == 2);
    assert("a"@[0] == 'a');
    assert("br"@[0] == 'b');
    assert("details"@[0] == 'd');
    assert("div"@[0] == 'd');
    assert("hr"@[0] == 'h');
    assert("img"@[0] == 'i');
    assert("li"@[0] == 'l');
    assert("ol"@[0] == 'o');
    assert("p"@[0] == 'p');
    assert("pre"@[0] == 'p');
    assert("section"@[0] == 's');
    assert("ul"@[0] == 'u');
}

/// The effective type of an input element: the `type` attribute with ASCII
/// capitals lowered, `text` where there is none.
pub open spec fn input_type_of(attrs: Seq<(Seq<char>, Seq<char>)>) -> Seq<char> {
    match attr_of(attrs, "type"@) {
        Some(t) => crate::text::ascii_lower_of(t),
        None => crate::text::ascii_lower_of("text"@),
    }
}

/// The input types that render an editable or boolean control.
pub open spec fn is_supported_input(t: Seq<char>) -> bool {
    t == "text"@ || t == "email"@ || t == "password"@ || t == "number"@ || t == "checkbox"@ || t
        == "radio"@
}

impl DomRenderer {
    /// Record a link activation the surface reported: the target joins the
    /// back of the link queue and a repaint is owed; nothing else changes.
    pub fn link_activated(&mut self, href: String)
        ensures
            final(self).clicked_links@ == old(self).clicked_links@.push(href),
            final(self).clicked_buttons == old(self).clicked_buttons,
            final(self).images == old(self).images,
            final(self).pending_fetches == old(self).pending_fetches,
            final(self).needs_repaint,
    {
        self.clicked_links.push_back(href);
        self.needs_repaint = true;
    }

    /// Record a button activation: the fixed identifier joins the back of
    /// the button queue and a repaint is owed; nothing else changes.
    pub fn button_activated(&mut self)
        ensures
            final(self).clicked_buttons@.len() == old(self).clicked_buttons@.len() + 1,
            final(self).clicked_buttons@.drop_last() == old(self).clicked_buttons@,
            final(self).clicked_buttons@.last()@ == "button"@,
            final(self).clicked_links == old(self).clicked_links,
            final(self).images == old(self).images,
            final(self).pending_fetches == old(self).pending_fetches,
            final(self).needs_repaint,
    {
        self.clicked_buttons.push_back("button".to_owned());
        self.needs_repaint = true;
        proof {
            assert(self.clicked_buttons@.drop_last() =~= old(self).clicked_buttons@);
        }
    }

    /// Record an edit of a text-like input control: the change event with
    /// the new text joins the back of the button queue and a repaint is
    /// owed; nothing else changes.
    pub fn input_changed(&mut self, value: &str)
        ensures
            final(self).clicked_buttons@.len() == old(self).clicked_buttons@.len() + 1,
            final(self).clicked_buttons@.drop_last() == old(self).clicked_buttons@,
            final(self).clicked_buttons@.last()@ == "input_changed:"@ + value@,
            final(self).clicked_links == old(self).clicked_links,
            final(self).images == old(self).images,
            final(self).pending_fetches == old(self).pending_fetches,
            final(self).needs_repaint,
    {
        self.clicked_buttons.push_back("input_changed:".to_owned().concat(value));
        self.needs_repaint = true;
        proof {
            assert(self.clicked_buttons@.drop_last() =~= old(self).clicked_buttons@);
        }
    }

    /// Record a checkbox toggle: the change event with the new state joins
    /// the back of the button queue and a repaint is owed; nothing else
    /// changes.
    pub fn checkbox_changed(&mut self, value: bool)
        ensures
            final(self).clicked_buttons@.len() == old(self).clicked_buttons@.len() + 1,
            final(self).clicked_buttons@.drop_last() == old(self).clicked_buttons@,
            final(self).clicked_buttons@.last()@ == (if value {
                "checkbox_changed:true"@
            } else {
                "checkbox_changed:false"@
            }),
            final(self).clicked_links == old(self).clicked_links,
            final(self).images == old(self).images,
            final(self).pending_fetches == old(self).pending_fetches,
            final(self).needs_repaint,
    {
        self.clicked_buttons.push_back(
            if value {
                "checkbox_changed:true".to_owned()
            } else {
                "checkbox_changed:false".to_owned()
            },
        );
        self.needs_repaint = true;
        proof {
            assert(self.clicked_buttons@.drop_last() =~= old(self).clicked_buttons@);
        }
    }

    /// Record a radio selection: the selection event with the new state
    /// joins the back of the button queue and a repaint is owed; nothing
    /// else changes.
    pub fn radio_selected(&mut self, value: bool)
        ensures
            final(self).clicked_buttons@.len() == old(self).clicked_buttons@.len() + 1,
            final(self).clicked_buttons@.drop_last() == old(self).clicked_buttons@,
            final(self).clicked_buttons@.last()@ == (if value {
                "radio_selected:true"@
            } else {
                "radio_selected:false"@
            }),
            final(self).clicked_links == old(self).clicked_links,
            final(self).images == old(self).images,
            final(self).pending_fetches == old(self).pending_fetches,
            final(self).needs_repaint,
    {
        self.clicked_buttons.push_back(
            if value {
                "radio_selected:true".to_owned()
            } else {
                "radio_selected:false".to_owned()
            },
        );
        self.needs_repaint = true;
        proof {
            assert(self.clicked_buttons@.drop_last() =~= old(self).clicked_buttons@);
        }
    }

    /// Render one input control by its `type` attribute: an editable field
    /// for the text-like types, a boolean control for `checkbox` and
    /// `radio`, and a visible placeholder for any other type, which queues
    /// nothing and changes nothing.
    fn render_input<S: WidgetSurface>(&mut self, surface: &mut S, attrs: &Vec<(String, String)>)
        ensures
            final(self).clicked_links == old(self).clicked_links,
            old(self).clicked_buttons@.is_prefix_of(final(self).clicked_buttons@),
            final(self).clicked_buttons@.len() <= old(self).clicked_buttons@.len() + 1,
            forall|j: int|
                old(self).clicked_buttons@.len() <= j < final(self).clicked_buttons@.len()
                    ==> is_input_event(final(self).clicked_buttons@[j]@),
            final(self).images == old(self).images,
            final(self).pending_fetches == old(self).pending_fetches,
            old(self).needs_repaint ==> final(self).needs_repaint,
            !is_supported_input(input_type_of(attrs_views(attrs@))) ==> *final(self) == *old(
                self,
            ),
    {
        proof {
            assert(old(self).clicked_buttons@.subrange(
                0,
                old(self).clicked_buttons@.len() as int,
            ) =~= old(self).clicked_buttons@);
        }
        let tyv: &str = match attr_get(attrs, "type") {
            Some(v) => v.as_str(),
            None => "text",
        };
        if crate::text::str_eq_lower(tyv, "text") || crate::text::str_eq_lower(tyv, "email")
            || crate::text::str_eq_lower(tyv, "password") || crate::text::str_eq_lower(
            tyv,
            "number",
        ) {
            let value: &str = match attr_get(attrs, "value") {
                Some(v) => v.as_str(),
                None => "",
            };
            let placeholder: &str = match attr_get(attrs, "placeholder") {
                Some(v) => v.as_str(),
                None => "",
            };
            match surface.render_text_field(value, placeholder) {
                Some(newv) => {
                    let ghost pre = self.clicked_buttons@;
                    self.input_changed(newv.as_str());
                    proof {
                        assert(pre.is_prefix_of(self.clicked_buttons@)) by {
                            assert(self.clicked_buttons@.subrange(0, pre.len() as int) =~= pre);
                        }
                        assert(is_input_event(self.clicked_buttons@.last()@));
                    }
                },
                None => {},
            }
        } else if crate::text::str_eq_lower(tyv, "checkbox") {
            let checked = attr_get(attrs, "checked").is_some();
            match surface.render_checkbox(checked) {
                Some(v) => {
                    let ghost pre = self.clicked_buttons@;
                    self.checkbox_changed(v);
                    proof {
                        assert(pre.is_prefix_of(self.clicked_buttons@)) by {
                            assert(self.clicked_buttons@.subrange(0, pre.len() as int) =~= pre);
                        }
                    }
                },
                None => {},
            }
        } else if crate::text::str_eq_lower(tyv, "radio") {
            let selected = attr_get(attrs, "checked").is_some();
            match surface.render_radio(selected) {
                Some(v) => {
                    let ghost pre = self.clicked_buttons@;
                    self.radio_selected(v);
                    proof {
                        assert(pre.is_prefix_of(self.clicked_buttons@)) by {
                            assert(self.clicked_buttons@.subrange(0, pre.len() as int) =~= pre);
                        }
                    }
                },
                None => {},
            }
        } else {
            let msg = "[unsupported input type: ".to_owned().concat(tyv).concat("]");
            surface.render_label(msg.as_str());
        }
    }

    /// Render a node onto a surface, in depth-first pre-order: a label for
    /// text, per-tag controls for elements, pass-through for unknown tags.
    /// Activations are queued through the step functions above; image
    /// sources are cached and queued for fetching. `render_step_ok` bounds
    /// what the pass may do and `render_covers` what it must have done.
    #[verifier::loop_isolation(false)]
    pub fn render_node<S: WidgetSurface>(&mut self, surface: &mut S, node: &ParsedNode)
        ensures
            render_step_ok(*old(self), *final(self), node@),
            render_covers(*final(self), node@),
        decreases node, 1int,
    {
        proof {
            lemma_step_refl(*old(self), node@);
            lemma_tag_classes();
        }
        match node {
            ParsedNode::Text(t) => {
                if !t.as_str().is_empty() {
                    surface.render_label(t.as_str());
                }
            },
            ParsedNode::Element { tag, attrs, children, .. } => {
                if crate::text::str_eq(tag.as_str(), "a") {
                    match attr_get(attrs, "href") {
                        Some(href) => {
                            let href2 = href.clone();
                            let label = crate::node::collect_text(node);
                            if surface.render_link(label.as_str()) {
                                self.link_activated(href2);
                                proof {
                                    assert(old(self).clicked_links@.is_prefix_of(
                                        self.clicked_links@,
                                    )) by {
                                        assert(self.clicked_links@.subrange(
                                            0,
                                            old(self).clicked_links@.len() as int,
                                        ) =~= old(self).clicked_links@);
                                    }
                                    assert(has_link(node@, self.clicked_links@.last()@));
                                }
                            }
                        },
                        None => {},
                    }
                    } else if crate::text::str_eq(tag.as_str(), "button") {
                    let label = crate::node::collect_text(node);
                    if surface.render_button(label.as_str()) {
                        self.button_activated();
                        proof {
                            assert(old(self).clicked_buttons@.is_prefix_of(
                                self.clicked_buttons@,
                            )) by {
                                assert(self.clicked_buttons@.subrange(
                                    0,
                                    old(self).clicked_buttons@.len() as int,
                                ) =~= old(self).clicked_buttons@);
                            }
                            assert(is_render_event(self.clicked_buttons@.last()@));
                        }
                    }
                    } else if crate::text::str_eq(tag.as_str(), "input") {
                    self.render_input(surface, attrs);
                    proof {
                        assert forall|j: int|
                            old(self).clicked_buttons@.len() <= j < self.clicked_buttons@.len()
                                implies is_render_event(self.clicked_buttons@[j]@) by {
                            assert(is_input_event(self.clicked_buttons@[j]@));
                        }
                    }
                    } else if crate::text::str_eq(tag.as_str(), "img") {
                    match attr_get(attrs, "src") {
                        Some(src) => {
                            let src2 = src.clone();
                            match self.image_state(src2.as_str()) {
                                Some(e) => {
                                    let t = match e {
                                        ImageEntry::Placeholder(t) => t,
                                        ImageEntry::Ready(t) => t,
                                    };
                                    surface.render_image(t);
                                },
                                None => {
                                    surface.render_label("[loading image...]");
                                    let ph = surface.create_placeholder_texture();
                                    self.store_image(src2.as_str(), ImageEntry::Placeholder(ph));
                                    self.pending_fetches.push(src2);
                                    self.needs_repaint = true;
                                    proof {
                                        let pm = img_map(images_views(old(self).images@));
                                        let qm = img_map(images_views(self.images@));
                                        let pn = old(self).pending_fetches@;
                                        assert(self.pending_fetches@ == pn.push(
                                            self.pending_fetches@.last(),
                                        ));
                                        assert(pn.is_prefix_of(self.pending_fetches@)) by {
                                            assert(self.pending_fetches@.subrange(
                                                0,
                                                pn.len() as int,
                                            ) =~= pn);
                                        }
                                        assert(self.pending_fetches@.last()@ == src2@);
                                        assert(has_img(node@, src2@));
                                        assert(!pm.contains_key(src2@));
                                        assert(qm == pm.insert(src2@, ImageEntry::Placeholder(ph)));
                                        assert(pm.dom() <= qm.dom());
                                        assert forall|key: Seq<char>|
                                            #[trigger] qm.contains_key(key) && !pm.contains_key(
                                                key,
                                            ) implies {
                                            &&& qm[key] is Placeholder
                                            &&& self.needs_repaint
                                            &&& exists|j: int|
                                                pn.len() <= j < self.pending_fetches@.len()
                                                    && #[trigger] self.pending_fetches@[j]@ == key
                                        } by {
                                            assert(key == src2@);
                                            assert(self.pending_fetches@[pn.len() as int]@ == key);
                                        }
                                    }
                                },
                            }
                        },
                        None => {},
                    }
                    } else if crate::text::str_eq(tag.as_str(), "span") {
                    surface.begin_inline();
                    self.render_children(surface, node, false);
                    surface.end_inline();
                    proof {
                        lemma_covers_container(*self, node@);
                    }
                } else if crate::text::str_eq(tag.as_str(), "ul") || crate::text::str_eq(
                    tag.as_str(),
                    "ol",
                ) {
                    self.render_children(surface, node, false);
                    proof {
                        lemma_covers_container(*self, node@);
                    }
                } else if crate::text::str_eq(tag.as_str(), "li") {
                    surface.render_label("\u{2022}");
                    self.render_children(surface, node, false);
                    proof {
                        lemma_covers_container(*self, node@);
                    }
                } else if crate::text::str_eq(tag.as_str(), "details") {
                    let mut header: Option<String> = None;
                    let mut i: usize = 0;
                    while i < children.len()
                        invariant
                            0 <= i <= children@.len(),
                        decreases children@.len() - i,
                    {
                        if header.is_none() {
                            let is_summary = match &children[i] {
                                ParsedNode::Element { tag: t2, .. } => crate::text::str_eq(
                                    t2.as_str(),
                                    "summary",
                                ),
                                _ => false,
                            };
                            if is_summary {
                                proof {
                                    assert(decreases_to!(*node => node->Element_children));
                                    assert(decreases_to!(node->Element_children => children@[
                                        i as int
                                    ]));
                                }
                                header = Some(crate::node::collect_text(&children[i]));
                            }
                        }
                        i += 1;
                    }
                    let head = match header {
                        Some(h) => h,
                        None => "Details".to_owned(),
                    };
                    surface.begin_collapsible(head.as_str());
                    self.render_children(surface, node, true);
                    surface.end_collapsible();
                    self.needs_repaint = true;
                    proof {
                        lemma_covers_details(*self, node@);
                    }
                } else if crate::text::str_eq(tag.as_str(), "br") {
                    surface.line_break();
                } else if crate::text::str_eq(tag.as_str(), "hr") {
                    surface.render_separator();
                } else if crate::text::str_eq(tag.as_str(), "p") || crate::text::str_eq(
                    tag.as_str(),
                    "div",
                ) || crate::text::str_eq(tag.as_str(), "section") {
                    surface.begin_group();
                    self.render_children(surface, node, false);
                    surface.end_group();
                    proof {
                        lemma_covers_container(*self, node@);
                    }
                } else if crate::text::str_eq(tag.as_str(), "pre") {
                    let text = crate::node::collect_text(node);
                    surface.render_monospace(text.as_str());
                } else {
                    self.render_children(surface, node, false);
                    proof {
                        lemma_covers_container(*self, node@);
                    }
                }
            },
        }
    }

    /// Render an element's children in order. In `details_only` mode (used
    /// for collapsible sections) only element children that are not the
    /// summary are rendered: every image source such a child run visits is
    /// cached afterwards, and a visited collapsible child owes a repaint.
    #[verifier::loop_isolation(false)]
    fn render_children<S: WidgetSurface>(
        &mut self,
        surface: &mut S,
        node: &ParsedNode,
        details_only: bool,
    )
        requires
            *node is Element,
        ensures
            render_step_ok(*old(self), *final(self), node@),
            forall|url: Seq<char>|
                #[trigger] visited_img_in(node@->Element_children, details_only, url) ==> img_map(
                    images_views(final(self).images@),
                ).contains_key(url),
            visits_details_in(node@->Element_children, details_only)
                ==> final(self).needs_repaint,
        decreases node, 0int,
    {
        proof {
            lemma_step_refl(*old(self), node@);
        }
        match node {
            ParsedNode::Element { children, .. } => {
                proof {
                    crate::node::lemma_views_of(children@);
                }
                let ghost cv = node@->Element_children;
                let mut i: usize = 0;
                while i < children.len()
                    invariant
                        0 <= i <= children@.len(),
                        cv.len() == children@.len(),
                        render_step_ok(*old(self), *self, node@),
                        forall|url: Seq<char>, k: int|
                            0 <= k < i && (!details_only || in_details_body(cv[k]))
                                && #[trigger] visited_img(cv[k], url) ==> img_map(
                                images_views(self.images@),
                            ).contains_key(url),
                        forall|k: int|
                            0 <= k < i && (!details_only || in_details_body(cv[k]))
                                && #[trigger] visits_details(cv[k]) ==> self.needs_repaint,
                    decreases children@.len() - i,
                {
                    proof {
                        assert(decreases_to!(*node => node->Element_children));
                        assert(decreases_to!(node->Element_children => children@[i as int]));
                        assert(cv[i as int] == children@[i as int]@);
                    }
                    let mut do_render = true;
                    if details_only {
                        match &children[i] {
                            ParsedNode::Element { tag: t2, .. } => {
                                if crate::text::str_eq(t2.as_str(), "summary") {
                                    do_render = false;
                                    proof {
                                        assert(!in_details_body(cv[i as int]));
                                    }
                                }
                            },
                            _ => {
                                do_render = false;
                                proof {
                                    assert(!in_details_body(cv[i as int]));
                                }
                            },
                        }
                    }
                    if do_render {
                        let ghost mid = *self;
                        self.render_node(surface, &children[i]);
                        proof {
                            lemma_step_child(mid, *self, node@, i as int);
                            lemma_step_trans(*old(self), mid, *self, node@);
                            assert forall|url: Seq<char>, k: int|
                                0 <= k < i + 1 && (!details_only || in_details_body(cv[k]))
                                    && #[trigger] visited_img(cv[k], url) implies img_map(
                                images_views(self.images@),
                            ).contains_key(url) by {
                                if k < i {
                                    assert(img_map(images_views(mid.images@)).contains_key(url));
                                } else {
                                    assert(visited_img(children@[i as int]@, url));
                                }
                            }
                            assert forall|k: int|
                                0 <= k < i + 1 && (!details_only || in_details_body(cv[k]))
                                    && #[trigger] visits_details(cv[k]) implies self.needs_repaint by {
                                if k < i {
                                    assert(mid.needs_repaint);
                                }
                            }
                        }
                    }
                    i += 1;
                }
                proof {
                    assert forall|url: Seq<char>|
                        #[trigger] visited_img_in(cv, details_only, url) implies img_map(
                        images_views(self.images@),
                    ).contains_key(url) by {
                        let k = choose|k: int|
                            0 <= k < cv.len() && (!details_only || in_details_body(
                                #[trigger] cv[k],
                            )) && visited_img(cv[k], url);
                    }
                    if visits_details_in(cv, details_only) {
                        let k = choose|k: int|
                            0 <= k < cv.len() && (!details_only || in_details_body(
                                #[trigger] cv[k],
                            )) && visits_details(cv[k]);
                    }
                }
            },
            _ => {},
        }
    }
}

} // verus!
