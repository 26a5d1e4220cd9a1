//! The hydration engine: a dedup ledger of `(framework, node id)` keys, the
//! reactive hook surface, and the hydrate-then-render step that invokes each
//! framework hook at most once per key.

use vstd::prelude::*;

use crate::node::{attr_get, attr_of, FrameworkType, NodeV, ParsedNode};
use crate::tree::{render_covers, render_step_ok, DomRenderer, WidgetSurface};

verus! {

/// A recoverable hydration failure, scoped to the node being hydrated.
#[derive(Debug)]
pub struct HydrationError {
    /// What went wrong, as the hook reported it.
    pub message: String,
}

/// The reactive hook surface: one capability per framework plus the generic
/// incremental-render hook, invoked by the hydration engine at most once per
/// dedup key. `S` is the widget surface incremental rendering draws on.
pub trait ReactiveCoreTrait<S: WidgetSurface> {
    /// Set up React-style signals from extracted state.
    fn create_signals(&mut self, state: &str) -> Result<(), HydrationError>;

    /// Bind Angular-style scopes for a node.
    fn bind_angular_scopes(&mut self, node: &ParsedNode) -> Result<(), HydrationError>;

    /// Create Vue-style stores from extracted state.
    fn create_stores(&mut self, state: &str) -> Result<(), HydrationError>;

    /// Apply Svelte-style hashes for a node.
    fn apply_svelte_hashes(&mut self, node: &ParsedNode) -> Result<(), HydrationError>;

    /// Load the wasm module a node refers to.
    fn load_wasm_module(&mut self, node: &ParsedNode) -> Result<(), HydrationError>;

    /// Render a hydrated node incrementally onto the surface.
    fn incremental_render(&mut self, surface: &mut S, node: &ParsedNode) -> Result<
        (),
        HydrationError,
    >;
}

/// The hook surface that accepts every request and does nothing; a stand-in
/// until a real reactive runtime is attached.
pub struct ReactiveCore;

impl ReactiveCore {
    /// The no-op hook surface.
    pub fn new() -> ReactiveCore {
        ReactiveCore
    }
}

impl<S: WidgetSurface> ReactiveCoreTrait<S> for ReactiveCore {
    fn create_signals(&mut self, _state: &str) -> Result<(), HydrationError> {
        Ok(())
    }

    fn bind_angular_scopes(&mut self, _node: &ParsedNode) -> Result<(), HydrationError> {
        Ok(())
    }

    fn create_stores(&mut self, _state: &str) -> Result<(), HydrationError> {
        Ok(())
    }

    fn apply_svelte_hashes(&mut self, _node: &ParsedNode) -> Result<(), HydrationError> {
        Ok(())
    }

    fn load_wasm_module(&mut self, _node: &ParsedNode) -> Result<(), HydrationError> {
        Ok(())
    }

    fn incremental_render(&mut self, _surface: &mut S, _node: &ParsedNode) -> Result<
        (),
        HydrationError,
    > {
        Ok(())
    }
}

/// The set of keys a ledger's entries stand for.
pub open spec fn ledger_set(s: Seq<(FrameworkType, String)>) -> Set<(FrameworkType, Seq<char>)>
    decreases s,
{
    if s.len() == 0 {
        Set::empty()
    } else {
        ledger_set(s.drop_first()).insert((s.first().0, s.first().1@))
    }
}

/// A key is in the ledger's set exactly when some entry carries it.
pub proof fn lemma_ledger_elems(s: Seq<(FrameworkType, String)>)
    ensures
        forall|k: (FrameworkType, Seq<char>)|
            #[trigger] ledger_set(s).contains(k) <==> exists|j: int|
                0 <= j < s.len() && (s[j].0, s[j].1@) == k,
    decreases s.len(),
{
    if s.len() > 0 {
        lemma_ledger_elems(s.drop_first());
        assert forall|k: (FrameworkType, Seq<char>)|
            #[trigger] ledger_set(s).contains(k) implies exists|j: int|
            0 <= j < s.len() && (s[j].0, s[j].1@) == k by {
            if k == (s.first().0, s.first().1@) {
                assert((s[0].0, s[0].1@) == k);
            } else {
                assert(ledger_set(s.drop_first()).contains(k));
                let j = choose|j: int|
                    0 <= j < s.drop_first().len() && (s.drop_first()[j].0, s.drop_first()[j].1@)
                        == k;
                assert(s[j + 1] == s.drop_first()[j]);
                assert((s[j + 1].0, s[j + 1].1@) == k);
            }
        }
        assert forall|k: (FrameworkType, Seq<char>)|
            (exists|j: int| 0 <= j < s.len() && (s[j].0, s[j].1@) == k) implies #[trigger] ledger_set(
            s,
        ).contains(k) by {
            let j = choose|j: int| 0 <= j < s.len() && (s[j].0, s[j].1@) == k;
            if j == 0 {
                assert(k == (s.first().0, s.first().1@));
            } else {
                assert(s.drop_first()[j - 1] == s[j]);
                assert((s.drop_first()[j - 1].0, s.drop_first()[j - 1].1@) == k);
                assert(ledger_set(s.drop_first()).contains(k));
            }
        }
    }
}

/// The append-only dedup ledger: each hydration key is recorded once, and a
/// recorded key gates re-execution of the hooks.
pub struct HydrationLedger {
    /// The recorded keys.
    pub keys: Vec<(FrameworkType, String)>,
}

impl HydrationLedger {
    /// A fresh ledger with nothing recorded.
    pub fn new() -> (r: HydrationLedger)
        ensures
            ledger_set(r.keys@) == Set::<(FrameworkType, Seq<char>)>::empty(),
    {
        HydrationLedger { keys: Vec::new() }
    }

    /// Whether a key has been recorded.
    #[verifier::loop_isolation(false)]
    pub fn contains(&self, fw: FrameworkType, id: &str) -> (r: bool)
        ensures
            r == ledger_set(self.keys@).contains((fw, id@)),
    {
        proof {
            lemma_ledger_elems(self.keys@);
        }
        let mut i: usize = 0;
        while i < self.keys.len()
            invariant
                0 <= i <= self.keys@.len(),
                forall|j: int| 0 <= j < i ==> (self.keys@[j].0, self.keys@[j].1@) != (fw, id@),
            decreases self.keys@.len() - i,
        {
            let e = &self.keys[i];
            if e.0 == fw && crate::text::str_eq(e.1.as_str(), id) {
                proof {
                    assert((self.keys@[i as int].0, self.keys@[i as int].1@) == (fw, id@));
                }
                return true;
            }
            i += 1;
        }
        false
    }

    /// Record a key; the ledger only grows.
    pub fn record(&mut self, fw: FrameworkType, id: &str)
        ensures
            ledger_set(final(self).keys@) == ledger_set(old(self).keys@).insert((fw, id@)),
    {
        self.keys.insert(0, (fw, id.to_owned()));
        proof {
            assert(self.keys@.drop_first() =~= old(self).keys@);
        }
    }
}

/// The dedup key of a node: its framework tag paired with its `id` attribute
/// (empty where there is none); nothing for a text leaf or an untagged
/// element.
pub open spec fn dedup_key_of(n: NodeV) -> Option<(FrameworkType, Seq<char>)> {
    match n {
        NodeV::Element { attrs, framework, .. } => match framework {
            Some(fw) => Some(
                (
                    fw,
                    match attr_of(attrs, "id"@) {
                        Some(v) => v,
                        None => ""@,
                    },
                ),
            ),
            None => None,
        },
        NodeV::Text(_) => None,
    }
}

/// Whether hydration is due for a node: it has a dedup key that the ledger
/// has not recorded.
pub open spec fn hydration_due(n: NodeV, ledger: Set<(FrameworkType, Seq<char>)>) -> Option<
    (FrameworkType, Seq<char>),
> {
    match dedup_key_of(n) {
        Some(k) => if ledger.contains(k) {
            None
        } else {
            Some(k)
        },
        None => None,
    }
}

/// Hydration is idempotent per dedup key: once a step has recorded a key,
/// no node with that key is due again, so its hooks are not invoked a second
/// time.
pub proof fn lemma_hydration_idempotent(
    n1: NodeV,
    n2: NodeV,
    l0: Set<(FrameworkType, Seq<char>)>,
    l1: Set<(FrameworkType, Seq<char>)>,
    k: (FrameworkType, Seq<char>),
)
    requires
        hydration_due(n1, l0) == Some(k),
        l1 == l0.insert(k),
        dedup_key_of(n2) == Some(k),
    ensures
        hydration_due(n2, l1) is None,
{
}

/// Hydrate a node if its key is not yet recorded, then render it. A due node
/// has its key recorded and exactly one framework hook dispatched (none where
/// a state-requiring framework has no state), followed by the incremental
/// render hook; a hook failure is returned only after the node has still
/// been rendered, as `render_step_ok` and `render_covers` state on every
/// path. A node that is not due is only rendered, and nothing can fail.
pub fn hydrate_and_render<S: WidgetSurface, H: ReactiveCoreTrait<S>>(
    surface: &mut S,
    dom_renderer: &mut DomRenderer,
    ledger: &mut HydrationLedger,
    hooks: &mut H,
    node: &ParsedNode,
) -> (r: Result<Option<FrameworkType>, HydrationError>)
    ensures
        ({
            let due = hydration_due(node@, ledger_set(old(ledger).keys@));
            &&& match due {
                Some(k) => ledger_set(final(ledger).keys@) == ledger_set(
                    old(ledger).keys@,
                ).insert(k),
                None => ledger_set(final(ledger).keys@) == ledger_set(old(ledger).keys@),
            }
            &&& match r {
                Ok(f) => f == match due {
                    Some(k) => Some(k.0),
                    None => None::<FrameworkType>,
                },
                Err(_) => due is Some,
            }
        }),
        render_step_ok(*old(dom_renderer), *final(dom_renderer), node@),
        render_covers(*final(dom_renderer), node@),
{
    let mut outcome: Result<(), HydrationError> = Ok(());
    let mut detected: Option<FrameworkType> = None;
    match node {
        ParsedNode::Element { attrs, reactive_state, framework, .. } => {
            match framework {
                Some(fw) => {
                    let fwv = *fw;
                    let id: &str = match attr_get(attrs, "id") {
                        Some(v) => v.as_str(),
                        None => "",
                    };
                    if !ledger.contains(fwv, id) {
                        ledger.record(fwv, id);
                        detected = Some(fwv);
                        let hooked: Result<(), HydrationError> = match fwv {
                            FrameworkType::ReactNext => match reactive_state {
                                Some(s) => hooks.create_signals(s.as_str()),
                                None => Ok(()),
                            },
                            FrameworkType::Angular => hooks.bind_angular_scopes(node),
                            FrameworkType::VueNuxt => match reactive_state {
                                Some(s) => hooks.create_stores(s.as_str()),
                                None => Ok(()),
                            },
                            FrameworkType::SvelteKit => hooks.apply_svelte_hashes(node),
                            FrameworkType::WasmModule => hooks.load_wasm_module(node),
                        };
                        outcome = match hooked {
                            Ok(_) => hooks.incremental_render(surface, node),
                            Err(e) => Err(e),
                        };
                    }
                },
                None => {},
            }
        },
        ParsedNode::Text(_) => {},
    }
    dom_renderer.render_node(surface, node);
    match outcome {
        Ok(_) => Ok(detected),
        Err(e) => Err(e),
    }
}

} // verus!
