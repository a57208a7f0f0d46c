//! The context handed to plugins, and the resource registry behind it: one
//! resource per type, given either as a value or as a factory that makes it
//! the first time it is asked for.

use vstd::prelude::*;
use std::any::TypeId;
use std::sync::Arc;
use crate::error::{ErrorView, Result, VibeError};
use crate::plugin::{MetadataView, PluginMetadata};
use crate::table::{Table, TableKey};

verus! {

/// Resources keyed by the type they are registered under.
///
/// `V` is the type of the stored resources, `F` that of the factories that
/// make a resource when it is first asked for.
pub struct ResourceRegistry<V, F> {
    resources: Table<TypeId, V>,
    lazy_factories: Table<TypeId, F>,
    lazy_initialized: Table<TypeId, bool>,
}

impl<V, F: Fn() -> Result<V>> ResourceRegistry<V, F> {
    /// The resources that are present.
    pub closed spec fn resources(&self) -> Map<TypeId, V> {
        self.resources.map()
    }

    /// The factories that have not run yet.
    pub closed spec fn factories(&self) -> Map<TypeId, F> {
        self.lazy_factories.map()
    }

    /// For each registered type, whether its resource has been made (`true`)
    /// or is still waiting for its factory (`false`).
    pub closed spec fn initialized(&self) -> Map<TypeId, bool> {
        self.lazy_initialized.map()
    }

    pub closed spec fn wf(&self) -> bool {
        &&& self.resources.wf()
        &&& self.lazy_factories.wf()
        &&& self.lazy_initialized.wf()
        &&& forall|k: TypeId| #[trigger] self.factories().contains_key(k) ==> call_requires(self.factories()[k], ())
        &&& forall|k: TypeId| #[trigger] self.resources().contains_key(k) ==> self.initialized().contains_key(k)
        &&& forall|k: TypeId| #[trigger] self.factories().contains_key(k) ==> self.initialized().contains_key(k)
    }

    /// Every pending factory's type is registered: `remove` always drops a
    /// pending factory.
    pub proof fn lemma_factories_are_registered(&self, k: TypeId)
        requires
            self.wf(),
            self.factories().contains_key(k),
        ensures
            self.initialized().contains_key(k),
    {
    }

    /// Every stored resource's type is registered: `remove` gives back every
    /// stored resource.
    pub proof fn lemma_stored_are_registered(&self, k: TypeId)
        requires
            self.wf(),
            self.resources().contains_key(k),
        ensures
            self.initialized().contains_key(k),
    {
    }

    /// Whether `get` for type `k` makes the resource first: the type was
    /// registered with a factory that has not run.
    pub open spec fn waiting(&self, k: TypeId) -> bool {
        self.initialized().contains_key(k) && !self.initialized()[k]
    }

    /// The factories' call condition carries over when they are unchanged or
    /// fewer.
    proof fn lemma_factories_callable(&self, before: &Self)
        requires
            before.wf(),
            self.resources.wf(),
            self.lazy_factories.wf(),
            self.lazy_initialized.wf(),
            forall|k: TypeId| #[trigger] self.factories().contains_key(k) ==> before.factories().contains_key(k)
                && self.factories()[k] == before.factories()[k],
            forall|k: TypeId| #[trigger] self.resources().contains_key(k) ==> self.initialized().contains_key(k),
            forall|k: TypeId| #[trigger] self.factories().contains_key(k) ==> self.initialized().contains_key(k),
        ensures
            self.wf(),
    {
        assert forall|k: TypeId| #[trigger] self.factories().contains_key(k) implies call_requires(
            self.factories()[k],
            (),
        ) by {
            assert(before.factories().contains_key(k));
        }
    }

    /// An empty registry.
    pub fn new() -> (r: Self)
        ensures
            r.wf(),
            r.resources() == Map::<TypeId, V>::empty(),
            r.factories() == Map::<TypeId, F>::empty(),
            r.initialized() == Map::<TypeId, bool>::empty(),
    {
        ResourceRegistry {
            resources: Table::new(),
            lazy_factories: Table::new(),
            lazy_initialized: Table::new(),
        }
    }

    /// Registers `resource` as the resource of type `key`.
    pub fn insert(&mut self, key: TypeId, resource: V) -> (r: Result<()>)
        requires
            old(self).wf(),
        ensures
            final(self).wf(),
            r is Ok,
            final(self).resources() == old(self).resources().insert(key, resource),
            final(self).initialized() == old(self).initialized().insert(key, true),
            final(self).factories() == old(self).factories(),
    {
        self.resources.insert(key, resource);
        self.lazy_initialized.insert(key, true);
        proof {
            assert forall|k: TypeId| #[trigger] self.resources().contains_key(k) implies self.initialized().contains_key(k) by {
                if k != key {
                    assert(old(self).resources().contains_key(k));
                }
            }
            assert forall|k: TypeId| #[trigger] self.factories().contains_key(k) implies self.initialized().contains_key(k) by {
                if k != key {
                    assert(old(self).factories().contains_key(k));
                }
            }
            self.lemma_factories_callable(old(self));
        }
        Ok(())
    }

    /// Registers `factory` to make the resource of type `key` when it is
    /// first asked for.
    pub fn insert_lazy(&mut self, key: TypeId, factory: F) -> (r: Result<()>)
        requires
            old(self).wf(),
            call_requires(factory, ()),
        ensures
            final(self).wf(),
            r is Ok,
            final(self).factories() == old(self).factories().insert(key, factory),
            final(self).initialized() == old(self).initialized().insert(key, false),
            final(self).resources() == old(self).resources(),
    {
        self.lazy_factories.insert(key, factory);
        self.lazy_initialized.insert(key, false);
        assert forall|k: TypeId| #[trigger] self.resources().contains_key(k) implies self.initialized().contains_key(k) by {
            assert(old(self).resources().contains_key(k));
        }
        assert forall|k: TypeId| #[trigger] self.factories().contains_key(k) implies self.initialized().contains_key(k) by {
            if k != key {
                assert(old(self).factories().contains_key(k));
            }
        }
        assert forall|k: TypeId| #[trigger] self.factories().contains_key(k) implies call_requires(
            self.factories()[k],
            (),
        ) by {
            if k != key {
                assert(old(self).factories().contains_key(k));
            }
        }
        Ok(())
    }

    /// Runs the waiting factory of type `key`, if there is one, and keeps
    /// what it makes. The factory is gone afterwards, whatever it returned.
    fn run_factory(&mut self, key: TypeId) -> (r: Result<()>)
        requires
            old(self).wf(),
        ensures
            final(self).wf(),
            final(self).factories() == old(self).factories().remove(key),
            !old(self).factories().contains_key(key) ==> {
                &&& r matches Err(e) && e@ is ResourceNotFound
                &&& final(self).resources() == old(self).resources()
                &&& final(self).initialized() == old(self).initialized()
            },
            old(self).factories().contains_key(key) ==> match r {
                Ok(_) => exists|v: V|
                    #![trigger old(self).resources().insert(key, v)]
                    call_ensures(old(self).factories()[key], (), Ok::<V, VibeError>(v))
                        && final(self).resources() == old(self).resources().insert(key, v)
                        && final(self).initialized() == old(self).initialized().insert(key, true),
                Err(e) => exists|fe: VibeError|
                    #![trigger call_ensures(old(self).factories()[key], (), Err::<V, VibeError>(fe))]
                    call_ensures(old(self).factories()[key], (), Err::<V, VibeError>(fe))
                        && e@ == ErrorView::Other("Factory error: "@ + fe@.text())
                        && final(self).resources() == old(self).resources()
                        && final(self).initialized() == old(self).initialized(),
            },
    {
        let factory = self.lazy_factories.remove(&key);
        match factory {
            Some(f) => {
                proof {
                    assert forall|k: TypeId| #[trigger] self.factories().contains_key(k) implies call_requires(
                        self.factories()[k],
                        (),
                    ) by {
                        assert(old(self).factories().contains_key(k));
                    }
                    assert forall|k: TypeId| #[trigger] self.resources().contains_key(k) implies self.initialized().contains_key(k) by {
                        assert(old(self).resources().contains_key(k));
                    }
                    assert forall|k: TypeId| #[trigger] self.factories().contains_key(k) implies self.initialized().contains_key(k) by {
                        assert(old(self).factories().contains_key(k));
                    }
                }
                assert(call_requires(f, ())) by {
                    assert(old(self).factories().contains_key(key));
                }
                let made = f();
                match made {
                    Ok(v) => {
                        let ghost mid = *self;
                        let ghost gv = v;
                        self.resources.insert(key, v);
                        self.lazy_initialized.insert(key, true);
                        proof {
                            assert forall|k: TypeId| #[trigger] self.resources().contains_key(k) implies self.initialized().contains_key(k) by {
                                if k != key {
                                    assert(mid.resources().contains_key(k));
                                }
                            }
                            assert forall|k: TypeId| #[trigger] self.factories().contains_key(k) implies self.initialized().contains_key(k) by {
                                if k != key {
                                    assert(mid.factories().contains_key(k));
                                }
                            }
                            self.lemma_factories_callable(&mid);
                            assert(self.resources() == old(self).resources().insert(key, gv));
                            assert(call_ensures(old(self).factories()[key], (), Ok::<V, VibeError>(gv)));
                        }
                        Ok(())
                    },
                    Err(fe) => {
                        proof {
                            assert(call_ensures(old(self).factories()[key], (), Err::<V, VibeError>(fe)));
                        }
                        let text = fe.to_string();
                        let mut msg = String::from_str("Factory error: ");
                        msg.append(text.as_str());
                        Err(VibeError::Other(msg))
                    },
                }
            },
            None => {
                proof {
                    assert(self.factories() =~= old(self).factories());
                    assert forall|k: TypeId| #[trigger] self.resources().contains_key(k) implies self.initialized().contains_key(k) by {
                        assert(old(self).resources().contains_key(k));
                    }
                    assert forall|k: TypeId| #[trigger] self.factories().contains_key(k) implies self.initialized().contains_key(k) by {
                        assert(old(self).factories().contains_key(k));
                    }
                }
                Err(VibeError::ResourceNotFound(String::from_str("Lazy factory not found")))
            },
        }
    }

    /// Makes the resource of type `key` from its waiting factory; the
    /// factory is gone afterwards, whatever it returned. `type_label` names
    /// the type in the error given when there is no such factory.
    pub fn initialize_lazy(&mut self, key: TypeId, type_label: &str) -> (r: Result<()>)
        requires
            old(self).wf(),
        ensures
            final(self).wf(),
            final(self).factories() == old(self).factories().remove(key),
            !old(self).factories().contains_key(key) ==> {
                &&& r matches Err(e) && e@ == ErrorView::ResourceNotFound(
                    "Lazy factory not found for type: "@ + type_label@,
                )
                &&& final(self).resources() == old(self).resources()
                &&& final(self).initialized() == old(self).initialized()
            },
            old(self).factories().contains_key(key) ==> match r {
                Ok(_) => exists|v: V|
                    #![trigger old(self).resources().insert(key, v)]
                    call_ensures(old(self).factories()[key], (), Ok::<V, VibeError>(v))
                        && final(self).resources() == old(self).resources().insert(key, v)
                        && final(self).initialized() == old(self).initialized().insert(key, true),
                Err(e) => exists|fe: VibeError|
                    #![trigger call_ensures(old(self).factories()[key], (), Err::<V, VibeError>(fe))]
                    call_ensures(old(self).factories()[key], (), Err::<V, VibeError>(fe))
                        && e@ == ErrorView::Other("Factory error: "@ + fe@.text())
                        && final(self).resources() == old(self).resources()
                        && final(self).initialized() == old(self).initialized(),
            },
    {
        if !self.lazy_factories.contains(&key) {
            let mut msg = String::from_str("Lazy factory not found for type: ");
            msg.append(type_label);
            return Err(VibeError::ResourceNotFound(msg));
        }
        self.run_factory(key)
    }

    /// What `insert` stores is what `get` gives back: once `v` is inserted as
    /// the resource of type `key`, the type is not waiting for a factory and
    /// its resource is `v`.
    pub proof fn lemma_get_after_insert(before: &Self, after: &Self, key: TypeId, v: V)
        requires
            before.wf(),
            after.resources() == before.resources().insert(key, v),
            after.initialized() == before.initialized().insert(key, true),
            after.factories() == before.factories(),
        ensures
            !after.waiting(key),
            after.resources().contains_key(key),
            after.resources()[key] == v,
    {
    }

    /// A factory runs at most once: once `get` has asked for the resource of
    /// type `key`, the type is no longer waiting with a factory that could
    /// run, whatever the factory returned; so every later `get` of `key`
    /// (with no insert or remove between) leaves the registry as it is and
    /// gives the same answer.
    pub proof fn lemma_factory_runs_once(before: &Self, after: &Self, key: TypeId, found: bool)
        requires
            before.wf(),
            !before.waiting(key) ==> {
                &&& after.resources() == before.resources()
                &&& after.factories() == before.factories()
                &&& after.initialized() == before.initialized()
            },
            before.waiting(key) && !before.factories().contains_key(key) ==> {
                &&& after.resources() == before.resources()
                &&& after.factories() == before.factories()
                &&& after.initialized() == before.initialized()
            },
            before.waiting(key) && before.factories().contains_key(key) ==> {
                &&& after.factories() == before.factories().remove(key)
                &&& found ==> exists|v: V| after.initialized() == before.initialized().insert(key, true)
                    && after.resources() == before.resources().insert(key, v)
                &&& !found ==> after.initialized() == before.initialized()
            },
        ensures
            !(after.waiting(key) && after.factories().contains_key(key)),
    {
    }

    /// The resource of type `key`. A type still waiting for its factory has
    /// it run first; when there is no factory, or it fails, there is no
    /// resource to give.
    pub fn get(&mut self, key: TypeId) -> (r: Option<&V>)
        requires
            old(self).wf(),
        ensures
            final(self).wf(),
            !old(self).waiting(key) ==> {
                &&& final(self).resources() == old(self).resources()
                &&& final(self).factories() == old(self).factories()
                &&& final(self).initialized() == old(self).initialized()
                &&& match r {
                    Some(v) => old(self).resources().contains_key(key) && *v == old(self).resources()[key],
                    None => !old(self).resources().contains_key(key),
                }
            },
            old(self).waiting(key) && !old(self).factories().contains_key(key) ==> {
                &&& r is None
                &&& final(self).resources() == old(self).resources()
                &&& final(self).factories() == old(self).factories()
                &&& final(self).initialized() == old(self).initialized()
            },
            old(self).waiting(key) && old(self).factories().contains_key(key) ==> {
                &&& final(self).factories() == old(self).factories().remove(key)
                &&& match r {
                    Some(v) => {
                        &&& call_ensures(old(self).factories()[key], (), Ok::<V, VibeError>(*v))
                        &&& final(self).resources() == old(self).resources().insert(key, *v)
                        &&& final(self).initialized() == old(self).initialized().insert(key, true)
                    },
                    None => {
                        &&& exists|fe: VibeError|
                            call_ensures(old(self).factories()[key], (), Err::<V, VibeError>(fe))
                        &&& final(self).resources() == old(self).resources()
                        &&& final(self).initialized() == old(self).initialized()
                    },
                }
            },
    {
        let waiting = match self.lazy_initialized.get(&key) {
            Some(done) => !*done,
            None => false,
        };
        if waiting {
            if !self.lazy_factories.contains(&key) {
                return None;
            }
            match self.run_factory(key) {
                Ok(()) => {},
                Err(_) => {
                    return None;
                },
            }
        }
        self.resources.get(&key)
    }

    /// The same as [`ResourceRegistry::get`].
    pub fn get_mut(&mut self, key: TypeId) -> (r: Option<&V>)
        requires
            old(self).wf(),
        ensures
            final(self).wf(),
            !old(self).waiting(key) ==> {
                &&& final(self).resources() == old(self).resources()
                &&& final(self).factories() == old(self).factories()
                &&& final(self).initialized() == old(self).initialized()
                &&& match r {
                    Some(v) => old(self).resources().contains_key(key) && *v == old(self).resources()[key],
                    None => !old(self).resources().contains_key(key),
                }
            },
            old(self).waiting(key) && !old(self).factories().contains_key(key) ==> {
                &&& r is None
                &&& final(self).resources() == old(self).resources()
                &&& final(self).factories() == old(self).factories()
                &&& final(self).initialized() == old(self).initialized()
            },
            old(self).waiting(key) && old(self).factories().contains_key(key) ==> {
                &&& final(self).factories() == old(self).factories().remove(key)
                &&& match r {
                    Some(v) => {
                        &&& call_ensures(old(self).factories()[key], (), Ok::<V, VibeError>(*v))
                        &&& final(self).resources() == old(self).resources().insert(key, *v)
                        &&& final(self).initialized() == old(self).initialized().insert(key, true)
                    },
                    None => {
                        &&& exists|fe: VibeError|
                            call_ensures(old(self).factories()[key], (), Err::<V, VibeError>(fe))
                        &&& final(self).resources() == old(self).resources()
                        &&& final(self).initialized() == old(self).initialized()
                    },
                }
            },
    {
        self.get(key)
    }

    /// Whether a resource of type `key` is present (a waiting factory does
    /// not count).
    pub fn contains(&self, key: TypeId) -> (b: bool)
        requires
            self.wf(),
        ensures
            b == self.resources().contains_key(key),
    {
        self.resources.contains(&key)
    }

    /// Unregisters type `key`: its resource and any waiting factory go.
    /// Nothing happens for a type that was never registered.
    pub fn remove(&mut self, key: TypeId) -> (r: Option<V>)
        requires
            old(self).wf(),
        ensures
            final(self).wf(),
            !old(self).initialized().contains_key(key) ==> {
                &&& r is None
                &&& final(self).resources() == old(self).resources()
                &&& final(self).factories() == old(self).factories()
                &&& final(self).initialized() == old(self).initialized()
            },
            old(self).resources().contains_key(key) ==> r == Some(old(self).resources()[key]),
            !final(self).factories().contains_key(key),
            old(self).initialized().contains_key(key) ==> {
                &&& final(self).resources() == old(self).resources().remove(key)
                &&& final(self).factories() == old(self).factories().remove(key)
                &&& final(self).initialized() == old(self).initialized().remove(key)
                &&& match r {
                    Some(v) => old(self).resources().contains_key(key) && v == old(self).resources()[key],
                    None => !old(self).resources().contains_key(key),
                }
            },
    {
        if self.lazy_initialized.remove(&key).is_none() {
            proof {
                assert forall|k: TypeId| #[trigger] self.resources().contains_key(k) implies self.initialized().contains_key(k) by {
                    assert(old(self).resources().contains_key(k));
                }
                assert forall|k: TypeId| #[trigger] self.factories().contains_key(k) implies self.initialized().contains_key(k) by {
                    assert(old(self).factories().contains_key(k));
                }
                self.lemma_factories_callable(old(self));
            }
            return None;
        }
        let _ = self.lazy_factories.remove(&key);
        let r = self.resources.remove(&key);
        proof {
            assert forall|k: TypeId| #[trigger] self.resources().contains_key(k) implies self.initialized().contains_key(k) by {
                assert(old(self).resources().contains_key(k));
            }
            assert forall|k: TypeId| #[trigger] self.factories().contains_key(k) implies self.initialized().contains_key(k) by {
                assert(old(self).factories().contains_key(k));
            }
            self.lemma_factories_callable(old(self));
        }
        r
    }
}

/// The framework's handle for plugins: the shared resources `R`, the event
/// bus `B`, and the metadata of the plugin it was handed to, if any.
#[derive(Clone)]
pub struct Context<B, R> {
    resources: R,
    event_bus: B,
    plugin_meta: Option<Arc<PluginMetadata>>,
}

impl<B, R> Context<B, R> {
    pub closed spec fn spec_resources(&self) -> R {
        self.resources
    }

    pub closed spec fn spec_event_bus(&self) -> B {
        self.event_bus
    }

    /// The metadata of the plugin the context was handed to, if any.
    pub closed spec fn plugin(&self) -> Option<MetadataView> {
        match self.plugin_meta {
            Some(m) => Some(m@),
            None => None,
        }
    }

    /// A context outside any plugin.
    pub fn new(event_bus: B, resources: R) -> (c: Self)
        ensures
            c.spec_event_bus() == event_bus,
            c.spec_resources() == resources,
            c.plugin() is None,
    {
        Context { resources, event_bus, plugin_meta: None }
    }

    /// The same context, handed to the plugin described by `plugin_meta`.
    pub fn with_plugin(self, plugin_meta: PluginMetadata) -> (c: Self)
        ensures
            c.spec_event_bus() == self.spec_event_bus(),
            c.spec_resources() == self.spec_resources(),
            c.plugin() == Some(plugin_meta@),
    {
        Context { plugin_meta: Some(Arc::new(plugin_meta)), ..self }
    }

    /// The shared resources.
    pub fn resources(&self) -> (r: &R)
        ensures
            *r == self.spec_resources(),
    {
        &self.resources
    }

    /// The event bus.
    pub fn event_bus(&self) -> (b: &B)
        ensures
            *b == self.spec_event_bus(),
    {
        &self.event_bus
    }
}

/// The name a context goes by: its plugin's name, or `core` outside any
/// plugin.
pub open spec fn context_name(plugin: Option<MetadataView>) -> Seq<char> {
    match plugin {
        Some(m) => m.name,
        None => "core"@,
    }
}

/// What a context says of the plugin it was handed to.
pub trait ContextExt {
    fn plugin_name(&self) -> &str;

    fn is_in_plugin(&self) -> bool;
}

impl<B, R> ContextExt for Context<B, R> {
    /// The plugin's name, or `core` outside any plugin.
    fn plugin_name(&self) -> (n: &str)
        ensures
            n@ == context_name(self.plugin()),
    {
        match &self.plugin_meta {
            Some(meta) => meta.name.as_str(),
            None => "core",
        }
    }

    /// Whether the context was handed to a plugin.
    fn is_in_plugin(&self) -> (b: bool)
        ensures
            b == self.plugin() is Some,
    {
        self.plugin_meta.is_some()
    }
}

/// Builds a context once it has an event bus.
pub struct ContextBuilder<B> {
    event_bus: Option<B>,
}

impl<B> ContextBuilder<B> {
    pub closed spec fn spec_event_bus(&self) -> Option<B> {
        self.event_bus
    }

    /// A builder with no event bus yet.
    pub fn new() -> (b: Self)
        ensures
            b.spec_event_bus() is None,
    {
        ContextBuilder { event_bus: None }
    }

    /// The builder with `bus` as its event bus.
    pub fn with_event_bus(self, bus: B) -> (b: Self)
        ensures
            b.spec_event_bus() == Some(bus),
    {
        ContextBuilder { event_bus: Some(bus) }
    }

    /// A context over the event bus and the shared resources `resources`;
    /// without an event bus it fails with a runtime error.
    pub fn build<R>(self, resources: R) -> (r: Result<Context<B, R>>)
        ensures
            match self.spec_event_bus() {
                Some(bus) => r matches Ok(c) && c.spec_event_bus() == bus
                    && c.spec_resources() == resources && c.plugin() is None,
                None => r matches Err(e) && e@ == ErrorView::RuntimeError("EventBus is required"@),
            },
    {
        match self.event_bus {
            Some(bus) => Ok(Context::new(bus, resources)),
            None => Err(VibeError::RuntimeError(String::from_str("EventBus is required"))),
        }
    }
}

impl<B> Default for ContextBuilder<B> {
    fn default() -> (b: Self)
        ensures
            b.spec_event_bus() is None,
    {
        Self::new()
    }
}

} // verus!
