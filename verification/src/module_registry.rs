//! The module registry: which modules are registered under which names, what
//! registering and unregistering a module does to the registry and to the
//! message bus, and the counts a message dispatcher keeps.
//!
//! Constructing, initializing and shutting down the modules (and waiting for
//! them, within a time limit) is the caller's: it hands the registry the
//! outcome.

use vstd::prelude::*;
use std::time::Duration;
use crate::message_bus::{BusView, MessageBus};
use crate::plugin::texts;
use crate::plugin_manager::{debug_text_of_duration, duration_text};
use crate::table::{Table, TableKey};

verus! {

/// How long a module's initialization may take, in seconds.
pub const MODULE_INIT_TIMEOUT_SECS: u64 = 30;

/// How long a module's shutdown may take, in seconds.
pub const MODULE_SHUTDOWN_TIMEOUT_SECS: u64 = 10;

/// What can go wrong with a module.
#[derive(Debug)]
pub enum ModuleError {
    InitializationTimeout { module: String, duration: Duration },
    ShutdownTimeout { module: String, duration: Duration },
    DuplicateName { name: String },
}

/// The text of a module error.
pub open spec fn module_error_text(e: &ModuleError) -> Seq<char> {
    match e {
        ModuleError::InitializationTimeout { module, duration } => "Module '"@ + module@
            + "' initialization timed out after "@ + debug_text_of_duration(*duration),
        ModuleError::ShutdownTimeout { module, duration } => "Module '"@ + module@
            + "' shutdown timed out after "@ + debug_text_of_duration(*duration),
        ModuleError::DuplicateName { name } => "Duplicate module name: '"@ + name@ + "'"@,
    }
}

impl ModuleError {
    /// The error's human-readable text.
    pub fn to_string(&self) -> (s: String)
        ensures
            s@ == module_error_text(self),
    {
        match self {
            ModuleError::InitializationTimeout { module, duration } => {
                let mut s = String::from_str("Module '");
                s.append(module.as_str());
                s.append("' initialization timed out after ");
                let d = duration_text(duration);
                s.append(d.as_str());
                s
            },
            ModuleError::ShutdownTimeout { module, duration } => {
                let mut s = String::from_str("Module '");
                s.append(module.as_str());
                s.append("' shutdown timed out after ");
                let d = duration_text(duration);
                s.append(d.as_str());
                s
            },
            ModuleError::DuplicateName { name } => {
                let mut s = String::from_str("Duplicate module name: '");
                s.append(name.as_str());
                s.append("'");
                s
            },
        }
    }
}

/// What the registry knows.
#[verifier::ext_equal]
pub struct RegistryView<M> {
    /// The registered modules, by name.
    pub modules: Map<Seq<char>, M>,
    /// The names claimed so far (a module whose initialization failed still
    /// claims its name, until it is unregistered).
    pub names: Set<Seq<char>>,
}

/// The registered modules `M`, by name.
pub struct ModuleRegistry<M> {
    modules: Table<String, M>,
    registered_names: Table<String, bool>,
}

impl<M> View for ModuleRegistry<M> {
    type V = RegistryView<M>;

    closed spec fn view(&self) -> RegistryView<M> {
        RegistryView { modules: self.modules.map(), names: self.registered_names.map().dom() }
    }
}

impl<M> ModuleRegistry<M> {
    pub closed spec fn wf(&self) -> bool {
        self.modules.wf() && self.registered_names.wf()
    }

    /// An empty registry.
    pub fn new() -> (r: Self)
        ensures
            r.wf(),
            r@.modules == Map::<Seq<char>, M>::empty(),
            r@.names == Set::<Seq<char>>::empty(),
    {
        let r = ModuleRegistry { modules: Table::new(), registered_names: Table::new() };
        assert(r@.modules =~= Map::<Seq<char>, M>::empty());
        assert(r@.names =~= Set::<Seq<char>>::empty());
        r
    }

    /// Records the module `module` named `name` once its initialization has
    /// ended: its name is claimed, and when it initialized it is kept. A
    /// module of the same name is replaced: the last one wins. Says whether
    /// the name was claimed before (for a warning).
    pub fn register_module(&mut self, name: &str, module: M, initialized: bool) -> (duplicate: bool)
        requires
            old(self).wf(),
        ensures
            final(self).wf(),
            duplicate == old(self)@.names.contains(name@),
            final(self)@.names == old(self)@.names.insert(name@),
            final(self)@.modules == if initialized {
                old(self)@.modules.insert(name@, module)
            } else {
                old(self)@.modules
            },
    {
        let ghost v = self@;
        let key = String::from_str(name);
        let duplicate = self.registered_names.contains(&key);
        self.registered_names.insert(key, true);
        assert(self@.names =~= v.names.insert(name@));
        if initialized {
            self.modules.insert(String::from_str(name), module);
        }
        duplicate
    }

    /// Takes the module named `name` out of the registry, for it to be shut
    /// down; its name stays claimed and its subscriptions stay until it is
    /// unregistered.
    pub fn take_module(&mut self, name: &str) -> (r: Option<M>)
        requires
            old(self).wf(),
        ensures
            final(self).wf(),
            r == (if old(self)@.modules.contains_key(name@) {
                Some(old(self)@.modules[name@])
            } else {
                None::<M>
            }),
            final(self)@.modules == old(self)@.modules.remove(name@),
            final(self)@.names == old(self)@.names,
    {
        self.modules.remove(&String::from_str(name))
    }

    /// Unregisters the module named `name`: it leaves the registry, its name
    /// is released, and the bus forgets its subscriptions. Returns the
    /// module, if one was registered, for it to be shut down.
    pub fn unregister_module<P>(&mut self, bus: &mut MessageBus<P>, name: &str) -> (r: Option<M>)
        requires
            old(self).wf(),
            old(bus).wf(),
        ensures
            final(self).wf(),
            final(bus).wf(),
            r == (if old(self)@.modules.contains_key(name@) {
                Some(old(self)@.modules[name@])
            } else {
                None::<M>
            }),
            final(self)@.modules == old(self)@.modules.remove(name@),
            final(self)@.names == old(self)@.names.remove(name@),
            final(bus)@ == old(bus)@.without_module(name@),
            final(bus).channels_kept(old(bus)),
            final(bus).handed() == old(bus).handed(),
    {
        let ghost v = self@;
        let key = String::from_str(name);
        let module = self.modules.remove(&key);
        bus.unsubscribe_all(name);
        let _ = self.registered_names.remove(&key);
        assert(self@.names =~= v.names.remove(name@));
        module
    }

    /// The names of the registered modules, each once.
    pub fn list_modules(&self) -> (r: Vec<String>)
        requires
            self.wf(),
        ensures
            texts(r@).no_duplicates(),
            forall|n: Seq<char>| texts(r@).contains(n) <==> self@.modules.contains_key(n),
    {
        let keys = self.modules.key_list();
        proof {
            self.modules.lemma_keys();
            assert(texts(keys@) =~= keys@.map_values(|k: String| k.key_view()));
        }
        keys
    }

    /// Whether a module named `name` is registered.
    pub fn has_module(&self, name: &str) -> (b: bool)
        requires
            self.wf(),
        ensures
            b == self@.modules.contains_key(name@),
    {
        self.modules.contains(&String::from_str(name))
    }

    /// The module named `name`, if one is registered.
    pub fn get_module(&self, name: &str) -> (r: Option<&M>)
        requires
            self.wf(),
        ensures
            match r {
                Some(m) => self@.modules.contains_key(name@) && *m == self@.modules[name@],
                None => !self@.modules.contains_key(name@),
            },
    {
        self.modules.get(&String::from_str(name))
    }
}

/// Once a module is unregistered, neither the registry nor the bus knows it:
/// it is not registered, its name is free, it has no subscriptions, and no
/// message type lists it among its subscribers.
pub proof fn lemma_unregistered_forgotten<M>(before: RegistryView<M>, after: RegistryView<M>, bus_before: BusView, bus_after: BusView, name: Seq<char>)
    requires
        bus_before.consistent(),
        after.modules == before.modules.remove(name),
        after.names == before.names.remove(name),
        bus_after == bus_before.without_module(name),
    ensures
        !after.modules.contains_key(name),
        !after.names.contains(name),
        bus_after.subscriptions_of(name).len() == 0,
        forall|t| !(#[trigger] bus_after.subscribers_of(t)).contains(name),
{
    crate::message_bus::lemma_without_module_forgets(bus_before, name);
}

/// The counts a message dispatcher keeps: messages fully delivered, and
/// deliveries that failed. Both wrap around.
pub struct DispatcherStats {
    pub messages_processed: u64,
    pub errors_encountered: u64,
}

/// One more, wrapping around.
pub open spec fn next_count(n: u64) -> u64 {
    if n == u64::MAX {
        0
    } else {
        (n + 1) as u64
    }
}

/// Counting one more adds one, modulo 2^64: after `k` counts from `c` the
/// counter is `(c + k) mod 2^64`.
pub proof fn lemma_next_count_adds_one(n: u64)
    ensures
        next_count(n) as int == (n as int + 1) % 0x1_0000_0000_0000_0000,
{
}

impl DispatcherStats {
    /// Nothing counted yet.
    pub fn new() -> (s: Self)
        ensures
            s.messages_processed == 0,
            s.errors_encountered == 0,
    {
        DispatcherStats { messages_processed: 0, errors_encountered: 0 }
    }

    /// Counts how one delivery of a message to one module ended.
    pub fn record_delivery(&mut self, failed: bool)
        ensures
            final(self).messages_processed == old(self).messages_processed,
            final(self).errors_encountered == if failed {
                next_count(old(self).errors_encountered)
            } else {
                old(self).errors_encountered
            },
            failed ==> final(self).errors_encountered as int
                == (old(self).errors_encountered as int + 1) % 0x1_0000_0000_0000_0000,
    {
        if failed {
            self.errors_encountered = if self.errors_encountered == u64::MAX {
                0
            } else {
                self.errors_encountered + 1
            };
        }
    }

    /// Counts a message whose deliveries have all ended.
    pub fn record_message(&mut self)
        ensures
            final(self).messages_processed == next_count(old(self).messages_processed),
            final(self).messages_processed as int
                == (old(self).messages_processed as int + 1) % 0x1_0000_0000_0000_0000,
            final(self).errors_encountered == old(self).errors_encountered,
    {
        self.messages_processed = if self.messages_processed == u64::MAX {
            0
        } else {
            self.messages_processed + 1
        };
    }
}

} // verus!
