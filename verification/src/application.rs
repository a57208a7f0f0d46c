//! The application: its configuration, and the rules by which it runs and
//! shuts down.
//!
//! Starting and stopping the event bus and the plugins, waiting for signals
//! and for time limits, is the caller's; it asks the rules here what to do
//! and what to answer.

use vstd::prelude::*;
use std::time::Duration;
use crate::error::{ErrorView, Result, VibeError};
use crate::info::VERSION;
use crate::plugin_manager::{duration_of_secs, PluginLoadOrder, PluginManagerConfig};

verus! {

/// How an application is named and run.
#[derive(Debug)]
pub struct AppConfig {
    pub name: String,
    pub version: String,
    pub description: String,
    pub plugin_config: PluginManagerConfig,
    pub graceful_shutdown_timeout: Duration,
    pub enable_signal_handling: bool,
}

/// Whether `c` is the default configuration of the plugin manager.
pub open spec fn is_default_plugin_config(c: PluginManagerConfig) -> bool {
    &&& c.timeout == duration_of_secs(30)
    &&& c.load_order == PluginLoadOrder::DependencyFirst
    &&& c.enable_dependency_check
    &&& !c.continue_on_failure
    &&& c.max_retries == 3
}

/// Whether `c` is the default configuration, but for its name.
pub open spec fn has_default_settings(c: AppConfig) -> bool {
    &&& c.version@ == VERSION@
    &&& c.description@ == Seq::<char>::empty()
    &&& is_default_plugin_config(c.plugin_config)
    &&& c.graceful_shutdown_timeout == duration_of_secs(30)
    &&& c.enable_signal_handling
}

impl Clone for AppConfig {
    fn clone(&self) -> (c: Self)
        ensures
            c.name@ == self.name@,
            c.version@ == self.version@,
            c.description@ == self.description@,
            c.plugin_config == self.plugin_config,
            c.graceful_shutdown_timeout == self.graceful_shutdown_timeout,
            c.enable_signal_handling == self.enable_signal_handling,
    {
        AppConfig {
            name: self.name.clone(),
            version: self.version.clone(),
            description: self.description.clone(),
            plugin_config: self.plugin_config,
            graceful_shutdown_timeout: self.graceful_shutdown_timeout,
            enable_signal_handling: self.enable_signal_handling,
        }
    }
}

impl Default for AppConfig {
    fn default() -> (c: Self)
        ensures
            c.name@ == "VibeSynapseApp"@,
            has_default_settings(c),
    {
        AppConfig {
            name: String::from_str("VibeSynapseApp"),
            version: String::from_str(VERSION),
            description: String::new(),
            plugin_config: PluginManagerConfig::default(),
            graceful_shutdown_timeout: Duration::from_secs(30),
            enable_signal_handling: true,
        }
    }
}

impl AppConfig {
    /// The default configuration for an application named `name`.
    pub fn new(name: &str) -> (c: Self)
        ensures
            c.name@ == name@,
            has_default_settings(c),
    {
        let mut c = Self::default();
        c.name = String::from_str(name);
        c
    }

    pub fn with_version(self, version: &str) -> (c: Self)
        ensures
            c.version@ == version@,
            c.name == self.name,
            c.description == self.description,
            c.plugin_config == self.plugin_config,
            c.graceful_shutdown_timeout == self.graceful_shutdown_timeout,
            c.enable_signal_handling == self.enable_signal_handling,
    {
        let mut c = self;
        c.version = String::from_str(version);
        c
    }

    pub fn with_description(self, desc: &str) -> (c: Self)
        ensures
            c.description@ == desc@,
            c.name == self.name,
            c.version == self.version,
            c.plugin_config == self.plugin_config,
            c.graceful_shutdown_timeout == self.graceful_shutdown_timeout,
            c.enable_signal_handling == self.enable_signal_handling,
    {
        let mut c = self;
        c.description = String::from_str(desc);
        c
    }

    pub fn with_plugin_config(self, config: PluginManagerConfig) -> (c: Self)
        ensures
            c == (AppConfig { plugin_config: config, ..self }),
    {
        let mut c = self;
        c.plugin_config = config;
        c
    }

    pub fn with_graceful_shutdown_timeout(self, timeout: Duration) -> (c: Self)
        ensures
            c == (AppConfig { graceful_shutdown_timeout: timeout, ..self }),
    {
        let mut c = self;
        c.graceful_shutdown_timeout = timeout;
        c
    }

    pub fn with_signal_handling(self, enable: bool) -> (c: Self)
        ensures
            c == (AppConfig { enable_signal_handling: enable, ..self }),
    {
        let mut c = self;
        c.enable_signal_handling = enable;
        c
    }
}

/// Whether an application runs, and what running and shutting it down
/// answer.
pub struct AppLifecycle {
    running: bool,
}

impl AppLifecycle {
    pub closed spec fn spec_running(&self) -> bool {
        self.running
    }

    /// An application that does not run yet.
    pub fn new() -> (a: Self)
        ensures
            !a.spec_running(),
    {
        AppLifecycle { running: false }
    }

    /// Whether the application runs.
    pub fn is_running(&self) -> (b: bool)
        ensures
            b == self.spec_running(),
    {
        self.running
    }

    /// Whether the application may start: a running one is refused.
    pub fn begin_run(&self) -> (r: Result<()>)
        ensures
            !self.spec_running() <==> r is Ok,
            self.spec_running() ==> (r matches Err(e)
                && e@ == ErrorView::RuntimeError("Application already running"@)),
    {
        if self.running {
            Err(VibeError::RuntimeError(String::from_str("Application already running")))
        } else {
            Ok(())
        }
    }

    /// Records that the event bus and the plugins have started.
    pub fn mark_running(&mut self)
        ensures
            final(self).spec_running(),
    {
        self.running = true;
    }

    /// Records that the plugins and the event bus have stopped.
    pub fn mark_stopped(&mut self)
        ensures
            !final(self).spec_running(),
    {
        self.running = false;
    }
}

/// What a shutdown bounded in time answers: the shutdown's own answer when
/// it finished (`Some`), else a timeout error.
pub fn bounded_shutdown_verdict(finished: Option<Result<()>>) -> (r: Result<()>)
    ensures
        match finished {
            Some(res) => r == res,
            None => r matches Err(e) && e@ == ErrorView::TimeoutError("Shutdown timeout"@),
        },
{
    match finished {
        Some(res) => res,
        None => Err(VibeError::TimeoutError(String::from_str("Shutdown timeout"))),
    }
}

/// What waiting for the application to start answers: success once it was
/// seen running, else a timeout error.
pub fn startup_wait_verdict(started: bool) -> (r: Result<()>)
    ensures
        started <==> r is Ok,
        !started ==> (r matches Err(e)
            && e@ == ErrorView::TimeoutError("Application failed to start within timeout"@)),
{
    if started {
        Ok(())
    } else {
        Err(VibeError::TimeoutError(String::from_str("Application failed to start within timeout")))
    }
}

} // verus!
