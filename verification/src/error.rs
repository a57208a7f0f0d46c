//! Error handling: the framework's error type, its rendered text, and the
//! helpers that attach context to an error.

use vstd::prelude::*;

verus! {

/// Every failure that the framework reports.
///
/// `Internal` carries the rendered text of an error that came from elsewhere
/// (its text is shown as it is, with nothing around it).
#[derive(Debug)]
pub enum VibeError {
    PluginLoadError(String),
    PluginInitError(String),
    PluginNotFound(String),
    EventError(String),
    ConfigError(String),
    ResourceNotFound(String),
    RuntimeError(String),
    SubscriptionError(String),
    TimeoutError(String),
    Other(String),
    Internal(String),
    IoError(String),
}

/// The mathematical value of a [`VibeError`]: its variant and its text.
pub enum ErrorView {
    PluginLoadError(Seq<char>),
    PluginInitError(Seq<char>),
    PluginNotFound(Seq<char>),
    EventError(Seq<char>),
    ConfigError(Seq<char>),
    ResourceNotFound(Seq<char>),
    RuntimeError(Seq<char>),
    SubscriptionError(Seq<char>),
    TimeoutError(Seq<char>),
    Other(Seq<char>),
    Internal(Seq<char>),
    IoError(Seq<char>),
}

impl View for VibeError {
    type V = ErrorView;

    open spec fn view(&self) -> ErrorView {
        match self {
            VibeError::PluginLoadError(m) => ErrorView::PluginLoadError(m@),
            VibeError::PluginInitError(m) => ErrorView::PluginInitError(m@),
            VibeError::PluginNotFound(m) => ErrorView::PluginNotFound(m@),
            VibeError::EventError(m) => ErrorView::EventError(m@),
            VibeError::ConfigError(m) => ErrorView::ConfigError(m@),
            VibeError::ResourceNotFound(m) => ErrorView::ResourceNotFound(m@),
            VibeError::RuntimeError(m) => ErrorView::RuntimeError(m@),
            VibeError::SubscriptionError(m) => ErrorView::SubscriptionError(m@),
            VibeError::TimeoutError(m) => ErrorView::TimeoutError(m@),
            VibeError::Other(m) => ErrorView::Other(m@),
            VibeError::Internal(m) => ErrorView::Internal(m@),
            VibeError::IoError(m) => ErrorView::IoError(m@),
        }
    }
}

impl ErrorView {
    /// The human-readable text of an error: a fixed prefix per variant, then
    /// the error's own message.
    pub open spec fn text(self) -> Seq<char> {
        match self {
            ErrorView::PluginLoadError(m) => "Plugin load failed: "@ + m,
            ErrorView::PluginInitError(m) => "Plugin initialization failed: "@ + m,
            ErrorView::PluginNotFound(m) => "Plugin not found: "@ + m,
            ErrorView::EventError(m) => "Event processing failed: "@ + m,
            ErrorView::ConfigError(m) => "Configuration error: "@ + m,
            ErrorView::ResourceNotFound(m) => "Resource not found: "@ + m,
            ErrorView::RuntimeError(m) => "Runtime error: "@ + m,
            ErrorView::SubscriptionError(m) => "Subscription error: "@ + m,
            ErrorView::TimeoutError(m) => "Operation timeout: "@ + m,
            ErrorView::Other(m) => m,
            ErrorView::Internal(m) => m,
            ErrorView::IoError(m) => "IO error: "@ + m,
        }
    }
}

/// `prefix` followed by `msg`, as a new string.
fn prefixed(prefix: &str, msg: &String) -> (s: String)
    ensures
        s@ == prefix@ + msg@,
{
    let mut s = String::from_str(prefix);
    s.append(msg.as_str());
    s
}

impl VibeError {
    /// The error's human-readable text.
    pub fn to_string(&self) -> (s: String)
        ensures
            s@ == self@.text(),
    {
        match self {
            VibeError::PluginLoadError(m) => prefixed("Plugin load failed: ", m),
            VibeError::PluginInitError(m) => prefixed("Plugin initialization failed: ", m),
            VibeError::PluginNotFound(m) => prefixed("Plugin not found: ", m),
            VibeError::EventError(m) => prefixed("Event processing failed: ", m),
            VibeError::ConfigError(m) => prefixed("Configuration error: ", m),
            VibeError::ResourceNotFound(m) => prefixed("Resource not found: ", m),
            VibeError::RuntimeError(m) => prefixed("Runtime error: ", m),
            VibeError::SubscriptionError(m) => prefixed("Subscription error: ", m),
            VibeError::TimeoutError(m) => prefixed("Operation timeout: ", m),
            VibeError::Other(m) => m.clone(),
            VibeError::Internal(m) => m.clone(),
            VibeError::IoError(m) => prefixed("IO error: ", m),
        }
    }
}

/// The framework's result type.
pub type Result<T> = std::result::Result<T, VibeError>;

/// `msg`, then ` [`, `label`, `: `, `name` and `]`: the text that attaches a
/// context name to an error message.
pub open spec fn tagged(msg: Seq<char>, label: Seq<char>, name: Seq<char>) -> Seq<char> {
    msg + " ["@ + label + ": "@ + name + "]"@
}

/// What [`ContextExt::with_plugin`] makes of an error.
pub open spec fn plugin_context(e: ErrorView, plugin: Seq<char>) -> ErrorView {
    match e {
        ErrorView::PluginLoadError(m) => ErrorView::PluginLoadError(tagged(m, "plugin"@, plugin)),
        ErrorView::PluginInitError(m) => ErrorView::PluginInitError(tagged(m, "plugin"@, plugin)),
        other => ErrorView::PluginLoadError(tagged(other.text(), "plugin"@, plugin)),
    }
}

/// What [`ContextExt::with_event`] makes of an error.
pub open spec fn event_context(e: ErrorView, event: Seq<char>) -> ErrorView {
    match e {
        ErrorView::EventError(m) => ErrorView::EventError(tagged(m, "event"@, event)),
        other => ErrorView::EventError(tagged(other.text(), "event"@, event)),
    }
}

/// What [`ContextExt::with_resource`] makes of an error.
pub open spec fn resource_context(e: ErrorView, resource: Seq<char>) -> ErrorView {
    match e {
        ErrorView::ResourceNotFound(m) => ErrorView::ResourceNotFound(tagged(m, "resource"@, resource)),
        other => ErrorView::ResourceNotFound(tagged(other.text(), "resource"@, resource)),
    }
}

/// Whether `part` occurs in `whole` as a run of consecutive characters.
pub open spec fn occurs_in(part: Seq<char>, whole: Seq<char>) -> bool {
    exists|i: int| 0 <= i && i + part.len() <= whole.len() && #[trigger] whole.subrange(i, i + part.len()) == part
}

/// An error given a plugin's context names the plugin in its text.
pub proof fn lemma_plugin_context_names_plugin(e: ErrorView, plugin: Seq<char>)
    ensures
        occurs_in(plugin, plugin_context(e, plugin).text()),
{
    let c = plugin_context(e, plugin);
    let inner = match e {
        ErrorView::PluginLoadError(m) => tagged(m, "plugin"@, plugin),
        ErrorView::PluginInitError(m) => tagged(m, "plugin"@, plugin),
        other => tagged(other.text(), "plugin"@, plugin),
    };
    let prefix = match c {
        ErrorView::PluginInitError(_) => "Plugin initialization failed: "@,
        _ => "Plugin load failed: "@,
    };
    assert(c.text() == prefix + inner);
    lemma_tagged_names_in(prefix, inner, plugin);
}

/// An error given an event type's context names the event type in its text.
pub proof fn lemma_event_context_names_event(e: ErrorView, event: Seq<char>)
    ensures
        occurs_in(event, event_context(e, event).text()),
{
    let inner = match e {
        ErrorView::EventError(m) => tagged(m, "event"@, event),
        other => tagged(other.text(), "event"@, event),
    };
    assert(event_context(e, event).text() == "Event processing failed: "@ + inner);
    lemma_tagged_names_in("Event processing failed: "@, inner, event);
}

/// An error given a resource type's context names the resource type in its
/// text.
pub proof fn lemma_resource_context_names_resource(e: ErrorView, resource: Seq<char>)
    ensures
        occurs_in(resource, resource_context(e, resource).text()),
{
    let inner = match e {
        ErrorView::ResourceNotFound(m) => tagged(m, "resource"@, resource),
        other => tagged(other.text(), "resource"@, resource),
    };
    assert(resource_context(e, resource).text() == "Resource not found: "@ + inner);
    lemma_tagged_names_in("Resource not found: "@, inner, resource);
}

/// What occurs in a text still occurs in it behind a prefix.
proof fn lemma_tagged_names_in(prefix: Seq<char>, inner: Seq<char>, name: Seq<char>)
    requires
        exists|msg: Seq<char>, label: Seq<char>| inner == tagged(msg, label, name),
    ensures
        occurs_in(name, prefix + inner),
{
    let (msg, label) = choose|msg: Seq<char>, label: Seq<char>| inner == tagged(msg, label, name);
    let i: int = (prefix.len() + msg.len() + " ["@.len() + label.len() + ": "@.len()) as int;
    let whole = prefix + inner;
    assert(whole.subrange(i, i + name.len()) =~= name);
}

/// `msg` tagged with `label` and `name`, as a new string.
fn tag(msg: String, label: &str, name: &str) -> (s: String)
    ensures
        s@ == tagged(msg@, label@, name@),
{
    let mut s = msg;
    s.append(" [");
    s.append(label);
    s.append(": ");
    s.append(name);
    s.append("]");
    s
}

/// Attaches the name of a plugin, an event type or a resource type to the
/// error of a result; a success passes through unchanged.
pub trait ContextExt<T>: Sized {
    fn with_plugin(self, plugin_name: &str) -> Result<T>;

    fn with_event(self, event_type: &str) -> Result<T>;

    fn with_resource(self, resource_type: &str) -> Result<T>;
}

impl<T> ContextExt<T> for Result<T> {
    fn with_plugin(self, plugin_name: &str) -> (r: Result<T>)
        ensures
            match self {
                Ok(v) => r == Ok::<T, VibeError>(v),
                Err(e) => r matches Err(e2) && e2@ == plugin_context(e@, plugin_name@),
            },
    {
        match self {
            Ok(v) => Ok(v),
            Err(e) => Err(match e {
                VibeError::PluginLoadError(m) => VibeError::PluginLoadError(tag(m, "plugin", plugin_name)),
                VibeError::PluginInitError(m) => VibeError::PluginInitError(tag(m, "plugin", plugin_name)),
                other => VibeError::PluginLoadError(tag(other.to_string(), "plugin", plugin_name)),
            }),
        }
    }

    fn with_event(self, event_type: &str) -> (r: Result<T>)
        ensures
            match self {
                Ok(v) => r == Ok::<T, VibeError>(v),
                Err(e) => r matches Err(e2) && e2@ == event_context(e@, event_type@),
            },
    {
        match self {
            Ok(v) => Ok(v),
            Err(e) => Err(match e {
                VibeError::EventError(m) => VibeError::EventError(tag(m, "event", event_type)),
                other => VibeError::EventError(tag(other.to_string(), "event", event_type)),
            }),
        }
    }

    fn with_resource(self, resource_type: &str) -> (r: Result<T>)
        ensures
            match self {
                Ok(v) => r == Ok::<T, VibeError>(v),
                Err(e) => r matches Err(e2) && e2@ == resource_context(e@, resource_type@),
            },
    {
        match self {
            Ok(v) => Ok(v),
            Err(e) => Err(match e {
                VibeError::ResourceNotFound(m) => VibeError::ResourceNotFound(tag(m, "resource", resource_type)),
                other => VibeError::ResourceNotFound(tag(other.to_string(), "resource", resource_type)),
            }),
        }
    }
}

} // verus!
