//! Plugins: their metadata, their lifecycle state, and the records that the
//! plugin manager keeps of them.

use vstd::prelude::*;

verus! {

/// The texts of a sequence of strings.
pub open spec fn texts(v: Seq<String>) -> Seq<Seq<char>> {
    v.map_values(|s: String| s@)
}

/// Whether the text `t` is among the texts of `v`.
pub open spec fn has_text(v: Seq<String>, t: Seq<char>) -> bool {
    exists|i: int| 0 <= i < v.len() && #[trigger] v[i]@ == t
}

/// The lifecycle state of a plugin.
#[derive(Debug, Clone, Copy, PartialEq, Eq, Structural)]
pub enum PluginState {
    Loaded,
    Initializing,
    Running,
    Stopped,
    Failed,
}

/// What a plugin says about itself.
#[derive(Debug)]
pub struct PluginMetadata {
    pub name: String,
    pub version: String,
    pub description: String,
    pub author: String,
    pub dependencies: Vec<String>,
}

/// The mathematical value of [`PluginMetadata`].
pub struct MetadataView {
    pub name: Seq<char>,
    pub version: Seq<char>,
    pub description: Seq<char>,
    pub author: Seq<char>,
    pub dependencies: Seq<Seq<char>>,
}

impl View for PluginMetadata {
    type V = MetadataView;

    open spec fn view(&self) -> MetadataView {
        MetadataView {
            name: self.name@,
            version: self.version@,
            description: self.description@,
            author: self.author@,
            dependencies: texts(self.dependencies@),
        }
    }
}

/// A copy of a vector of strings.
pub fn clone_strings(v: &Vec<String>) -> (r: Vec<String>)
    ensures
        texts(r@) == texts(v@),
{
    let mut r: Vec<String> = Vec::new();
    let mut i: usize = 0;
    while i < v.len()
        invariant
            i <= v.len(),
            texts(r@) == texts(v@.subrange(0, i as int)),
        decreases v.len() - i,
    {
        let ghost before = r@;
        r.push(v[i].clone());
        assert(v@.subrange(0, i + 1) == v@.subrange(0, i as int).push(v@[i as int]));
        assert(texts(r@) =~= texts(before).push(v@[i as int]@));
        assert(texts(v@.subrange(0, i + 1)) =~= texts(v@.subrange(0, i as int)).push(v@[i as int]@));
        i = i + 1;
    }
    assert(v@.subrange(0, v.len() as int) == v@);
    r
}

impl PluginMetadata {
    /// Metadata with the given name and version and nothing else.
    pub fn new(name: &str, version: &str) -> (m: Self)
        ensures
            m@ == (MetadataView {
                name: name@,
                version: version@,
                description: Seq::empty(),
                author: Seq::empty(),
                dependencies: Seq::empty(),
            }),
    {
        let m = PluginMetadata {
            name: name.to_string(),
            version: version.to_string(),
            description: String::new(),
            author: String::new(),
            dependencies: Vec::new(),
        };
        assert(texts(m.dependencies@) == Seq::<Seq<char>>::empty());
        m
    }

    /// The same metadata with its description replaced.
    pub fn with_description(self, desc: &str) -> (m: Self)
        ensures
            m@ == (MetadataView { description: desc@, ..self@ }),
    {
        let mut m = self;
        m.description = desc.to_string();
        m
    }

    /// The same metadata with its author replaced.
    pub fn with_author(self, author: &str) -> (m: Self)
        ensures
            m@ == (MetadataView { author: author@, ..self@ }),
    {
        let mut m = self;
        m.author = author.to_string();
        m
    }

    /// The same metadata with one more dependency at the end.
    pub fn with_dependency(self, dep: &str) -> (m: Self)
        ensures
            m@ == (MetadataView { dependencies: self@.dependencies.push(dep@), ..self@ }),
    {
        let mut m = self;
        let ghost before = m.dependencies@;
        m.dependencies.push(dep.to_string());
        assert(texts(m.dependencies@) == texts(before).push(dep@));
        m
    }

    /// The same metadata with the given dependencies appended, in order.
    pub fn with_dependencies(self, deps: Vec<&str>) -> (m: Self)
        ensures
            m@ == (MetadataView {
                dependencies: self@.dependencies + deps@.map_values(|d: &str| d@),
                ..self@
            }),
    {
        let mut m = self;
        let ghost start = texts(m.dependencies@);
        let mut i: usize = 0;
        while i < deps.len()
            invariant
                i <= deps.len(),
                m.name == self.name,
                m.version == self.version,
                m.description == self.description,
                m.author == self.author,
                start == texts(self.dependencies@),
                texts(m.dependencies@) == start + deps@.subrange(0, i as int).map_values(|d: &str| d@),
            decreases deps.len() - i,
        {
            let ghost before = m.dependencies@;
            m.dependencies.push(deps[i].to_string());
            assert(texts(m.dependencies@) == texts(before).push(deps@[i as int]@));
            assert(deps@.subrange(0, i + 1).map_values(|d: &str| d@)
                == deps@.subrange(0, i as int).map_values(|d: &str| d@).push(deps@[i as int]@));
            i = i + 1;
        }
        assert(deps@.subrange(0, deps.len() as int) == deps@);
        m
    }
}

impl Clone for PluginMetadata {
    /// A copy of this metadata.
    fn clone(&self) -> (m: Self)
        ensures
            m@ == self@,
    {
        PluginMetadata {
            name: self.name.clone(),
            version: self.version.clone(),
            description: self.description.clone(),
            author: self.author.clone(),
            dependencies: clone_strings(&self.dependencies),
        }
    }
}

/// A plugin made of metadata and a function that it runs when it is loaded.
pub struct FunctionPlugin<F> {
    metadata: PluginMetadata,
    func: F,
}

impl<F> FunctionPlugin<F> {
    pub fn new(metadata: PluginMetadata, func: F) -> (p: Self)
        ensures
            p.metadata() == metadata,
            p.func() == func,
    {
        FunctionPlugin { metadata, func }
    }

    pub closed spec fn metadata(&self) -> PluginMetadata {
        self.metadata
    }

    pub closed spec fn func(&self) -> F {
        self.func
    }

    /// The plugin's metadata.
    pub fn metadata_ref(&self) -> (m: &PluginMetadata)
        ensures
            *m == self.metadata(),
    {
        &self.metadata
    }

    /// The function that the plugin runs when it is loaded.
    pub fn func_ref(&self) -> (f: &F)
        ensures
            *f == self.func(),
    {
        &self.func
    }
}

/// A plugin together with its metadata and its current state.
pub struct PluginInstance<P> {
    pub plugin: P,
    pub metadata: PluginMetadata,
    pub state: PluginState,
}

impl<P> PluginInstance<P> {
    /// A freshly loaded instance; `metadata` is what the plugin reports of
    /// itself.
    pub fn new(plugin: P, metadata: PluginMetadata) -> (i: Self)
        ensures
            i.plugin == plugin,
            i.metadata == metadata,
            i.state == PluginState::Loaded,
    {
        PluginInstance { plugin, metadata, state: PluginState::Loaded }
    }

    pub fn name(&self) -> (n: &str)
        ensures
            n@ == self.metadata.name@,
    {
        self.metadata.name.as_str()
    }

    pub fn is_running(&self) -> (b: bool)
        ensures
            b == (self.state == PluginState::Running),
    {
        self.state == PluginState::Running
    }

    /// The instance's name and state.
    pub fn to_meta(&self) -> (r: (String, PluginState))
        ensures
            r.0@ == self.metadata.name@,
            r.1 == self.state,
    {
        (self.metadata.name.clone(), self.state)
    }
}

/// Whether every text of `deps` is among the texts of `available`.
pub open spec fn all_present(deps: Seq<String>, available: Seq<String>) -> bool {
    forall|i: int| 0 <= i < deps.len() ==> has_text(available, #[trigger] deps[i]@)
}

/// Whether some element of `v` has the text of `s`.
pub fn contains_text(v: &[String], s: &String) -> (b: bool)
    ensures
        b == has_text(v@, s@),
{
    let mut i: usize = 0;
    while i < v.len()
        invariant
            i <= v.len(),
            forall|j: int| 0 <= j < i ==> v@[j]@ != s@,
        decreases v.len() - i,
    {
        if v[i] == *s {
            return true;
        }
        i = i + 1;
    }
    false
}

/// A plugin instance together with the names of the plugins it depends on.
pub struct LifecyclePlugin<P> {
    pub instance: PluginInstance<P>,
    pub dependencies: Vec<String>,
    pub ready: bool,
}

impl<P> LifecyclePlugin<P> {
    pub fn new(plugin: P, metadata: PluginMetadata, dependencies: Vec<String>) -> (l: Self)
        ensures
            l.instance.plugin == plugin,
            l.instance.metadata == metadata,
            l.instance.state == PluginState::Loaded,
            l.dependencies == dependencies,
            !l.ready,
    {
        LifecyclePlugin { instance: PluginInstance::new(plugin, metadata), dependencies, ready: false }
    }

    /// Whether every dependency is among `loaded_plugins`.
    pub fn check_dependencies(&self, loaded_plugins: &[String]) -> (b: bool)
        ensures
            b == all_present(self.dependencies@, loaded_plugins@),
    {
        let mut i: usize = 0;
        while i < self.dependencies.len()
            invariant
                i <= self.dependencies.len(),
                all_present(self.dependencies@.subrange(0, i as int), loaded_plugins@),
            decreases self.dependencies.len() - i,
        {
            if !contains_text(loaded_plugins, &self.dependencies[i]) {
                assert(!all_present(self.dependencies@, loaded_plugins@)) by {
                    assert(self.dependencies@[i as int]@ == self.dependencies[i as int]@);
                }
                return false;
            }
            assert forall|j: int| 0 <= j < i + 1 implies has_text(
                loaded_plugins@,
                #[trigger] self.dependencies@.subrange(0, i + 1)[j]@,
            ) by {
                if j < i {
                    assert(self.dependencies@.subrange(0, i as int)[j] == self.dependencies@[j]);
                }
            }
            i = i + 1;
        }
        assert(self.dependencies@.subrange(0, self.dependencies.len() as int) == self.dependencies@);
        true
    }
}

} // verus!
