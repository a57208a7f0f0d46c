//! The plugin manager: which plugins are loaded, in which order they start,
//! and what becomes of each plugin's state as it is loaded, started and
//! stopped.
//!
//! The calls into the plugins themselves (`load`, `start`, `stop`) are made
//! by the caller, which hands their outcome back as a [`CallOutcome`].

use vstd::prelude::*;
use std::time::Duration;
use crate::error::{ErrorView, Result, VibeError};
use crate::plugin::{texts, LifecyclePlugin, MetadataView, PluginMetadata, PluginState};

verus! {

/// The order in which `start_all` walks the plugins.
#[derive(Debug, Clone, Copy, PartialEq, Eq, Structural)]
pub enum PluginLoadOrder {
    Sequential,
    Parallel,
    DependencyFirst,
}

impl Default for PluginLoadOrder {
    fn default() -> (o: Self)
        ensures
            o == PluginLoadOrder::DependencyFirst,
    {
        PluginLoadOrder::DependencyFirst
    }
}

/// The duration that `Duration::from_secs` gives for a number of seconds.
pub uninterp spec fn duration_of_secs(secs: u64) -> Duration;

/// `std::time::Duration::from_secs` is a pure function of its argument; its
/// result is named by `duration_of_secs`.
pub assume_specification[ Duration::from_secs ](secs: u64) -> (d: Duration)
    ensures
        d == duration_of_secs(secs),
;

/// How the plugin manager treats its plugins.
#[derive(Debug, Clone, Copy)]
pub struct PluginManagerConfig {
    pub timeout: Duration,
    pub load_order: PluginLoadOrder,
    pub enable_dependency_check: bool,
    pub continue_on_failure: bool,
    pub max_retries: u32,
}

impl Default for PluginManagerConfig {
    fn default() -> (c: Self)
        ensures
            c.timeout == duration_of_secs(30),
            c.load_order == PluginLoadOrder::DependencyFirst,
            c.enable_dependency_check,
            !c.continue_on_failure,
            c.max_retries == 3,
    {
        PluginManagerConfig {
            timeout: Duration::from_secs(30),
            load_order: PluginLoadOrder::DependencyFirst,
            enable_dependency_check: true,
            continue_on_failure: false,
            max_retries: 3,
        }
    }
}

impl PluginManagerConfig {
    /// The default configuration.
    pub fn new() -> (c: Self)
        ensures
            c.timeout == duration_of_secs(30),
            c.load_order == PluginLoadOrder::DependencyFirst,
            c.enable_dependency_check,
            !c.continue_on_failure,
            c.max_retries == 3,
    {
        Self::default()
    }

    pub fn with_timeout(self, timeout: Duration) -> (c: Self)
        ensures
            c == (PluginManagerConfig { timeout, ..self }),
    {
        let mut c = self;
        c.timeout = timeout;
        c
    }

    pub fn with_load_order(self, order: PluginLoadOrder) -> (c: Self)
        ensures
            c == (PluginManagerConfig { load_order: order, ..self }),
    {
        let mut c = self;
        c.load_order = order;
        c
    }

    pub fn enable_dependency_check(self, enable: bool) -> (c: Self)
        ensures
            c == (PluginManagerConfig { enable_dependency_check: enable, ..self }),
    {
        let mut c = self;
        c.enable_dependency_check = enable;
        c
    }

    pub fn continue_on_failure(self, continue_on_failure: bool) -> (c: Self)
        ensures
            c == (PluginManagerConfig { continue_on_failure, ..self }),
    {
        let mut c = self;
        c.continue_on_failure = continue_on_failure;
        c
    }

    pub fn with_max_retries(self, retries: u32) -> (c: Self)
        ensures
            c == (PluginManagerConfig { max_retries: retries, ..self }),
    {
        let mut c = self;
        c.max_retries = retries;
        c
    }
}

/// What the manager knows of its plugins, in the order in which they were
/// added.
#[verifier::ext_equal]
pub struct ManagerView {
    pub metadata: Seq<MetadataView>,
    pub dependencies: Seq<Seq<Seq<char>>>,
    pub states: Seq<PluginState>,
    pub startup_order: Seq<Seq<char>>,
    pub started: bool,
}

impl ManagerView {
    pub open spec fn len(self) -> nat {
        self.metadata.len()
    }

    pub open spec fn name(self, i: int) -> Seq<char> {
        self.metadata[i].name
    }

    pub open spec fn names(self) -> Seq<Seq<char>> {
        self.metadata.map_values(|m: MetadataView| m.name)
    }

    /// Whether a plugin named `name` is loaded.
    pub open spec fn has(self, name: Seq<char>) -> bool {
        exists|i: int| 0 <= i < self.len() && #[trigger] self.name(i) == name
    }

    /// The plugins' names are distinct, and every plugin has its
    /// dependencies and its state.
    pub open spec fn wf(self) -> bool {
        &&& self.dependencies.len() == self.len()
        &&& self.states.len() == self.len()
        &&& forall|i: int, j: int|
            0 <= i < self.len() && 0 <= j < self.len() && i != j ==> #[trigger] self.name(i)
                != #[trigger] self.name(j)
    }

    /// Whether the dependency `d` is the name of one of the plugins `s[0..k]`.
    pub open spec fn named_before(self, s: Seq<int>, k: int, d: Seq<char>) -> bool {
        exists|j: int| 0 <= j < k && #[trigger] self.name(s[j]) == d
    }

    /// `s` lists plugins (by position) so that each plugin's dependencies are
    /// the names of plugins listed before it.
    pub open spec fn is_resolution(self, s: Seq<int>) -> bool {
        &&& forall|k: int| 0 <= k < s.len() ==> 0 <= #[trigger] s[k] < self.len()
        &&& forall|k: int, d: int|
            0 <= k < s.len() && 0 <= d < self.dependencies[s[k]].len() ==> self.named_before(
                s,
                k,
                #[trigger] self.dependencies[s[k]][d],
            )
    }

    /// The plugin at position `i` can be started after plugins that it
    /// depends on, all the way down: some resolution lists it.
    pub open spec fn resolvable(self, i: int) -> bool {
        exists|s: Seq<int>| self.is_resolution(s) && #[trigger] s.contains(i)
    }

    /// `order` names every plugin exactly once, each after the plugins it
    /// depends on.
    pub open spec fn is_startup_order(self, order: Seq<Seq<char>>) -> bool {
        &&& order.len() == self.len()
        &&& order.no_duplicates()
        &&& forall|k: int| 0 <= k < order.len() ==> self.names().contains(#[trigger] order[k])
        &&& forall|i: int| 0 <= i < self.len() ==> order.contains(#[trigger] self.name(i))
        &&& forall|k: int, i: int, d: int|
            0 <= k < order.len() && 0 <= i < self.len() && self.name(i) == order[k] && 0 <= d
                < self.dependencies[i].len() ==> #[trigger] order.subrange(0, k).contains(
                #[trigger] self.dependencies[i][d],
            )
    }

    /// Some order starts every plugin after the plugins it depends on.
    pub open spec fn has_startup_order(self) -> bool {
        exists|order: Seq<Seq<char>>| self.is_startup_order(order)
    }

    /// The position of the plugin named `name` (meaningful when it is loaded).
    pub open spec fn position(self, name: Seq<char>) -> int {
        choose|i: int| 0 <= i < self.len() && self.name(i) == name
    }

    /// The state of the plugin named `name` (meaningful when it is loaded).
    pub open spec fn state_of(self, name: Seq<char>) -> PluginState {
        self.states[self.position(name)]
    }

    /// The same view with the state of the plugin at position `i` replaced.
    pub open spec fn with_state(self, i: int, st: PluginState) -> ManagerView {
        ManagerView { states: self.states.update(i, st), ..self }
    }

    /// The view after recording a plugin: it replaces the plugin of the same
    /// name where there is one, and is added at the end otherwise.
    pub open spec fn with_plugin(
        self,
        m: MetadataView,
        deps: Seq<Seq<char>>,
        st: PluginState,
    ) -> ManagerView {
        if self.has(m.name) {
            let i = self.position(m.name);
            ManagerView {
                metadata: self.metadata.update(i, m),
                dependencies: self.dependencies.update(i, deps),
                states: self.states.update(i, st),
                ..self
            }
        } else {
            ManagerView {
                metadata: self.metadata.push(m),
                dependencies: self.dependencies.push(deps),
                states: self.states.push(st),
                ..self
            }
        }
    }

    /// `u` lists, in ascending position, exactly the plugins that cannot be
    /// resolved.
    pub open spec fn lists_unresolvable(self, u: Seq<int>) -> bool {
        &&& forall|a: int, b: int| 0 <= a < b < u.len() ==> u[a] < u[b]
        &&& forall|k: int| 0 <= k < u.len() ==> 0 <= #[trigger] u[k] < self.len()
        &&& forall|i: int| 0 <= i < self.len() ==> (u.contains(i) <==> !self.resolvable(i))
    }
}

/// Positions as mathematical integers.
pub open spec fn as_ints(v: Seq<usize>) -> Seq<int> {
    v.map_values(|x: usize| x as int)
}

impl ManagerView {
    /// No plugin outside `r` has all of its dependencies among the names of
    /// the plugins in `r`.
    pub open spec fn closed_under(self, r: Seq<int>) -> bool {
        forall|i: int| 0 <= i < self.len() && !r.contains(i) ==> #[trigger] self.blocked(r, i)
    }

    /// Some dependency of the plugin at position `i` is not the name of a
    /// plugin in `r`.
    pub open spec fn blocked(self, r: Seq<int>, i: int) -> bool {
        exists|d: int|
            0 <= d < self.dependencies[i].len() && !#[trigger] self.named_before(
                r,
                r.len() as int,
                self.dependencies[i][d],
            )
    }
}

/// Well-formedness depends only on the plugins' names and on how many
/// dependency lists and states there are.
proof fn lemma_wf_same_names(a: ManagerView, b: ManagerView)
    requires
        a.wf(),
        b.len() == a.len(),
        b.dependencies.len() == a.dependencies.len(),
        b.states.len() == a.states.len(),
        forall|i: int| 0 <= i < a.len() ==> #[trigger] b.name(i) == a.name(i),
    ensures
        b.wf(),
{
    assert forall|i: int, j: int|
        0 <= i < b.len() && 0 <= j < b.len() && i != j implies #[trigger] b.name(i) != #[trigger] b.name(j) by {
        assert(a.name(i) != a.name(j));
    }
}

/// In a well-formed view, a plugin's name leads back to its position.
proof fn lemma_position(v: ManagerView, i: int)
    requires
        v.wf(),
        0 <= i < v.len(),
    ensures
        v.has(v.name(i)),
        v.position(v.name(i)) == i,
{
    assert(v.has(v.name(i)));
    let j = v.position(v.name(i));
    assert(v.name(j) == v.name(i));
}

/// A resolution stays one when a plugin whose dependencies are all named in
/// it is appended.
proof fn lemma_resolution_push(v: ManagerView, s: Seq<int>, x: int)
    requires
        v.wf(),
        v.is_resolution(s),
        0 <= x < v.len(),
        forall|d: int|
            0 <= d < v.dependencies[x].len() ==> v.named_before(
                s,
                s.len() as int,
                #[trigger] v.dependencies[x][d],
            ),
    ensures
        v.is_resolution(s.push(x)),
{
    let t = s.push(x);
    assert forall|k: int, d: int|
        0 <= k < t.len() && 0 <= d < v.dependencies[t[k]].len() implies v.named_before(
        t,
        k,
        #[trigger] v.dependencies[t[k]][d],
    ) by {
        if k < s.len() {
            assert(v.named_before(s, k, v.dependencies[s[k]][d]));
            let j = choose|j: int| 0 <= j < k && #[trigger] v.name(s[j]) == v.dependencies[s[k]][d];
            assert(t[j] == s[j]);
        } else {
            assert(v.named_before(s, s.len() as int, v.dependencies[x][d]));
            let j = choose|j: int|
                0 <= j < s.len() && #[trigger] v.name(s[j]) == v.dependencies[x][d];
            assert(t[j] == s[j]);
        }
    }
}

/// When `r` is closed, every plugin that a resolution lists is in `r`.
proof fn lemma_closed_covers(v: ManagerView, r: Seq<int>, s: Seq<int>, k: int)
    requires
        v.wf(),
        v.closed_under(r),
        v.is_resolution(s),
        0 <= k < s.len(),
    ensures
        r.contains(s[k]),
    decreases k,
{
    if !r.contains(s[k]) {
        let i = s[k];
        assert(0 <= i < v.len());
        assert(v.blocked(r, i));
        let d = choose|d: int|
            0 <= d < v.dependencies[i].len() && !#[trigger] v.named_before(
                r,
                r.len() as int,
                v.dependencies[i][d],
            );
        let dep = v.dependencies[i][d];
        assert(v.named_before(s, k, v.dependencies[s[k]][d]));
        let j = choose|j: int| 0 <= j < k && #[trigger] v.name(s[j]) == dep;
        lemma_closed_covers(v, r, s, j);
        let m = choose|m: int| 0 <= m < r.len() && r[m] == s[j];
        assert(v.name(r[m]) == dep);
        assert(v.named_before(r, r.len() as int, dep));
    }
}

/// A closed resolution decides which plugins are resolvable: exactly those it
/// lists.
proof fn lemma_closed_resolvable(v: ManagerView, r: Seq<int>, i: int)
    requires
        v.wf(),
        v.closed_under(r),
        v.is_resolution(r),
        0 <= i < v.len(),
    ensures
        r.contains(i) <==> v.resolvable(i),
{
    if r.contains(i) {
        assert(v.is_resolution(r) && r.contains(i));
    }
    if v.resolvable(i) {
        let s = choose|s: Seq<int>| v.is_resolution(s) && #[trigger] s.contains(i);
        let k = choose|k: int| 0 <= k < s.len() && s[k] == i;
        lemma_closed_covers(v, r, s, k);
    }
}

/// A startup order gives a resolution: the positions of the plugins it names.
proof fn lemma_order_resolution(v: ManagerView, order: Seq<Seq<char>>) -> (s: Seq<int>)
    requires
        v.wf(),
        v.is_startup_order(order),
    ensures
        v.is_resolution(s),
        s.len() == order.len(),
        forall|k: int| 0 <= k < s.len() ==> v.name(#[trigger] s[k]) == order[k],
{
    let s = Seq::new(
        order.len(),
        |k: int| choose|i: int| 0 <= i < v.len() && v.name(i) == order[k],
    );
    assert forall|k: int| 0 <= k < s.len() implies 0 <= #[trigger] s[k] < v.len() && v.name(s[k])
        == order[k] by {
        assert(v.names().contains(order[k]));
        let i = choose|i: int| 0 <= i < v.names().len() && v.names()[i] == order[k];
        assert(v.name(i) == order[k]);
    }
    assert forall|k: int, d: int|
        0 <= k < s.len() && 0 <= d < v.dependencies[s[k]].len() implies v.named_before(
        s,
        k,
        #[trigger] v.dependencies[s[k]][d],
    ) by {
        let dep = v.dependencies[s[k]][d];
        assert(order.subrange(0, k).contains(dep));
        let j = choose|j: int| 0 <= j < k && order.subrange(0, k)[j] == dep;
        assert(v.name(s[j]) == order[j]);
    }
    s
}

/// Membership in the positions taken as integers.
proof fn lemma_as_ints_contains(v: Seq<usize>, x: int)
    ensures
        as_ints(v).contains(x) <==> (0 <= x <= usize::MAX && v.contains(x as usize)),
{
    if as_ints(v).contains(x) {
        let m = choose|m: int| 0 <= m < v.len() && as_ints(v)[m] == x;
        assert(v[m] == x as usize);
    }
    if 0 <= x <= usize::MAX && v.contains(x as usize) {
        let m = choose|m: int| 0 <= m < v.len() && v[m] == x as usize;
        assert(as_ints(v)[m] == x);
    }
}

/// After one round, the positions still waiting are exactly those not yet
/// resolved.
proof fn lemma_round_partition(
    n: int,
    start: Seq<usize>,
    round: Seq<usize>,
    resolved: Seq<usize>,
    remaining: Seq<usize>,
)
    requires
        forall|x: usize| x < n ==> (round.contains(x) <==> !start.contains(x)),
        forall|k: int| 0 <= k < round.len() ==> round[k] < n,
        resolved.len() >= start.len(),
        resolved.subrange(0, start.len() as int) == start,
        forall|a: int| start.len() <= a < resolved.len() ==> round.contains(#[trigger] resolved[a]),
        forall|a: int| 0 <= a < remaining.len() ==> round.contains(#[trigger] remaining[a]),
        forall|k: int|
            0 <= k < round.len() ==> (remaining.contains(#[trigger] round[k]) <==> !resolved.subrange(
                start.len() as int,
                resolved.len() as int,
            ).contains(round[k])),
    ensures
        forall|x: usize| x < n ==> (remaining.contains(x) <==> !resolved.contains(x)),
{
    let part = resolved.subrange(start.len() as int, resolved.len() as int);
    assert forall|x: usize| x < n implies (remaining.contains(x) <==> !resolved.contains(x)) by {
        if remaining.contains(x) {
            let a = choose|a: int| 0 <= a < remaining.len() && remaining[a] == x;
            assert(round.contains(remaining[a]));
            assert(round.contains(x));
            assert(!start.contains(x));
            assert(!part.contains(x));
            if resolved.contains(x) {
                let m = choose|m: int| 0 <= m < resolved.len() && resolved[m] == x;
                if m < start.len() {
                    assert(resolved.subrange(0, start.len() as int)[m] == x);
                } else {
                    assert(part[m - start.len()] == x);
                }
            }
        } else {
            if !resolved.contains(x) {
                assert(!start.contains(x)) by {
                    if start.contains(x) {
                        let m = choose|m: int| 0 <= m < start.len() && start[m] == x;
                        assert(resolved.subrange(0, start.len() as int)[m] == x);
                        assert(resolved[m] == x);
                    }
                }
                let k = choose|k: int| 0 <= k < round.len() && round[k] == x;
                assert(!part.contains(x)) by {
                    if part.contains(x) {
                        let m = choose|m: int| 0 <= m < part.len() && part[m] == x;
                        assert(resolved[start.len() + m] == x);
                    }
                }
                assert(remaining.contains(round[k]));
            }
        }
    }
}

/// The text that `{:?}` gives for a list of strings.
pub uninterp spec fn debug_text_of_strings(items: Seq<Seq<char>>) -> Seq<char>;

/// Renders a list of strings as `format!("{:?}", ..)` does.
#[verifier::external_body]
fn debug_strings(items: &Vec<String>) -> (s: String)
    ensures
        s@ == debug_text_of_strings(texts(items@)),
{
    format!("{:?}", items)
}

/// How a call into a plugin (`load`, `start` or `stop`) ended.
pub enum CallOutcome {
    /// The call returned `Ok`.
    Completed,
    /// The call returned this error.
    Failed(VibeError),
    /// The call did not finish within the configured timeout.
    TimedOut,
}

/// The text that `{:?}` gives for a duration (such as `30s` or `1.5ms`).
pub uninterp spec fn debug_text_of_duration(d: Duration) -> Seq<char>;

/// Renders a duration as `format!("{:?}", ..)` does; the text depends on the
/// duration alone.
#[verifier::external_body]
pub(crate) fn duration_text(d: &Duration) -> (s: String)
    ensures
        s@ == debug_text_of_duration(*d),
{
    format!("{:?}", d)
}

/// `a`, then `b`, then `c`, as a new string.
fn join3(a: &str, b: &str, c: &str) -> (s: String)
    ensures
        s@ == a@ + b@ + c@,
{
    let mut s = String::from_str(a);
    s.append(b);
    s.append(c);
    s
}

/// `a`, then `b`, then `c`, then `d`, as a new string.
fn join4(a: &str, b: &str, c: &str, d: &str) -> (s: String)
    ensures
        s@ == a@ + b@ + c@ + d@,
{
    let mut s = String::from_str(a);
    s.append(b);
    s.append(c);
    s.append(d);
    s
}

/// The plugin manager's record of its plugins.
pub struct PluginManager<P> {
    plugins: Vec<LifecyclePlugin<P>>,
    startup_order: Vec<String>,
    config: PluginManagerConfig,
    is_started: bool,
}

impl<P> View for PluginManager<P> {
    type V = ManagerView;

    closed spec fn view(&self) -> ManagerView {
        ManagerView {
            metadata: self.plugins@.map_values(|p: LifecyclePlugin<P>| p.instance.metadata@),
            dependencies: self.plugins@.map_values(|p: LifecyclePlugin<P>| texts(p.dependencies@)),
            states: self.plugins@.map_values(|p: LifecyclePlugin<P>| p.instance.state),
            startup_order: texts(self.startup_order@),
            started: self.is_started,
        }
    }
}

impl<P> PluginManager<P> {
    pub closed spec fn wf(&self) -> bool {
        self@.wf()
    }

    /// No two loaded plugins share a name, and each has its dependencies
    /// and its state: every operation that keeps the manager well formed
    /// keeps this.
    pub proof fn lemma_distinct_names(&self)
        requires
            self.wf(),
        ensures
            self@.wf(),
    {
    }

    pub closed spec fn spec_config(&self) -> PluginManagerConfig {
        self.config
    }

    /// The plugin objects, in the order in which they were added.
    pub closed spec fn objects(&self) -> Seq<P> {
        self.plugins@.map_values(|p: LifecyclePlugin<P>| p.instance.plugin)
    }

    /// The names of the plugins at the positions `positions`, in that order.
    fn names_at(&self, positions: &Vec<usize>) -> (v: Vec<String>)
        requires
            forall|k: int| 0 <= k < positions.len() ==> positions@[k] < self@.len(),
        ensures
            texts(v@) == as_ints(positions@).map_values(|i: int| self@.name(i)),
    {
        let mut v: Vec<String> = Vec::new();
        let mut k: usize = 0;
        while k < positions.len()
            invariant
                k <= positions.len(),
                forall|m: int| 0 <= m < positions.len() ==> positions@[m] < self@.len(),
                texts(v@) == as_ints(positions@.subrange(0, k as int)).map_values(
                    |i: int| self@.name(i),
                ),
            decreases positions.len() - k,
        {
            let ghost before = v@;
            let p = positions[k];
            assert(self@.name(p as int) == self.plugins@[p as int].instance.metadata.name@);
            v.push(self.plugins[p].instance.metadata.name.clone());
            assert(texts(v@) =~= texts(before).push(self@.name(p as int)));
            assert(as_ints(positions@.subrange(0, k + 1)).map_values(|i: int| self@.name(i))
                =~= as_ints(positions@.subrange(0, k as int)).map_values(|i: int| self@.name(i)).push(
                self@.name(p as int),
            ));
            k = k + 1;
        }
        assert(positions@.subrange(0, positions.len() as int) == positions@);
        v
    }

    /// One pass over the plugins still waiting: each one whose dependencies
    /// are all resolved by now joins the resolved ones; the others are
    /// returned, in their order.
    fn resolve_round(&self, start_resolved: Vec<usize>, unresolved: &Vec<usize>) -> (r: (
        Vec<usize>,
        Vec<usize>,
    ))
        requires
            self.wf(),
            start_resolved.len() + unresolved.len() == self@.len(),
            forall|k: int| 0 <= k < start_resolved.len() ==> start_resolved@[k] < self@.len(),
            forall|k: int| 0 <= k < unresolved.len() ==> unresolved@[k] < self@.len(),
            forall|a: int, b: int|
                0 <= a < b < unresolved.len() ==> unresolved@[a] < unresolved@[b],
            forall|x: usize|
                x < self@.len() ==> (unresolved@.contains(x) <==> !start_resolved@.contains(x)),
            start_resolved@.no_duplicates(),
            self@.is_resolution(as_ints(start_resolved@)),
        ensures
            r.0.len() + r.1.len() == self@.len(),
            r.0.len() >= start_resolved.len(),
            forall|k: int| 0 <= k < r.0.len() ==> r.0@[k] < self@.len(),
            forall|k: int| 0 <= k < r.1.len() ==> r.1@[k] < self@.len(),
            forall|a: int, b: int| 0 <= a < b < r.1.len() ==> r.1@[a] < r.1@[b],
            forall|x: usize| x < self@.len() ==> (r.1@.contains(x) <==> !r.0@.contains(x)),
            r.0@.no_duplicates(),
            self@.is_resolution(as_ints(r.0@)),
            self@.closed_under(as_ints(start_resolved@)) ==> r.0.len() == start_resolved.len(),
            r.0.len() == start_resolved.len() ==> self@.closed_under(as_ints(r.0@)),
    {
        let ghost v = self@;
        let n = self.plugins.len();
        let mut resolved = start_resolved;
        let ghost start = resolved@;
        let ghost round = unresolved@;
        let mut remaining: Vec<usize> = Vec::new();
        let mut j: usize = 0;
        while j < unresolved.len()
            invariant
                self@ == v,
                v.wf(),
                n == v.len(),
                unresolved@ == round,
                j <= round.len(),
                start.len() + round.len() == n,
                forall|k: int| 0 <= k < start.len() ==> start[k] < n,
                forall|k: int| 0 <= k < round.len() ==> round[k] < n,
                forall|a: int, b: int| 0 <= a < b < round.len() ==> round[a] < round[b],
                forall|x: usize| x < n ==> (round.contains(x) <==> !start.contains(x)),
                start.no_duplicates(),
                resolved.len() >= start.len(),
                resolved@.subrange(0, start.len() as int) == start,
                (resolved.len() - start.len()) + remaining.len() == j,
                forall|k: int| 0 <= k < resolved.len() ==> resolved@[k] < n,
                forall|a: int|
                    start.len() <= a < resolved.len() ==> exists|k: int|
                        0 <= k < j && round[k] == #[trigger] resolved@[a],
                forall|a: int|
                    0 <= a < remaining.len() ==> exists|k: int|
                        0 <= k < j && round[k] == #[trigger] remaining@[a],
                forall|k: int|
                    0 <= k < j ==> (remaining@.contains(#[trigger] round[k]) <==> !resolved@.subrange(
                        start.len() as int,
                        resolved.len() as int,
                    ).contains(round[k])),
                forall|a: int, b: int| 0 <= a < b < remaining.len() ==> remaining@[a] < remaining@[b],
                resolved@.no_duplicates(),
                v.is_resolution(as_ints(resolved@)),
                v.closed_under(as_ints(start)) ==> resolved.len() == start.len(),
                forall|k: int|
                    0 <= k < j && resolved.len() == start.len() ==> #[trigger] v.blocked(
                        as_ints(start),
                        round[k] as int,
                    ),
            decreases round.len() - j,
        {
            let idx = unresolved[j];
            let ghost before_resolved = resolved@;
            let ghost before_remaining = remaining@;
            proof {
                assert(round[j as int] == idx);
                assert(round.contains(idx));
                assert(!start.contains(idx));
                assert forall|a: int| 0 <= a < before_resolved.len() implies before_resolved[a]
                    != idx by {
                    if a < start.len() {
                        assert(before_resolved.subrange(0, start.len() as int)[a]
                            == before_resolved[a]);
                        assert(start[a] == before_resolved[a]);
                    } else {
                        let k = choose|k: int| 0 <= k < j && round[k] == #[trigger] before_resolved[a];
                        assert(round[k] < round[j as int]);
                    }
                }
                assert forall|a: int| 0 <= a < before_remaining.len() implies before_remaining[a]
                    < idx by {
                    let k = choose|k: int| 0 <= k < j && round[k] == #[trigger] before_remaining[a];
                    assert(round[k] < round[j as int]);
                }
            }
            if self.deps_resolved(idx, &resolved) {
                proof {
                    lemma_resolution_push(v, as_ints(resolved@), idx as int);
                    assert(as_ints(resolved@.push(idx)) =~= as_ints(resolved@).push(idx as int));
                    if v.closed_under(as_ints(start)) {
                        assert(resolved@ =~= start);
                        lemma_as_ints_contains(start, idx as int);
                        assert(v.blocked(as_ints(start), idx as int));
                    }
                }
                resolved.push(idx);
                proof {
                    let newpart = resolved@.subrange(start.len() as int, resolved.len() as int);
                    let oldpart = before_resolved.subrange(
                        start.len() as int,
                        before_resolved.len() as int,
                    );
                    assert(newpart =~= oldpart.push(idx));
                    assert(resolved@.subrange(0, start.len() as int) =~= before_resolved.subrange(
                        0,
                        start.len() as int,
                    ));
                    assert forall|k: int| 0 <= k < j + 1 implies (remaining@.contains(
                        #[trigger] round[k],
                    ) <==> !newpart.contains(round[k])) by {
                        if k < j {
                            assert(round[k] < round[j as int]);
                            if oldpart.contains(round[k]) {
                                let m = choose|m: int| 0 <= m < oldpart.len() && oldpart[m] == round[k];
                                assert(newpart[m] == round[k]);
                            }
                            if newpart.contains(round[k]) {
                                let m = choose|m: int| 0 <= m < newpart.len() && newpart[m] == round[k];
                                assert(m < oldpart.len());
                                assert(oldpart[m] == round[k]);
                            }
                        } else {
                            assert(newpart[newpart.len() - 1] == idx);
                            assert(!remaining@.contains(idx));
                        }
                    }
                    assert forall|a: int| start.len() <= a < resolved.len() implies exists|k: int|
                        0 <= k < j + 1 && round[k] == #[trigger] resolved@[a] by {
                        if a < resolved.len() - 1 {
                            assert(resolved@[a] == before_resolved[a]);
                            let k = choose|k: int| 0 <= k < j && round[k] == #[trigger] before_resolved[a];
                        } else {
                            assert(round[j as int] == resolved@[a]);
                        }
                    }
                }
            } else {
                remaining.push(idx);
                proof {
                    let part = resolved@.subrange(start.len() as int, resolved.len() as int);
                    assert forall|k: int| 0 <= k < j + 1 implies (remaining@.contains(
                        #[trigger] round[k],
                    ) <==> !part.contains(round[k])) by {
                        if k < j {
                            assert(round[k] < round[j as int]);
                            if before_remaining.contains(round[k]) {
                                let m = choose|m: int|
                                    0 <= m < before_remaining.len() && before_remaining[m] == round[k];
                                assert(remaining@[m] == round[k]);
                            }
                            if remaining@.contains(round[k]) {
                                let m = choose|m: int|
                                    0 <= m < remaining@.len() && remaining@[m] == round[k];
                                assert(m < before_remaining.len());
                                assert(before_remaining[m] == round[k]);
                            }
                        } else {
                            assert(remaining@[remaining@.len() - 1] == idx);
                            if part.contains(idx) {
                                let m = choose|m: int| 0 <= m < part.len() && part[m] == idx;
                                assert(resolved@[start.len() + m] == idx);
                            }
                        }
                    }
                    assert forall|a: int| 0 <= a < remaining.len() implies exists|k: int|
                        0 <= k < j + 1 && round[k] == #[trigger] remaining@[a] by {
                        if a < remaining.len() - 1 {
                            assert(remaining@[a] == before_remaining[a]);
                            let k = choose|k: int|
                                0 <= k < j && round[k] == #[trigger] before_remaining[a];
                        } else {
                            assert(round[j as int] == remaining@[a]);
                        }
                    }
                    if resolved.len() == start.len() {
                        assert(resolved@ =~= start);
                        assert(v.blocked(as_ints(start), idx as int));
                        assert forall|k: int|
                            0 <= k < j + 1 && resolved.len() == start.len() implies #[trigger] v.blocked(
                            as_ints(start),
                            round[k] as int,
                        ) by {
                            if k == j {
                                assert(round[k] == idx);
                            }
                        }
                    }
                }
            }
            j = j + 1;
        }
        proof {
            let r2 = resolved@;
            assert forall|a: int| start.len() <= a < r2.len() implies round.contains(#[trigger] r2[a]) by {
                let k = choose|k: int| 0 <= k < j && round[k] == #[trigger] resolved@[a];
            }
            assert forall|a: int| 0 <= a < remaining.len() implies round.contains(#[trigger] remaining@[a]) by {
                let k = choose|k: int| 0 <= k < j && round[k] == #[trigger] remaining@[a];
            }
            lemma_round_partition(n as int, start, round, r2, remaining@);
            if resolved.len() == start.len() {
                assert(r2 =~= start);
                assert forall|x: int| 0 <= x < v.len() && !as_ints(r2).contains(x) implies #[trigger] v.blocked(
                    as_ints(r2),
                    x,
                ) by {
                    lemma_as_ints_contains(start, x);
                    assert(round.contains(x as usize));
                    let k = choose|k: int| 0 <= k < round.len() && round[k] == x as usize;
                    assert(round[k] as int == x);
                }
            }
        }
        (resolved, remaining)
    }

    /// Orders the plugins so that each comes after the plugins it depends on,
    /// and records that order as the startup order.
    ///
    /// Fails, naming the plugins that cannot be ordered, when no such order
    /// exists (a cycle, or a dependency that is not loaded).
    pub fn resolve_dependencies(&mut self) -> (r: Result<Vec<String>>)
        requires
            old(self).wf(),
        ensures
            final(self).wf(),
            final(self).objects() == old(self).objects(),
            final(self).spec_config() == old(self).spec_config(),
            r is Ok <==> old(self)@.has_startup_order(),
            match r {
                Ok(order) => {
                    &&& old(self)@.is_startup_order(texts(order@))
                    &&& final(self)@ == (ManagerView { startup_order: texts(order@), ..old(self)@ })
                },
                Err(e) => {
                    &&& final(self)@ == old(self)@
                    &&& exists|u: Seq<int>|
                        old(self)@.lists_unresolvable(u) && e@ == ErrorView::PluginInitError(
                            "Circular dependency detected: "@ + debug_text_of_strings(
                                u.map_values(|i: int| old(self)@.name(i)),
                            ),
                        )
                },
            },
    {
        let ghost v = self@;
        let n = self.plugins.len();
        let mut resolved: Vec<usize> = Vec::new();
        let mut unresolved: Vec<usize> = Vec::new();
        let mut i: usize = 0;
        while i < n
            invariant
                i <= n,
                unresolved.len() == i,
                forall|k: int| 0 <= k < i ==> unresolved@[k] == k,
            decreases n - i,
        {
            unresolved.push(i);
            i = i + 1;
        }
        assert forall|x: usize| x < n implies (unresolved@.contains(x) <==> !resolved@.contains(x)) by {
            assert(unresolved@[x as int] == x);
        }
        let max_attempts: usize = if n <= usize::MAX / 2 {
            n * 2
        } else {
            usize::MAX
        };
        let mut attempts: usize = 0;
        let ghost mut stuck = false;
        while unresolved.len() > 0 && attempts < max_attempts
            invariant
                self@ == v,
                v.wf(),
                n == v.len(),
                max_attempts >= n,
                attempts <= max_attempts,
                resolved.len() + unresolved.len() == n,
                forall|k: int| 0 <= k < resolved.len() ==> resolved@[k] < n,
                forall|k: int| 0 <= k < unresolved.len() ==> unresolved@[k] < n,
                forall|a: int, b: int|
                    0 <= a < b < unresolved.len() ==> unresolved@[a] < unresolved@[b],
                forall|x: usize| x < n ==> (unresolved@.contains(x) <==> !resolved@.contains(x)),
                resolved@.no_duplicates(),
                v.is_resolution(as_ints(resolved@)),
                stuck ==> v.closed_under(as_ints(resolved@)),
                !stuck ==> unresolved.len() + attempts <= n,
            decreases max_attempts - attempts,
        {
            attempts = attempts + 1;
            let ghost start = resolved@;
            let (next_resolved, remaining) = self.resolve_round(resolved, &unresolved);
            resolved = next_resolved;
            proof {
                stuck = resolved.len() == start.len();
            }
            unresolved = remaining;
        }
        if unresolved.len() > 0 {
            proof {
                assert(stuck);
                let r = as_ints(resolved@);
                assert forall|x: usize| x < n implies (unresolved@.contains(x) <==> !v.resolvable(x as int)) by {
                    lemma_closed_resolvable(v, r, x as int);
                    lemma_as_ints_contains(resolved@, x as int);
                }
                assert(!v.has_startup_order()) by {
                    if v.has_startup_order() {
                        let order = choose|order: Seq<Seq<char>>| v.is_startup_order(order);
                        let s = lemma_order_resolution(v, order);
                        let u0 = unresolved@[0];
                        assert(unresolved@.contains(u0));
                        assert(order.contains(v.name(u0 as int)));
                        let k = choose|k: int| 0 <= k < order.len() && order[k] == v.name(u0 as int);
                        assert(v.name(s[k]) == v.name(u0 as int));
                        assert(s[k] == u0 as int);
                        lemma_closed_covers(v, r, s, k);
                        lemma_as_ints_contains(resolved@, u0 as int);
                    }
                }
            }
            let stuck_names = self.names_at(&unresolved);
            let text = debug_strings(&stuck_names);
            let mut msg = String::from_str("Circular dependency detected: ");
            msg.append(text.as_str());
            proof {
                let u = as_ints(unresolved@);
                assert forall|x: int| 0 <= x < v.len() implies (u.contains(x) <==> !v.resolvable(x)) by {
                    lemma_as_ints_contains(unresolved@, x);
                }
                assert(v.lists_unresolvable(u)) by {
                    assert forall|a: int, b: int| 0 <= a < b < u.len() implies u[a] < u[b] by {
                        assert(unresolved@[a] < unresolved@[b]);
                    }
                }
            }
            return Err(VibeError::PluginInitError(msg));
        }
        let order = self.names_at(&resolved);
        proof {
            let r = as_ints(resolved@);
            let o = texts(order@);
            assert(o == r.map_values(|i: int| v.name(i)));
            assert forall|x: int| 0 <= x < n implies r.contains(x) by {
                assert(!unresolved@.contains(x as usize));
                lemma_as_ints_contains(resolved@, x);
            }
            assert(o.no_duplicates()) by {
                assert forall|a: int, b: int| 0 <= a < o.len() && 0 <= b < o.len() && a != b implies o[a] != o[b] by {
                    assert(resolved@[a] != resolved@[b]);
                    assert(o[a] == v.name(r[a]));
                    assert(o[b] == v.name(r[b]));
                }
            }
            assert forall|k: int| 0 <= k < o.len() implies v.names().contains(#[trigger] o[k]) by {
                assert(v.names()[r[k]] == o[k]);
            }
            assert forall|x: int| 0 <= x < v.len() implies o.contains(#[trigger] v.name(x)) by {
                assert(r.contains(x));
                let m = choose|m: int| 0 <= m < r.len() && r[m] == x;
                assert(o[m] == v.name(x));
            }
            assert forall|k: int, x: int, d: int|
                0 <= k < o.len() && 0 <= x < v.len() && v.name(x) == o[k] && 0 <= d
                    < v.dependencies[x].len() implies #[trigger] o.subrange(0, k).contains(
                #[trigger] v.dependencies[x][d],
            ) by {
                assert(v.name(r[k]) == o[k]);
                assert(r[k] == x);
                let dep = v.dependencies[x][d];
                assert(v.named_before(r, k, dep));
                let j = choose|j: int| 0 <= j < k && #[trigger] v.name(r[j]) == dep;
                assert(o.subrange(0, k)[j] == dep);
            }
            assert(v.is_startup_order(o));
        }
        self.startup_order = crate::plugin::clone_strings(&order);
        assert(self@ == (ManagerView { startup_order: texts(order@), ..v }));
        proof {
            lemma_wf_same_names(v, self@);
        }
        Ok(order)
    }

    /// A manager with no plugins and the default configuration.
    pub fn new() -> (m: Self)
        ensures
            m.wf(),
            m@.len() == 0,
            m@.startup_order.len() == 0,
            !m@.started,
            m.spec_config().timeout == duration_of_secs(30),
            m.spec_config().load_order == PluginLoadOrder::DependencyFirst,
            m.spec_config().enable_dependency_check,
            !m.spec_config().continue_on_failure,
            m.spec_config().max_retries == 3,
    {
        Self::with_config(PluginManagerConfig::default())
    }

    /// A manager with no plugins and the given configuration.
    pub fn with_config(config: PluginManagerConfig) -> (m: Self)
        ensures
            m.wf(),
            m@.len() == 0,
            m@.startup_order.len() == 0,
            !m@.started,
            m.spec_config() == config,
    {
        let m = PluginManager {
            plugins: Vec::new(),
            startup_order: Vec::new(),
            config,
            is_started: false,
        };
        assert(m@.metadata.len() == 0);
        m
    }

    /// The configuration.
    pub fn config(&self) -> (c: &PluginManagerConfig)
        ensures
            *c == self.spec_config(),
    {
        &self.config
    }

    /// Refuses a plugin whose name is already loaded; the first step of
    /// adding a plugin.
    pub fn check_duplicate(&self, name: &str) -> (r: Result<()>)
        requires
            self.wf(),
        ensures
            r is Ok <==> !self@.has(name@),
            r matches Err(e) ==> e@ == ErrorView::PluginLoadError(
                "Plugin "@ + name@ + " already exists"@,
            ),
    {
        if self.find(name).is_some() {
            Err(VibeError::PluginLoadError(join3("Plugin ", name, " already exists")))
        } else {
            Ok(())
        }
    }

    /// Records a plugin once its `load` call has ended: on success the
    /// plugin is kept (replacing one of the same name); otherwise nothing
    /// changes and the failure is reported.
    pub fn load_plugin(&mut self, lifecycle: LifecyclePlugin<P>, outcome: CallOutcome) -> (r: Result<()>)
        requires
            old(self).wf(),
        ensures
            final(self).wf(),
            final(self).spec_config() == old(self).spec_config(),
            ({
                let name = lifecycle.instance.metadata.name@;
                match outcome {
                    CallOutcome::Completed => {
                        &&& r is Ok
                        &&& final(self)@ =~= old(self)@.with_plugin(
                            lifecycle.instance.metadata@,
                            texts(lifecycle.dependencies@),
                            lifecycle.instance.state,
                        )
                        &&& final(self).objects() == (if old(self)@.has(name) {
                            old(self).objects().update(old(self)@.position(name), lifecycle.instance.plugin)
                        } else {
                            old(self).objects().push(lifecycle.instance.plugin)
                        })
                    },
                    CallOutcome::Failed(e) => {
                        &&& r matches Err(err) && err@ == ErrorView::PluginLoadError(
                            "Plugin "@ + name + " failed to load: "@ + e@.text(),
                        )
                        &&& final(self)@ == old(self)@
                        &&& final(self).objects() == old(self).objects()
                    },
                    CallOutcome::TimedOut => {
                        &&& r matches Err(err) && err@ == ErrorView::PluginLoadError(
                            "Plugin "@ + name + " load timeout after "@
                                + debug_text_of_duration(old(self).spec_config().timeout),
                        )
                        &&& final(self)@ == old(self)@
                        &&& final(self).objects() == old(self).objects()
                    },
                }
            }),
    {
        match outcome {
            CallOutcome::Completed => {
                let ghost v = self@;
                let ghost name = lifecycle.instance.metadata.name@;
                let found = self.find(lifecycle.instance.metadata.name.as_str());
                match found {
                    Some(i) => {
                        proof {
                            lemma_position(v, i as int);
                        }
                        self.plugins.set(i, lifecycle);
                        proof {
                            let w = v.with_plugin(
                                self.plugins@[i as int].instance.metadata@,
                                texts(self.plugins@[i as int].dependencies@),
                                self.plugins@[i as int].instance.state,
                            );
                            assert(self@ =~= w);
                            assert(self.objects() =~= old(self).objects().update(i as int, self.plugins@[i as int].instance.plugin));
                            assert forall|a: int, b: int|
                                0 <= a < self@.len() && 0 <= b < self@.len() && a != b implies #[trigger] self@.name(a)
                                != #[trigger] self@.name(b) by {
                                if a != i && b != i {
                                    assert(v.name(a) != v.name(b));
                                } else if a == i {
                                    assert(v.name(b) != v.name(i as int));
                                } else {
                                    assert(v.name(a) != v.name(i as int));
                                }
                            }
                        }
                    },
                    None => {
                        self.plugins.push(lifecycle);
                        proof {
                            assert(self@ =~= v.with_plugin(
                                self.plugins@[v.len() as int].instance.metadata@,
                                texts(self.plugins@[v.len() as int].dependencies@),
                                self.plugins@[v.len() as int].instance.state,
                            ));
                            assert(self.objects() =~= old(self).objects().push(self.plugins@[v.len() as int].instance.plugin));
                            assert forall|a: int, b: int|
                                0 <= a < self@.len() && 0 <= b < self@.len() && a != b implies #[trigger] self@.name(a)
                                != #[trigger] self@.name(b) by {
                                if a < v.len() && b < v.len() {
                                    assert(v.name(a) != v.name(b));
                                } else if a == v.len() {
                                    assert(v.name(b) != name);
                                } else {
                                    assert(v.name(a) != name);
                                }
                            }
                        }
                    },
                }
                Ok(())
            },
            CallOutcome::Failed(e) => {
                let text = e.to_string();
                let msg = join4(
                    "Plugin ",
                    lifecycle.instance.metadata.name.as_str(),
                    " failed to load: ",
                    text.as_str(),
                );
                Err(VibeError::PluginLoadError(msg))
            },
            CallOutcome::TimedOut => {
                let text = duration_text(&self.config.timeout);
                let msg = join4(
                    "Plugin ",
                    lifecycle.instance.metadata.name.as_str(),
                    " load timeout after ",
                    text.as_str(),
                );
                Err(VibeError::PluginLoadError(msg))
            },
        }
    }

    /// The first step of starting all plugins: refuses when they are already
    /// started, orders the plugins by their dependencies (recording that
    /// order), and returns the names of the plugins to start, in the order
    /// in which they are to be started: the dependency order for
    /// `DependencyFirst`, the order in which they were added otherwise.
    pub fn prepare_start_all(&mut self) -> (r: Result<Vec<String>>)
        requires
            old(self).wf(),
        ensures
            final(self).wf(),
            final(self).objects() == old(self).objects(),
            final(self).spec_config() == old(self).spec_config(),
            old(self)@.started ==> {
                &&& r matches Err(e) && e@ == ErrorView::RuntimeError("Plugins already started"@)
                &&& final(self)@ == old(self)@
            },
            !old(self)@.started ==> {
                &&& (r is Ok <==> old(self)@.has_startup_order())
                &&& r is Err ==> final(self)@ == old(self)@
                &&& r is Err ==> exists|u: Seq<int>|
                    old(self)@.lists_unresolvable(u) && r->Err_0@ == ErrorView::PluginInitError(
                        "Circular dependency detected: "@ + debug_text_of_strings(
                            u.map_values(|i: int| old(self)@.name(i)),
                        ),
                    )
                &&& r is Ok ==> old(self)@.is_startup_order(final(self)@.startup_order)
                &&& r is Ok ==> final(self)@ == (ManagerView {
                    startup_order: final(self)@.startup_order,
                    ..old(self)@
                })
                &&& r is Ok ==> texts(r->Ok_0@) == (if old(self).spec_config().load_order
                    == PluginLoadOrder::DependencyFirst {
                    final(self)@.startup_order
                } else {
                    old(self)@.names()
                })
            },
    {
        if self.is_started {
            return Err(VibeError::RuntimeError(String::from_str("Plugins already started")));
        }
        let order = self.resolve_dependencies()?;
        match self.config.load_order {
            PluginLoadOrder::DependencyFirst => Ok(order),
            _ => {
                let mut all: Vec<usize> = Vec::new();
                let mut i: usize = 0;
                while i < self.plugins.len()
                    invariant
                        i <= self.plugins.len(),
                        all.len() == i,
                        forall|k: int| 0 <= k < i ==> all@[k] == k,
                    decreases self.plugins.len() - i,
                {
                    all.push(i);
                    i = i + 1;
                }
                let names = self.names_at(&all);
                assert(as_ints(all@).map_values(|i: int| self@.name(i)) =~= self@.names());
                Ok(names)
            },
        }
    }

    /// Records how the `start` call of the plugin named `name` ended
    /// (`None`: no call was made, as there is no such plugin). A failed or
    /// timed-out start marks the plugin `Failed`; a successful one leaves
    /// its state as it was.
    pub fn record_start(&mut self, name: &str, outcome: Option<CallOutcome>) -> (r: Result<()>)
        requires
            old(self).wf(),
        ensures
            final(self).wf(),
            final(self).objects() == old(self).objects(),
            final(self).spec_config() == old(self).spec_config(),
            !old(self)@.has(name@) || outcome is None ==> {
                &&& r matches Err(e) && e@ == ErrorView::PluginNotFound(name@)
                &&& final(self)@ == old(self)@
            },
            old(self)@.has(name@) ==> (outcome matches Some(o) ==> match o {
                CallOutcome::Completed => r is Ok && final(self)@ == old(self)@,
                CallOutcome::Failed(e) => {
                    &&& r matches Err(err) && err@ == ErrorView::PluginInitError(
                        "Plugin "@ + name@ + " failed to start: "@ + e@.text(),
                    )
                    &&& final(self)@ == old(self)@.with_state(
                        old(self)@.position(name@),
                        PluginState::Failed,
                    )
                },
                CallOutcome::TimedOut => {
                    &&& r matches Err(err) && err@ == ErrorView::PluginInitError(
                        "Plugin "@ + name@ + " start timeout after "@
                            + debug_text_of_duration(old(self).spec_config().timeout),
                    )
                    &&& final(self)@ == old(self)@.with_state(
                        old(self)@.position(name@),
                        PluginState::Failed,
                    )
                },
            }),
    {
        let found = self.find(name);
        let i = match found {
            Some(i) => i,
            None => {
                return Err(VibeError::PluginNotFound(String::from_str(name)));
            },
        };
        proof {
            lemma_position(self@, i as int);
        }
        let outcome = match outcome {
            Some(o) => o,
            None => {
                return Err(VibeError::PluginNotFound(String::from_str(name)));
            },
        };
        match outcome {
            CallOutcome::Completed => Ok(()),
            CallOutcome::Failed(e) => {
                self.set_state(i, PluginState::Failed);
                let text = e.to_string();
                Err(VibeError::PluginInitError(join4("Plugin ", name, " failed to start: ", text.as_str())))
            },
            CallOutcome::TimedOut => {
                self.set_state(i, PluginState::Failed);
                let text = duration_text(&self.config.timeout);
                Err(VibeError::PluginInitError(join4("Plugin ", name, " start timeout after ", text.as_str())))
            },
        }
    }

    /// Whether starting all plugins goes on after the start of the plugin
    /// named `name` gave `result`: it does on success, and on failure when
    /// the configuration says to continue; otherwise the failure is reported.
    pub fn continue_after_start(&self, name: &str, result: Result<()>) -> (r: Result<()>)
        ensures
            match result {
                Ok(_) => r is Ok,
                Err(e) => if self.spec_config().continue_on_failure {
                    r is Ok
                } else {
                    r matches Err(err) && err@ == ErrorView::PluginInitError(
                        "Failed to start plugin "@ + name@ + ": "@ + e@.text(),
                    )
                },
            },
    {
        match result {
            Ok(()) => Ok(()),
            Err(e) => {
                if self.config.continue_on_failure {
                    Ok(())
                } else {
                    let text = e.to_string();
                    Err(VibeError::PluginInitError(join4("Failed to start plugin ", name, ": ", text.as_str())))
                }
            },
        }
    }

    /// The last step of starting all plugins: they are now started.
    pub fn finish_start_all(&mut self)
        requires
            old(self).wf(),
        ensures
            final(self).wf(),
            final(self).objects() == old(self).objects(),
            final(self).spec_config() == old(self).spec_config(),
            final(self)@ == (ManagerView { started: true, ..old(self)@ }),
    {
        let ghost v = self@;
        self.is_started = true;
        proof {
            lemma_wf_same_names(v, self@);
        }
    }

    /// The first step of stopping all plugins: nothing to do when they are
    /// not started; otherwise the names to stop, in the reverse of the
    /// startup order.
    pub fn prepare_stop_all(&self) -> (r: Option<Vec<String>>)
        ensures
            match r {
                None => !self@.started,
                Some(names) => self@.started && texts(names@) == self@.startup_order.reverse(),
            },
    {
        if !self.is_started {
            return None;
        }
        let mut names: Vec<String> = Vec::new();
        let mut k: usize = self.startup_order.len();
        while k > 0
            invariant
                k <= self.startup_order.len(),
                texts(names@) == self@.startup_order.subrange(k as int, self@.startup_order.len() as int).reverse(),
            decreases k,
        {
            let ghost before = names@;
            k = k - 1;
            names.push(self.startup_order[k].clone());
            proof {
                assert(texts(names@) =~= texts(before).push(self@.startup_order[k as int]));
                assert(self@.startup_order.subrange(k as int, self@.startup_order.len() as int).reverse()
                    =~= self@.startup_order.subrange(k + 1, self@.startup_order.len() as int).reverse().push(
                    self@.startup_order[k as int],
                ));
            }
        }
        assert(self@.startup_order.subrange(0, self@.startup_order.len() as int) == self@.startup_order);
        Some(names)
    }

    /// Whether the plugin named `name` is to be stopped: it is loaded and
    /// running.
    pub fn needs_stop(&self, name: &str) -> (b: bool)
        requires
            self.wf(),
        ensures
            b == (self@.has(name@) && self@.state_of(name@) == PluginState::Running),
    {
        match self.find(name) {
            Some(i) => {
                proof {
                    lemma_position(self@, i as int);
                }
                self.plugins[i].instance.state == PluginState::Running
            },
            None => false,
        }
    }

    /// Records how the `stop` call of the plugin named `name` ended. Only a
    /// running plugin is stopped: it becomes `Stopped` on success and
    /// `Failed` otherwise; any other plugin is left as it is.
    pub fn record_stop(&mut self, name: &str, outcome: CallOutcome) -> (r: Result<()>)
        requires
            old(self).wf(),
        ensures
            final(self).wf(),
            final(self).objects() == old(self).objects(),
            final(self).spec_config() == old(self).spec_config(),
            !(old(self)@.has(name@) && old(self)@.state_of(name@) == PluginState::Running) ==> {
                &&& r is Ok
                &&& final(self)@ == old(self)@
            },
            old(self)@.has(name@) && old(self)@.state_of(name@) == PluginState::Running ==> match outcome {
                CallOutcome::Completed => {
                    &&& r is Ok
                    &&& final(self)@ == old(self)@.with_state(
                        old(self)@.position(name@),
                        PluginState::Stopped,
                    )
                },
                CallOutcome::Failed(e) => {
                    &&& r matches Err(err) && err@ == e@
                    &&& final(self)@ == old(self)@.with_state(
                        old(self)@.position(name@),
                        PluginState::Failed,
                    )
                },
                CallOutcome::TimedOut => {
                    &&& r matches Err(err) && err@ == ErrorView::TimeoutError(
                        "Plugin "@ + name@ + " stop timeout"@,
                    )
                    &&& final(self)@ == old(self)@.with_state(
                        old(self)@.position(name@),
                        PluginState::Failed,
                    )
                },
            },
    {
        let i = match self.find(name) {
            Some(i) => i,
            None => {
                return Ok(());
            },
        };
        proof {
            lemma_position(self@, i as int);
        }
        if self.plugins[i].instance.state != PluginState::Running {
            return Ok(());
        }
        match outcome {
            CallOutcome::Completed => {
                self.set_state(i, PluginState::Stopped);
                Ok(())
            },
            CallOutcome::Failed(e) => {
                self.set_state(i, PluginState::Failed);
                Err(e)
            },
            CallOutcome::TimedOut => {
                self.set_state(i, PluginState::Failed);
                Err(VibeError::TimeoutError(join3("Plugin ", name, " stop timeout")))
            },
        }
    }

    /// The last step of stopping all plugins: they are no longer started.
    pub fn finish_stop_all(&mut self)
        requires
            old(self).wf(),
        ensures
            final(self).wf(),
            final(self).objects() == old(self).objects(),
            final(self).spec_config() == old(self).spec_config(),
            final(self)@ == (ManagerView { started: false, ..old(self)@ }),
    {
        let ghost v = self@;
        self.is_started = false;
        proof {
            lemma_wf_same_names(v, self@);
        }
    }

    /// Each plugin's name and state, in the order in which they were added.
    pub fn list_plugins(&self) -> (r: Vec<(String, PluginState)>)
        ensures
            r.len() == self@.len(),
            forall|i: int| 0 <= i < r.len() ==> (#[trigger] r@[i]).0@ == self@.name(i) && r@[i].1 == self@.states[i],
    {
        let mut r: Vec<(String, PluginState)> = Vec::new();
        let mut i: usize = 0;
        while i < self.plugins.len()
            invariant
                i <= self.plugins.len(),
                self@.len() == self.plugins.len(),
                r.len() == i,
                forall|k: int| 0 <= k < i ==> (#[trigger] r@[k]).0@ == self@.name(k) && r@[k].1 == self@.states[k],
            decreases self.plugins.len() - i,
        {
            r.push(self.plugins[i].instance.to_meta());
            i = i + 1;
        }
        r
    }

    /// A copy of the metadata of the plugin named `name`, if it is loaded.
    pub fn get_plugin_metadata(&self, name: &str) -> (r: Option<PluginMetadata>)
        requires
            self.wf(),
        ensures
            r is Some <==> self@.has(name@),
            r matches Some(m) ==> m@ == self@.metadata[self@.position(name@)],
    {
        match self.find(name) {
            Some(i) => {
                proof {
                    lemma_position(self@, i as int);
                }
                Some(self.plugins[i].instance.metadata.clone())
            },
            None => None,
        }
    }

    /// Whether a plugin named `name` is loaded.
    pub fn has_plugin(&self, name: &str) -> (b: bool)
        requires
            self.wf(),
        ensures
            b == self@.has(name@),
    {
        self.find(name).is_some()
    }

    /// How many plugins are loaded.
    pub fn plugin_count(&self) -> (n: usize)
        ensures
            n == self@.len(),
    {
        self.plugins.len()
    }

    /// Whether the plugins have been started (and not stopped since).
    pub fn is_started(&self) -> (b: bool)
        ensures
            b == self@.started,
    {
        self.is_started
    }

    /// Sets the state of the plugin at position `i`.
    fn set_state(&mut self, i: usize, st: PluginState)
        requires
            old(self).wf(),
            i < old(self)@.len(),
        ensures
            final(self).wf(),
            final(self).objects() == old(self).objects(),
            final(self).spec_config() == old(self).spec_config(),
            final(self)@ == old(self)@.with_state(i as int, st),
    {
        let ghost v = self@;
        let ghost objs = self.objects();
        self.plugins[i].instance.state = st;
        proof {
            assert(self@ =~= v.with_state(i as int, st));
            assert(self.objects() =~= objs);
            lemma_wf_same_names(v, self@);
        }
    }

    /// The position of the plugin named `name`, if it is loaded.
    fn find(&self, name: &str) -> (r: Option<usize>)
        requires
            self.wf(),
        ensures
            match r {
                Some(i) => i < self@.len() && self@.name(i as int) == name@,
                None => !self@.has(name@),
            },
    {
        let target = name.to_string();
        let mut i: usize = 0;
        while i < self.plugins.len()
            invariant
                i <= self.plugins.len(),
                target@ == name@,
                self@.len() == self.plugins.len(),
                forall|k: int| 0 <= k < i ==> self@.name(k) != name@,
            decreases self.plugins.len() - i,
        {
            assert(self@.name(i as int) == self.plugins@[i as int].instance.metadata.name@);
            if self.plugins[i].instance.metadata.name == target {
                return Some(i);
            }
            i = i + 1;
        }
        None
    }

    /// The plugin object named `name`, for a call into it; nothing else about
    /// the manager changes through it.
    pub fn plugin_mut(&mut self, name: &str) -> (r: Option<&mut P>)
        requires
            old(self).wf(),
        ensures
            r is Some <==> old(self)@.has(name@),
            final(self)@ =~= old(self)@,
            final(self).spec_config() == old(self).spec_config(),
            match r {
                Some(p) => {
                    &&& *p == old(self).objects()[old(self)@.position(name@)]
                    &&& final(self).objects() == old(self).objects().update(
                        old(self)@.position(name@),
                        *final(p),
                    )
                },
                None => final(self).objects() == old(self).objects(),
            },
    {
        match self.find(name) {
            Some(i) => {
                proof {
                    lemma_position(self@, i as int);
                }
                Some(&mut self.plugins[i].instance.plugin)
            },
            None => None,
        }
    }

    /// Whether the dependencies of the plugin at position `i` are all names of
    /// the plugins at the positions `resolved`.
    fn deps_resolved(&self, i: usize, resolved: &Vec<usize>) -> (b: bool)
        requires
            self.wf(),
            i < self@.len(),
            forall|k: int| 0 <= k < resolved.len() ==> resolved@[k] < self@.len(),
        ensures
            b == (forall|d: int|
                0 <= d < self@.dependencies[i as int].len() ==> self@.named_before(
                    as_ints(resolved@),
                    resolved.len() as int,
                    #[trigger] self@.dependencies[i as int][d],
                )),
    {
        let ghost s = as_ints(resolved@);
        let deps = &self.plugins[i].dependencies;
        assert(self@.dependencies[i as int] == texts(deps@));
        let mut d: usize = 0;
        while d < deps.len()
            invariant
                self.wf(),
                i < self@.len(),
                d <= deps.len(),
                deps == &self.plugins@[i as int].dependencies,
                self@.dependencies[i as int] == texts(deps@),
                s == as_ints(resolved@),
                forall|k: int| 0 <= k < resolved.len() ==> resolved@[k] < self@.len(),
                forall|e: int|
                    0 <= e < d ==> self@.named_before(
                        s,
                        resolved.len() as int,
                        #[trigger] self@.dependencies[i as int][e],
                    ),
            decreases deps.len() - d,
        {
            let mut found = false;
            let mut j: usize = 0;
            while j < resolved.len()
                invariant
                    i < self@.len(),
                    d < deps.len(),
                    j <= resolved.len(),
                    deps == &self.plugins@[i as int].dependencies,
                    self@.dependencies[i as int] == texts(deps@),
                    s == as_ints(resolved@),
                    forall|k: int| 0 <= k < resolved.len() ==> resolved@[k] < self@.len(),
                    found ==> self@.named_before(s, resolved.len() as int, deps@[d as int]@),
                    !found ==> forall|k: int| 0 <= k < j ==> self@.name(s[k]) != deps@[d as int]@,
                decreases resolved.len() - j,
            {
                let r = resolved[j];
                assert(self@.name(r as int) == self.plugins@[r as int].instance.metadata.name@);
                if self.plugins[r].instance.metadata.name == deps[d] {
                    assert(s[j as int] == r as int);
                    found = true;
                }
                j = j + 1;
            }
            if !found {
                assert(!self@.named_before(s, resolved.len() as int, self@.dependencies[i as int][d as int]));
                return false;
            }
            d = d + 1;
        }
        true
    }
}

} // verus!
