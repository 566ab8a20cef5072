use vstd::prelude::*;
use vstd::string::StringExecFns;

use vstd::utf8::{decode_utf8, valid_utf8};

use crate::retry::{after_connect_failure, step_after, ConnectStep, CONNECT_ATTEMPTS};

use crate::handshake::{handshake_fields, parse_handshake, utf8_str};

verus! {

/// Why `load_plugin` did not register a plugin.
#[derive(Debug, Clone, Copy, PartialEq, Eq, Structural)]
pub enum LoadError {
    /// The executable could not be launched for its handshake.
    SpawnFailed,
    /// The handshake output is not a `"<name>|<version>"` line.
    InvalidHandshake,
}

/// Why `dispense` did not hand out a client.
#[derive(Debug, Clone, Copy, PartialEq, Eq, Structural)]
pub enum DispenseError {
    /// No plugin is registered under that name.
    NotFound,
    /// The plugin's executable could not be started.
    SpawnFailed,
    /// The plugin never became reachable within the connection attempts.
    ConnectTimeout,
}

/// Why `reap` did not stop a plugin.
#[derive(Debug, Clone, Copy, PartialEq, Eq, Structural)]
pub enum ReapError {
    /// No plugin is registered under that name.
    NotFound,
    /// The plugin has no running process.
    Inactive,
}

/// What `reap` did.
#[derive(Debug, PartialEq, Eq)]
pub enum Reaping<P> {
    /// The plugin's process, taken out of the registry to be terminated.
    Stopped(P),
    /// A `dispense` is starting the plugin: wait until it has connected or
    /// failed, and ask again.
    Wait,
}

/// Where a registered plugin stands in its lifecycle.
pub enum Slot<P, C> {
    /// Registered, with no process.
    Idle,
    /// One `dispense` is spawning the process and connecting to it; the
    /// number is how many of its connection attempts have failed so far.
    Starting(u32),
    /// The running process and the client connected to it.
    Active(P, C),
}

/// What the caller of `dispense` has to do next.
#[derive(Debug, PartialEq, Eq)]
pub enum DispensePlan {
    /// The plugin runs already: use its cached client (`cached_client`).
    Reuse,
    /// Another `dispense` is starting the plugin: wait for it and ask again.
    Wait,
    /// Spawn the executable at this path, connect to it and report with
    /// `connected` or `start_failed`.
    Spawn(String),
}

/// A registered plugin: where its executable is, what it announced of itself,
/// and its process and client when it runs.
pub struct Plugin<P, C> {
    name: String,
    path: String,
    plugin_type: String,
    version: String,
    slot: Slot<P, C>,
}

/// A process taken out of the registry to be terminated, with the name of
/// its plugin.
#[derive(Debug, PartialEq, Eq)]
pub struct PluginProcess<P> {
    pub name: String,
    pub process: P,
}

/// What the registry records of one plugin.
pub struct EntryView<P, C> {
    pub path: Seq<char>,
    pub plugin_type: Seq<char>,
    pub version: Seq<char>,
    pub slot: Slot<P, C>,
}

/// The plugins known by name, each with at most one process and one client.
pub struct PluginRegistry<P, C> {
    plugins: Vec<Plugin<P, C>>,
}

/// The directory under which every running plugin binds its endpoint.
pub open spec fn rendezvous_dir() -> Seq<char> {
    seq!['/', 't', 'm', 'p', '/', 't', 'o', 'n', 'i', 'c', '/']
}

/// Where the plugin `name` exposes its service while it runs: the same place
/// for the process that binds it and for the registry that connects to it.
pub fn rendezvous_path(name: &String) -> (r: String)
    ensures
        r@ == rendezvous_dir() + name@,
{
    let dir = "/tmp/tonic/".to_owned();
    proof {
        reveal_strlit("/tmp/tonic/");
        assert(dir@ =~= rendezvous_dir());
    }
    dir.concat(name.as_str())
}

/// The classification that every loaded plugin gets.
pub open spec fn execution_type() -> Seq<char> {
    seq!['e', 'x', 'e', 'c', 'u', 't', 'i', 'o', 'n']
}

/// `m` after a plugin called `name` was loaded from `path` and announced
/// `version`: a fresh entry, with no process, replaces any earlier one.
pub open spec fn registered<P, C>(
    m: Map<Seq<char>, EntryView<P, C>>,
    name: Seq<char>,
    path: Seq<char>,
    version: Seq<char>,
) -> Map<Seq<char>, EntryView<P, C>> {
    m.insert(name, EntryView { path, plugin_type: execution_type(), version, slot: Slot::Idle })
}

/// The process that loading `name` displaces from `m`, if it runs.
pub open spec fn displaced<P, C>(m: Map<Seq<char>, EntryView<P, C>>, name: Seq<char>) -> Option<P> {
    if m.contains_key(name) {
        running(m[name].slot)
    } else {
        None
    }
}

/// What `dispense` answers, as contracts see it.
pub enum DispenseOutcome {
    Failed(DispenseError),
    Reuse,
    Wait,
    Spawn(Seq<char>),
}

/// The outcome that a result of `dispense` stands for.
pub open spec fn outcome_of(r: Result<DispensePlan, DispenseError>) -> DispenseOutcome {
    match r {
        Err(e) => DispenseOutcome::Failed(e),
        Ok(DispensePlan::Reuse) => DispenseOutcome::Reuse,
        Ok(DispensePlan::Wait) => DispenseOutcome::Wait,
        Ok(DispensePlan::Spawn(path)) => DispenseOutcome::Spawn(path@),
    }
}

/// What `dispense(name)` answers on the registry `m`: an unknown name fails,
/// a running plugin is reused, one being started makes the caller wait, and
/// an idle one is to be spawned from its path.
pub open spec fn dispense_outcome<P, C>(
    m: Map<Seq<char>, EntryView<P, C>>,
    name: Seq<char>,
) -> DispenseOutcome {
    if !m.contains_key(name) {
        DispenseOutcome::Failed(DispenseError::NotFound)
    } else {
        match m[name].slot {
            Slot::Active(_, _) => DispenseOutcome::Reuse,
            Slot::Starting(_) => DispenseOutcome::Wait,
            Slot::Idle => DispenseOutcome::Spawn(m[name].path),
        }
    }
}

/// The registry after `dispense(name)`: only an idle plugin changes, to
/// starting.
pub open spec fn after_dispense<P, C>(
    m: Map<Seq<char>, EntryView<P, C>>,
    name: Seq<char>,
) -> Map<Seq<char>, EntryView<P, C>> {
    if m.contains_key(name) && m[name].slot is Idle {
        m.insert(name, with_slot(m[name], Slot::Starting(0)))
    } else {
        m
    }
}

/// Whether the plugin `name` is being started by a `dispense`.
pub open spec fn is_starting<P, C>(m: Map<Seq<char>, EntryView<P, C>>, name: Seq<char>) -> bool {
    m.contains_key(name) && m[name].slot is Starting
}

/// The registry after `connected(name, p, c)`: a plugin being started runs
/// with `p` and `c`; anything else is left alone.
pub open spec fn after_connected<P, C>(
    m: Map<Seq<char>, EntryView<P, C>>,
    name: Seq<char>,
    p: P,
    c: C,
) -> Map<Seq<char>, EntryView<P, C>> {
    if is_starting(m, name) {
        m.insert(name, with_slot(m[name], Slot::Active(p, c)))
    } else {
        m
    }
}

/// `e` with its lifecycle set to `slot`.
pub open spec fn with_slot<P, C>(e: EntryView<P, C>, slot: Slot<P, C>) -> EntryView<P, C> {
    EntryView { slot, ..e }
}

/// The running process of a slot, if any.
pub open spec fn running<P, C>(slot: Slot<P, C>) -> Option<P> {
    match slot {
        Slot::Active(p, _) => Some(p),
        _ => None,
    }
}

/// The connected client of a slot, if any.
pub open spec fn connected_client<P, C>(slot: Slot<P, C>) -> Option<C> {
    match slot {
        Slot::Active(_, c) => Some(c),
        _ => None,
    }
}

/// `m` with every plugin put back to idle: running ones lose their process
/// and client, and claims of a `dispense` in progress are withdrawn.
pub open spec fn all_reaped<P, C>(m: Map<Seq<char>, EntryView<P, C>>) -> Map<
    Seq<char>,
    EntryView<P, C>,
> {
    Map::new(|k: Seq<char>| m.contains_key(k), |k: Seq<char>| with_slot(m[k], Slot::Idle))
}

/// What follows a failed connection attempt of the `dispense` starting
/// `name`: the policy's step for its failure count, and giving up when no
/// such `dispense` is in progress.
pub open spec fn connect_failure_step<P, C>(
    m: Map<Seq<char>, EntryView<P, C>>,
    name: Seq<char>,
) -> ConnectStep {
    if m.contains_key(name) {
        match m[name].slot {
            Slot::Starting(f) => step_after((f + 1) as nat),
            _ => ConnectStep::GiveUp,
        }
    } else {
        ConnectStep::GiveUp
    }
}

/// The registry after a failed connection attempt for `name`: the failure is
/// counted while attempts remain, and the claim is withdrawn once they are
/// used up.
pub open spec fn after_connect_failure_of<P, C>(
    m: Map<Seq<char>, EntryView<P, C>>,
    name: Seq<char>,
) -> Map<Seq<char>, EntryView<P, C>> {
    if is_starting(m, name) {
        match m[name].slot {
            Slot::Starting(f) => if step_after((f + 1) as nat) is GiveUp {
                m.insert(name, with_slot(m[name], Slot::Idle))
            } else {
                m.insert(name, with_slot(m[name], Slot::Starting((f + 1) as u32)))
            },
            _ => m,
        }
    } else {
        m
    }
}

impl<P, C> Plugin<P, C> {
    /// The name the plugin announced.
    pub fn name(&self) -> (r: &String)
        ensures
            r@ == self.name_view(),
    {
        &self.name
    }

    /// The path of the plugin's executable.
    pub fn path(&self) -> (r: &String)
        ensures
            r@ == self.entry_view().path,
    {
        &self.path
    }

    /// The version the plugin announced.
    pub fn version(&self) -> (r: &String)
        ensures
            r@ == self.entry_view().version,
    {
        &self.version
    }

    /// The plugin's classification.
    pub fn plugin_type(&self) -> (r: &String)
        ensures
            r@ == self.entry_view().plugin_type,
    {
        &self.plugin_type
    }

    /// Whether the plugin's process runs.
    pub fn is_active(&self) -> (r: bool)
        ensures
            r == self.entry_view().slot is Active,
    {
        match &self.slot {
            Slot::Active(_, _) => true,
            _ => false,
        }
    }

    /// Whether a `dispense` is starting the plugin.
    pub fn is_starting(&self) -> (r: bool)
        ensures
            r == self.entry_view().slot is Starting,
    {
        match &self.slot {
            Slot::Starting(_) => true,
            _ => false,
        }
    }

    /// Puts the plugin back to idle, handing out its process if it ran.
    fn clear(&mut self) -> (r: Option<P>)
        ensures
            r == running(old(self).slot),
            final(self).name == old(self).name,
            final(self).entry_view() == with_slot(old(self).entry_view(), Slot::Idle),
    {
        let mut slot = Slot::Idle;
        std::mem::swap(&mut self.slot, &mut slot);
        match slot {
            Slot::Active(p, _) => Some(p),
            _ => None,
        }
    }

    pub closed spec fn name_view(&self) -> Seq<char> {
        self.name@
    }

    pub closed spec fn entry_view(&self) -> EntryView<P, C> {
        EntryView {
            path: self.path@,
            plugin_type: self.plugin_type@,
            version: self.version@,
            slot: self.slot,
        }
    }
}

impl<P, C> PluginRegistry<P, C> {
    /// The registry as a map from plugin name to its record.
    pub closed spec fn view(&self) -> Map<Seq<char>, EntryView<P, C>> {
        Map::new(
            |k: Seq<char>| exists|i: int| 0 <= i < self.plugins.len() && self.plugins[i].name@ == k,
            |k: Seq<char>|
                self.plugins[choose|i: int|
                    0 <= i < self.plugins.len() && self.plugins[i].name@ == k].entry_view(),
        )
    }

    /// Names are unique.
    pub closed spec fn wf(&self) -> bool {
        forall|i: int, j: int|
            0 <= i < j < self.plugins.len() ==> self.plugins[i].name@ != self.plugins[j].name@
    }

    proof fn lemma_view_at(&self, i: int)
        requires
            self.wf(),
            0 <= i < self.plugins.len(),
        ensures
            self@.contains_key(self.plugins[i].name@),
            self@[self.plugins[i].name@] == self.plugins[i].entry_view(),
    {
        let k = self.plugins[i].name@;
        assert(exists|j: int| 0 <= j < self.plugins.len() && self.plugins[j].name@ == k);
        let j = choose|j: int| 0 <= j < self.plugins.len() && self.plugins[j].name@ == k;
        assert(i == j);
    }

    /// `b` is `a` with entry `i` replaced by one of the same name.
    proof fn lemma_view_update(a: Self, b: Self, i: int)
        requires
            a.wf(),
            0 <= i < a.plugins.len(),
            b.plugins@ == a.plugins@.update(i, b.plugins[i]),
            b.plugins[i].name@ == a.plugins[i].name@,
        ensures
            b.wf(),
            b@ == a@.insert(a.plugins[i].name@, b.plugins[i].entry_view()),
    {
        let k = a.plugins[i].name@;
        assert forall|x: int, y: int| 0 <= x < y < b.plugins.len() implies b.plugins[x].name@
            != b.plugins[y].name@ by {
            assert(b.plugins[x].name@ == a.plugins[x].name@);
            assert(b.plugins[y].name@ == a.plugins[y].name@);
        }
        assert forall|key: Seq<char>| #[trigger] b@.contains_key(key) == a@.insert(
            k,
            b.plugins[i].entry_view(),
        ).contains_key(key) by {
            if b@.contains_key(key) {
                let j = choose|j: int| 0 <= j < b.plugins.len() && b.plugins[j].name@ == key;
                a.lemma_view_at(j);
            }
            if a@.contains_key(key) {
                let j = choose|j: int| 0 <= j < a.plugins.len() && a.plugins[j].name@ == key;
                assert(b.plugins[j].name@ == key);
            }
            b.lemma_view_at(i);
        }
        assert forall|key: Seq<char>| #[trigger] b@.contains_key(key) implies b@[key] == a@.insert(
            k,
            b.plugins[i].entry_view(),
        )[key] by {
            let j = choose|j: int| 0 <= j < b.plugins.len() && b.plugins[j].name@ == key;
            b.lemma_view_at(j);
            if j != i {
                a.lemma_view_at(j);
            }
        }
        assert(b@ =~= a@.insert(k, b.plugins[i].entry_view()));
    }

    /// `b` is `a` with an entry of a new name added at the end.
    proof fn lemma_view_push(a: Self, b: Self, e: Plugin<P, C>)
        requires
            a.wf(),
            !a@.contains_key(e.name@),
            b.plugins@ == a.plugins@.push(e),
        ensures
            b.wf(),
            b@ == a@.insert(e.name@, e.entry_view()),
    {
        let n = a.plugins.len() as int;
        assert forall|x: int, y: int| 0 <= x < y < b.plugins.len() implies b.plugins[x].name@
            != b.plugins[y].name@ by {
            if y == n {
                assert(a@.contains_key(a.plugins[x].name@));
            }
        }
        assert forall|key: Seq<char>| #[trigger] b@.contains_key(key) == a@.insert(
            e.name@,
            e.entry_view(),
        ).contains_key(key) by {
            if b@.contains_key(key) {
                let j = choose|j: int| 0 <= j < b.plugins.len() && b.plugins[j].name@ == key;
                if j < n {
                    a.lemma_view_at(j);
                }
            }
            if a@.contains_key(key) {
                let j = choose|j: int| 0 <= j < a.plugins.len() && a.plugins[j].name@ == key;
                assert(b.plugins[j].name@ == key);
            }
            b.lemma_view_at(n);
        }
        assert forall|key: Seq<char>| #[trigger] b@.contains_key(key) implies b@[key] == a@.insert(
            e.name@,
            e.entry_view(),
        )[key] by {
            let j = choose|j: int| 0 <= j < b.plugins.len() && b.plugins[j].name@ == key;
            b.lemma_view_at(j);
            if j != n {
                a.lemma_view_at(j);
            }
        }
        assert(b@ =~= a@.insert(e.name@, e.entry_view()));
    }

    /// The index of the plugin called `name`, if there is one.
    fn position(&self, name: &String) -> (r: Option<usize>)
        requires
            self.wf(),
        ensures
            match r {
                Some(i) => i < self.plugins.len() && self.plugins[i as int].name@ == name@,
                None => !self@.contains_key(name@),
            },
    {
        let mut i: usize = 0;
        while i < self.plugins.len()
            invariant
                self.wf(),
                i <= self.plugins.len(),
                forall|j: int| 0 <= j < i ==> self.plugins[j].name@ != name@,
            decreases self.plugins.len() - i,
        {
            if self.plugins[i].name == *name {
                return Some(i);
            }
            i = i + 1;
        }
        None
    }


    /// Records a plugin under `name`, found at `path`, of version `version`,
    /// with no process. An earlier entry under that name is replaced; its
    /// process, if it ran, is handed back to be terminated.
    pub fn register(&mut self, name: String, path: String, version: String) -> (r: Option<P>)
        requires
            old(self).wf(),
        ensures
            final(self).wf(),
            final(self)@ == registered(old(self)@, name@, path@, version@),
            r == displaced(old(self)@, name@),
    {
        let kind = "execution".to_owned();
        proof {
            reveal_strlit("execution");
            assert(kind@ =~= execution_type());
        }
        match self.position(&name) {
            Some(i) => {
                proof {
                    old(self).lemma_view_at(i as int);
                }
                let mut e = Plugin { name, path, plugin_type: kind, version, slot: Slot::Idle };
                std::mem::swap(&mut self.plugins[i], &mut e);
                proof {
                    Self::lemma_view_update(*old(self), *self, i as int);
                    assert(self.plugins[i as int].entry_view() == (EntryView::<P, C> {
                        path: path@,
                        plugin_type: execution_type(),
                        version: version@,
                        slot: Slot::Idle,
                    }));
                }
                match e.slot {
                    Slot::Active(p, _) => Some(p),
                    _ => None,
                }
            },
            None => {
                let e = Plugin { name, path, plugin_type: kind, version, slot: Slot::Idle };
                self.plugins.push(e);
                proof {
                    Self::lemma_view_push(*old(self), *self, e);
                }
                None
            },
        }
    }

    /// Registers the plugin at `plugin_path` from what it printed when asked
    /// for its identity (`None`: it could not be launched). The output must
    /// be a UTF-8 line `"<name>|<version>"`; the plugin is registered under
    /// the trimmed name, with the trimmed version and no process, in place of
    /// any earlier entry. The process of a replaced entry that ran is handed
    /// back, with the plugin's name, to be terminated.
    pub fn load_plugin(&mut self, plugin_path: String, output: Option<Vec<u8>>) -> (r: Result<
        Option<PluginProcess<P>>,
        LoadError,
    >)
        requires
            old(self).wf(),
        ensures
            final(self).wf(),
            match output {
                None => r == Err::<Option<PluginProcess<P>>, LoadError>(LoadError::SpawnFailed) && final(self)@
                    == old(self)@,
                Some(b) => if !valid_utf8(b@) || handshake_fields(decode_utf8(b@)) is None {
                    r == Err::<Option<PluginProcess<P>>, LoadError>(LoadError::InvalidHandshake) && final(self)@
                        == old(self)@
                } else {
                    let (name, version) = handshake_fields(decode_utf8(b@))->0;
                    &&& r is Ok
                    &&& match r->Ok_0 {
                        Some(d) => d.name@ == name && displaced(old(self)@, name) == Some(d.process),
                        None => displaced(old(self)@, name) is None,
                    }
                    &&& final(self)@ == registered(old(self)@, name, plugin_path@, version)
                },
            },
    {
        let bytes = match output {
            None => {
                return Err(LoadError::SpawnFailed);
            },
            Some(b) => b,
        };
        let text = match utf8_str(bytes.as_slice()) {
            None => {
                return Err(LoadError::InvalidHandshake);
            },
            Some(t) => t,
        };
        match parse_handshake(text) {
            None => Err(LoadError::InvalidHandshake),
            Some((name, version)) => {
                let key = name.clone();
                match self.register(name, plugin_path, version) {
                    Some(process) => Ok(Some(PluginProcess { name: key, process })),
                    None => Ok(None),
                }
            },
        }
    }

    /// Decides how to obtain a client for `plugin_name`. An idle plugin is
    /// claimed for the caller, who must spawn and connect it; while it is
    /// claimed, every other caller is told to wait, so at most one process
    /// is started per name.
    pub fn dispense(&mut self, plugin_name: String) -> (r: Result<DispensePlan, DispenseError>)
        requires
            old(self).wf(),
        ensures
            final(self).wf(),
            outcome_of(r) == dispense_outcome(old(self)@, plugin_name@),
            final(self)@ == after_dispense(old(self)@, plugin_name@),
    {
        match self.position(&plugin_name) {
            None => Err(DispenseError::NotFound),
            Some(i) => {
                proof {
                    old(self).lemma_view_at(i as int);
                }
                match &self.plugins[i].slot {
                    Slot::Active(_, _) => {
                        return Ok(DispensePlan::Reuse);
                    },
                    Slot::Starting(_) => {
                        return Ok(DispensePlan::Wait);
                    },
                    Slot::Idle => {},
                }
                let path = self.plugins[i].path.clone();
                self.plugins[i].slot = Slot::Starting(0);
                proof {
                    Self::lemma_view_update(*old(self), *self, i as int);
                    assert(self.plugins[i as int].entry_view() == with_slot(
                        old(self)@[plugin_name@],
                        Slot::Starting(0),
                    ));
                }
                Ok(DispensePlan::Spawn(path))
            },
        }
    }


    /// The client of `plugin_name` while its process runs.
    pub fn cached_client(&self, plugin_name: &String) -> (r: Option<&C>)
        requires
            self.wf(),
        ensures
            match r {
                Some(c) => self@.contains_key(plugin_name@) && connected_client(
                    self@[plugin_name@].slot,
                ) == Some(*c),
                None => !self@.contains_key(plugin_name@) || !(self@[plugin_name@].slot is Active),
            },
    {
        match self.position(plugin_name) {
            None => None,
            Some(i) => {
                proof {
                    self.lemma_view_at(i as int);
                }
                match &self.plugins[i].slot {
                    Slot::Active(_, c) => Some(c),
                    _ => None,
                }
            },
        }
    }

    /// Completes a `dispense` that was told to spawn `plugin_name`: its
    /// process and client become the plugin's. Were the claim withdrawn in
    /// the meantime, the process is handed back to be terminated.
    pub fn connected(&mut self, plugin_name: String, process: P, client: C) -> (r: Result<(), P>)
        requires
            old(self).wf(),
        ensures
            final(self).wf(),
            r is Ok <==> is_starting(old(self)@, plugin_name@),
            r is Err ==> r == Err::<(), P>(process),
            final(self)@ == after_connected(old(self)@, plugin_name@, process, client),
    {
        match self.position(&plugin_name) {
            None => Err(process),
            Some(i) => {
                proof {
                    old(self).lemma_view_at(i as int);
                }
                match &self.plugins[i].slot {
                    Slot::Starting(_) => {},
                    _ => {
                        return Err(process);
                    },
                }
                self.plugins[i].slot = Slot::Active(process, client);
                proof {
                    Self::lemma_view_update(*old(self), *self, i as int);
                    assert(self.plugins[i as int].entry_view() == with_slot(
                        old(self)@[plugin_name@],
                        Slot::Active(process, client),
                    ));
                }
                Ok(())
            },
        }
    }

    /// Withdraws the claim of a `dispense` of `plugin_name` whose spawn or
    /// connection failed: the plugin is idle again.
    pub fn start_failed(&mut self, plugin_name: String)
        requires
            old(self).wf(),
        ensures
            final(self).wf(),
            old(self)@.contains_key(plugin_name@) && old(self)@[plugin_name@].slot is Starting
                ==> final(self)@ == old(self)@.insert(
                plugin_name@,
                with_slot(old(self)@[plugin_name@], Slot::Idle),
            ),
            !(old(self)@.contains_key(plugin_name@) && old(self)@[plugin_name@].slot is Starting)
                ==> final(self)@ == old(self)@,
    {
        match self.position(&plugin_name) {
            None => {},
            Some(i) => {
                proof {
                    old(self).lemma_view_at(i as int);
                }
                match &self.plugins[i].slot {
                    Slot::Starting(_) => {},
                    _ => {
                        return ;
                    },
                }
                self.plugins[i].slot = Slot::Idle;
                proof {
                    Self::lemma_view_update(*old(self), *self, i as int);
                    assert(self.plugins[i as int].entry_view() == with_slot(
                        old(self)@[plugin_name@],
                        Slot::Idle,
                    ));
                }
            },
        }
    }

    /// Records a failed connection attempt of the `dispense` that is starting
    /// `plugin_name`, and says what follows: another attempt after the
    /// policy's delay, or, once the attempts are used up, giving up. On giving
    /// up the claim is withdrawn; the caller terminates the process it spawned
    /// and reports `ConnectTimeout`. With no such `dispense` in progress the
    /// caller gives up as well.
    pub fn connect_failed(&mut self, plugin_name: String) -> (r: ConnectStep)
        requires
            old(self).wf(),
        ensures
            final(self).wf(),
            r == connect_failure_step(old(self)@, plugin_name@),
            final(self)@ == after_connect_failure_of(old(self)@, plugin_name@),
    {
        match self.position(&plugin_name) {
            None => ConnectStep::GiveUp,
            Some(i) => {
                proof {
                    old(self).lemma_view_at(i as int);
                }
                let f = match &self.plugins[i].slot {
                    Slot::Starting(f) => *f,
                    _ => {
                        return ConnectStep::GiveUp;
                    },
                };
                let step = if f < CONNECT_ATTEMPTS {
                    after_connect_failure(f + 1)
                } else {
                    ConnectStep::GiveUp
                };
                let next = match step {
                    ConnectStep::RetryAfter(_) => Slot::Starting(f + 1),
                    ConnectStep::GiveUp => Slot::Idle,
                };
                self.plugins[i].slot = next;
                proof {
                    Self::lemma_view_update(*old(self), *self, i as int);
                    assert(self.plugins[i as int].entry_view() == with_slot(
                        old(self)@[plugin_name@],
                        next,
                    ));
                }
                step
            },
        }
    }

    /// Takes the running process of `plugin_name` out of the registry, to be
    /// terminated, and drops its client: the plugin is idle again. While a
    /// `dispense` is starting the plugin, the caller is told to wait, so that
    /// a reap comes either before that `dispense` or after it.
    pub fn reap(&mut self, plugin_name: String) -> (r: Result<Reaping<P>, ReapError>)
        requires
            old(self).wf(),
        ensures
            final(self).wf(),
            !old(self)@.contains_key(plugin_name@) ==> r == Err::<Reaping<P>, ReapError>(
                ReapError::NotFound,
            ) && final(self)@ == old(self)@,
            old(self)@.contains_key(plugin_name@) ==> match old(self)@[plugin_name@].slot {
                Slot::Idle => r == Err::<Reaping<P>, ReapError>(ReapError::Inactive) && final(self)@ == old(self)@,
                Slot::Starting(_) => r == Ok::<Reaping<P>, ReapError>(Reaping::Wait) && final(self)@ == old(self)@,
                Slot::Active(p, _) => r == Ok::<Reaping<P>, ReapError>(Reaping::Stopped(p))
                    && final(self)@ == old(self)@.insert(
                    plugin_name@,
                    with_slot(old(self)@[plugin_name@], Slot::Idle),
                ),
            },
    {
        match self.position(&plugin_name) {
            None => Err(ReapError::NotFound),
            Some(i) => {
                proof {
                    old(self).lemma_view_at(i as int);
                }
                if self.plugins[i].is_starting() {
                    return Ok(Reaping::Wait);
                }
                let taken = self.plugins[i].clear();
                proof {
                    assert(self.plugins@ =~= old(self).plugins@.update(i as int, self.plugins[i as int]));
                    Self::lemma_view_update(*old(self), *self, i as int);
                    if taken is None {
                        assert(self.plugins[i as int].entry_view() == old(self).plugins[i as int].entry_view());
                        assert(self@ =~= old(self)@);
                    }
                }
                match taken {
                    Some(p) => Ok(Reaping::Stopped(p)),
                    None => Err(ReapError::Inactive),
                }
            },
        }
    }

    /// Takes every running process out of the registry, to be terminated,
    /// drops their clients, and withdraws the claims of any `dispense` in
    /// progress: every plugin is idle afterwards.
    pub fn reap_all(&mut self) -> (r: Vec<PluginProcess<P>>)
        requires
            old(self).wf(),
        ensures
            final(self).wf(),
            final(self)@ == all_reaped(old(self)@),
            forall|t: int|
                0 <= t < r.len() ==> old(self)@.contains_key(#[trigger] r[t].name@) && running(
                    old(self)@[r[t].name@].slot,
                ) == Some(r[t].process),
            forall|k: Seq<char>|
                #[trigger] old(self)@.contains_key(k) && old(self)@[k].slot is Active ==> exists|
                    t: int,
                | 0 <= t < r.len() && r[t].name@ == k,
            forall|t: int, u: int| 0 <= t < u < r.len() ==> r[t].name@ != r[u].name@,
    {
        let mut out: Vec<PluginProcess<P>> = Vec::new();
        let ghost idx: Seq<int> = Seq::empty();
        let mut i: usize = 0;
        while i < self.plugins.len()
            invariant
                old(self).wf(),
                self.plugins.len() == old(self).plugins.len(),
                i <= self.plugins.len(),
                forall|j: int|
                    0 <= j < self.plugins.len() ==> (#[trigger] self.plugins[j]).name@ == old(self).plugins[j].name@,
                forall|j: int|
                    0 <= j < self.plugins.len() ==> (#[trigger] self.plugins[j]).entry_view() == (
                    if j < i {
                        with_slot(old(self).plugins[j].entry_view(), Slot::Idle)
                    } else {
                        old(self).plugins[j].entry_view()
                    }),
                idx.len() == out.len(),
                forall|t: int|
                    0 <= t < out.len() ==> 0 <= #[trigger] idx[t] < i && out[t].name@ == old(self).plugins[idx[t]].name@ && running(old(self).plugins[idx[t]].slot) == Some(
                        out[t].process,
                    ),
                forall|t: int, u: int| 0 <= t < u < out.len() ==> idx[t] < idx[u],
                forall|j: int|
                    0 <= j < i && (#[trigger] old(self).plugins[j]).slot is Active ==> exists|t: int|
                        0 <= t < out.len() && idx[t] == j,
            decreases self.plugins.len() - i,
        {
            let ghost idx0 = idx;
            if let Some(p) = self.plugins[i].clear() {
                let name = self.plugins[i].name.clone();
                out.push(PluginProcess { name, process: p });
                proof {
                    idx = idx.push(i as int);
                }
            }
            proof {
                assert forall|j: int|
                    0 <= j < i + 1 && (#[trigger] old(self).plugins[j]).slot is Active implies exists|
                        t: int,
                    | 0 <= t < out.len() && idx[t] == j by {
                    if j == i {
                        assert(idx[out.len() - 1] == j);
                    } else {
                        let t0 = choose|t: int| 0 <= t < idx0.len() && idx0[t] == j;
                        assert(idx[t0] == j);
                    }
                }
            }
            i = i + 1;
        }
        proof {
            assert(self.wf());
            assert forall|k: Seq<char>| #[trigger] self@.contains_key(k) == all_reaped(
                old(self)@,
            ).contains_key(k) by {
                if self@.contains_key(k) {
                    let j = choose|j: int| 0 <= j < self.plugins.len() && self.plugins[j].name@ == k;
                    old(self).lemma_view_at(j);
                }
                if old(self)@.contains_key(k) {
                    let j = choose|j: int|
                        0 <= j < old(self).plugins.len() && old(self).plugins[j].name@ == k;
                    self.lemma_view_at(j);
                }
            }
            assert forall|k: Seq<char>| #[trigger] self@.contains_key(k) implies self@[k]
                == all_reaped(old(self)@)[k] by {
                let j = choose|j: int| 0 <= j < self.plugins.len() && self.plugins[j].name@ == k;
                self.lemma_view_at(j);
                old(self).lemma_view_at(j);
            }
            assert(self@ =~= all_reaped(old(self)@));
            assert forall|t: int, u: int| 0 <= t < u < out.len() implies out[t].name@
                != out[u].name@ by {
                assert(idx[t] < idx[u]);
            }
            assert forall|t: int| 0 <= t < out.len() implies old(self)@.contains_key(
                #[trigger] out[t].name@,
            ) && running(old(self)@[out[t].name@].slot) == Some(out[t].process) by {
                old(self).lemma_view_at(idx[t]);
            }
            assert forall|k: Seq<char>| #[trigger]
                old(self)@.contains_key(k) && old(self)@[k].slot is Active implies exists|t: int|
                0 <= t < out.len() && out[t].name@ == k by {
                let j = choose|j: int|
                    0 <= j < old(self).plugins.len() && old(self).plugins[j].name@ == k;
                old(self).lemma_view_at(j);
                let t = choose|t: int| 0 <= t < out.len() && idx[t] == j;
                assert(out[t].name@ == k);
            }
        }
        out
    }

    /// The plugin registered as `plugin_name`, if any.
    pub fn get(&self, plugin_name: &String) -> (r: Option<&Plugin<P, C>>)
        requires
            self.wf(),
        ensures
            match r {
                Some(e) => self@.contains_key(plugin_name@) && e.name_view() == plugin_name@
                    && e.entry_view() == self@[plugin_name@],
                None => !self@.contains_key(plugin_name@),
            },
    {
        match self.position(plugin_name) {
            None => None,
            Some(i) => {
                proof {
                    self.lemma_view_at(i as int);
                }
                Some(&self.plugins[i])
            },
        }
    }

    /// How many plugins are registered.
    pub fn len(&self) -> (r: usize)
        requires
            self.wf(),
        ensures
            r == self@.len(),
    {
        proof {
            self.lemma_len();
        }
        self.plugins.len()
    }

    proof fn lemma_len(&self)
        requires
            self.wf(),
        ensures
            self@.len() == self.plugins.len(),
    {
        let names = Seq::new(self.plugins.len() as nat, |i: int| self.plugins[i].name@);
        assert forall|i: int, j: int| 0 <= i < j < names.len() implies names[i] != names[j] by {}
        names.unique_seq_to_set();
        assert(self@.dom() =~= names.to_set()) by {
            assert forall|k: Seq<char>| self@.dom().contains(k) implies names.to_set().contains(k) by {
                let i = choose|i: int| 0 <= i < self.plugins.len() && self.plugins[i].name@ == k;
                assert(names[i] == k);
            }
            assert forall|k: Seq<char>| names.to_set().contains(k) implies self@.dom().contains(k) by {
                let i = choose|i: int| 0 <= i < names.len() && names[i] == k;
                assert(self.plugins[i].name@ == k);
            }
        }
    }

    /// An empty registry.
    pub fn new() -> (r: Self)
        ensures
            r.wf(),
            r@ == Map::<Seq<char>, EntryView<P, C>>::empty(),
    {
        let r = PluginRegistry { plugins: Vec::new() };
        assert(r@ =~= Map::<Seq<char>, EntryView<P, C>>::empty());
        r
    }
}

} // verus!
