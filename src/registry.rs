use vstd::prelude::*;

verus! {

/// What the registry knows of one advertised global: its interface and version.
pub type GlobalModel = (Seq<char>, u32);

/// A capability the server advertised under a name.
pub struct Global {
    pub name: u32,
    pub interface: String,
    pub version: u32,
}

/// An event of the registry object: a global advertised, or withdrawn.
pub enum RegistryEvent {
    Global { name: u32, interface: String, version: u32 },
    GlobalRemove { name: u32 },
}

/// Why a capability could not be bound.
#[derive(Debug, Clone, Copy, PartialEq, Eq, Structural)]
pub enum BindError {
    /// No global of the interface is advertised.
    NotFound,
    /// Globals of the interface are advertised, all below the minimum version.
    VersionMismatch,
    /// The global that was bound has since been withdrawn.
    GlobalGone,
}

/// The outcome of a successful bind: which global, at which version.
#[derive(Debug, Clone, Copy, PartialEq, Eq, Structural)]
pub struct Binding {
    pub name: u32,
    pub version: u32,
}

/// One event applied to a registry model.
pub open spec fn apply_event(m: Map<u32, GlobalModel>, e: RegistryEvent) -> Map<u32, GlobalModel> {
    match e {
        RegistryEvent::Global { name, interface, version } => m.insert(name, (interface@, version)),
        RegistryEvent::GlobalRemove { name } => m.remove(name),
    }
}

/// Events applied one after another, in arrival order.
pub open spec fn apply_events(m: Map<u32, GlobalModel>, s: Seq<RegistryEvent>) -> Map<
    u32,
    GlobalModel,
>
    decreases s.len(),
{
    if s.len() == 0 {
        m
    } else {
        apply_event(apply_events(m, s.drop_last()), s.last())
    }
}

/// The name an event is about.
pub open spec fn event_name(e: RegistryEvent) -> u32 {
    match e {
        RegistryEvent::Global { name, .. } => name,
        RegistryEvent::GlobalRemove { name } => name,
    }
}

/// Some global of the interface is advertised.
pub open spec fn has_interface(m: Map<u32, GlobalModel>, iface: Seq<char>) -> bool {
    exists|n: u32| m.contains_key(n) && #[trigger] m[n].0 == iface
}

/// The global under `n` offers the interface at `min` or above.
pub open spec fn usable(m: Map<u32, GlobalModel>, iface: Seq<char>, min: u32, n: u32) -> bool {
    m.contains_key(n) && m[n].0 == iface && m[n].1 >= min
}

/// What `bind` owes: the usable global of highest version, bound at no more than `max`.
pub open spec fn bind_result(
    m: Map<u32, GlobalModel>,
    iface: Seq<char>,
    min: u32,
    max: u32,
    r: Result<Binding, BindError>,
) -> bool {
    match r {
        Ok(b) => {
            &&& usable(m, iface, min, b.name)
            &&& forall|n: u32| #[trigger] usable(m, iface, min, n) ==> m[n].1 <= m[b.name].1
            &&& b.version == if m[b.name].1 < max {
                m[b.name].1
            } else {
                max
            }
        },
        Err(BindError::NotFound) => !has_interface(m, iface),
        Err(BindError::VersionMismatch) => {
            &&& has_interface(m, iface)
            &&& forall|n: u32| !#[trigger] usable(m, iface, min, n)
        },
        Err(BindError::GlobalGone) => false,
    }
}

/// The registry after a run of events is decided, for each name, by the last
/// event about that name: an advertisement leaves exactly that interface and
/// version, a withdrawal leaves nothing; a name no event speaks of keeps its
/// earlier entry.
pub proof fn lemma_last_event_decides(m: Map<u32, GlobalModel>, s: Seq<RegistryEvent>, n: u32)
    ensures
        (forall|i: int| 0 <= i < s.len() ==> event_name(#[trigger] s[i]) != n) ==> (
        apply_events(m, s).contains_key(n) == m.contains_key(n) && apply_events(m, s)[n] == m[n]),
        forall|k: int|
            0 <= k < s.len() && event_name(#[trigger] s[k]) == n && (forall|j: int|
                k < j < s.len() ==> event_name(#[trigger] s[j]) != n) ==> match s[k] {
                RegistryEvent::Global { interface, version, .. } => apply_events(
                    m,
                    s,
                ).contains_key(n) && apply_events(m, s)[n] == (interface@, version),
                RegistryEvent::GlobalRemove { .. } => !apply_events(m, s).contains_key(n),
            },
    decreases s.len(),
{
    if s.len() > 0 {
        let p = s.drop_last();
        lemma_last_event_decides(m, p, n);
        let last = s.len() - 1;
        assert forall|i: int| 0 <= i < p.len() implies p[i] == s[i] by {}
        if forall|i: int| 0 <= i < s.len() ==> event_name(#[trigger] s[i]) != n {
            assert(event_name(s[last]) != n);
            assert forall|i: int| 0 <= i < p.len() implies event_name(#[trigger] p[i]) != n by {
                assert(event_name(s[i]) != n);
            }
        }
        assert forall|k: int|
            0 <= k < s.len() && event_name(#[trigger] s[k]) == n && (forall|j: int|
                k < j < s.len() ==> event_name(#[trigger] s[j]) != n) implies match s[k] {
            RegistryEvent::Global { interface, version, .. } => apply_events(m, s).contains_key(n)
                && apply_events(m, s)[n] == (interface@, version),
            RegistryEvent::GlobalRemove { .. } => !apply_events(m, s).contains_key(n),
        } by {
            if k < last {
                assert(event_name(s[last]) != n);
                assert(p[k] == s[k]);
                assert forall|j: int| k < j < p.len() implies event_name(#[trigger] p[j]) != n by {
                    assert(event_name(s[j]) != n);
                }
            }
        }
    }
}

/// A second advertisement under a name replaces the first: the name stands
/// once, with the later interface and version.
pub proof fn lemma_readvertise_replaces(
    m: Map<u32, GlobalModel>,
    name: u32,
    first: String,
    first_version: u32,
    second: String,
    second_version: u32,
)
    ensures
        apply_events(
            m,
            seq![
                RegistryEvent::Global { name, interface: first, version: first_version },
                RegistryEvent::Global { name, interface: second, version: second_version },
            ],
        ) == m.insert(name, (second@, second_version)),
        apply_events(
            m,
            seq![
                RegistryEvent::Global { name, interface: first, version: first_version },
                RegistryEvent::Global { name, interface: second, version: second_version },
            ],
        ).dom() == m.dom().insert(name),
{
    let e1 = RegistryEvent::Global { name, interface: first, version: first_version };
    let e2 = RegistryEvent::Global { name, interface: second, version: second_version };
    let s = seq![e1, e2];
    assert(s.drop_last() =~= seq![e1]);
    assert(seq![e1].drop_last() =~= Seq::<RegistryEvent>::empty());
    assert(apply_events(m, Seq::<RegistryEvent>::empty()) == m);
    assert(apply_events(m, seq![e1]) == m.insert(name, (first@, first_version)));
    assert(apply_events(m, s) == m.insert(name, (first@, first_version)).insert(
        name,
        (second@, second_version),
    ));
    assert(apply_events(m, s) =~= m.insert(name, (second@, second_version)));
}

/// Binding never settles for a version below the requested minimum: where
/// every advertised global of the interface is older than `min`, the bind
/// fails with `VersionMismatch`, and any success is at `min` or above.
pub proof fn lemma_old_version_is_refused(
    m: Map<u32, GlobalModel>,
    iface: Seq<char>,
    min: u32,
    max: u32,
    r: Result<Binding, BindError>,
)
    requires
        bind_result(m, iface, min, max, r),
        min <= max,
    ensures
        has_interface(m, iface) && (forall|n: u32|
            m.contains_key(n) && #[trigger] m[n].0 == iface ==> m[n].1 < min) ==> r == Err::<
            Binding,
            BindError,
        >(BindError::VersionMismatch),
        r matches Ok(b) ==> m[b.name].1 >= min && min <= b.version <= max,
{
    if has_interface(m, iface) && (forall|n: u32|
        m.contains_key(n) && #[trigger] m[n].0 == iface ==> m[n].1 < min) {
        if let Ok(b) = r {
            assert(usable(m, iface, min, b.name));
        }
    }
}

/// The globals currently advertised, keyed by name.
pub struct Registry {
    globals: Vec<Global>,
    model: Ghost<Map<u32, GlobalModel>>,
}

impl View for Registry {
    type V = Map<u32, GlobalModel>;

    closed spec fn view(&self) -> Map<u32, GlobalModel> {
        self.model@
    }
}

impl Registry {
    /// The entries are stored without repeated names and stand exactly for the model.
    pub closed spec fn wf(&self) -> bool {
        &&& forall|i: int, j: int|
            0 <= i < j < self.globals@.len() ==> self.globals@[i].name != self.globals@[j].name
        &&& forall|i: int|
            0 <= i < self.globals@.len() ==> #[trigger] self.model@.contains_key(
                self.globals@[i].name,
            ) && self.model@[self.globals@[i].name] == (
                self.globals@[i].interface@,
                self.globals@[i].version,
            )
        &&& forall|n: u32|
            #[trigger] self.model@.contains_key(n) ==> exists|i: int|
                0 <= i < self.globals@.len() && self.globals@[i].name == n
    }

    pub fn new() -> (r: Registry)
        ensures
            r.wf(),
            r@ == Map::<u32, GlobalModel>::empty(),
    {
        Registry { globals: Vec::new(), model: Ghost(Map::empty()) }
    }

    fn position(&self, name: u32) -> (r: Option<usize>)
        requires
            self.wf(),
        ensures
            match r {
                Some(i) => i < self.globals@.len() && self.globals@[i as int].name == name,
                None => !self@.contains_key(name),
            },
    {
        let mut i: usize = 0;
        while i < self.globals.len()
            invariant
                self.wf(),
                i <= self.globals@.len(),
                forall|k: int| 0 <= k < i ==> self.globals@[k].name != name,
            decreases self.globals@.len() - i,
        {
            if self.globals[i].name == name {
                return Some(i);
            }
            i = i + 1;
        }
        None
    }

    /// Records an advertisement; one under a name already present replaces it.
    pub fn on_global(&mut self, name: u32, interface: String, version: u32)
        requires
            old(self).wf(),
        ensures
            final(self).wf(),
            final(self)@ == old(self)@.insert(name, (interface@, version)),
    {
        let ghost iv = interface@;
        match self.position(name) {
            Some(i) => {
                self.globals.set(i, Global { name, interface, version });
                self.model = Ghost(self.model@.insert(name, (iv, version)));
                assert forall|a: int, b: int|
                    0 <= a < b < self.globals@.len() implies self.globals@[a].name
                    != self.globals@[b].name by {
                    assert(a != i ==> self.globals@[a] == old(self).globals@[a]);
                    assert(b != i ==> self.globals@[b] == old(self).globals@[b]);
                }
                assert forall|k: int|
                    0 <= k < self.globals@.len() implies #[trigger] self.model@.contains_key(
                    self.globals@[k].name,
                ) && self.model@[self.globals@[k].name] == (
                    self.globals@[k].interface@,
                    self.globals@[k].version,
                ) by {
                    if k != i {
                        assert(self.globals@[k] == old(self).globals@[k]);
                        assert(old(self).model@.contains_key(old(self).globals@[k].name));
                    }
                }
                assert forall|n: u32| #[trigger] self.model@.contains_key(n) implies exists|k: int|
                    0 <= k < self.globals@.len() && self.globals@[k].name == n by {
                    if n != name {
                        assert(old(self).model@.contains_key(n));
                        let k = choose|k: int|
                            0 <= k < old(self).globals@.len() && old(self).globals@[k].name == n;
                        assert(self.globals@[k].name == n);
                    } else {
                        assert(self.globals@[i as int].name == n);
                    }
                }
            },
            None => {
                self.globals.push(Global { name, interface, version });
                self.model = Ghost(self.model@.insert(name, (iv, version)));
                let ghost last = self.globals@.len() - 1;
                assert forall|i: int|
                    0 <= i < self.globals@.len() implies #[trigger] self.model@.contains_key(
                    self.globals@[i].name,
                ) && self.model@[self.globals@[i].name] == (
                    self.globals@[i].interface@,
                    self.globals@[i].version,
                ) by {
                    if i < last {
                        assert(old(self).model@.contains_key(old(self).globals@[i].name));
                    }
                }
                assert forall|n: u32| #[trigger] self.model@.contains_key(n) implies exists|k: int|
                    0 <= k < self.globals@.len() && self.globals@[k].name == n by {
                    if n != name {
                        assert(old(self).model@.contains_key(n));
                        let k = choose|k: int|
                            0 <= k < old(self).globals@.len() && old(self).globals@[k].name == n;
                        assert(self.globals@[k].name == n);
                    } else {
                        assert(self.globals@[last].name == n);
                    }
                }
            },
        }
    }

    /// Applies one registry event.
    pub fn apply(&mut self, e: RegistryEvent)
        requires
            old(self).wf(),
        ensures
            final(self).wf(),
            final(self)@ == apply_event(old(self)@, e),
    {
        match e {
            RegistryEvent::Global { name, interface, version } => {
                self.on_global(name, interface, version)
            },
            RegistryEvent::GlobalRemove { name } => self.on_global_remove(name),
        }
    }

    /// Applies the events in the order in which they arrived.
    pub fn apply_all(&mut self, events: Vec<RegistryEvent>)
        requires
            old(self).wf(),
        ensures
            final(self).wf(),
            final(self)@ == apply_events(old(self)@, events@),
    {
        let ghost start = self@;
        let ghost all = events@;
        let mut rest = events;
        let mut k: usize = 0;
        let n = rest.len();
        while k < n
            invariant
                self.wf(),
                n == all.len(),
                k <= n,
                rest@ == all.subrange(k as int, n as int),
                self@ == apply_events(start, all.subrange(0, k as int)),
            decreases n - k,
        {
            let e = rest.remove(0);
            assert(all.subrange(0, k + 1).drop_last() =~= all.subrange(0, k as int));
            assert(e == all[k as int]);
            self.apply(e);
            k = k + 1;
            assert(rest@ =~= all.subrange(k as int, n as int));
        }
        assert(all.subrange(0, n as int) =~= all);
    }

    /// Forgets the global advertised under `name`, if any.
    pub fn on_global_remove(&mut self, name: u32)
        requires
            old(self).wf(),
        ensures
            final(self).wf(),
            final(self)@ == old(self)@.remove(name),
    {
        match self.position(name) {
            Some(i) => {
                let _ = self.globals.remove(i);
                self.model = Ghost(self.model@.remove(name));
                assert forall|a: int, b: int|
                    0 <= a < b < self.globals@.len() implies self.globals@[a].name
                    != self.globals@[b].name by {
                    let oa = if a < i { a } else { a + 1 };
                    let ob = if b < i { b } else { b + 1 };
                    assert(self.globals@[a] == old(self).globals@[oa]);
                    assert(self.globals@[b] == old(self).globals@[ob]);
                }
                assert forall|k: int|
                    0 <= k < self.globals@.len() implies #[trigger] self.model@.contains_key(
                    self.globals@[k].name,
                ) && self.model@[self.globals@[k].name] == (
                    self.globals@[k].interface@,
                    self.globals@[k].version,
                ) by {
                    let ok = if k < i { k } else { k + 1 };
                    assert(self.globals@[k] == old(self).globals@[ok]);
                    assert(old(self).model@.contains_key(old(self).globals@[ok].name));
                }
                assert forall|n: u32| #[trigger] self.model@.contains_key(n) implies exists|k: int|
                    0 <= k < self.globals@.len() && self.globals@[k].name == n by {
                    assert(old(self).model@.contains_key(n));
                    let ok = choose|k: int|
                        0 <= k < old(self).globals@.len() && old(self).globals@[k].name == n;
                    let k = if ok < i { ok } else { ok - 1 };
                    assert(self.globals@[k] == old(self).globals@[ok]);
                }
            },
            None => {
                assert(self.model@.remove(name) =~= self.model@);
            },
        }
    }
}

impl Registry {
    /// The advertised global of the interface with the highest version that is
    /// at least `min`; it is bound at that version, capped at `max`.
    pub fn bind(&self, interface: &String, min: u32, max: u32) -> (r: Result<Binding, BindError>)
        requires
            self.wf(),
            min <= max,
        ensures
            bind_result(self@, interface@, min, max, r),
            r.is_ok() <==> exists|n: u32| usable(self@, interface@, min, n),
    {
        let mut seen = false;
        let mut best: Option<usize> = None;
        let mut i: usize = 0;
        while i < self.globals.len()
            invariant
                self.wf(),
                min <= max,
                i <= self.globals@.len(),
                seen <==> exists|k: int|
                    0 <= k < i && #[trigger] self.globals@[k].interface@ == interface@,
                match best {
                    Some(b) => {
                        &&& b < i
                        &&& self.globals@[b as int].interface@ == interface@
                        &&& self.globals@[b as int].version >= min
                        &&& forall|k: int|
                            0 <= k < i && #[trigger] self.globals@[k].interface@ == interface@
                                && self.globals@[k].version >= min ==> self.globals@[k].version
                                <= self.globals@[b as int].version
                    },
                    None => forall|k: int|
                        0 <= k < i && #[trigger] self.globals@[k].interface@ == interface@
                            ==> self.globals@[k].version < min,
                },
            decreases self.globals@.len() - i,
        {
            let g = &self.globals[i];
            if g.interface == *interface {
                seen = true;
                if g.version >= min {
                    match best {
                        Some(b) => {
                            if g.version > self.globals[b].version {
                                best = Some(i);
                            }
                        },
                        None => {
                            best = Some(i);
                        },
                    }
                }
            }
            i = i + 1;
        }
        proof {
            self.lemma_model_entries();
        }
        match best {
            Some(b) => {
                let g = &self.globals[b];
                let version = if g.version < max {
                    g.version
                } else {
                    max
                };
                proof {
                    assert(self@.contains_key(g.name));
                    assert forall|n: u32| #[trigger] usable(self@, interface@, min, n) implies self@[n].1
                        <= self@[g.name].1 by {
                        let k = choose|k: int|
                            0 <= k < self.globals@.len() && self.globals@[k].name == n;
                        assert(self.globals@[k].interface@ == interface@);
                    }
                }
                Ok(Binding { name: g.name, version })
            },
            None => {
                if seen {
                    proof {
                        let k = choose|k: int|
                            0 <= k < i && #[trigger] self.globals@[k].interface@ == interface@;
                        assert(self@.contains_key(self.globals@[k].name));
                        assert(self@[self.globals@[k].name].0 == interface@);
                        assert forall|n: u32| !#[trigger] usable(self@, interface@, min, n) by {
                            if self@.contains_key(n) {
                                let k = choose|k: int|
                                    0 <= k < self.globals@.len() && self.globals@[k].name == n;
                                assert(self.globals@[k].interface@ == self@[n].0);
                            }
                        }
                    }
                    Err(BindError::VersionMismatch)
                } else {
                    proof {
                        assert forall|n: u32| self@.contains_key(n) implies #[trigger] self@[n].0
                            != interface@ by {
                            let k = choose|k: int|
                                0 <= k < self.globals@.len() && self.globals@[k].name == n;
                            assert(self.globals@[k].interface@ == self@[n].0);
                        }
                    }
                    Err(BindError::NotFound)
                }
            },
        }
    }

    proof fn lemma_model_entries(&self)
        requires
            self.wf(),
        ensures
            forall|n: u32|
                #[trigger] self@.contains_key(n) ==> exists|k: int|
                    0 <= k < self.globals@.len() && self.globals@[k].name == n
                        && self@[n] == (self.globals@[k].interface@, self.globals@[k].version),
    {
        assert forall|n: u32| #[trigger] self@.contains_key(n) implies exists|k: int|
            0 <= k < self.globals@.len() && self.globals@[k].name == n && self@[n] == (
                self.globals@[k].interface@,
                self.globals@[k].version,
            ) by {
            let k = choose|k: int| 0 <= k < self.globals@.len() && self.globals@[k].name == n;
            assert(self.model@.contains_key(self.globals@[k].name));
        }
    }

    /// Fails with `GlobalGone` exactly when the bound global has been withdrawn.
    pub fn confirm(&self, binding: &Binding) -> (r: Result<(), BindError>)
        requires
            self.wf(),
        ensures
            r == (if self@.contains_key(binding.name) {
                Ok::<(), BindError>(())
            } else {
                Err(BindError::GlobalGone)
            }),
    {
        match self.position(binding.name) {
            Some(i) => {
                proof {
                    assert(self.model@.contains_key(self.globals@[i as int].name));
                }
                Ok(())
            },
            None => Err(BindError::GlobalGone),
        }
    }

    /// The entries, each standing for one key of the model.
    pub fn entries(&self) -> (r: &Vec<Global>)
        requires
            self.wf(),
        ensures
            forall|i: int|
                0 <= i < r@.len() ==> #[trigger] self@.contains_key(r@[i].name) && self@[r@[i].name]
                    == (r@[i].interface@, r@[i].version),
            forall|n: u32|
                #[trigger] self@.contains_key(n) ==> exists|i: int|
                    0 <= i < r@.len() && r@[i].name == n,
    {
        let r = &self.globals;
        assert forall|i: int| 0 <= i < r@.len() implies #[trigger] self@.contains_key(r@[i].name)
            && self@[r@[i].name] == (r@[i].interface@, r@[i].version) by {
            assert(self.model@.contains_key(self.globals@[i].name));
        }
        r
    }
}

} // verus!
