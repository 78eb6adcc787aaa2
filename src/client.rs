use vstd::prelude::*;
use vstd::string::*;
use crate::present::{BufferState, Phase, Presenter, Request};
use crate::registry::{bind_result, usable, BindError, Binding, Registry};
use crate::shm::Shm;

verus! {

/// An event from the compositor, decoded into the variant of the interface
/// that sent it.
pub enum Message {
    /// The registry advertises a global.
    Global { name: u32, interface: String, version: u32 },
    /// The registry withdraws a global.
    GlobalRemove { name: u32 },
    /// The shared-memory service supports a pixel format.
    ShmFormat { format: u32 },
    /// The shell checks that the client is alive.
    Ping { serial: u32 },
    /// The shell surface asks for its state to be acknowledged.
    Configure { serial: u32 },
    /// The top-level window's suggested size.
    ToplevelConfigure { width: i32, height: i32 },
    /// The user asked for the window to close.
    Close,
    /// The compositor no longer reads the presented buffer.
    BufferRelease,
    /// A sync callback fired: every earlier request has been handled.
    Done { callback: u32 },
    /// An event this client does not know, from a newer protocol version.
    Unknown,
}

/// A fatal condition of the connection.
#[derive(Debug, Clone, Copy, PartialEq, Eq, Structural)]
pub enum DispatchError {
    /// The transport failed, or the server stayed silent past the deadline.
    ConnectionLost,
}

/// The globals a presentable session needs, as bound.
#[derive(Debug, Clone, Copy, PartialEq, Eq, Structural)]
pub struct Capabilities {
    pub shm: Binding,
    pub compositor: Binding,
    pub shell: Binding,
}

/// Interface of the shared-memory service.
pub open spec fn shm_interface() -> Seq<char> {
    "wl_shm"@
}

/// Interface of the surface compositor.
pub open spec fn compositor_interface() -> Seq<char> {
    "wl_compositor"@
}

/// Interface of the shell.
pub open spec fn shell_interface() -> Seq<char> {
    "xdg_wm_base"@
}

/// A registry model offers `iface` at version `v` or above.
pub open spec fn offers(m: Map<u32, (Seq<char>, u32)>, iface: Seq<char>, v: u32) -> bool {
    exists|n: u32| usable(m, iface, v, n)
}

/// Binds the shared-memory service at version 1, the compositor at version 5
/// and the shell at version 4, in that order; the first that fails decides
/// the error.
pub fn bind_required(registry: &Registry) -> (r: Result<Capabilities, BindError>)
    requires
        registry.wf(),
    ensures
        r is Ok <==> offers(registry@, shm_interface(), 1) && offers(
            registry@,
            compositor_interface(),
            5,
        ) && offers(registry@, shell_interface(), 4),
        match r {
            Ok(c) => {
                &&& bind_result(registry@, shm_interface(), 1, 1, Ok(c.shm))
                &&& bind_result(registry@, compositor_interface(), 5, 5, Ok(c.compositor))
                &&& bind_result(registry@, shell_interface(), 4, 4, Ok(c.shell))
            },
            Err(e) => if !offers(registry@, shm_interface(), 1) {
                bind_result(registry@, shm_interface(), 1, 1, Err(e))
            } else if !offers(registry@, compositor_interface(), 5) {
                bind_result(registry@, compositor_interface(), 5, 5, Err(e))
            } else {
                bind_result(registry@, shell_interface(), 4, 4, Err(e))
            },
        },
{
    let shm_name = String::from_str("wl_shm");
    let compositor_name = String::from_str("wl_compositor");
    let shell_name = String::from_str("xdg_wm_base");
    let shm = match registry.bind(&shm_name, 1, 1) {
        Ok(b) => b,
        Err(e) => return Err(e),
    };
    let compositor = match registry.bind(&compositor_name, 5, 5) {
        Ok(b) => b,
        Err(e) => return Err(e),
    };
    let shell = match registry.bind(&shell_name, 4, 4) {
        Ok(b) => b,
        Err(e) => return Err(e),
    };
    Ok(Capabilities { shm, compositor, shell })
}

/// The message is the done event of `callback`.
pub open spec fn is_done(msg: Message, callback: u32) -> bool {
    msg matches Message::Done { callback: c } && c == callback
}

/// The presenter after a message.
pub open spec fn presenter_after(p: Presenter, msg: Message) -> Presenter {
    match msg {
        Message::Configure { .. } => if p.phase == Phase::Building {
            p
        } else if p.front == BufferState::Attached {
            Presenter { phase: Phase::Configured, front: BufferState::Presented, ..p }
        } else {
            Presenter { phase: Phase::Configured, ..p }
        },
        Message::BufferRelease => if p.front == BufferState::Presented {
            Presenter { front: BufferState::Released, ..p }
        } else {
            p
        },
        _ => p,
    }
}

/// The requests a message adds to those waiting to be sent.
pub open spec fn replies(p: Presenter, msg: Message) -> Seq<Request> {
    match msg {
        Message::Ping { serial } => seq![Request::Pong { serial }],
        Message::Configure { serial } => if p.phase == Phase::Building {
            Seq::empty()
        } else if p.front == BufferState::Attached {
            seq![Request::AckConfigure { serial }, Request::Commit]
        } else {
            seq![Request::AckConfigure { serial }]
        },
        _ => Seq::empty(),
    }
}

/// The connection's state, owned by the dispatch loop and handed to each
/// handler: the registry, the advertised formats, the presentation chain,
/// the requests waiting to be sent, the round trip in flight and the exit flag.
pub struct Client {
    pub registry: Registry,
    pub shm: Shm,
    pub presenter: Presenter,
    pub outbox: Vec<Request>,
    pub pending_sync: Option<u32>,
    pub exit: bool,
    /// Every message dispatched so far, in order.
    pub dispatched: Ghost<Seq<Message>>,
}

impl Client {
    pub open spec fn wf(&self) -> bool {
        self.registry.wf() && self.presenter.wf()
    }

    pub fn new() -> (r: Client)
        ensures
            r.wf(),
            r.registry@ == Map::<u32, (Seq<char>, u32)>::empty(),
            r.shm.formats@ == Seq::<u32>::empty(),
            r.presenter == Presenter::new_spec(),
            r.outbox@ == Seq::<Request>::empty(),
            r.pending_sync is None,
            !r.exit,
            r.dispatched@ == Seq::<Message>::empty(),
    {
        Client {
            registry: Registry::new(),
            shm: Shm::new(),
            presenter: Presenter::new(),
            outbox: Vec::new(),
            pending_sync: None,
            exit: false,
            dispatched: Ghost(Seq::empty()),
        }
    }

    /// Hands one message to the handler of its interface.
    pub fn dispatch(&mut self, msg: Message)
        requires
            old(self).wf(),
        ensures
            final(self).wf(),
            final(self).dispatched@ == old(self).dispatched@.push(msg),
            final(self).registry@ == match msg {
                Message::Global { name, interface, version } => old(self).registry@.insert(
                    name,
                    (interface@, version),
                ),
                Message::GlobalRemove { name } => old(self).registry@.remove(name),
                _ => old(self).registry@,
            },
            final(self).shm.formats@ == match msg {
                Message::ShmFormat { format } => old(self).shm.formats@.push(format),
                _ => old(self).shm.formats@,
            },
            final(self).presenter == presenter_after(old(self).presenter, msg),
            final(self).outbox@ == old(self).outbox@ + replies(old(self).presenter, msg),
            final(self).pending_sync == match old(self).pending_sync {
                Some(cb) => if is_done(msg, cb) {
                    None
                } else {
                    Some(cb)
                },
                None => None,
            },
            final(self).exit == (old(self).exit || msg is Close),
    {
        let ghost o = self.outbox@;
        proof {
            self.dispatched@ = self.dispatched@.push(msg);
        }
        match msg {
            Message::Global { name, interface, version } => {
                self.registry.on_global(name, interface, version);
                assert(self.outbox@ =~= o + Seq::<Request>::empty());
            },
            Message::GlobalRemove { name } => {
                self.registry.on_global_remove(name);
                assert(self.outbox@ =~= o + Seq::<Request>::empty());
            },
            Message::ShmFormat { format } => {
                self.shm.on_format(format);
                assert(self.outbox@ =~= o + Seq::<Request>::empty());
            },
            Message::Ping { serial } => {
                self.outbox.push(Request::Pong { serial });
                assert(self.outbox@ =~= o + seq![Request::Pong { serial }]);
            },
            Message::Configure { serial } => {
                self.presenter.on_configure(serial, &mut self.outbox);
                assert(self.outbox@ =~= o + replies(old(self).presenter, msg));
            },
            Message::ToplevelConfigure { .. } => {
                assert(self.outbox@ =~= o + Seq::<Request>::empty());
            },
            Message::Close => {
                self.exit = true;
                assert(self.outbox@ =~= o + Seq::<Request>::empty());
            },
            Message::BufferRelease => {
                self.presenter.on_buffer_release();
                assert(self.outbox@ =~= o + Seq::<Request>::empty());
            },
            Message::Done { callback } => {
                if let Some(cb) = self.pending_sync {
                    if cb == callback {
                        self.pending_sync = None;
                    }
                }
                assert(self.outbox@ =~= o + Seq::<Request>::empty());
            },
            Message::Unknown => {
                assert(self.outbox@ =~= o + Seq::<Request>::empty());
            },
        }
    }

    /// Starts a round trip: queues a sync request on `callback`.
    pub fn begin_roundtrip(&mut self, callback: u32)
        ensures
            final(self).pending_sync == Some(callback),
            final(self).outbox@ == old(self).outbox@.push(Request::Sync { callback }),
            final(self).registry == old(self).registry,
            final(self).shm == old(self).shm,
            final(self).presenter == old(self).presenter,
            final(self).exit == old(self).exit,
            final(self).dispatched == old(self).dispatched,
    {
        self.pending_sync = Some(callback);
        self.outbox.push(Request::Sync { callback });
    }

    /// Whether the round trip in flight, if any, has completed.
    pub fn roundtrip_done(&self) -> (r: bool)
        ensures
            r == self.pending_sync is None,
    {
        self.pending_sync.is_none()
    }

    /// Dispatches queued messages in arrival order until the done event of
    /// the round trip in flight. When it is reached, every message that
    /// arrived before it has been dispatched, and those after it stay queued;
    /// otherwise the queue is drained and the round trip is still in flight.
    pub fn dispatch_until_barrier(&mut self, queue: &mut Vec<Message>) -> (reached: bool)
        requires
            old(self).wf(),
            old(self).pending_sync is Some,
        ensures
            final(self).wf(),
            ({
                let cb = old(self).pending_sync->Some_0;
                let q = old(queue)@;
                &&& reached <==> exists|j: int| 0 <= j < q.len() && is_done(#[trigger] q[j], cb)
                &&& reached ==> exists|k: int|
                    0 <= k < q.len() && is_done(#[trigger] q[k], cb) && (forall|j: int|
                        0 <= j < k ==> !is_done(#[trigger] q[j], cb)) && final(queue)@
                        == q.subrange(k + 1, q.len() as int) && final(self).dispatched@ == old(self).dispatched@ + q.subrange(0, k + 1) && final(self).pending_sync is None
                &&& !reached ==> final(queue)@ == Seq::<Message>::empty() && final(self).dispatched@ == old(self).dispatched@ + q && final(self).pending_sync == Some(cb)
            }),
    {
        let ghost cb = self.pending_sync->Some_0;
        let ghost q = queue@;
        let ghost d = self.dispatched@;
        let n: usize = queue.len();
        let mut i: usize = 0;
        while queue.len() > 0
            invariant
                self.wf(),
                q == old(queue)@,
                cb == old(self).pending_sync->Some_0,
                d == old(self).dispatched@,
                i <= n,
                n == q.len(),
                queue@ == q.subrange(i as int, n as int),
                self.dispatched@ == d + q.subrange(0, i as int),
                self.pending_sync == Some(cb),
                forall|j: int| 0 <= j < i ==> !is_done(#[trigger] q[j], cb),
            decreases queue@.len(),
        {
            let msg = queue.remove(0);
            assert(msg == q[i as int]);
            let ghost before = self.pending_sync;
            self.dispatch(msg);
            assert(q.subrange(0, i + 1) =~= q.subrange(0, i as int).push(q[i as int]));
            i = i + 1;
            assert(queue@ =~= q.subrange(i as int, n as int));
            if self.pending_sync.is_none() {
                let ghost k = i - 1;
                assert(is_done(q[k], cb));
                assert(forall|j: int| 0 <= j < k ==> !is_done(#[trigger] q[j], cb));
                assert(self.dispatched@ == d + q.subrange(0, k + 1));
                assert(0 <= k < q.len() && is_done(q[k], cb) && (forall|j: int|
                    0 <= j < k ==> !is_done(#[trigger] q[j], cb)) && queue@ == q.subrange(
                    k + 1,
                    q.len() as int,
                ) && self.dispatched@ == d + q.subrange(0, k + 1) && self.pending_sync is None);
                assert(exists|j: int| 0 <= j < q.len() && is_done(#[trigger] q[j], cb));
                return true;
            }
            assert(!is_done(q[i - 1], cb));
        }
        assert(q.subrange(0, n as int) =~= q);
        false
    }

    /// Dispatches queued messages in arrival order until one of them raises
    /// the exit flag (a close request from the shell); the messages after it
    /// stay queued. Returns whether the loop is to stop.
    pub fn dispatch_until_exit(&mut self, queue: &mut Vec<Message>) -> (stop: bool)
        requires
            old(self).wf(),
            !old(self).exit,
        ensures
            final(self).wf(),
            stop == final(self).exit,
            ({
                let q = old(queue)@;
                &&& stop <==> exists|j: int| 0 <= j < q.len() && #[trigger] q[j] is Close
                &&& stop ==> exists|k: int|
                    0 <= k < q.len() && #[trigger] q[k] is Close && (forall|j: int|
                        0 <= j < k ==> !(#[trigger] q[j] is Close)) && final(queue)@ == q.subrange(
                        k + 1,
                        q.len() as int,
                    ) && final(self).dispatched@ == old(self).dispatched@ + q.subrange(0, k + 1)
                &&& !stop ==> final(queue)@ == Seq::<Message>::empty() && final(self).dispatched@
                    == old(self).dispatched@ + q
            }),
    {
        let ghost q = queue@;
        let ghost d = self.dispatched@;
        let n: usize = queue.len();
        let mut i: usize = 0;
        while queue.len() > 0
            invariant
                self.wf(),
                q == old(queue)@,
                d == old(self).dispatched@,
                i <= n,
                n == q.len(),
                queue@ == q.subrange(i as int, n as int),
                self.dispatched@ == d + q.subrange(0, i as int),
                !self.exit,
                forall|j: int| 0 <= j < i ==> !(#[trigger] q[j] is Close),
            decreases queue@.len(),
        {
            let msg = queue.remove(0);
            assert(msg == q[i as int]);
            self.dispatch(msg);
            assert(q.subrange(0, i + 1) =~= q.subrange(0, i as int).push(q[i as int]));
            i = i + 1;
            assert(queue@ =~= q.subrange(i as int, n as int));
            if self.exit {
                let ghost k = i - 1;
                assert(q[k] is Close);
                assert(forall|j: int| 0 <= j < k ==> !(#[trigger] q[j] is Close));
                return true;
            }
            assert(!(q[i - 1] is Close));
        }
        assert(q.subrange(0, n as int) =~= q);
        false
    }

    /// Asks the loop to stop after the message in hand.
    pub fn shutdown(&mut self)
        ensures
            final(self).exit,
            final(self).registry == old(self).registry,
            final(self).shm == old(self).shm,
            final(self).presenter == old(self).presenter,
            final(self).outbox == old(self).outbox,
            final(self).pending_sync == old(self).pending_sync,
            final(self).dispatched == old(self).dispatched,
    {
        self.exit = true;
    }

    /// A transport failure, or a deadline passed without word from the
    /// server: the loop stops and the connection counts as lost.
    pub fn on_transport_failure(&mut self) -> (r: DispatchError)
        ensures
            final(self).exit,
            r == DispatchError::ConnectionLost,
            final(self).registry == old(self).registry,
            final(self).shm == old(self).shm,
            final(self).presenter == old(self).presenter,
            final(self).outbox == old(self).outbox,
            final(self).pending_sync == old(self).pending_sync,
            final(self).dispatched == old(self).dispatched,
    {
        self.exit = true;
        DispatchError::ConnectionLost
    }

    /// Takes the requests waiting to be sent, in order, leaving none.
    pub fn take_requests(&mut self) -> (r: Vec<Request>)
        ensures
            r@ == old(self).outbox@,
            final(self).outbox@ == Seq::<Request>::empty(),
            final(self).registry == old(self).registry,
            final(self).shm == old(self).shm,
            final(self).presenter == old(self).presenter,
            final(self).pending_sync == old(self).pending_sync,
            final(self).exit == old(self).exit,
            final(self).dispatched == old(self).dispatched,
    {
        let mut r: Vec<Request> = Vec::new();
        core::mem::swap(&mut r, &mut self.outbox);
        r
    }
}

} // verus!
