use vstd::prelude::*;
use crate::shm::Buffer;

verus! {

/// Where a buffer stands with the compositor.
#[derive(Debug, Clone, Copy, PartialEq, Eq, Structural)]
pub enum BufferState {
    /// Not attached to the surface.
    Unattached,
    /// Attached; the commit that shows it has not been sent.
    Attached,
    /// Committed: the compositor may read it until it releases it.
    Presented,
    /// Released by the compositor: safe to write and attach again.
    Released,
}

/// Where the surface stands in the configure handshake.
#[derive(Debug, Clone, Copy, PartialEq, Eq, Structural)]
pub enum Phase {
    /// The initial commit has not been sent.
    Building,
    /// The initial commit is sent; no configure has come.
    AwaitingConfigure,
    /// A configure has been acknowledged.
    Configured,
}

/// A request for the compositor, in the order it must be sent.
#[derive(Debug, Clone, Copy, PartialEq, Eq, Structural)]
pub enum Request {
    CreateSurface,
    GetShellSurface,
    GetToplevel,
    /// Attach the buffer to the surface at (0, 0).
    Attach { buffer: Buffer },
    Commit,
    AckConfigure { serial: u32 },
    DestroyToplevel,
    DestroyShellSurface,
    DestroySurface,
    /// Answer to the shell's liveness ping.
    Pong { serial: u32 },
    /// Ask for a done event on the callback once all earlier requests are handled.
    Sync { callback: u32 },
}

/// Why a presentation step was refused.
#[derive(Debug, Clone, Copy, PartialEq, Eq, Structural)]
pub enum PresentError {
    /// The object the step builds on does not exist.
    MissingParent,
    /// The object already exists.
    AlreadyExists,
    /// The buffer on the surface is still presented and not released.
    BufferBusy,
    /// The step does not fit the handshake's current phase.
    OutOfOrder,
}

/// The surface, its shell surface and its top-level role, the buffer on the
/// surface, and where the configure handshake stands.
pub struct Presenter {
    pub surface: bool,
    pub shell_surface: bool,
    pub toplevel: bool,
    pub phase: Phase,
    pub front: BufferState,
}

impl Presenter {
    /// Each role exists only under its parent; the handshake starts only
    /// once the chain is complete.
    pub open spec fn wf(&self) -> bool {
        &&& self.toplevel ==> self.shell_surface
        &&& self.shell_surface ==> self.surface
        &&& self.phase != Phase::Building ==> self.toplevel
        &&& self.front != BufferState::Unattached ==> self.surface
    }

    pub fn new() -> (r: Presenter)
        ensures
            r.wf(),
            r == (Presenter {
                surface: false,
                shell_surface: false,
                toplevel: false,
                phase: Phase::Building,
                front: BufferState::Unattached,
            }),
    {
        Presenter {
            surface: false,
            shell_surface: false,
            toplevel: false,
            phase: Phase::Building,
            front: BufferState::Unattached,
        }
    }

    pub fn create_surface(&mut self, out: &mut Vec<Request>) -> (r: Result<(), PresentError>)
        requires
            old(self).wf(),
        ensures
            final(self).wf(),
            old(self).surface ==> r == Err::<(), PresentError>(PresentError::AlreadyExists)
                && *final(self) == *old(self) && final(out)@ == old(out)@,
            !old(self).surface ==> r is Ok && *final(self) == (Presenter {
                surface: true,
                ..*old(self)
            }) && final(out)@ == old(out)@.push(Request::CreateSurface),
    {
        if self.surface {
            return Err(PresentError::AlreadyExists);
        }
        self.surface = true;
        out.push(Request::CreateSurface);
        Ok(())
    }

    pub fn create_shell_surface(&mut self, out: &mut Vec<Request>) -> (r: Result<(), PresentError>)
        requires
            old(self).wf(),
        ensures
            final(self).wf(),
            !old(self).surface ==> r == Err::<(), PresentError>(PresentError::MissingParent),
            old(self).surface && old(self).shell_surface ==> r == Err::<(), PresentError>(
                PresentError::AlreadyExists,
            ),
            r is Err ==> *final(self) == *old(self) && final(out)@ == old(out)@,
            old(self).surface && !old(self).shell_surface ==> r is Ok && *final(self) == (
            Presenter { shell_surface: true, ..*old(self) }) && final(out)@ == old(out)@.push(
                Request::GetShellSurface,
            ),
    {
        if !self.surface {
            return Err(PresentError::MissingParent);
        }
        if self.shell_surface {
            return Err(PresentError::AlreadyExists);
        }
        self.shell_surface = true;
        out.push(Request::GetShellSurface);
        Ok(())
    }

    pub fn create_toplevel(&mut self, out: &mut Vec<Request>) -> (r: Result<(), PresentError>)
        requires
            old(self).wf(),
        ensures
            final(self).wf(),
            !old(self).shell_surface ==> r == Err::<(), PresentError>(PresentError::MissingParent),
            old(self).shell_surface && old(self).toplevel ==> r == Err::<(), PresentError>(
                PresentError::AlreadyExists,
            ),
            r is Err ==> *final(self) == *old(self) && final(out)@ == old(out)@,
            old(self).shell_surface && !old(self).toplevel ==> r is Ok && *final(self) == (
            Presenter { toplevel: true, ..*old(self) }) && final(out)@ == old(out)@.push(
                Request::GetToplevel,
            ),
    {
        if !self.shell_surface {
            return Err(PresentError::MissingParent);
        }
        if self.toplevel {
            return Err(PresentError::AlreadyExists);
        }
        self.toplevel = true;
        out.push(Request::GetToplevel);
        Ok(())
    }

    /// Attaches a buffer without committing it; refused while the buffer
    /// already on the surface is presented and not released.
    pub fn attach(&mut self, buffer: Buffer, out: &mut Vec<Request>) -> (r: Result<(), PresentError>)
        requires
            old(self).wf(),
        ensures
            final(self).wf(),
            !old(self).surface ==> r == Err::<(), PresentError>(PresentError::MissingParent),
            old(self).surface && old(self).front == BufferState::Presented ==> r == Err::<
                (),
                PresentError,
            >(PresentError::BufferBusy),
            r is Err ==> *final(self) == *old(self) && final(out)@ == old(out)@,
            old(self).surface && old(self).front != BufferState::Presented ==> r is Ok && *final(self) == (Presenter { front: BufferState::Attached, ..*old(self) }) && final(out)@ == old(out)@.push(Request::Attach { buffer }),
    {
        if !self.surface {
            return Err(PresentError::MissingParent);
        }
        if self.front == BufferState::Presented {
            return Err(PresentError::BufferBusy);
        }
        self.front = BufferState::Attached;
        out.push(Request::Attach { buffer });
        Ok(())
    }

    /// The first commit: it carries the role chain, and the buffer stays
    /// unpresented until the configure handshake is done.
    pub fn initial_commit(&mut self, out: &mut Vec<Request>) -> (r: Result<(), PresentError>)
        requires
            old(self).wf(),
        ensures
            final(self).wf(),
            !old(self).toplevel ==> r == Err::<(), PresentError>(PresentError::MissingParent),
            old(self).toplevel && old(self).phase != Phase::Building ==> r == Err::<
                (),
                PresentError,
            >(PresentError::OutOfOrder),
            r is Err ==> *final(self) == *old(self) && final(out)@ == old(out)@,
            old(self).toplevel && old(self).phase == Phase::Building ==> r is Ok && *final(self)
                == (Presenter { phase: Phase::AwaitingConfigure, ..*old(self) }) && final(out)@
                == old(out)@.push(Request::Commit),
    {
        if !self.toplevel {
            return Err(PresentError::MissingParent);
        }
        if self.phase != Phase::Building {
            return Err(PresentError::OutOfOrder);
        }
        self.phase = Phase::AwaitingConfigure;
        out.push(Request::Commit);
        Ok(())
    }

    /// A configure from the shell: it is acknowledged, and a buffer attached
    /// but not yet shown is committed right after the acknowledgement. One
    /// that comes before the initial commit breaks the protocol and is ignored.
    pub fn on_configure(&mut self, serial: u32, out: &mut Vec<Request>)
        requires
            old(self).wf(),
        ensures
            final(self).wf(),
            old(self).phase == Phase::Building ==> *final(self) == *old(self) && final(out)@
                == old(out)@,
            old(self).phase != Phase::Building && old(self).front == BufferState::Attached ==> *final(self) == (Presenter {
                phase: Phase::Configured,
                front: BufferState::Presented,
                ..*old(self)
            }) && final(out)@ == old(out)@.push(Request::AckConfigure { serial }).push(
                Request::Commit,
            ),
            old(self).phase != Phase::Building && old(self).front != BufferState::Attached ==> *final(self) == (Presenter { phase: Phase::Configured, ..*old(self) }) && final(out)@ == old(out)@.push(Request::AckConfigure { serial }),
    {
        if self.phase == Phase::Building {
            return;
        }
        out.push(Request::AckConfigure { serial });
        self.phase = Phase::Configured;
        if self.front == BufferState::Attached {
            out.push(Request::Commit);
            self.front = BufferState::Presented;
        }
    }

    /// Shows a newly attached buffer once the surface is configured.
    pub fn commit_frame(&mut self, out: &mut Vec<Request>) -> (r: Result<(), PresentError>)
        requires
            old(self).wf(),
        ensures
            final(self).wf(),
            old(self).phase == Phase::Configured && old(self).front == BufferState::Attached ==> r is Ok
                && *final(self) == (Presenter { front: BufferState::Presented, ..*old(self) })
                && final(out)@ == old(out)@.push(Request::Commit),
            !(old(self).phase == Phase::Configured && old(self).front == BufferState::Attached) ==> r
                == Err::<(), PresentError>(PresentError::OutOfOrder) && *final(self) == *old(self)
                && final(out)@ == old(out)@,
    {
        if self.phase != Phase::Configured || self.front != BufferState::Attached {
            return Err(PresentError::OutOfOrder);
        }
        self.front = BufferState::Presented;
        out.push(Request::Commit);
        Ok(())
    }

    /// The compositor released the presented buffer.
    pub fn on_buffer_release(&mut self)
        requires
            old(self).wf(),
        ensures
            final(self).wf(),
            old(self).front == BufferState::Presented ==> *final(self) == (Presenter {
                front: BufferState::Released,
                ..*old(self)
            }),
            old(self).front != BufferState::Presented ==> *final(self) == *old(self),
    {
        if self.front == BufferState::Presented {
            self.front = BufferState::Released;
        }
    }

    /// Whether the buffer on the surface may be written: not while presented.
    pub fn can_write(&self) -> (r: bool)
        ensures
            r == (self.front != BufferState::Presented),
    {
        self.front != BufferState::Presented
    }

    /// Destroys the surface and with it every role built on it, children first.
    pub fn destroy_surface(&mut self, out: &mut Vec<Request>)
        requires
            old(self).wf(),
        ensures
            final(self).wf(),
            *final(self) == Presenter::new_spec(),
            final(out)@ == old(out)@ + (if old(self).toplevel {
                seq![Request::DestroyToplevel]
            } else {
                Seq::empty()
            }) + (if old(self).shell_surface {
                seq![Request::DestroyShellSurface]
            } else {
                Seq::empty()
            }) + (if old(self).surface {
                seq![Request::DestroySurface]
            } else {
                Seq::empty()
            }),
    {
        let ghost o = out@;
        if self.toplevel {
            out.push(Request::DestroyToplevel);
        }
        let ghost o1 = out@;
        if self.shell_surface {
            out.push(Request::DestroyShellSurface);
        }
        let ghost o2 = out@;
        if self.surface {
            out.push(Request::DestroySurface);
        }
        assert(o1 =~= o + (if self.toplevel {
            seq![Request::DestroyToplevel]
        } else {
            Seq::empty()
        }));
        assert(o2 =~= o1 + (if self.shell_surface {
            seq![Request::DestroyShellSurface]
        } else {
            Seq::empty()
        }));
        assert(out@ =~= o2 + (if self.surface {
            seq![Request::DestroySurface]
        } else {
            Seq::empty()
        }));
        *self = Presenter::new();
    }

    pub open spec fn new_spec() -> Presenter {
        Presenter {
            surface: false,
            shell_surface: false,
            toplevel: false,
            phase: Phase::Building,
            front: BufferState::Unattached,
        }
    }
}

} // verus!
