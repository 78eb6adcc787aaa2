use play_wayland::client::{bind_required, Client, Message};
use play_wayland::present::{BufferState, PresentError, Presenter, Request};
use play_wayland::registry::Binding;
use play_wayland::shm::{BufferDescriptor, PixelFormat, Pool};

fn advertise(name: u32, interface: &str, version: u32) -> Message {
    Message::Global { name, interface: String::from(interface), version }
}

fn commits(reqs: &[Request]) -> usize {
    reqs.iter().filter(|r| **r == Request::Commit).count()
}

#[test]
fn end_to_end_two_commits_around_configure() {
    let mut client = Client::new();

    // Global enumeration, made synchronous by a round trip.
    client.begin_roundtrip(1);
    let mut queue = vec![
        advertise(1, "wl_shm", 1),
        advertise(2, "wl_compositor", 5),
        advertise(3, "xdg_wm_base", 4),
        Message::Done { callback: 1 },
    ];
    assert!(client.dispatch_until_barrier(&mut queue));
    assert!(queue.is_empty());
    assert_eq!(client.take_requests(), vec![Request::Sync { callback: 1 }]);

    let caps = bind_required(&client.registry).unwrap();
    assert_eq!(caps.shm, Binding { name: 1, version: 1 });
    assert_eq!(caps.compositor, Binding { name: 2, version: 5 });
    assert_eq!(caps.shell, Binding { name: 3, version: 4 });

    // Format discovery.
    client.begin_roundtrip(2);
    let mut queue = vec![Message::ShmFormat { format: 1 }, Message::Done { callback: 2 }];
    assert!(client.dispatch_until_barrier(&mut queue));
    client.take_requests();

    let desc = BufferDescriptor { width: 512, height: 512, stride: 2048, format: PixelFormat::Xrgb8888 };
    let mut pool = Pool::new(desc.size()).unwrap();
    let buffer = pool.carve_buffer(0, desc, &client.shm).unwrap();

    let mut out = Vec::new();
    client.presenter.create_surface(&mut out).unwrap();
    client.presenter.create_shell_surface(&mut out).unwrap();
    client.presenter.create_toplevel(&mut out).unwrap();
    client.presenter.attach(buffer, &mut out).unwrap();
    assert_eq!(commits(&out), 0);
    client.presenter.initial_commit(&mut out).unwrap();
    assert_eq!(
        out,
        vec![
            Request::CreateSurface,
            Request::GetShellSurface,
            Request::GetToplevel,
            Request::Attach { buffer },
            Request::Commit,
        ]
    );
    assert_eq!(client.presenter.front, BufferState::Attached);

    client.dispatch(Message::Configure { serial: 77 });
    let sent = client.take_requests();
    assert_eq!(sent, vec![Request::AckConfigure { serial: 77 }, Request::Commit]);
    out.extend(sent);
    assert_eq!(commits(&out), 2);
    assert_eq!(client.presenter.front, BufferState::Presented);
}

#[test]
fn round_trip_waits_for_delayed_reply() {
    let mut client = Client::new();
    client.begin_roundtrip(5);
    let mut first = vec![advertise(1, "wl_shm", 1), Message::Done { callback: 4 }];
    assert!(!client.dispatch_until_barrier(&mut first));
    assert!(first.is_empty());
    assert!(!client.roundtrip_done());
    let mut second = vec![
        Message::ShmFormat { format: 0 },
        Message::Done { callback: 5 },
        advertise(9, "wl_output", 2),
    ];
    assert!(client.dispatch_until_barrier(&mut second));
    assert!(client.roundtrip_done());
    assert_eq!(client.shm.formats, vec![0]);
    assert_eq!(client.registry.entries().len(), 1);
    assert_eq!(second.len(), 1);
    assert!(matches!(second[0], Message::Global { name: 9, .. }));
}

#[test]
fn missing_shell_fails_setup() {
    let mut client = Client::new();
    client.dispatch(advertise(1, "wl_shm", 1));
    client.dispatch(advertise(2, "wl_compositor", 5));
    assert_eq!(
        bind_required(&client.registry),
        Err(play_wayland::registry::BindError::NotFound)
    );
}

#[test]
fn presented_buffer_is_busy_until_released() {
    let desc = BufferDescriptor { width: 4, height: 4, stride: 16, format: PixelFormat::Argb8888 };
    let buffer = play_wayland::shm::Buffer { offset: 0, desc };
    let mut p = Presenter::new();
    let mut out = Vec::new();
    p.create_surface(&mut out).unwrap();
    p.create_shell_surface(&mut out).unwrap();
    p.create_toplevel(&mut out).unwrap();
    p.attach(buffer, &mut out).unwrap();
    p.initial_commit(&mut out).unwrap();
    p.on_configure(3, &mut out);
    assert!(!p.can_write());
    assert_eq!(p.attach(buffer, &mut out), Err(PresentError::BufferBusy));
    p.on_buffer_release();
    assert_eq!(p.front, BufferState::Released);
    assert!(p.can_write());
    assert_eq!(p.attach(buffer, &mut out), Ok(()));
    assert_eq!(p.commit_frame(&mut out), Ok(()));
    assert_eq!(commits(&out), 3);
}

#[test]
fn configure_before_initial_commit_is_ignored() {
    let mut p = Presenter::new();
    let mut out = Vec::new();
    p.create_surface(&mut out).unwrap();
    p.create_shell_surface(&mut out).unwrap();
    p.create_toplevel(&mut out).unwrap();
    p.on_configure(1, &mut out);
    assert_eq!(out.len(), 3);
    assert_eq!(p.commit_frame(&mut out), Err(PresentError::OutOfOrder));
}

#[test]
fn roles_need_their_parents() {
    let mut p = Presenter::new();
    let mut out = Vec::new();
    assert_eq!(p.create_shell_surface(&mut out), Err(PresentError::MissingParent));
    assert_eq!(p.create_toplevel(&mut out), Err(PresentError::MissingParent));
    assert_eq!(p.initial_commit(&mut out), Err(PresentError::MissingParent));
    p.create_surface(&mut out).unwrap();
    assert_eq!(p.create_surface(&mut out), Err(PresentError::AlreadyExists));
    p.create_shell_surface(&mut out).unwrap();
    p.create_toplevel(&mut out).unwrap();
    p.destroy_surface(&mut out);
    assert!(!p.surface && !p.shell_surface && !p.toplevel);
    assert_eq!(
        out[out.len() - 3..].to_vec(),
        vec![Request::DestroyToplevel, Request::DestroyShellSurface, Request::DestroySurface]
    );
}

#[test]
fn ping_close_and_unknown_events() {
    let mut client = Client::new();
    client.dispatch(Message::Ping { serial: 11 });
    client.dispatch(Message::Unknown);
    client.dispatch(Message::ToplevelConfigure { width: 640, height: 480 });
    assert!(!client.exit);
    assert_eq!(client.take_requests(), vec![Request::Pong { serial: 11 }]);
    client.dispatch(Message::Close);
    assert!(client.exit);
}

#[test]
fn shutdown_and_transport_failure_stop_the_loop() {
    let mut client = Client::new();
    client.shutdown();
    assert!(client.exit);
    let mut other = Client::new();
    assert_eq!(
        other.on_transport_failure(),
        play_wayland::client::DispatchError::ConnectionLost
    );
    assert!(other.exit);
}

#[test]
fn loop_stops_at_close_and_keeps_the_rest_queued() {
    let mut client = Client::new();
    let mut queue = vec![
        Message::Ping { serial: 2 },
        Message::Close,
        advertise(4, "wl_seat", 7),
    ];
    assert!(client.dispatch_until_exit(&mut queue));
    assert_eq!(queue.len(), 1);
    assert_eq!(client.take_requests(), vec![Request::Pong { serial: 2 }]);
    assert!(client.registry.entries().is_empty());

    let mut calm = Client::new();
    let mut queue = vec![advertise(4, "wl_seat", 7), Message::Unknown];
    assert!(!calm.dispatch_until_exit(&mut queue));
    assert!(queue.is_empty());
    assert_eq!(calm.registry.entries().len(), 1);
}
