use play_wayland::registry::{BindError, Binding, Registry, RegistryEvent};

fn global(name: u32, interface: &str, version: u32) -> RegistryEvent {
    RegistryEvent::Global { name, interface: String::from(interface), version }
}

fn sorted(reg: &Registry) -> Vec<(u32, String, u32)> {
    let mut v: Vec<(u32, String, u32)> = reg
        .entries()
        .iter()
        .map(|g| (g.name, g.interface.clone(), g.version))
        .collect();
    v.sort();
    v
}

#[test]
fn events_apply_in_arrival_order() {
    let mut reg = Registry::new();
    reg.apply_all(vec![
        global(1, "wl_shm", 1),
        global(2, "wl_compositor", 4),
        RegistryEvent::GlobalRemove { name: 1 },
        global(2, "wl_compositor", 5),
        global(3, "xdg_wm_base", 4),
    ]);
    assert_eq!(
        sorted(&reg),
        vec![(2, String::from("wl_compositor"), 5), (3, String::from("xdg_wm_base"), 4)]
    );
}

#[test]
fn readvertised_name_is_replaced_not_duplicated() {
    let mut reg = Registry::new();
    reg.on_global(7, String::from("wl_seat"), 3);
    reg.on_global(7, String::from("wl_output"), 2);
    assert_eq!(sorted(&reg), vec![(7, String::from("wl_output"), 2)]);
}

#[test]
fn removing_unknown_name_changes_nothing() {
    let mut reg = Registry::new();
    reg.on_global(1, String::from("wl_shm"), 1);
    reg.on_global_remove(9);
    assert_eq!(sorted(&reg), vec![(1, String::from("wl_shm"), 1)]);
}

#[test]
fn bind_below_minimum_is_version_mismatch() {
    let mut reg = Registry::new();
    reg.on_global(2, String::from("wl_compositor"), 4);
    assert_eq!(reg.bind(&String::from("wl_compositor"), 5, 5), Err(BindError::VersionMismatch));
}

#[test]
fn bind_absent_interface_is_not_found() {
    let mut reg = Registry::new();
    reg.on_global(2, String::from("wl_compositor"), 5);
    assert_eq!(reg.bind(&String::from("wl_shm"), 1, 1), Err(BindError::NotFound));
}

#[test]
fn bind_caps_version_at_maximum_and_picks_highest() {
    let mut reg = Registry::new();
    reg.on_global(4, String::from("wl_output"), 2);
    reg.on_global(5, String::from("wl_output"), 6);
    reg.on_global(6, String::from("wl_output"), 3);
    assert_eq!(reg.bind(&String::from("wl_output"), 2, 4), Ok(Binding { name: 5, version: 4 }));
    assert_eq!(reg.bind(&String::from("wl_output"), 1, 9), Ok(Binding { name: 5, version: 6 }));
}

#[test]
fn withdrawn_global_is_gone() {
    let mut reg = Registry::new();
    reg.on_global(3, String::from("xdg_wm_base"), 4);
    let b = reg.bind(&String::from("xdg_wm_base"), 4, 4).unwrap();
    assert_eq!(reg.confirm(&b), Ok(()));
    reg.on_global_remove(3);
    assert_eq!(reg.confirm(&b), Err(BindError::GlobalGone));
}
