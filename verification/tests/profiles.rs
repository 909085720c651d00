use drift::profiles::{
    deletion_ops, secret_ops, LinuxPasswordUpdate, ProfileFile, SecretOp, SecretRole, SecretsUpdate, PROFILES_FILE,
};
use drift::secrets::{MemorySecretStore, SecretError};
use drift::view::ConnectMode;

/// The passwords of the one profile these tests save.
struct Store {
    store: MemorySecretStore,
    value: Option<String>,
}

impl Store {
    fn new() -> Self {
        Store { store: MemorySecretStore::new(), value: None }
    }
}

const ID: u128 = 0x1234;

fn update(rdp: Option<&str>, linux: LinuxPasswordUpdate) -> SecretsUpdate {
    SecretsUpdate { rdp_password: rdp.map(Into::into), linux_password: linux }
}

/// Saves a profile in `mode` (previously saved in `previous`) against `store`.
fn save(store: &mut Store, mode: ConnectMode, previous: Option<ConnectMode>, u: SecretsUpdate) {
    let ops = secret_ops(mode, previous, u);
    store.store.apply(ID, &ops);
}

fn secret(store: &mut Store, role: SecretRole) -> Option<&str> {
    store.value = store.store.get(ID, role);
    store.value.as_deref()
}

#[test]
fn remote_login_stores_system_rdp_credentials_and_opt_in_linux_password() {
    let mut s = Store::new();
    let m = ConnectMode::RemoteLogin;

    // Without opt-in: only the system RDP password.
    save(&mut s, m, None, update(Some("sys-Fake1"), LinuxPasswordUpdate::Keep));
    assert_eq!(secret(&mut s, SecretRole::RdpSystem), Some("sys-Fake1"));
    assert_eq!(secret(&mut s, SecretRole::RdpUser), None);
    assert_eq!(secret(&mut s, SecretRole::LinuxLogin), None);

    // Opt in.
    save(&mut s, m, Some(m), update(None, LinuxPasswordUpdate::Store("lx-Fake1".into())));
    assert_eq!(secret(&mut s, SecretRole::RdpSystem), Some("sys-Fake1"), "None keeps the RDP password");
    assert_eq!(secret(&mut s, SecretRole::LinuxLogin), Some("lx-Fake1"));

    // Empty strings mean "unchanged".
    save(&mut s, m, Some(m), update(Some(""), LinuxPasswordUpdate::Store(String::new())));
    assert_eq!(secret(&mut s, SecretRole::RdpSystem), Some("sys-Fake1"));
    assert_eq!(secret(&mut s, SecretRole::LinuxLogin), Some("lx-Fake1"));

    // Opt out.
    save(&mut s, m, Some(m), update(None, LinuxPasswordUpdate::Forget));
    assert_eq!(secret(&mut s, SecretRole::LinuxLogin), None);
}

#[test]
fn headless_and_sharing_store_one_rdp_credential_and_never_a_linux_password() {
    for mode in [ConnectMode::Headless, ConnectMode::DesktopSharing] {
        let mut s = Store::new();
        save(&mut s, mode, None, update(Some("d-Fake1"), LinuxPasswordUpdate::Store("lx".into())));
        assert_eq!(secret(&mut s, SecretRole::RdpUser), Some("d-Fake1"));
        assert_eq!(secret(&mut s, SecretRole::RdpSystem), None);
        assert_eq!(secret(&mut s, SecretRole::LinuxLogin), None, "{mode:?}");
    }
}

#[test]
fn switching_mode_moves_the_rdp_password_and_drops_the_linux_password() {
    let mut s = Store::new();
    save(
        &mut s,
        ConnectMode::RemoteLogin,
        None,
        update(Some("sys-Fake1"), LinuxPasswordUpdate::Store("lx-Fake1".into())),
    );

    save(&mut s, ConnectMode::Headless, Some(ConnectMode::RemoteLogin), update(None, LinuxPasswordUpdate::Keep));
    assert_eq!(secret(&mut s, SecretRole::RdpUser), Some("sys-Fake1"));
    assert_eq!(secret(&mut s, SecretRole::RdpSystem), None);
    assert_eq!(secret(&mut s, SecretRole::LinuxLogin), None);

    // Switching with a new password stores the new one under the new role.
    save(
        &mut s,
        ConnectMode::RemoteLogin,
        Some(ConnectMode::Headless),
        update(Some("new-Fake2"), LinuxPasswordUpdate::Keep),
    );
    assert_eq!(secret(&mut s, SecretRole::RdpSystem), Some("new-Fake2"));
    assert_eq!(secret(&mut s, SecretRole::RdpUser), None);
}

#[test]
fn secrets_never_appear_in_debug_output() {
    let u = update(Some("hunter2-Fake9"), LinuxPasswordUpdate::Store("other-Fake9".into()));
    let d = u.redacted();
    assert!(!d.contains("hunter2") && !d.contains("other-Fake9"), "{d}");
    assert_eq!(
        d,
        "SecretsUpdate { rdp_password: Some(\"<redacted>\"), linux_password: Store(<redacted>) }"
    );
    assert_eq!(
        update(None, LinuxPasswordUpdate::Keep).redacted(),
        "SecretsUpdate { rdp_password: None, linux_password: Keep }"
    );
    assert_eq!(LinuxPasswordUpdate::Forget.redacted(), "Forget");
    let mut m = MemorySecretStore::new();
    m.set(0, SecretRole::RdpUser, "hunter2-Fake9");
    assert!(!m.redacted().contains("hunter2"));
    assert_eq!(m.redacted(), "MemorySecretStore { items: 1, .. }");
}

#[test]
fn save_plans_the_store_operations_in_order() {
    let ops = secret_ops(
        ConnectMode::Headless,
        Some(ConnectMode::RemoteLogin),
        update(None, LinuxPasswordUpdate::Keep),
    );
    assert_eq!(
        ops,
        vec![
            SecretOp::Copy { from: SecretRole::RdpSystem, to: SecretRole::RdpUser },
            SecretOp::Delete(SecretRole::RdpSystem),
            SecretOp::Delete(SecretRole::LinuxLogin),
        ]
    );
    // Same mode, nothing new: nothing to do.
    assert!(secret_ops(
        ConnectMode::RemoteLogin,
        Some(ConnectMode::RemoteLogin),
        update(Some(""), LinuxPasswordUpdate::Keep)
    )
    .is_empty());
    // Headless and Desktop Sharing share the RDP role: no move between them.
    assert_eq!(
        secret_ops(
            ConnectMode::DesktopSharing,
            Some(ConnectMode::Headless),
            update(None, LinuxPasswordUpdate::Forget)
        ),
        vec![SecretOp::Delete(SecretRole::LinuxLogin)]
    );
}

#[test]
fn rdp_role_follows_the_mode() {
    assert_eq!(SecretRole::rdp_for(ConnectMode::RemoteLogin), SecretRole::RdpSystem);
    assert_eq!(SecretRole::rdp_for(ConnectMode::Headless), SecretRole::RdpUser);
    assert_eq!(SecretRole::rdp_for(ConnectMode::DesktopSharing), SecretRole::RdpUser);
}

#[test]
fn profile_file_lives_in_the_config_dir() {
    assert_eq!(PROFILES_FILE, "profiles.toml");
    assert_eq!(ProfileFile::in_dir("/home/u/.config/drift").path(), "/home/u/.config/drift/profiles.toml");
    assert_eq!(ProfileFile::in_dir("/tmp/").path(), "/tmp/profiles.toml");
    assert_eq!(ProfileFile::in_dir("").path(), "profiles.toml");
}

#[test]
fn secret_errors_say_what_failed() {
    assert_eq!(SecretError("locked".into()).message(), "password storage failed: locked");
}

#[test]
fn the_memory_store_keeps_passwords_per_profile_and_role() {
    let mut m = MemorySecretStore::new();
    m.set(1, SecretRole::RdpUser, "a");
    m.set(2, SecretRole::RdpUser, "b");
    m.set(1, SecretRole::RdpUser, "c");
    assert_eq!(m.get(1, SecretRole::RdpUser).as_deref(), Some("c"));
    assert_eq!(m.get(2, SecretRole::RdpUser).as_deref(), Some("b"));
    assert!(m.has(1, SecretRole::RdpUser) && !m.has(1, SecretRole::RdpSystem));
    m.delete(1, SecretRole::RdpUser);
    m.delete(1, SecretRole::LinuxLogin);
    assert_eq!(m.get(1, SecretRole::RdpUser), None);
    assert!(m.has(2, SecretRole::RdpUser), "other profiles keep theirs");
    // Saving one profile leaves the others alone.
    m.apply(1, &secret_ops(ConnectMode::RemoteLogin, None, update(Some("x"), LinuxPasswordUpdate::Store("y".into()))));
    assert_eq!(m.get(1, SecretRole::RdpSystem).as_deref(), Some("x"));
    assert_eq!(m.get(1, SecretRole::LinuxLogin).as_deref(), Some("y"));
    assert_eq!(m.get(2, SecretRole::RdpUser).as_deref(), Some("b"));
}

#[test]
fn deleting_a_profile_removes_all_its_passwords() {
    let mut s = Store::new();
    save(&mut s, ConnectMode::RemoteLogin, None, update(Some("a"), LinuxPasswordUpdate::Store("b".into())));
    s.store.set(ID, SecretRole::RdpUser, "c");
    s.store.apply(ID, &deletion_ops());
    for role in [SecretRole::RdpSystem, SecretRole::RdpUser, SecretRole::LinuxLogin] {
        assert_eq!(secret(&mut s, role), None);
    }
}
