//! Saved profiles and the credential rules per connection mode.
//!
//! - Remote Login stores the system RDP credentials (`rdp-system`). The Linux password is stored
//!   (`linux-login`) only when the user opts in; storing it is the opt-in, forgetting it opts out.
//! - Headless and Desktop Sharing store one RDP credential set (`rdp-user`) and never a Linux
//!   password.
//!
//! What a save does to the password store is decided here, as a list of store operations; the
//! caller runs them in order and stops at the first failure.
use vstd::prelude::*;

use crate::view::ConnectMode;

verus! {

broadcast use vstd::string::group_string_axioms;

/// File name of the profile document inside the app config directory.
pub const PROFILES_FILE: &'static str = "profiles.toml";

/// The path of `file` inside directory `dir`: a `/` goes between them unless `dir` is empty or
/// already ends with one.
pub open spec fn joined_path(dir: Seq<char>, file: Seq<char>) -> Seq<char> {
    if dir.len() == 0 {
        file
    } else if dir.last() == '/' {
        dir + file
    } else {
        dir + "/"@ + file
    }
}

/// `profiles.toml` on disk.
#[derive(Debug, Clone)]
pub struct ProfileFile {
    path: String,
}

impl ProfileFile {
    /// The path of the file.
    pub closed spec fn spec_path(&self) -> Seq<char> {
        self.path@
    }

    /// The profile file inside `config_dir`.
    pub fn in_dir(config_dir: &str) -> (r: Self)
        ensures
            r.spec_path() == joined_path(config_dir@, PROFILES_FILE@),
    {
        let dir = String::from_str(config_dir);
        let n = config_dir.unicode_len();
        if n == 0 {
            return ProfileFile { path: String::from_str(PROFILES_FILE) };
        }
        let last = config_dir.get_char(n - 1);
        if last == '/' {
            ProfileFile { path: dir.concat(PROFILES_FILE) }
        } else {
            proof {
                reveal_strlit("/");
            }
            let with_sep = dir.concat("/");
            proof {
                assert(with_sep@ == config_dir@ + "/"@);
            }
            ProfileFile { path: with_sep.concat(PROFILES_FILE) }
        }
    }

    /// Path of the file.
    pub fn path(&self) -> (r: &str)
        ensures
            r@ == self.spec_path(),
    {
        self.path.as_str()
    }
}

/// Under which name a password is kept for a profile.
#[derive(Debug, Clone, Copy, PartialEq, Eq, Hash, Structural)]
pub enum SecretRole {
    /// The system daemon's RDP credentials (Remote Login).
    RdpSystem,
    /// The user daemon's RDP credentials (Headless, Desktop Sharing).
    RdpUser,
    /// The Linux password typed into the greeter (Remote Login, opt-in).
    LinuxLogin,
}

/// The role that holds the RDP password of a profile in `mode`.
pub open spec fn rdp_role_of(mode: ConnectMode) -> SecretRole {
    match mode {
        ConnectMode::RemoteLogin => SecretRole::RdpSystem,
        ConnectMode::Headless => SecretRole::RdpUser,
        ConnectMode::DesktopSharing => SecretRole::RdpUser,
    }
}

impl SecretRole {
    /// The role that holds the RDP password of a profile in `mode`.
    pub fn rdp_for(mode: ConnectMode) -> (r: SecretRole)
        ensures
            r == rdp_role_of(mode),
    {
        match mode {
            ConnectMode::RemoteLogin => SecretRole::RdpSystem,
            ConnectMode::Headless => SecretRole::RdpUser,
            ConnectMode::DesktopSharing => SecretRole::RdpUser,
        }
    }
}

/// What to do with the Linux greeter password on save.
#[derive(Clone, PartialEq, Eq)]
pub enum LinuxPasswordUpdate {
    /// Leave as is.
    Keep,
    /// Opt in: store this password and type it into the greeter.
    Store(String),
    /// Opt out: delete the stored password.
    Forget,
}

/// Password changes submitted with a profile. Empty strings mean "unchanged".
#[derive(Clone, PartialEq, Eq)]
pub struct SecretsUpdate {
    /// New RDP password for the profile's mode (`None` = keep the stored one).
    pub rdp_password: Option<String>,
    /// Linux password opt-in (Remote Login only; ignored and forgotten for other modes).
    pub linux_password: LinuxPasswordUpdate,
}

/// How an update to the Linux password is shown in logs: never the password itself.
pub open spec fn linux_update_text(u: LinuxPasswordUpdate) -> Seq<char> {
    match u {
        LinuxPasswordUpdate::Keep => "Keep"@,
        LinuxPasswordUpdate::Store(_) => "Store(<redacted>)"@,
        LinuxPasswordUpdate::Forget => "Forget"@,
    }
}

/// How a password update is shown in logs: which fields are set, never the passwords.
pub open spec fn secrets_update_text(u: SecretsUpdate) -> Seq<char> {
    "SecretsUpdate { rdp_password: "@ + (if u.rdp_password is Some {
        "Some(\"<redacted>\")"@
    } else {
        "None"@
    }) + ", linux_password: "@ + linux_update_text(u.linux_password) + " }"@
}

impl LinuxPasswordUpdate {
    /// The update as shown in logs (`Store(<redacted>)` for a new password).
    pub fn redacted(&self) -> (r: &'static str)
        ensures
            r@ == linux_update_text(*self),
    {
        match self {
            LinuxPasswordUpdate::Keep => "Keep",
            LinuxPasswordUpdate::Store(_) => "Store(<redacted>)",
            LinuxPasswordUpdate::Forget => "Forget",
        }
    }
}

impl SecretsUpdate {
    /// The update as shown in logs, with every password replaced by `<redacted>`.
    pub fn redacted(&self) -> (r: String)
        ensures
            r@ == secrets_update_text(*self),
    {
        let rdp = match &self.rdp_password {
            Some(_) => "Some(\"<redacted>\")",
            None => "None",
        };
        String::from_str("SecretsUpdate { rdp_password: ").concat(rdp).concat(
            ", linux_password: ",
        ).concat(self.linux_password.redacted()).concat(" }")
    }
}

/// One operation on the password store of a profile.
#[derive(Debug, Clone, PartialEq, Eq)]
pub enum SecretOp {
    /// Store (replace) the password of a role.
    Store(SecretRole, String),
    /// If a password is stored under `from`, store it under `to` as well.
    Copy { from: SecretRole, to: SecretRole },
    /// Delete the password of a role; deleting a missing one is no error.
    Delete(SecretRole),
}

/// The password of `p` when it says something: `None` and the empty string both mean
/// "unchanged".
pub open spec fn given(p: Option<String>) -> Option<Seq<char>> {
    match p {
        Some(s) => if s@.len() > 0 { Some(s@) } else { None },
        None => None,
    }
}

/// The store operations that saving a profile in `mode` with `update` performs, when the
/// profile was saved before in `previous` (`None` for a new profile).
pub open spec fn secret_ops_of(
    mode: ConnectMode,
    previous: Option<ConnectMode>,
    update: SecretsUpdate,
) -> Seq<SecretOp> {
    let role = rdp_role_of(mode);
    let moved = match previous {
        Some(p) => rdp_role_of(p) != role,
        None => false,
    };
    let old = rdp_role_of(previous->0);
    let rdp: Seq<SecretOp> = match given(update.rdp_password) {
        Some(_) => seq![SecretOp::Store(role, update.rdp_password->0)],
        None => if moved {
            seq![SecretOp::Copy { from: old, to: role }]
        } else {
            seq![]
        },
    };
    let drop_old: Seq<SecretOp> = if moved {
        seq![SecretOp::Delete(old)]
    } else {
        seq![]
    };
    let linux: Seq<SecretOp> = if mode != ConnectMode::RemoteLogin {
        seq![SecretOp::Delete(SecretRole::LinuxLogin)]
    } else {
        match update.linux_password {
            LinuxPasswordUpdate::Keep => seq![],
            LinuxPasswordUpdate::Store(pw) => if pw@.len() > 0 {
                seq![SecretOp::Store(SecretRole::LinuxLogin, pw)]
            } else {
                seq![]
            },
            LinuxPasswordUpdate::Forget => seq![SecretOp::Delete(SecretRole::LinuxLogin)],
        }
    };
    rdp + drop_old + linux
}

/// The store operations that saving a profile in `mode` with `update` performs, in order;
/// `previous` is the mode the profile was saved in before (`None` for a new profile).
pub fn secret_ops(mode: ConnectMode, previous: Option<ConnectMode>, update: SecretsUpdate) -> (r:
    Vec<SecretOp>)
    ensures
        r@ == secret_ops_of(mode, previous, update),
{
    let role = SecretRole::rdp_for(mode);
    let old = match previous {
        Some(p) => Some(SecretRole::rdp_for(p)),
        None => None,
    };
    let moved = match old {
        Some(o) => o != role,
        None => false,
    };
    let mut ops: Vec<SecretOp> = Vec::new();
    let ghost u = update;
    let SecretsUpdate { rdp_password, linux_password } = update;
    match rdp_password {
        Some(pw) => {
            if !pw.as_str().is_empty() {
                ops.push(SecretOp::Store(role, pw));
            } else if moved {
                ops.push(SecretOp::Copy { from: old.unwrap(), to: role });
            }
        },
        None => {
            if moved {
                ops.push(SecretOp::Copy { from: old.unwrap(), to: role });
            }
        },
    }
    if moved {
        ops.push(SecretOp::Delete(old.unwrap()));
    }
    let remote_login = match mode {
        ConnectMode::RemoteLogin => true,
        _ => false,
    };
    if !remote_login {
        ops.push(SecretOp::Delete(SecretRole::LinuxLogin));
    } else {
        match linux_password {
            LinuxPasswordUpdate::Keep => {},
            LinuxPasswordUpdate::Store(pw) => {
                if !pw.as_str().is_empty() {
                    ops.push(SecretOp::Store(SecretRole::LinuxLogin, pw));
                }
            },
            LinuxPasswordUpdate::Forget => {
                ops.push(SecretOp::Delete(SecretRole::LinuxLogin));
            },
        }
    }
    proof {
        let s = secret_ops_of(mode, previous, u);
        assert(ops@ =~= s);
    }
    ops
}

/// The passwords of a profile after `op`, from the passwords `m` before it.
pub open spec fn apply_op(m: Map<SecretRole, Seq<char>>, op: SecretOp) -> Map<SecretRole, Seq<char>> {
    match op {
        SecretOp::Store(role, pw) => m.insert(role, pw@),
        SecretOp::Copy { from, to } => if m.contains_key(from) {
            m.insert(to, m[from])
        } else {
            m
        },
        SecretOp::Delete(role) => m.remove(role),
    }
}

/// The passwords of a profile after every operation of `ops`, in order, succeeded.
pub open spec fn apply_ops(m: Map<SecretRole, Seq<char>>, ops: Seq<SecretOp>) -> Map<
    SecretRole,
    Seq<char>,
>
    decreases ops.len(),
{
    if ops.len() == 0 {
        m
    } else {
        apply_ops(apply_op(m, ops[0]), ops.drop_first())
    }
}

proof fn lemma_apply_concat(m: Map<SecretRole, Seq<char>>, a: Seq<SecretOp>, b: Seq<SecretOp>)
    ensures
        apply_ops(m, a + b) == apply_ops(apply_ops(m, a), b),
    decreases a.len(),
{
    if a.len() > 0 {
        assert((a + b).drop_first() =~= a.drop_first() + b);
        lemma_apply_concat(apply_op(m, a[0]), a.drop_first(), b);
    } else {
        assert(a + b =~= b);
    }
}

/// The credential rules, as they hold once a save ran all its operations on the passwords `m`
/// stored before: the RDP password is kept under the role of the new mode (a new non-empty one
/// replaces it; one stored under the old mode's role moves there), the old role keeps none, and
/// only a Remote Login profile keeps a Linux password (a new non-empty one replaces it,
/// forgetting deletes it, anything else leaves it as it was).
pub proof fn lemma_credential_rules(
    m: Map<SecretRole, Seq<char>>,
    mode: ConnectMode,
    previous: Option<ConnectMode>,
    update: SecretsUpdate,
)
    ensures
        ({
            let after = apply_ops(m, secret_ops_of(mode, previous, update));
            let role = rdp_role_of(mode);
            let moved = previous is Some && rdp_role_of(previous->0) != role;
            let old = rdp_role_of(previous->0);
            &&& given(update.rdp_password) is Some ==> after.contains_key(role) && after[role]
                == given(update.rdp_password)->0
            &&& given(update.rdp_password) is None && !moved ==> (after.contains_key(role)
                == m.contains_key(role) && (m.contains_key(role) ==> after[role] == m[role]))
            &&& given(update.rdp_password) is None && moved ==> (after.contains_key(role) == (
            m.contains_key(old) || m.contains_key(role)) && (m.contains_key(old) ==> after[role]
                == m[old]) && (!m.contains_key(old) && m.contains_key(role) ==> after[role]
                == m[role]))
            &&& moved ==> !after.contains_key(old)
            &&& mode != ConnectMode::RemoteLogin ==> !after.contains_key(SecretRole::LinuxLogin)
            &&& mode == ConnectMode::RemoteLogin ==> match update.linux_password {
                LinuxPasswordUpdate::Store(pw) => if pw@.len() > 0 {
                    after.contains_key(SecretRole::LinuxLogin) && after[SecretRole::LinuxLogin]
                        == pw@
                } else {
                    after.contains_key(SecretRole::LinuxLogin) == m.contains_key(
                        SecretRole::LinuxLogin,
                    ) && (m.contains_key(SecretRole::LinuxLogin) ==> after[SecretRole::LinuxLogin]
                        == m[SecretRole::LinuxLogin])
                },
                LinuxPasswordUpdate::Keep => after.contains_key(SecretRole::LinuxLogin)
                    == m.contains_key(SecretRole::LinuxLogin) && (m.contains_key(
                    SecretRole::LinuxLogin,
                ) ==> after[SecretRole::LinuxLogin] == m[SecretRole::LinuxLogin]),
                LinuxPasswordUpdate::Forget => !after.contains_key(SecretRole::LinuxLogin),
            }
        }),
{
    let role = rdp_role_of(mode);
    let moved = previous is Some && rdp_role_of(previous->0) != role;
    let old = rdp_role_of(previous->0);
    let rdp: Seq<SecretOp> = match given(update.rdp_password) {
        Some(_) => seq![SecretOp::Store(role, update.rdp_password->0)],
        None => if moved {
            seq![SecretOp::Copy { from: old, to: role }]
        } else {
            seq![]
        },
    };
    let drop_old: Seq<SecretOp> = if moved {
        seq![SecretOp::Delete(old)]
    } else {
        seq![]
    };
    let linux: Seq<SecretOp> = if mode != ConnectMode::RemoteLogin {
        seq![SecretOp::Delete(SecretRole::LinuxLogin)]
    } else {
        match update.linux_password {
            LinuxPasswordUpdate::Keep => seq![],
            LinuxPasswordUpdate::Store(pw) => if pw@.len() > 0 {
                seq![SecretOp::Store(SecretRole::LinuxLogin, pw)]
            } else {
                seq![]
            },
            LinuxPasswordUpdate::Forget => seq![SecretOp::Delete(SecretRole::LinuxLogin)],
        }
    };
    assert(secret_ops_of(mode, previous, update) == rdp + drop_old + linux);
    lemma_apply_concat(m, rdp + drop_old, linux);
    lemma_apply_concat(m, rdp, drop_old);
    let m1 = apply_ops(m, rdp);
    let m2 = apply_ops(m1, drop_old);
    let m3 = apply_ops(m2, linux);
    reveal_with_fuel(apply_ops, 2);
    assert(rdp.len() <= 1 && drop_old.len() <= 1 && linux.len() <= 1);
    if rdp.len() == 1 {
        assert(rdp.drop_first() =~= Seq::<SecretOp>::empty());
        assert(m1 == apply_op(m, rdp[0]));
    } else {
        assert(m1 == m);
    }
    if drop_old.len() == 1 {
        assert(drop_old.drop_first() =~= Seq::<SecretOp>::empty());
        assert(m2 == apply_op(m1, drop_old[0]));
    } else {
        assert(m2 == m1);
    }
    if linux.len() == 1 {
        assert(linux.drop_first() =~= Seq::<SecretOp>::empty());
        assert(m3 == apply_op(m2, linux[0]));
    } else {
        assert(m3 == m2);
    }
    assert(role != SecretRole::LinuxLogin);
    assert(old != SecretRole::LinuxLogin);
}

/// The store operations that deleting a profile performs: every password of the profile goes.
pub open spec fn deletion_ops_of() -> Seq<SecretOp> {
    seq![
        SecretOp::Delete(SecretRole::RdpSystem),
        SecretOp::Delete(SecretRole::RdpUser),
        SecretOp::Delete(SecretRole::LinuxLogin),
    ]
}

/// The store operations that deleting a profile performs, in order.
pub fn deletion_ops() -> (r: Vec<SecretOp>)
    ensures
        r@ == deletion_ops_of(),
{
    let r = vec![
        SecretOp::Delete(SecretRole::RdpSystem),
        SecretOp::Delete(SecretRole::RdpUser),
        SecretOp::Delete(SecretRole::LinuxLogin),
    ];
    assert(r@ =~= deletion_ops_of());
    r
}

/// Deleting a profile removes all its passwords, whatever was stored.
pub proof fn lemma_deletion_forgets_everything(m: Map<SecretRole, Seq<char>>)
    ensures
        apply_ops(m, deletion_ops_of()) == Map::<SecretRole, Seq<char>>::empty(),
{
    let ops = deletion_ops_of();
    reveal_with_fuel(apply_ops, 4);
    assert(ops.drop_first() =~= seq![SecretOp::Delete(SecretRole::RdpUser), SecretOp::Delete(SecretRole::LinuxLogin)]);
    assert(ops.drop_first().drop_first() =~= seq![SecretOp::Delete(SecretRole::LinuxLogin)]);
    assert(ops.drop_first().drop_first().drop_first() =~= Seq::<SecretOp>::empty());
    let after = m.remove(SecretRole::RdpSystem).remove(SecretRole::RdpUser).remove(SecretRole::LinuxLogin);
    assert forall|r: SecretRole| !after.contains_key(r) by {
        match r {
            SecretRole::RdpSystem => {},
            SecretRole::RdpUser => {},
            SecretRole::LinuxLogin => {},
        }
    }
    assert(after =~= Map::<SecretRole, Seq<char>>::empty());
}

} // verus!
