//! Startup entries: their scope, how their enabled state is read from the
//! `StartupApproved` blob, the blob that records a new state, and who may
//! toggle them. Reading and writing the registry is left to the caller.
use vstd::prelude::*;

verus! {

broadcast use vstd::string::group_string_axioms;

/// Where a startup entry is registered.
#[derive(Debug, Clone, Copy, PartialEq, Eq, Structural)]
pub enum StartupScope {
    /// `HKEY_CURRENT_USER`: this user only; togglable without elevation.
    CurrentUser,
    /// `HKEY_LOCAL_MACHINE`: all users; changing it requires Administrator.
    LocalMachine,
}

impl StartupScope {
    /// A short human label for the scope.
    pub fn label(self) -> (label: &'static str)
        ensures
            label@ == (if self == StartupScope::CurrentUser {
                "Current user"@
            } else {
                "All users"@
            }),
    {
        match self {
            StartupScope::CurrentUser => "Current user",
            StartupScope::LocalMachine => "All users",
        }
    }
}

/// A program registered to run at sign-in.
#[derive(Debug, Clone, PartialEq, Eq)]
pub struct StartupEntry {
    /// The registry value name (the entry's display name).
    pub name: String,
    /// The command line the entry runs.
    pub command: String,
    /// Where the entry lives.
    pub scope: StartupScope,
    /// Whether the entry is currently enabled.
    pub enabled: bool,
    /// Whether this app can toggle the entry without elevation.
    pub can_toggle: bool,
}

/// Whether an entry is enabled, given its `StartupApproved` value (`None` when
/// the key or the value is missing): enabled unless the value's leading byte
/// is odd.
pub open spec fn approved_enabled(value: Option<Seq<u8>>) -> bool {
    match value {
        Option::None => true,
        Option::Some(bytes) => bytes.len() == 0 || bytes[0] % 2 == 0,
    }
}

/// The 12-byte `StartupApproved` blob that records an entry as enabled
/// (leading byte `2`) or disabled (leading byte `3`).
pub open spec fn approved_blob_of(enabled: bool) -> Seq<u8> {
    seq![if enabled { 2u8 } else { 3u8 }, 0u8, 0u8, 0u8, 0u8, 0u8, 0u8, 0u8, 0u8, 0u8, 0u8, 0u8]
}

/// Whether the entry is enabled, from its `StartupApproved` value.
pub fn entry_enabled(approved_value: Option<&[u8]>) -> (enabled: bool)
    ensures
        enabled == approved_enabled(
            match approved_value {
                Option::None => Option::None,
                Option::Some(v) => Option::Some(v@),
            },
        ),
{
    match approved_value {
        Option::None => true,
        Option::Some(bytes) => bytes.len() == 0 || bytes[0] % 2 == 0,
    }
}

/// The entry for a `Run` value: its name, its command (empty when the value
/// is not a string), its scope, its enabled state from the `StartupApproved`
/// value, and whether it can be toggled without elevation (current-user
/// entries only).
pub fn startup_entry(
    name: String,
    command: Option<String>,
    scope: StartupScope,
    approved_value: Option<&[u8]>,
) -> (entry: StartupEntry)
    ensures
        entry.name@ == name@,
        entry.command@ == (match command {
            Option::Some(c) => c@,
            Option::None => Seq::<char>::empty(),
        }),
        entry.scope == scope,
        entry.enabled == approved_enabled(
            match approved_value {
                Option::None => Option::None,
                Option::Some(v) => Option::Some(v@),
            },
        ),
        entry.can_toggle == (scope == StartupScope::CurrentUser),
{
    let command = match command {
        Option::Some(c) => c,
        Option::None => String::new(),
    };
    let enabled = entry_enabled(approved_value);
    StartupEntry {
        name,
        command,
        scope,
        enabled,
        can_toggle: scope == StartupScope::CurrentUser,
    }
}

/// The `StartupApproved` blob that records the given state.
pub fn approved_blob(enabled: bool) -> (blob: [u8; 12])
    ensures
        blob@ == approved_blob_of(enabled),
{
    let lead: u8 = if enabled { 0x02 } else { 0x03 };
    let blob: [u8; 12] = [lead, 0, 0, 0, 0, 0, 0, 0, 0, 0, 0, 0];
    assert(blob@ =~= approved_blob_of(enabled));
    blob
}

/// The message for an attempt to toggle a machine-wide entry.
pub open spec fn machine_wide_message() -> Seq<char> {
    "machine-wide startup entries require Administrator"@
}

/// Whether this app may toggle an entry of the given scope: only current-user
/// entries; machine-wide ones are refused with a message.
pub fn toggle_permission(scope: StartupScope) -> (r: Result<(), String>)
    ensures
        scope == StartupScope::CurrentUser <==> r is Ok,
        r matches Err(message) ==> message@ == machine_wide_message(),
{
    if scope != StartupScope::CurrentUser {
        return Err(String::from_str("machine-wide startup entries require Administrator"));
    }
    Ok(())
}

/// Reading back the blob written for a state gives that state.
pub proof fn lemma_toggle_round_trip(enabled: bool)
    ensures
        approved_enabled(Option::Some(approved_blob_of(enabled))) == enabled,
{
}

} // verus!
