//! Which control state is read from the control-state file and which is written to it.

use vstd::prelude::*;
use crate::control::{ControlState, ControlView};
use crate::control_commands::pruned;
use crate::control_validity::state_error;
use crate::json::{
    find_member, member_value, parse_json, parsed_json, DocumentView, JsonField, JsonFieldView,
};
use crate::text::{cat3, cat4, cat5, cat6, cat7, decimal, number, same};

verus! {

/// The version of the control-state file format.
pub const CONTROL_STATE_SCHEMA_VERSION: u16 = 1;

/// What every control-state file is headed with.
pub const CONTROL_STATE_MAGIC: &'static str = "tsink-control-state";

/// The place of a control state in the order in which states replace each other.
#[derive(Debug, Clone, Copy, PartialEq, Eq, Structural)]
pub struct ControlStatePersistenceVersion {
    pub applied_log_index: u64,
    pub applied_log_term: u64,
    pub membership_epoch: u64,
    pub ring_version: u64,
    pub updated_unix_ms: u64,
}

/// The version of a control state.
pub open spec fn version_of(s: ControlView) -> ControlStatePersistenceVersion {
    ControlStatePersistenceVersion {
        applied_log_index: s.applied_log_index,
        applied_log_term: s.applied_log_term,
        membership_epoch: s.membership_epoch,
        ring_version: s.ring_version,
        updated_unix_ms: s.updated_unix_ms,
    }
}

/// Versions are ordered by log index, then by term, epoch, ring version and time.
pub open spec fn version_less(
    a: ControlStatePersistenceVersion,
    b: ControlStatePersistenceVersion,
) -> bool {
    if a.applied_log_index != b.applied_log_index {
        a.applied_log_index < b.applied_log_index
    } else if a.applied_log_term != b.applied_log_term {
        a.applied_log_term < b.applied_log_term
    } else if a.membership_epoch != b.membership_epoch {
        a.membership_epoch < b.membership_epoch
    } else if a.ring_version != b.ring_version {
        a.ring_version < b.ring_version
    } else {
        a.updated_unix_ms < b.updated_unix_ms
    }
}

impl ControlStatePersistenceVersion {
    /// The version of a control state.
    pub fn of(state: &ControlState) -> (res: Self)
        ensures
            res == version_of(state@),
    {
        ControlStatePersistenceVersion {
            applied_log_index: state.applied_log_index,
            applied_log_term: state.applied_log_term,
            membership_epoch: state.membership_epoch,
            ring_version: state.ring_version,
            updated_unix_ms: state.updated_unix_ms,
        }
    }

    /// Whether this version is older than another.
    pub fn is_older_than(self, other: Self) -> (res: bool)
        ensures
            res == version_less(self, other),
    {
        if self.applied_log_index != other.applied_log_index {
            self.applied_log_index < other.applied_log_index
        } else if self.applied_log_term != other.applied_log_term {
            self.applied_log_term < other.applied_log_term
        } else if self.membership_epoch != other.membership_epoch {
            self.membership_epoch < other.membership_epoch
        } else if self.ring_version != other.ring_version {
            self.ring_version < other.ring_version
        } else {
            self.updated_unix_ms < other.updated_unix_ms
        }
    }
}

/// Whether an older state may replace a newer one.
#[derive(Debug, Clone, Copy, PartialEq, Eq, Structural)]
pub enum ControlStatePersistMode {
    Monotonic,
    ReplaceCurrent,
}

/// What a read or a write of the file came to, with states and messages taken by their views.
pub open spec fn loaded_view(result: Result<Option<ControlState>, String>) -> Result<
    Option<ControlView>,
    Seq<char>,
> {
    match result {
        Ok(Some(state)) => Ok(Some(state@)),
        Ok(None) => Ok(None),
        Err(message) => Err(message@),
    }
}

/// What decoding a state came to.
pub open spec fn decoded_view(result: Result<ControlState, String>) -> Result<
    ControlView,
    Seq<char>,
> {
    match result {
        Ok(state) => Ok(state@),
        Err(message) => Err(message@),
    }
}

/// Why a control-state file is refused by its header, given what its text parses to.
pub open spec fn header_error(
    path: Seq<char>,
    parsed: Result<DocumentView, Seq<char>>,
) -> Option<Seq<char>> {
    match parsed {
        Err(message) => Some(
            "failed to parse control-state file "@ + path + ": "@ + message,
        ),
        Ok(members) => match member_value(members, "magic"@) {
            Some(JsonFieldView::Text(magic)) => if magic != CONTROL_STATE_MAGIC@ {
                Some(
                    "control-state file "@ + path + " has unsupported magic header '"@ + magic
                        + "'"@,
                )
            } else {
                match member_value(members, "schemaVersion"@) {
                    Some(JsonFieldView::Number(Some(version))) => if version > u16::MAX {
                        Some(
                            "control-state file "@ + path + " has schemaVersion "@ + decimal(
                                version as nat,
                            ) + " which exceeds supported range"@,
                        )
                    } else if version != CONTROL_STATE_SCHEMA_VERSION {
                        Some(
                            "unsupported control-state schema version "@ + decimal(version as nat)
                                + " in "@ + path + " (expected "@ + decimal(
                                CONTROL_STATE_SCHEMA_VERSION as nat,
                            ) + ")"@,
                        )
                    } else {
                        None
                    },
                    _ => Some(
                        "control-state file "@ + path + " is missing numeric 'schemaVersion'"@,
                    ),
                }
            },
            _ => Some("control-state file "@ + path + " is missing 'magic' header"@),
        },
    }
}

/// What is read from a control-state file: nothing where there is none; else the decoded state
/// without its stale transitions, unless the file or the state is refused.
pub open spec fn load_result(
    path: Seq<char>,
    raw: Option<Seq<u8>>,
    decoded: Result<ControlView, Seq<char>>,
) -> Result<Option<ControlView>, Seq<char>> {
    match raw {
        None => Ok(None),
        Some(bytes) => match header_error(path, parsed_json(bytes)) {
            Some(message) => Err(message),
            None => match decoded {
                Err(message) => Err(
                    "failed to decode control-state schema v"@ + decimal(
                        CONTROL_STATE_SCHEMA_VERSION as nat,
                    ) + " from "@ + path + ": "@ + message,
                ),
                Ok(state) => match state_error(pruned(state)) {
                    Some(message) => Err(
                        "control-state validation failed for "@ + path + ": "@ + message,
                    ),
                    None => Ok(Some(pruned(state))),
                },
            },
        },
    }
}

/// The latest version that is known to be in the file, once the file was looked at.
pub open spec fn known_version(
    latest: Option<ControlStatePersistenceVersion>,
    on_disk: Option<ControlView>,
) -> Option<ControlStatePersistenceVersion> {
    if latest is Some {
        latest
    } else {
        match on_disk {
            Some(state) => Some(version_of(state)),
            None => None,
        }
    }
}

/// Whether a state is written: always when it is to replace the current one, else unless the file
/// holds a newer one.
pub open spec fn writes(
    s: ControlView,
    mode: ControlStatePersistMode,
    known: Option<ControlStatePersistenceVersion>,
) -> bool {
    mode == ControlStatePersistMode::ReplaceCurrent || match known {
        Some(current) => !version_less(version_of(s), current),
        None => true,
    }
}

/// The keeper of one control-state file.
#[derive(Debug)]
pub struct ControlStateStore {
    pub path: String,
    pub latest_persisted_version: Option<ControlStatePersistenceVersion>,
}

/// What a store does at start: the state to go on with, and whether it is to be written first.
#[derive(Debug)]
pub struct ControlBootstrap {
    pub state: ControlState,
    pub persist: bool,
}

fn header_fault(path: &str, raw: &[u8]) -> (res: Option<String>)
    ensures
        match res {
            Some(message) => header_error(path@, parsed_json(raw@)) == Some(message@),
            None => header_error(path@, parsed_json(raw@)) is None,
        },
{
    let members = match parse_json(raw) {
        Ok(members) => members,
        Err(message) => {
            return Some(cat4("failed to parse control-state file ", path, ": ", &message));
        },
    };
    assert(parsed_json(raw@) == Ok::<DocumentView, Seq<char>>(
        members@,
    ));
    match find_member(&members, "magic") {
        Some(JsonField::Text(magic)) => {
            if !same(magic, CONTROL_STATE_MAGIC) {
                return Some(
                    cat5(
                        "control-state file ",
                        path,
                        " has unsupported magic header '",
                        magic,
                        "'",
                    ),
                );
            }
        },
        _ => {
            return Some(cat3("control-state file ", path, " is missing 'magic' header"));
        },
    }
    match find_member(&members, "schemaVersion") {
        Some(JsonField::Number(Some(version))) => {
            let version: u64 = *version;
            if version > 65535 {
                return Some(
                    cat5(
                        "control-state file ",
                        path,
                        " has schemaVersion ",
                        number(version).as_str(),
                        " which exceeds supported range",
                    ),
                );
            }
            if version != CONTROL_STATE_SCHEMA_VERSION as u64 {
                return Some(
                    cat7(
                        "unsupported control-state schema version ",
                        number(version).as_str(),
                        " in ",
                        path,
                        " (expected ",
                        number(CONTROL_STATE_SCHEMA_VERSION as u64).as_str(),
                        ")",
                    ),
                );
            }
            None
        },
        _ => Some(cat3("control-state file ", path, " is missing numeric 'schemaVersion'")),
    }
}

impl ControlStateStore {
    /// A store for the file at `path`, of which nothing is known yet.
    pub fn open(path: String) -> (res: Self)
        ensures
            res.path == path,
            res.latest_persisted_version is None,
    {
        ControlStateStore { path, latest_persisted_version: None }
    }

    pub fn path(&self) -> (res: &str)
        ensures
            res@ == self.path@,
    {
        self.path.as_str()
    }

    /// Judges what was read: the bytes of the file, if there is one, and what the state in it decodes
    /// to.
    pub fn load(&self, raw: Option<&[u8]>, decoded: Result<ControlState, String>) -> (res: Result<
        Option<ControlState>,
        String,
    >)
        ensures
            loaded_view(res) == load_result(
                self.path@,
                match raw {
                    Some(bytes) => Some(bytes@),
                    None => None,
                },
                decoded_view(decoded),
            ),
    {
        let bytes = match raw {
            Some(bytes) => bytes,
            None => {
                return Ok(None);
            },
        };
        let path = self.path.as_str();
        if let Some(message) = header_fault(path, bytes) {
            return Err(message);
        }
        let mut state = match decoded {
            Ok(state) => state,
            Err(message) => {
                return Err(
                    cat6(
                        "failed to decode control-state schema v",
                        number(CONTROL_STATE_SCHEMA_VERSION as u64).as_str(),
                        " from ",
                        path,
                        ": ",
                        &message,
                    ),
                );
            },
        };
        state.prune_stale_terminal_transitions();
        match state.validate() {
            Ok(_) => Ok(Some(state)),
            Err(message) => Err(
                cat4("control-state validation failed for ", path, ": ", &message),
            ),
        }
    }

    /// Chooses the state to start with: the one in the file, or else the given one, which is then to be
    /// written.
    pub fn load_or_bootstrap(
        &self,
        bootstrap_state: ControlState,
        raw: Option<&[u8]>,
        decoded: Result<ControlState, String>,
    ) -> (res: Result<ControlBootstrap, String>)
        ensures
            ({
                let read = load_result(
                    self.path@,
                    match raw {
                        Some(bytes) => Some(bytes@),
                        None => None,
                    },
                    decoded_view(decoded),
                );
                match res {
                    Ok(start) => state_error(bootstrap_state@) is None && match read {
                        Ok(Some(state)) => start.state@ == state && !start.persist,
                        Ok(None) => start.state@ == bootstrap_state@ && start.persist,
                        Err(_) => false,
                    },
                    Err(message) => if state_error(bootstrap_state@) is Some {
                        state_error(bootstrap_state@) == Some(message@)
                    } else {
                        read == Err::<Option<ControlView>, Seq<char>>(message@)
                    },
                }
            }),
    {
        if let Err(message) = bootstrap_state.validate() {
            return Err(message);
        }
        match self.load(raw, decoded) {
            Ok(Some(state)) => Ok(ControlBootstrap { state, persist: false }),
            Ok(None) => Ok(ControlBootstrap { state: bootstrap_state, persist: true }),
            Err(message) => Err(message),
        }
    }

    /// Decides whether a state is to be written, given what is in the file; the file counts only as
    /// long as no version is known.
    pub fn decide(
        &mut self,
        state: &ControlState,
        mode: ControlStatePersistMode,
        on_disk: Result<Option<ControlState>, String>,
    ) -> (res: Result<bool, String>)
        ensures
            final(self).path == old(self).path,
            match res {
                Ok(write) => {
                    let known = known_version(
                        old(self).latest_persisted_version,
                        if old(self).latest_persisted_version is Some {
                            None
                        } else {
                            loaded_view(on_disk)->Ok_0
                        },
                    );
                    &&& state_error(state@) is None
                    &&& old(self).latest_persisted_version is Some || on_disk is Ok
                    &&& write == writes(state@, mode, known)
                    &&& final(self).latest_persisted_version == known
                },
                Err(message) => {
                    &&& final(self).latest_persisted_version == old(self).latest_persisted_version
                    &&& if state_error(state@) is Some {
                        state_error(state@) == Some(message@)
                    } else {
                        old(self).latest_persisted_version is None && loaded_view(on_disk) == Err::<
                            Option<ControlView>,
                            Seq<char>,
                        >(message@)
                    }
                },
            },
    {
        if let Err(message) = state.validate() {
            return Err(message);
        }
        let candidate = ControlStatePersistenceVersion::of(state);
        if self.latest_persisted_version.is_none() {
            match on_disk {
                Ok(Some(current)) => {
                    self.latest_persisted_version = Some(
                        ControlStatePersistenceVersion::of(&current),
                    );
                },
                Ok(None) => {},
                Err(message) => {
                    return Err(message);
                },
            }
        }
        match self.latest_persisted_version {
            Some(current) => Ok(
                mode == ControlStatePersistMode::ReplaceCurrent || !candidate.is_older_than(
                    current,
                ),
            ),
            None => Ok(true),
        }
    }

    /// Decides whether a state is to be written over an older one.
    pub fn persist(
        &mut self,
        state: &ControlState,
        on_disk: Result<Option<ControlState>, String>,
    ) -> (res: Result<bool, String>)
        ensures
            final(self).path == old(self).path,
            match res {
                Ok(write) => state_error(state@) is None && write == writes(
                    state@,
                    ControlStatePersistMode::Monotonic,
                    final(self).latest_persisted_version,
                ) && (old(self).latest_persisted_version is Some
                    ==> final(self).latest_persisted_version == old(
                    self,
                ).latest_persisted_version) && (old(self).latest_persisted_version is None ==> (
                on_disk is Ok && final(self).latest_persisted_version == known_version(
                    None,
                    loaded_view(on_disk)->Ok_0,
                ))),
                Err(message) => final(self).latest_persisted_version == old(
                    self,
                ).latest_persisted_version && (if state_error(state@) is Some {
                    state_error(state@) == Some(message@)
                } else {
                    old(self).latest_persisted_version is None && loaded_view(on_disk) == Err::<
                        Option<ControlView>,
                        Seq<char>,
                    >(message@)
                }),
            },
    {
        self.decide(state, ControlStatePersistMode::Monotonic, on_disk)
    }

    /// Decides whether a state is to be written whatever is in the file.
    pub fn replace(
        &mut self,
        state: &ControlState,
        on_disk: Result<Option<ControlState>, String>,
    ) -> (res: Result<bool, String>)
        ensures
            final(self).path == old(self).path,
            match res {
                Ok(write) => state_error(state@) is None && write && (old(
                    self,
                ).latest_persisted_version is Some ==> final(self).latest_persisted_version == old(
                    self,
                ).latest_persisted_version) && (old(self).latest_persisted_version is None ==> (
                on_disk is Ok && final(self).latest_persisted_version == known_version(
                    None,
                    loaded_view(on_disk)->Ok_0,
                ))),
                Err(message) => final(self).latest_persisted_version == old(
                    self,
                ).latest_persisted_version && (if state_error(state@) is Some {
                    state_error(state@) == Some(message@)
                } else {
                    old(self).latest_persisted_version is None && loaded_view(on_disk) == Err::<
                        Option<ControlView>,
                        Seq<char>,
                    >(message@)
                }),
            },
    {
        self.decide(state, ControlStatePersistMode::ReplaceCurrent, on_disk)
    }

    /// Takes note that a state was written.
    pub fn record_written(&mut self, state: &ControlState)
        ensures
            final(self).path == old(self).path,
            final(self).latest_persisted_version == Some(version_of(state@)),
    {
        self.latest_persisted_version = Some(ControlStatePersistenceVersion::of(state));
    }
}

/// The order of versions is a strict total order.
pub proof fn law_version_order(
    a: ControlStatePersistenceVersion,
    b: ControlStatePersistenceVersion,
    c: ControlStatePersistenceVersion,
)
    ensures
        !version_less(a, a),
        version_less(a, b) && version_less(b, c) ==> version_less(a, c),
        a == b || version_less(a, b) || version_less(b, a),
{
}

/// Once a state has been written, a state of an older version is not written over it, and one of the
/// same or a newer version is.
pub proof fn law_older_state_never_wins(written: ControlView, candidate: ControlView)
    ensures
        writes(candidate, ControlStatePersistMode::Monotonic, Some(version_of(written)))
            == !version_less(version_of(candidate), version_of(written)),
        writes(candidate, ControlStatePersistMode::ReplaceCurrent, Some(version_of(written))),
{
}

/// A state that is valid and has no stale transition is read back from the file as it was written.
pub proof fn law_read_back(path: Seq<char>, bytes: Seq<u8>, s: ControlView)
    requires
        header_error(path, parsed_json(bytes)) is None,
        state_error(s) is None,
        pruned(s) == s,
    ensures
        load_result(path, Some(bytes), Ok(s)) == Ok::<Option<ControlView>, Seq<char>>(Some(s)),
{
}

} // verus!
