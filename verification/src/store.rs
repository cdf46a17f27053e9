//! The persistence gateway's decision logic. The shell resolves the
//! state file's path, reads and writes bytes, and reports its own
//! I/O failures; what the contents mean is decided here: a missing
//! file yields the all-defaults state, unreadable content is an
//! error, and saving always produces the canonical text.

use vstd::prelude::*;
use crate::codec::decode_state;
use crate::codec::encode_state;
use crate::codec::spec_decode;
use crate::codec::spec_encode;
use crate::model::AppState;
use crate::model::AppStateV;
use crate::model::spec_default_app_state;

verus! {

/// The kinds of failure the gateway and the window configurator
/// surface to their caller.
#[derive(Clone, Copy, Debug, PartialEq, Eq, Structural)]
pub enum ErrorKind {
    Io,
    Deserialize,
    Serialize,
    NotFound,
}

/// A failure, with a human-readable message.
#[derive(Debug)]
pub struct StateError {
    pub kind: ErrorKind,
    pub message: String,
}

/// The file name of the persisted state, inside the application's
/// data directory.
pub fn state_file_name() -> (r: String)
    ensures
        r@ == "app_state.json"@,
{
    String::from_str("app_state.json")
}

/// Decides what loaded file content means. `None` stands for a file
/// that does not exist: the expected first run, yielding the
/// all-defaults state. Content that does not decode is surfaced as a
/// deserialization error, never silently replaced.
pub fn load_app_state(content: Option<&str>) -> (r: Result<AppState, StateError>)
    ensures
        match (content, r) {
            (Option::None, Result::Ok(st)) => st@ == spec_default_app_state(),
            (Option::None, Result::Err(_)) => false,
            (Option::Some(s), Result::Ok(st)) => spec_decode(s@) == Option::Some(st@),
            (Option::Some(s), Result::Err(e)) => spec_decode(s@) == Option::<AppStateV>::None
                && e.kind == ErrorKind::Deserialize,
        },
{
    match content {
        None => Ok(AppState::default()),
        Some(s) => match decode_state(s) {
            Some(st) => Ok(st),
            None => Err(
                StateError {
                    kind: ErrorKind::Deserialize,
                    message: String::from_str("state file holds no valid state document"),
                },
            ),
        },
    }
}

/// The text to write when saving a state: a full-file overwrite with
/// the canonical encoding. Encoding is total, so saving can only fail
/// in the shell's own write.
pub fn save_app_state(state: &AppState) -> (r: String)
    ensures
        r@ == spec_encode(state@),
{
    encode_state(state)
}

} // verus!
