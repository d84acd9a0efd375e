//! The pairing screen's decisions: when a pasted code can be submitted,
//! and how each previously paired host's row reads.
use vstd::prelude::*;
use crate::text::{is_blank, is_blank_str, str_eq, trim, trim_str};

verus! {

/// The state of the pairing exchange, owned by the app shell.
#[derive(Debug, Clone, PartialEq, Eq, Default)]
pub enum PairingStatus {
    #[default]
    Idle,
    Working,
    Failed(String),
}

/// The code to submit: the pasted text trimmed, unless a pairing is
/// already running or the text is blank.
pub fn pairing_submission(status: &PairingStatus, code: &str) -> (r: Option<String>)
    ensures
        (*status is Working || is_blank(code@)) ==> r is None,
        !(*status is Working) && !is_blank(code@) ==> (r matches Some(c) && c@ == trim(code@)),
{
    let working = match status {
        PairingStatus::Working => true,
        _ => false,
    };
    if working || is_blank_str(code) {
        None
    } else {
        Some(trim_str(code))
    }
}

/// How a previously paired host's row reads: the host in view, another
/// live connection (switching to it keeps it connected), or one to
/// connect to.
#[derive(Debug, Clone, Copy, PartialEq, Eq, Structural)]
pub enum HostRowState {
    Viewing,
    Connected,
    Disconnected,
}

/// The row state of host `host_id`, given the ids of the hosts with a live
/// connection and the host in view.
pub fn host_row_state(host_id: &str, connected_ids: &Vec<String>, active_id: Option<&str>) -> (r:
    HostRowState)
    ensures
        r == if (match active_id {
            Some(a) => a@ == host_id@,
            None => false,
        }) {
            HostRowState::Viewing
        } else if exists|i: int| 0 <= i < connected_ids@.len() && (#[trigger] connected_ids@[i])@ == host_id@ {
            HostRowState::Connected
        } else {
            HostRowState::Disconnected
        },
{
    let viewing = match active_id {
        Some(a) => str_eq(a, host_id),
        None => false,
    };
    if viewing {
        return HostRowState::Viewing;
    }
    let mut i: usize = 0;
    while i < connected_ids.len()
        invariant
            i <= connected_ids@.len(),
            !(match active_id {
                Some(a) => a@ == host_id@,
                None => false,
            }),
            forall|k: int| 0 <= k < i ==> (#[trigger] connected_ids@[k])@ != host_id@,
        decreases connected_ids@.len() - i,
    {
        if str_eq(connected_ids[i].as_str(), host_id) {
            assert(connected_ids@[i as int]@ == host_id@);
            return HostRowState::Connected;
        }
        i += 1;
    }
    HostRowState::Disconnected
}

} // verus!
