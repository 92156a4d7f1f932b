//! The address resolver and the per-target decision: what one parsed
//! command-line entry asks for, decided independently of every other entry.

use vstd::prelude::*;
use crate::addr::HardwareAddress;
use crate::addr::canonical_seq;
use crate::addr::is_valid_mac;
use crate::addr::mac_bytes;
use crate::addr::parse_mac;
use crate::args::ArgShape;
use crate::args::ProgArg;
use crate::error::WakeError;
use crate::packet::MagicPacket;
use crate::packet::magic_bytes;
use crate::table::LookupTable;

verus! {

/// Resolves a target token to a hardware address. With `use_lookup` the
/// token is a name: a name absent from the table fails with
/// `ResolutionError` naming it, and never substitutes any default; a present
/// name stands for its address text. The address text, looked up or
/// literal, is then parsed.
pub fn resolve(token: &str, table: &LookupTable, use_lookup: bool) -> (r: Result<
    HardwareAddress,
    WakeError,
>)
    ensures
        use_lookup && !table@.contains_key(token@) ==> (r matches Err(e) && e matches
            WakeError::ResolutionError(t) && t@ == token@),
        use_lookup && table@.contains_key(token@) ==> {
            let a = table@[token@];
            &&& r is Ok <==> is_valid_mac(a)
            &&& (r matches Ok(h) ==> h.wf() && h@ == mac_bytes(a))
            &&& (r matches Err(e) ==> e matches WakeError::FormatError(t) && t@ == a)
        },
        !use_lookup ==> {
            &&& r is Ok <==> is_valid_mac(token@)
            &&& (r matches Ok(h) ==> h.wf() && h@ == mac_bytes(token@))
            &&& (r matches Err(e) ==> e matches WakeError::FormatError(t) && t@ == token@)
        },
{
    if use_lookup {
        match table.lookup(token) {
            None => Err(WakeError::ResolutionError(token.to_owned())),
            Some(a) => parse_mac(a.as_str()),
        }
    } else {
        parse_mac(token)
    }
}

/// What one target asks the transport shell to do.
pub enum TargetPlan {
    /// Send this packet, and report success with this canonical address text.
    Send(MagicPacket, String),
    /// Report this failure and go on to the next target.
    Reject(WakeError),
    /// Print the usage text.
    ShowHelp,
    /// Do nothing.
    Skip,
}

/// Decides one parsed entry: a valid target yields its magic packet and the
/// canonical text of its address; a failed resolution or parse yields the
/// error to report; help and no-op entries ask for nothing to be sent.
pub fn plan_target(arg: &ProgArg, table: &LookupTable) -> (r: TargetPlan)
    ensures
        arg@ matches ArgShape::MacTarget(s) ==> {
            &&& is_valid_mac(s) ==> (r matches TargetPlan::Send(p, c) && p@ == magic_bytes(
                mac_bytes(s),
            ) && c@ == canonical_seq(mac_bytes(s)))
            &&& !is_valid_mac(s) ==> (r matches TargetPlan::Reject(e) && e matches
                WakeError::FormatError(t) && t@ == s)
        },
        arg@ matches ArgShape::LookupTarget(s) ==> {
            &&& !table@.contains_key(s) ==> (r matches TargetPlan::Reject(e) && e matches
                WakeError::ResolutionError(t) && t@ == s)
            &&& table@.contains_key(s) && is_valid_mac(table@[s]) ==> (r matches
                TargetPlan::Send(p, c) && p@ == magic_bytes(mac_bytes(table@[s])) && c@
                == canonical_seq(mac_bytes(table@[s])))
            &&& table@.contains_key(s) && !is_valid_mac(table@[s]) ==> (r matches
                TargetPlan::Reject(e) && e matches WakeError::FormatError(t) && t@ == table@[s])
        },
        arg@ is Help ==> r is ShowHelp,
        arg@ is NoOp ==> r is Skip,
{
    match arg {
        ProgArg::MacTarget(s) => match resolve(s.as_str(), table, false) {
            Ok(h) => TargetPlan::Send(MagicPacket::build(&h), h.canonical()),
            Err(e) => TargetPlan::Reject(e),
        },
        ProgArg::LookupTarget(s) => match resolve(s.as_str(), table, true) {
            Ok(h) => TargetPlan::Send(MagicPacket::build(&h), h.canonical()),
            Err(e) => TargetPlan::Reject(e),
        },
        ProgArg::Help => TargetPlan::ShowHelp,
        ProgArg::NoOp => TargetPlan::Skip,
    }
}

} // verus!
