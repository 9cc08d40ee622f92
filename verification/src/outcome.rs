//! The definite outcome the HTTP boundary derives from a broadcast's
//! `(delivered, total)` tally, and the exact response body and status code
//! answered for each outcome.

use vstd::prelude::*;
use vstd::string::*;

use crate::decimal::{dec_str, to_decimal};
use crate::types::ExecuteResponse;

verus! {

/// The caller-visible classification of a broadcast tally. A zero total is
/// unavailability, not an error; a shortfall with clients present is a
/// partial (possibly total) delivery failure, surfaced as such.
#[derive(PartialEq, Eq, Structural, Clone, Copy, Debug)]
pub enum BroadcastOutcome {
    /// No clients were connected at all.
    NoClients,
    /// Every client in the snapshot was reached.
    FullDelivery,
    /// Clients existed but not all were reached.
    PartialDelivery,
}

/// Which outcome a `(delivered, total)` tally falls under.
pub open spec fn classify_spec(delivered: int, total: int) -> BroadcastOutcome {
    if total == 0 {
        BroadcastOutcome::NoClients
    } else if delivered == total {
        BroadcastOutcome::FullDelivery
    } else {
        BroadcastOutcome::PartialDelivery
    }
}

/// The HTTP status code answered for each outcome: service unavailable,
/// success, and multi-status respectively.
pub open spec fn status_code_spec(o: BroadcastOutcome) -> u16 {
    match o {
        BroadcastOutcome::NoClients => 503,
        BroadcastOutcome::FullDelivery => 200,
        BroadcastOutcome::PartialDelivery => 207,
    }
}

/// Classify a broadcast tally.
pub fn classify_broadcast(delivered: usize, total: usize) -> (o: BroadcastOutcome)
    requires
        delivered <= total,
    ensures
        o == classify_spec(delivered as int, total as int),
{
    if total == 0 {
        BroadcastOutcome::NoClients
    } else if delivered == total {
        BroadcastOutcome::FullDelivery
    } else {
        BroadcastOutcome::PartialDelivery
    }
}

/// The response body and status code answered for a broadcast of the
/// script named `filename` that reached `delivered` of `total` clients.
pub fn response_for_broadcast(filename: &String, delivered: usize, total: usize) -> (r: (
    ExecuteResponse,
    u16,
))
    requires
        delivered <= total,
    ensures
        r.1 == status_code_spec(classify_spec(delivered as int, total as int)),
        classify_spec(delivered as int, total as int) == BroadcastOutcome::NoClients ==> ({
            &&& !r.0.success
            &&& r.0.message is None
            &&& r.0.error matches Some(e) && e@ == "No clients connected"@
            &&& r.0.clients_reached == Some(0usize)
            &&& r.0.total_clients == Some(0usize)
        }),
        classify_spec(delivered as int, total as int) == BroadcastOutcome::FullDelivery ==> ({
            &&& r.0.success
            &&& r.0.message matches Some(m) && m@ == "Script '"@ + filename@
                + "' sent to all connected clients"@
            &&& r.0.error is None
            &&& r.0.clients_reached == Some(delivered)
            &&& r.0.total_clients == Some(total)
        }),
        classify_spec(delivered as int, total as int) == BroadcastOutcome::PartialDelivery ==> ({
            &&& !r.0.success
            &&& r.0.message is None
            &&& r.0.error matches Some(e) && e@ == "Script '"@ + filename@ + "' only reached "@
                + dec_str(delivered as int) + "/"@ + dec_str(total as int) + " clients"@
            &&& r.0.clients_reached == Some(delivered)
            &&& r.0.total_clients == Some(total)
        }),
{
    if total == 0 {
        let response = ExecuteResponse {
            success: false,
            message: None,
            error: Some(String::from_str("No clients connected")),
            clients_reached: Some(0),
            total_clients: Some(0),
        };
        (response, 503)
    } else if delivered == total {
        let mut m = String::from_str("Script '");
        m.append(filename.as_str());
        m.append("' sent to all connected clients");
        let response = ExecuteResponse {
            success: true,
            message: Some(m),
            error: None,
            clients_reached: Some(delivered),
            total_clients: Some(total),
        };
        (response, 200)
    } else {
        let mut e = String::from_str("Script '");
        e.append(filename.as_str());
        e.append("' only reached ");
        let reached = to_decimal(delivered);
        e.append(reached.as_str());
        e.append("/");
        let of_total = to_decimal(total);
        e.append(of_total.as_str());
        e.append(" clients");
        let response = ExecuteResponse {
            success: false,
            message: None,
            error: Some(e),
            clients_reached: Some(delivered),
            total_clients: Some(total),
        };
        (response, 207)
    }
}

} // verus!
