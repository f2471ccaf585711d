use vstd::prelude::*;
use crate::content::Alert;
use crate::error::Error;

verus! {

/// The flights of the DTLS 1.2 handshake: the client's are odd, the server's
/// even; `Flight4b` is the server's flight of an abbreviated handshake.
#[derive(Clone, Copy, Debug, PartialEq, Eq, Structural)]
pub enum Flight {
    Flight0,
    Flight1,
    Flight2,
    Flight3,
    Flight4,
    Flight4b,
    Flight5,
    Flight6,
}

impl Flight {
    pub open spec fn spec_has_retransmit(self) -> bool {
        !(self == Flight::Flight0 || self == Flight::Flight2)
    }

    pub open spec fn spec_is_last_send_flight(self) -> bool {
        self == Flight::Flight6
    }

    pub open spec fn spec_is_last_recv_flight(self) -> bool {
        self == Flight::Flight5 || self == Flight::Flight4b
    }

    /// Whether the flight is sent again when the peer's answer is late.
    pub fn has_retransmit(&self) -> (r: bool)
        ensures
            r == self.spec_has_retransmit(),
    {
        match self {
            Flight::Flight0 | Flight::Flight2 => false,
            _ => true,
        }
    }

    /// Whether nothing is expected from the peer after this flight is sent.
    pub fn is_last_send_flight(&self) -> (r: bool)
        ensures
            r == self.spec_is_last_send_flight(),
    {
        match self {
            Flight::Flight6 => true,
            _ => false,
        }
    }

    /// Whether the peer's answer to this flight completes the handshake.
    pub fn is_last_recv_flight(&self) -> (r: bool)
        ensures
            r == self.spec_is_last_recv_flight(),
    {
        match self {
            Flight::Flight5 | Flight::Flight4b => true,
            _ => false,
        }
    }
}

/// Why a flight could not be generated or parsed: an alert to send and an
/// error to report, either of which may be absent.
#[derive(Clone, Copy, Debug)]
pub struct FlightError {
    pub alert: Option<Alert>,
    pub error: Option<Error>,
}

} // verus!
