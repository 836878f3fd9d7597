//! The ping protocol: one ping, one pong.
use vstd::prelude::*;

verus! {

/// A message of the ping protocol.
#[derive(Debug)]
pub enum PingPong {
    /// The request.
    Ping {
        /// Anything.
        payload: Vec<u8>,
    },
    /// The answer.
    Pong {
        /// The number of the answer.
        seq: u64,
        /// What the request held.
        payload: Vec<u8>,
    },
}

/// The answering side of the ping protocol.
#[derive(Debug)]
pub struct PingHandler;

impl PingHandler {
    /// The answer to a message: a ping is answered with the first pong and its
    /// own payload, anything else is handed back as unexpected.
    pub fn reply(&self, message: PingPong) -> (r: Result<PingPong, PingPong>)
        ensures
            match message {
                PingPong::Ping { payload } => r == Ok::<PingPong, PingPong>(
                    PingPong::Pong { seq: 1, payload },
                ),
                PingPong::Pong { .. } => r == Err::<PingPong, PingPong>(message),
            },
    {
        match message {
            PingPong::Ping { payload } => Ok(PingPong::Pong { seq: 1, payload }),
            other => Err(other),
        }
    }
}

/// A ping is answered by a pong with the same payload; a pong is answered by nothing.
pub proof fn law_pings_are_answered(handler: PingHandler, message: PingPong, r: Result<PingPong, PingPong>)
    requires
        call_ensures(PingHandler::reply, (&handler, message), r),
    ensures
        r is Ok <==> message is Ping,
        message matches PingPong::Ping { payload: sent } ==> (r->Ok_0 matches PingPong::Pong {
            seq,
            payload,
        } && payload == sent && seq == 1),
        message is Pong ==> r->Err_0 == message,
{
}

} // verus!
