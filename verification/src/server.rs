//! Server-side decisions that do not depend on the transport.

use vstd::prelude::*;

verus! {

/// Why the server stopped.
#[derive(Debug, Clone, Copy, PartialEq, Eq, Structural)]
pub enum CoAPServerError {
    NetworkError,
    EventLoopError,
    AnotherHandlerIsRunning,
    EventSendError,
}

/// Whether a request goes on to the request handler.
#[derive(Debug, Clone, Copy, PartialEq, Eq, Structural)]
pub enum ShouldForwardToHandler {
    True,
    False,
}

/// Whether a request goes on to the handler, given what the block-wise
/// transfer layer did with it (`Ok(true)` where it answered the request
/// itself, `Err` where it failed) and whether the observer lets it pass.
pub fn forward_decision(block_handled: Result<bool, ()>, observer_forwards: bool) -> (r: ShouldForwardToHandler)
    ensures
        r == if block_handled == Ok::<bool, ()>(false) && observer_forwards {
            ShouldForwardToHandler::True
        } else {
            ShouldForwardToHandler::False
        },
{
    match block_handled {
        Ok(true) => ShouldForwardToHandler::False,
        Err(_) => ShouldForwardToHandler::False,
        Ok(false) => if observer_forwards {
            ShouldForwardToHandler::True
        } else {
            ShouldForwardToHandler::False
        },
    }
}

/// The IPv6 "All CoAP Nodes" multicast address of scope `segment`
/// (`ff0X::fd`), as its eight 16-bit groups.
pub fn all_coap_v6_groups(segment: u8) -> (r: [u16; 8])
    requires
        segment <= 0xf,
    ensures
        r@ == seq![(0xff00 + segment) as u16, 0u16, 0u16, 0u16, 0u16, 0u16, 0u16, 0xfdu16],
{
    let r = [0xff00 + segment as u16, 0, 0, 0, 0, 0, 0, 0xfd];
    assert(r@ =~= seq![(0xff00 + segment) as u16, 0u16, 0u16, 0u16, 0u16, 0u16, 0u16, 0xfdu16]);
    r
}

/// The IPv4 "All CoAP Nodes" multicast address, `224.0.1.187`.
pub fn all_coap_v4_octets() -> (r: [u8; 4])
    ensures
        r@ == seq![224u8, 0u8, 1u8, 187u8],
{
    let r = [224, 0, 1, 187];
    assert(r@ =~= seq![224u8, 0u8, 1u8, 187u8]);
    r
}

} // verus!
