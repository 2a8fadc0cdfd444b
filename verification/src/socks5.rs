//! The SOCKS5 local-agent handshake, as a pure state machine: the caller
//! reads one client message per step, hands it in, and performs the returned
//! action (send a reply, dial the resolved destination, or close). Only the
//! no-authentication method is accepted, and only IPv4 and hostname address
//! types; IPv6 is deliberately unsupported.

use vstd::prelude::*;
use vstd::slice::slice_to_vec;
use crate::bytes::{read_u16, u16_at};
use crate::types::Host;

verus! {

/// Where the handshake stands.
#[derive(Clone, Copy, Debug, PartialEq, Eq, Structural)]
pub enum Socks5State {
    /// Waiting for the client greeting.
    AwaitGreeting,
    /// Greeting answered; waiting for the connect request.
    AwaitConnect,
}

/// What the agent does with one client message.
pub enum Socks5Step {
    /// Greeting accepted: send `reply` and await the connect request.
    Greeted { reply: Vec<u8> },
    /// Connect request accepted: send `reply` and dial `host:port`.
    Connect { reply: Vec<u8>, host: Host, port: u16 },
    /// Malformed or unsupported message: close the connection.
    Reject,
}

/// A well-formed greeting: version 5, and the advertised method list
/// contains the no-authentication method.
pub open spec fn greeting_ok(m: Seq<u8>) -> bool {
    &&& m.len() >= 2
    &&& m[0] == 5u8
    &&& m.len() >= 2 + m[1]
    &&& exists|k: int| 2 <= k < 2 + m[1] && m[k] == 0u8
}

/// A well-formed connect request: version 5, the connect command, and a
/// complete IPv4 or hostname address followed by the two port bytes.
pub open spec fn connect_ok(m: Seq<u8>) -> bool {
    &&& m.len() >= 4
    &&& m[0] == 5u8
    &&& m[1] == 1u8
    &&& m[2] == 0u8
    &&& (m[3] == 1u8 || m[3] == 3u8)
    &&& (m[3] == 1u8 ==> m.len() >= 10)
    &&& (m[3] == 3u8 ==> m.len() >= 5 && m.len() >= 7 + m[4])
}

/// The port named by a well-formed connect request.
pub open spec fn connect_port(m: Seq<u8>) -> int {
    if m[3] == 1u8 {
        u16_at(m, 8)
    } else {
        u16_at(m, 5 + m[4])
    }
}

/// The agent's answer to an accepted greeting.
pub open spec fn greeting_reply() -> Seq<u8> {
    seq![5u8, 0u8]
}

/// The agent's answer to an accepted connect request: success, with a fixed
/// all-zero bind address and port.
pub open spec fn connect_reply() -> Seq<u8> {
    seq![5u8, 0u8, 0u8, 1u8, 0u8, 0u8, 0u8, 0u8, 0u8, 0u8]
}

/// Runs one step of the handshake on the message just read.
pub fn socks5_step(state: Socks5State, msg: &[u8]) -> (r: Socks5Step)
    ensures
        match r {
            Socks5Step::Greeted { reply } => {
                &&& state == Socks5State::AwaitGreeting
                &&& greeting_ok(msg@)
                &&& reply@ == greeting_reply()
            },
            Socks5Step::Connect { reply, host, port } => {
                &&& state == Socks5State::AwaitConnect
                &&& connect_ok(msg@)
                &&& reply@ == connect_reply()
                &&& port as int == connect_port(msg@)
                &&& (msg@[3] == 1u8 ==> (host matches Host::Ipv4(a) && a@ == msg@.subrange(4, 8)))
                &&& (msg@[3] == 3u8 ==> (host matches Host::Hostname(name) && name@
                    == msg@.subrange(5, 5 + msg@[4])))
            },
            Socks5Step::Reject => {
                &&& (state == Socks5State::AwaitGreeting ==> !greeting_ok(msg@))
                &&& (state == Socks5State::AwaitConnect ==> !connect_ok(msg@))
            },
        },
{
    match state {
        Socks5State::AwaitGreeting => {
            let n = msg.len();
            if n < 2 || msg[0] != 5 {
                return Socks5Step::Reject;
            }
            let nmethods = msg[1] as usize;
            if n - 2 < nmethods {
                return Socks5Step::Reject;
            }
            let mut k: usize = 2;
            let mut found = false;
            while k < 2 + nmethods
                invariant
                    2 <= k <= 2 + nmethods,
                    2 + nmethods <= n == msg@.len(),
                    found <==> exists|j: int| 2 <= j < k && msg@[j] == 0u8,
                decreases 2 + nmethods - k,
            {
                if msg[k] == 0 {
                    proof {
                        assert(msg@[k as int] == 0u8);
                    }
                    found = true;
                }
                k += 1;
            }
            if !found {
                return Socks5Step::Reject;
            }
            let mut reply: Vec<u8> = Vec::new();
            reply.push(5);
            reply.push(0);
            proof {
                assert(reply@ =~= greeting_reply());
            }
            Socks5Step::Greeted { reply }
        },
        Socks5State::AwaitConnect => {
            let n = msg.len();
            if n < 4 || msg[0] != 5 || msg[1] != 1 || msg[2] != 0 {
                return Socks5Step::Reject;
            }
            let (host, port_off) = if msg[3] == 1 {
                if n < 10 {
                    return Socks5Step::Reject;
                }
                (Host::Ipv4([msg[4], msg[5], msg[6], msg[7]]), 8usize)
            } else if msg[3] == 3 {
                if n < 5 {
                    return Socks5Step::Reject;
                }
                let alen = msg[4] as usize;
                if n < 7 + alen {
                    return Socks5Step::Reject;
                }
                let name_slice = &msg[5..5 + alen];
                proof {
                    assert(name_slice@ =~= msg@.subrange(5, 5 + msg@[4 as int]));
                }
                (Host::Hostname(slice_to_vec(name_slice)), 5 + alen)
            } else {
                // Any other address type, IPv6 included, is unsupported.
                return Socks5Step::Reject;
            };
            let port = read_u16(msg, port_off);
            let mut reply: Vec<u8> = Vec::new();
            reply.push(5);
            reply.push(0);
            reply.push(0);
            reply.push(1);
            reply.push(0);
            reply.push(0);
            reply.push(0);
            reply.push(0);
            reply.push(0);
            reply.push(0);
            proof {
                assert(reply@ =~= connect_reply());
                if msg@[3] == 1u8 {
                    assert(host matches Host::Ipv4(a) && a@ =~= msg@.subrange(4, 8));
                }
            }
            Socks5Step::Connect { reply, host, port }
        },
    }
}

} // verus!
