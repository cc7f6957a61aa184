//! The transport selector's address parsing: `tcp:<host>:<port>` or
//! `unix:<filesystem-path>`. The scheme is everything before the first
//! colon; an unknown scheme or a string without a colon is rejected before
//! any connection is attempted.
use vstd::prelude::*;

use crate::ProtocolError;
use vstd::string::StringSliceAdditionalSpecFns;

verus! {

/// The bytes of `tcp`.
pub open spec fn scheme_tcp() -> Seq<u8> {
    Seq::empty().push(116u8).push(99u8).push(112u8)
}

/// The bytes of `unix`.
pub open spec fn scheme_unix() -> Seq<u8> {
    Seq::empty().push(117u8).push(110u8).push(105u8).push(120u8)
}

/// A parsed connection address: which transport to open, and the target
/// (host and port, or a filesystem path) as raw bytes.
pub enum ConnectionAddress {
    Tcp(Vec<u8>),
    Unix(Vec<u8>),
}

/// The position of the first colon at or after `i`, if any.
pub open spec fn spec_colon_pos(b: Seq<u8>, i: int) -> Option<int>
    decreases b.len() - i,
{
    if !(0 <= i < b.len()) {
        None
    } else if b[i] == 58 {
        Some(i)
    } else {
        spec_colon_pos(b, i + 1)
    }
}

/// What an address string parses to: the scheme before the first colon
/// picks the transport, the rest is the target; no colon or another scheme
/// is invalid.
pub open spec fn spec_parse_address_ok(b: Seq<u8>) -> bool {
    match spec_colon_pos(b, 0) {
        None => false,
        Some(c) => b.subrange(0, c) == scheme_tcp() || b.subrange(0, c) == scheme_unix(),
    }
}

/// Parses a connection address. Returns `Tcp` or `Unix` with the bytes
/// after the first colon exactly when the scheme before it is `tcp` or
/// `unix`, and `InvalidAddress` otherwise.
pub fn parse_address(addr: &str) -> (r: Result<ConnectionAddress, ProtocolError>)
    ensures
        r is Ok <==> spec_parse_address_ok(addr.spec_bytes()),
        r matches Ok(a) ==> (match spec_colon_pos(addr.spec_bytes(), 0) {
            Some(c) => {
                let rest = addr.spec_bytes().subrange(c + 1, addr.spec_bytes().len() as int);
                (match a {
                    ConnectionAddress::Tcp(t) => addr.spec_bytes().subrange(0, c) == scheme_tcp()
                        && t@ == rest,
                    ConnectionAddress::Unix(t) => addr.spec_bytes().subrange(0, c) == scheme_unix()
                        && t@ == rest,
                })
            },
            None => false,
        }),
        r matches Err(pe) ==> pe == ProtocolError::InvalidAddress,
{
    let b = addr.as_bytes();
    let mut c: usize = 0;
    while c < b.len() && b[c] != 58
        invariant
            c <= b.len(),
            b@ == addr.spec_bytes(),
            spec_colon_pos(b@, 0) == spec_colon_pos(b@, c as int),
        decreases b.len() - c,
    {
        c = c + 1;
    }
    if c >= b.len() {
        return Err(ProtocolError::InvalidAddress);
    }
    assert(spec_colon_pos(b@, 0) == Some(c as int));
    let is_tcp = c == 3 && b[0] == 116 && b[1] == 99 && b[2] == 112;
    let is_unix = c == 4 && b[0] == 117 && b[1] == 110 && b[2] == 105 && b[3] == 120;
    proof {
        if is_tcp {
            assert(b@.subrange(0, c as int) =~= scheme_tcp());
        } else {
            if b@.subrange(0, c as int) == scheme_tcp() {
                assert(b@.subrange(0, c as int).len() == 3);
                assert(c == 3);
                assert(b@[0] == scheme_tcp()[0] && b@[1] == scheme_tcp()[1] && b@[2]
                    == scheme_tcp()[2]) by {
                    assert(b@.subrange(0, c as int)[0] == scheme_tcp()[0]);
                    assert(b@.subrange(0, c as int)[1] == scheme_tcp()[1]);
                    assert(b@.subrange(0, c as int)[2] == scheme_tcp()[2]);
                };
                assert(false);
            }
        }
        if is_unix {
            assert(b@.subrange(0, c as int) =~= scheme_unix());
        } else {
            if b@.subrange(0, c as int) == scheme_unix() {
                assert(b@.subrange(0, c as int).len() == 4);
                assert(c == 4);
                assert(b@[0] == scheme_unix()[0] && b@[1] == scheme_unix()[1] && b@[2]
                    == scheme_unix()[2] && b@[3] == scheme_unix()[3]) by {
                    assert(b@.subrange(0, c as int)[0] == scheme_unix()[0]);
                    assert(b@.subrange(0, c as int)[1] == scheme_unix()[1]);
                    assert(b@.subrange(0, c as int)[2] == scheme_unix()[2]);
                    assert(b@.subrange(0, c as int)[3] == scheme_unix()[3]);
                };
                assert(false);
            }
        }
    }
    if !is_tcp && !is_unix {
        return Err(ProtocolError::InvalidAddress);
    }
    let mut t: Vec<u8> = Vec::new();
    proof {
        assert(b@.subrange(c as int + 1, c as int + 1) =~= Seq::<u8>::empty());
    }
    let mut k = c + 1;
    while k < b.len()
        invariant
            c + 1 <= k <= b.len(),
            b@ == addr.spec_bytes(),
            t@ == b@.subrange(c as int + 1, k as int),
        decreases b.len() - k,
    {
        t.push(b[k]);
        proof {
            assert(b@.subrange(c as int + 1, k as int).push(b@[k as int]) =~= b@.subrange(
                c as int + 1, k as int + 1));
        }
        k = k + 1;
    }
    if is_tcp {
        Ok(ConnectionAddress::Tcp(t))
    } else {
        Ok(ConnectionAddress::Unix(t))
    }
}

} // verus!
