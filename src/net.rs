use vstd::prelude::*;
use vstd::string::*;
use crate::text::{digits, join, push_digits};

verus! {

/// An IP address as the numbers that make it up.
#[derive(Clone, Copy, Debug)]
pub enum IpAddress {
    V4([u8; 4]),
    V6([u16; 8]),
}

/// An IP address with a port, as a transport connects to it.
#[derive(Clone, Copy, Debug)]
pub struct Endpoint {
    pub ip: IpAddress,
    pub port: u16,
}

/// Dotted decimal notation of an IPv4 address, and full colon-separated
/// lower-case hexadecimal notation of an IPv6 address.
pub open spec fn ip_text(ip: IpAddress) -> Seq<char> {
    match ip {
        IpAddress::V4(o) => digits(o[0] as nat, 10) + seq!['.'] + digits(o[1] as nat, 10) + seq!['.']
            + digits(o[2] as nat, 10) + seq!['.'] + digits(o[3] as nat, 10),
        IpAddress::V6(g) => join(
            Seq::new(8, |i: int| digits(g[i] as nat, 16)),
            seq![':'],
        ),
    }
}

/// `ip:port`, with the address in brackets when it is IPv6.
pub open spec fn endpoint_text(e: Endpoint) -> Seq<char> {
    match e.ip {
        IpAddress::V4(_) => ip_text(e.ip) + seq![':'] + digits(e.port as nat, 10),
        IpAddress::V6(_) => seq!['['] + ip_text(e.ip) + seq![']', ':'] + digits(e.port as nat, 10),
    }
}

/// Appends the notation of an IP address.
pub fn push_ip(out: &mut String, ip: &IpAddress)
    ensures
        final(out)@ == old(out)@ + ip_text(*ip),
{
    proof {
        reveal_strlit(".");
        reveal_strlit(":");
    }
    match ip {
        IpAddress::V4(o) => {
            let ghost start = out@;
            push_digits(out, o[0] as u32, 10);
            out.append(".");
            push_digits(out, o[1] as u32, 10);
            out.append(".");
            push_digits(out, o[2] as u32, 10);
            out.append(".");
            push_digits(out, o[3] as u32, 10);
            assert(out@ =~= start + ip_text(*ip));
        },
        IpAddress::V6(g) => {
            let ghost start = out@;
            let ghost parts = Seq::new(8, |i: int| digits(g[i] as nat, 16));
            let mut i: usize = 0;
            while i < 8
                invariant
                    i <= 8,
                    parts == Seq::new(8, |k: int| digits(g[k] as nat, 16)),
                    out@ == start + join(parts.subrange(0, i as int), seq![':']),
                decreases 8 - i,
            {
                let ghost before = parts.subrange(0, i as int);
                let ghost prev = out@;
                if i > 0 {
                    proof {
                        reveal_strlit(":");
                    }
                    out.append(":");
                    assert(out@ =~= prev + seq![':']);
                }
                let ghost mid = out@;
                push_digits(out, g[i] as u32, 16);
                proof {
                    let after = parts.subrange(0, i + 1);
                    assert(after.drop_last() =~= before);
                    assert(after.last() == digits(g[i as int] as nat, 16));
                    if i == 0 {
                        assert(after =~= seq![parts[0]]);
                        assert(out@ =~= start + join(after, seq![':']));
                    } else {
                        assert(out@ == mid + after.last());
                        assert(mid == start + join(before, seq![':']) + seq![':']);
                        assert(join(after, seq![':']) == join(before, seq![':']) + seq![':']
                            + after.last());
                        assert(out@ =~= start + join(after, seq![':']));
                    }
                }
                i = i + 1;
            }
            assert(parts.subrange(0, 8) =~= parts);
        },
    }
}

/// Appends the notation of an endpoint.
pub fn push_endpoint(out: &mut String, e: &Endpoint)
    ensures
        final(out)@ == old(out)@ + endpoint_text(*e),
{
    proof {
        reveal_strlit(":");
        reveal_strlit("[");
        reveal_strlit("]:");
    }
    let ghost start = out@;
    match e.ip {
        IpAddress::V4(_) => {
            push_ip(out, &e.ip);
            out.append(":");
        },
        IpAddress::V6(_) => {
            out.append("[");
            push_ip(out, &e.ip);
            out.append("]:");
        },
    }
    push_digits(out, e.port as u32, 10);
    assert(out@ =~= start + endpoint_text(*e));
}

} // verus!
