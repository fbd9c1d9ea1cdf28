//! SOCKS5 framing (RFC 1928) for the CONNECT command and the no-auth method.
//!
//! Decoders work on a byte buffer that may hold a partial frame: they report
//! `CodecError::Incomplete` until the whole frame is there, and otherwise
//! return the frame with the number of bytes it took.
use vstd::prelude::*;

verus! {

pub const SOCKS_VERSION: u8 = 5;

pub const METHOD_NO_AUTH: u8 = 0;

pub const METHOD_NONE_ACCEPTABLE: u8 = 0xff;

pub const CMD_CONNECT: u8 = 1;

pub const ATYP_IPV4: u8 = 1;

pub const ATYP_DOMAIN: u8 = 3;

pub const ATYP_IPV6: u8 = 4;

pub const REPLY_SUCCEEDED: u8 = 0;

pub const REPLY_GENERAL_FAILURE: u8 = 1;

pub const REPLY_HOST_UNREACHABLE: u8 = 4;

/// Why a buffer does not hold a frame.
#[derive(Debug, Clone, Copy, PartialEq, Eq, Structural)]
pub enum CodecError {
    /// The buffer ends before the frame does.
    Incomplete,
    /// The version octet is not 5.
    ProtocolVersion(u8),
    /// The command is not CONNECT.
    UnsupportedCommand(u8),
    /// The address type is none of IPv4, domain, IPv6.
    UnsupportedAddressType(u8),
    /// The reserved octet is not 0.
    ReservedNonZero(u8),
}

/// A target or bound address as it travels on the wire.
#[derive(Debug, Clone, PartialEq, Eq)]
pub enum TargetAddr {
    Ipv4([u8; 4]),
    /// Domain name octets, at most 255 of them.
    Domain(Vec<u8>),
    Ipv6([u8; 16]),
}

/// The mathematical value of a `TargetAddr`.
pub enum AddrModel {
    Ipv4(Seq<u8>),
    Domain(Seq<u8>),
    Ipv6(Seq<u8>),
}

impl View for TargetAddr {
    type V = AddrModel;

    open spec fn view(&self) -> AddrModel {
        match self {
            TargetAddr::Ipv4(a) => AddrModel::Ipv4(a@),
            TargetAddr::Domain(d) => AddrModel::Domain(d@),
            TargetAddr::Ipv6(a) => AddrModel::Ipv6(a@),
        }
    }
}

/// A client greeting: the methods it offers.
#[derive(Debug, Clone, PartialEq, Eq)]
pub struct Greeting {
    pub methods: Vec<u8>,
}

/// A CONNECT request for a target address and port.
#[derive(Debug, Clone, PartialEq, Eq)]
pub struct Request {
    pub addr: TargetAddr,
    pub port: u16,
}

/// A reply: its code and the bound address and port.
#[derive(Debug, Clone, PartialEq, Eq)]
pub struct Reply {
    pub code: u8,
    pub addr: TargetAddr,
    pub port: u16,
}

pub open spec fn addr_wf(a: AddrModel) -> bool {
    match a {
        AddrModel::Ipv4(s) => s.len() == 4,
        AddrModel::Domain(s) => s.len() <= 255,
        AddrModel::Ipv6(s) => s.len() == 16,
    }
}

impl TargetAddr {
    pub open spec fn wf(&self) -> bool {
        addr_wf(self@)
    }
}

impl Greeting {
    pub open spec fn wf(&self) -> bool {
        self.methods@.len() <= 255
    }
}

impl Request {
    pub open spec fn wf(&self) -> bool {
        self.addr.wf()
    }
}

impl Reply {
    pub open spec fn wf(&self) -> bool {
        self.addr.wf()
    }
}

/// The two octets of a port, most significant first.
pub open spec fn port_bytes(p: u16) -> Seq<u8> {
    seq![(p / 256) as u8, (p % 256) as u8]
}

pub open spec fn port_of(hi: u8, lo: u8) -> u16 {
    (hi as int * 256 + lo as int) as u16
}

/// Address type octet followed by the address field.
pub open spec fn encode_addr(a: AddrModel) -> Seq<u8> {
    match a {
        AddrModel::Ipv4(s) => seq![ATYP_IPV4] + s,
        AddrModel::Domain(s) => seq![ATYP_DOMAIN, s.len() as u8] + s,
        AddrModel::Ipv6(s) => seq![ATYP_IPV6] + s,
    }
}

pub open spec fn encode_greeting_spec(methods: Seq<u8>) -> Seq<u8> {
    seq![SOCKS_VERSION, methods.len() as u8] + methods
}

pub open spec fn encode_method_selection_spec(method: u8) -> Seq<u8> {
    seq![SOCKS_VERSION, method]
}

pub open spec fn encode_request_spec(a: AddrModel, port: u16) -> Seq<u8> {
    seq![SOCKS_VERSION, CMD_CONNECT, 0u8] + encode_addr(a) + port_bytes(port)
}

pub open spec fn encode_reply_spec(code: u8, a: AddrModel, port: u16) -> Seq<u8> {
    seq![SOCKS_VERSION, code, 0u8] + encode_addr(a) + port_bytes(port)
}

/// Decodes an address field that starts with its type octet.
pub open spec fn decode_addr_spec(b: Seq<u8>) -> Result<(AddrModel, nat), CodecError> {
    if b.len() == 0 {
        Err(CodecError::Incomplete)
    } else if b[0] == ATYP_IPV4 {
        if b.len() < 5 {
            Err(CodecError::Incomplete)
        } else {
            Ok((AddrModel::Ipv4(b.subrange(1, 5)), 5))
        }
    } else if b[0] == ATYP_DOMAIN {
        if b.len() < 2 || b.len() < 2 + b[1] {
            Err(CodecError::Incomplete)
        } else {
            Ok((AddrModel::Domain(b.subrange(2, 2 + b[1])), (2 + b[1]) as nat))
        }
    } else if b[0] == ATYP_IPV6 {
        if b.len() < 17 {
            Err(CodecError::Incomplete)
        } else {
            Ok((AddrModel::Ipv6(b.subrange(1, 17)), 17))
        }
    } else {
        Err(CodecError::UnsupportedAddressType(b[0]))
    }
}

pub open spec fn decode_greeting_spec(b: Seq<u8>) -> Result<(Seq<u8>, nat), CodecError> {
    if b.len() == 0 {
        Err(CodecError::Incomplete)
    } else if b[0] != SOCKS_VERSION {
        Err(CodecError::ProtocolVersion(b[0]))
    } else if b.len() < 2 || b.len() < 2 + b[1] {
        Err(CodecError::Incomplete)
    } else {
        Ok((b.subrange(2, 2 + b[1]), (2 + b[1]) as nat))
    }
}

pub open spec fn decode_method_selection_spec(b: Seq<u8>) -> Result<(u8, nat), CodecError> {
    if b.len() == 0 {
        Err(CodecError::Incomplete)
    } else if b[0] != SOCKS_VERSION {
        Err(CodecError::ProtocolVersion(b[0]))
    } else if b.len() < 2 {
        Err(CodecError::Incomplete)
    } else {
        Ok((b[1], 2))
    }
}

/// Address and port that follow the first three octets of a request or reply.
pub open spec fn decode_tail_spec(b: Seq<u8>) -> Result<(AddrModel, u16, nat), CodecError> {
    match decode_addr_spec(b.skip(3)) {
        Err(e) => Err(e),
        Ok((a, n)) => if b.len() < 3 + n + 2 {
            Err(CodecError::Incomplete)
        } else {
            Ok((a, port_of(b[3 + n as int], b[4 + n as int]), 5 + n))
        },
    }
}

pub open spec fn decode_request_spec(b: Seq<u8>) -> Result<(AddrModel, u16, nat), CodecError> {
    if b.len() == 0 {
        Err(CodecError::Incomplete)
    } else if b[0] != SOCKS_VERSION {
        Err(CodecError::ProtocolVersion(b[0]))
    } else if b.len() < 2 {
        Err(CodecError::Incomplete)
    } else if b[1] != CMD_CONNECT {
        Err(CodecError::UnsupportedCommand(b[1]))
    } else if b.len() < 3 {
        Err(CodecError::Incomplete)
    } else if b[2] != 0 {
        Err(CodecError::ReservedNonZero(b[2]))
    } else {
        decode_tail_spec(b)
    }
}

pub open spec fn decode_reply_spec(b: Seq<u8>) -> Result<(u8, AddrModel, u16, nat), CodecError> {
    if b.len() == 0 {
        Err(CodecError::Incomplete)
    } else if b[0] != SOCKS_VERSION {
        Err(CodecError::ProtocolVersion(b[0]))
    } else if b.len() < 3 {
        Err(CodecError::Incomplete)
    } else if b[2] != 0 {
        Err(CodecError::ReservedNonZero(b[2]))
    } else {
        match decode_tail_spec(b) {
            Err(e) => Err(e),
            Ok((a, p, n)) => Ok((b[1], a, p, n)),
        }
    }
}

fn copy_range(b: &[u8], start: usize, end: usize) -> (r: Vec<u8>)
    requires
        start <= end <= b@.len(),
    ensures
        r@ == b@.subrange(start as int, end as int),
{
    let mut r: Vec<u8> = Vec::new();
    let mut i: usize = start;
    while i < end
        invariant
            start <= i <= end <= b@.len(),
            r@ == b@.subrange(start as int, i as int),
        decreases end - i,
    {
        r.push(b[i]);
        assert(r@ =~= b@.subrange(start as int, i + 1));
        i = i + 1;
    }
    r
}

fn append_bytes(out: &mut Vec<u8>, s: &[u8])
    ensures
        final(out)@ == old(out)@ + s@,
{
    let mut i: usize = 0;
    while i < s.len()
        invariant
            i <= s@.len(),
            out@ == old(out)@ + s@.subrange(0, i as int),
        decreases s@.len() - i,
    {
        out.push(s[i]);
        assert(out@ =~= old(out)@ + s@.subrange(0, i + 1));
        i = i + 1;
    }
    assert(s@.subrange(0, s@.len() as int) =~= s@);
}

/// Decodes the address field at the start of `b`.
fn decode_addr(b: &[u8]) -> (r: Result<(TargetAddr, usize), CodecError>)
    ensures
        match r {
            Ok((a, n)) => decode_addr_spec(b@) == Ok::<(AddrModel, nat), CodecError>((a@, n as nat)),
            Err(e) => decode_addr_spec(b@) == Err::<(AddrModel, nat), CodecError>(e),
        },
{
    if b.len() == 0 {
        return Err(CodecError::Incomplete);
    }
    let atyp = b[0];
    if atyp == ATYP_IPV4 {
        if b.len() < 5 {
            return Err(CodecError::Incomplete);
        }
        let a: [u8; 4] = [b[1], b[2], b[3], b[4]];
        assert(a@ =~= b@.subrange(1, 5));
        Ok((TargetAddr::Ipv4(a), 5))
    } else if atyp == ATYP_DOMAIN {
        if b.len() < 2 {
            return Err(CodecError::Incomplete);
        }
        let len = b[1] as usize;
        if b.len() < 2 + len {
            return Err(CodecError::Incomplete);
        }
        let d = copy_range(b, 2, 2 + len);
        Ok((TargetAddr::Domain(d), 2 + len))
    } else if atyp == ATYP_IPV6 {
        if b.len() < 17 {
            return Err(CodecError::Incomplete);
        }
        let a: [u8; 16] = [
            b[1],
            b[2],
            b[3],
            b[4],
            b[5],
            b[6],
            b[7],
            b[8],
            b[9],
            b[10],
            b[11],
            b[12],
            b[13],
            b[14],
            b[15],
            b[16],
        ];
        assert(a@ =~= b@.subrange(1, 17));
        Ok((TargetAddr::Ipv6(a), 17))
    } else {
        Err(CodecError::UnsupportedAddressType(atyp))
    }
}

/// Decodes address and port after the first three octets of `b`.
fn decode_tail(b: &[u8]) -> (r: Result<(TargetAddr, u16, usize), CodecError>)
    requires
        b@.len() >= 3,
    ensures
        match r {
            Ok((a, p, n)) => decode_tail_spec(b@) == Ok::<(AddrModel, u16, nat), CodecError>(
                (a@, p, n as nat),
            ),
            Err(e) => decode_tail_spec(b@) == Err::<(AddrModel, u16, nat), CodecError>(e),
        },
{
    let (_, rest) = b.split_at(3);
    assert(rest@ =~= b@.skip(3));
    match decode_addr(rest) {
        Err(e) => Err(e),
        Ok((a, n)) => {
            if b.len() - 3 - n < 2 {
                Err(CodecError::Incomplete)
            } else {
                let port = (b[3 + n] as u16) * 256 + (b[4 + n] as u16);
                Ok((a, port, 5 + n))
            }
        },
    }
}

/// Decodes a client greeting: version, method count, methods.
pub fn decode_greeting(b: &[u8]) -> (r: Result<(Greeting, usize), CodecError>)
    ensures
        match r {
            Ok((g, n)) => decode_greeting_spec(b@) == Ok::<(Seq<u8>, nat), CodecError>(
                (g.methods@, n as nat),
            ),
            Err(e) => decode_greeting_spec(b@) == Err::<(Seq<u8>, nat), CodecError>(e),
        },
{
    if b.len() == 0 {
        return Err(CodecError::Incomplete);
    }
    if b[0] != SOCKS_VERSION {
        return Err(CodecError::ProtocolVersion(b[0]));
    }
    if b.len() < 2 {
        return Err(CodecError::Incomplete);
    }
    let n = b[1] as usize;
    if b.len() < 2 + n {
        return Err(CodecError::Incomplete);
    }
    let methods = copy_range(b, 2, 2 + n);
    Ok((Greeting { methods }, 2 + n))
}

/// Decodes a method selection message: version and chosen method.
pub fn decode_method_selection(b: &[u8]) -> (r: Result<(u8, usize), CodecError>)
    ensures
        match r {
            Ok((m, n)) => decode_method_selection_spec(b@) == Ok::<(u8, nat), CodecError>(
                (m, n as nat),
            ),
            Err(e) => decode_method_selection_spec(b@) == Err::<(u8, nat), CodecError>(e),
        },
{
    if b.len() == 0 {
        return Err(CodecError::Incomplete);
    }
    if b[0] != SOCKS_VERSION {
        return Err(CodecError::ProtocolVersion(b[0]));
    }
    if b.len() < 2 {
        return Err(CodecError::Incomplete);
    }
    Ok((b[1], 2))
}

/// Decodes a CONNECT request.
pub fn decode_request(b: &[u8]) -> (r: Result<(Request, usize), CodecError>)
    ensures
        match r {
            Ok((q, n)) => decode_request_spec(b@) == Ok::<(AddrModel, u16, nat), CodecError>(
                (q.addr@, q.port, n as nat),
            ),
            Err(e) => decode_request_spec(b@) == Err::<(AddrModel, u16, nat), CodecError>(e),
        },
{
    if b.len() == 0 {
        return Err(CodecError::Incomplete);
    }
    if b[0] != SOCKS_VERSION {
        return Err(CodecError::ProtocolVersion(b[0]));
    }
    if b.len() < 2 {
        return Err(CodecError::Incomplete);
    }
    if b[1] != CMD_CONNECT {
        return Err(CodecError::UnsupportedCommand(b[1]));
    }
    if b.len() < 3 {
        return Err(CodecError::Incomplete);
    }
    if b[2] != 0 {
        return Err(CodecError::ReservedNonZero(b[2]));
    }
    match decode_tail(b) {
        Err(e) => Err(e),
        Ok((addr, port, n)) => Ok((Request { addr, port }, n)),
    }
}

/// Decodes a reply.
pub fn decode_reply(b: &[u8]) -> (r: Result<(Reply, usize), CodecError>)
    ensures
        match r {
            Ok((p, n)) => decode_reply_spec(b@) == Ok::<(u8, AddrModel, u16, nat), CodecError>(
                (p.code, p.addr@, p.port, n as nat),
            ),
            Err(e) => decode_reply_spec(b@) == Err::<(u8, AddrModel, u16, nat), CodecError>(e),
        },
{
    if b.len() == 0 {
        return Err(CodecError::Incomplete);
    }
    if b[0] != SOCKS_VERSION {
        return Err(CodecError::ProtocolVersion(b[0]));
    }
    if b.len() < 3 {
        return Err(CodecError::Incomplete);
    }
    if b[2] != 0 {
        return Err(CodecError::ReservedNonZero(b[2]));
    }
    let code = b[1];
    match decode_tail(b) {
        Err(e) => Err(e),
        Ok((addr, port, n)) => Ok((Reply { code, addr, port }, n)),
    }
}

fn push_addr(out: &mut Vec<u8>, a: &TargetAddr)
    requires
        a.wf(),
    ensures
        final(out)@ == old(out)@ + encode_addr(a@),
{
    match a {
        TargetAddr::Ipv4(ip) => {
            out.push(ATYP_IPV4);
            append_bytes(out, ip.as_slice());
        },
        TargetAddr::Domain(d) => {
            out.push(ATYP_DOMAIN);
            out.push(d.len() as u8);
            append_bytes(out, d.as_slice());
        },
        TargetAddr::Ipv6(ip) => {
            out.push(ATYP_IPV6);
            append_bytes(out, ip.as_slice());
        },
    }
    assert(out@ =~= old(out)@ + encode_addr(a@));
}

fn push_port(out: &mut Vec<u8>, port: u16)
    ensures
        final(out)@ == old(out)@ + port_bytes(port),
{
    out.push((port / 256) as u8);
    out.push((port % 256) as u8);
    assert(out@ =~= old(out)@ + port_bytes(port));
}

/// Encodes a greeting offering `g.methods`.
pub fn encode_greeting(g: &Greeting) -> (r: Vec<u8>)
    requires
        g.wf(),
    ensures
        r@ == encode_greeting_spec(g.methods@),
{
    let mut out: Vec<u8> = Vec::new();
    out.push(SOCKS_VERSION);
    out.push(g.methods.len() as u8);
    append_bytes(&mut out, g.methods.as_slice());
    assert(out@ =~= encode_greeting_spec(g.methods@));
    out
}

/// Encodes a method selection message choosing `method`.
pub fn encode_method_selection(method: u8) -> (r: Vec<u8>)
    ensures
        r@ == encode_method_selection_spec(method),
{
    let mut out: Vec<u8> = Vec::new();
    out.push(SOCKS_VERSION);
    out.push(method);
    assert(out@ =~= encode_method_selection_spec(method));
    out
}

/// Encodes a CONNECT request.
pub fn encode_request(q: &Request) -> (r: Vec<u8>)
    requires
        q.wf(),
    ensures
        r@ == encode_request_spec(q.addr@, q.port),
{
    let mut out: Vec<u8> = Vec::new();
    out.push(SOCKS_VERSION);
    out.push(CMD_CONNECT);
    out.push(0u8);
    push_addr(&mut out, &q.addr);
    push_port(&mut out, q.port);
    assert(out@ =~= encode_request_spec(q.addr@, q.port));
    out
}

/// Encodes a reply.
pub fn encode_reply(p: &Reply) -> (r: Vec<u8>)
    requires
        p.wf(),
    ensures
        r@ == encode_reply_spec(p.code, p.addr@, p.port),
{
    let mut out: Vec<u8> = Vec::new();
    out.push(SOCKS_VERSION);
    out.push(p.code);
    out.push(0u8);
    push_addr(&mut out, &p.addr);
    push_port(&mut out, p.port);
    assert(out@ =~= encode_reply_spec(p.code, p.addr@, p.port));
    out
}

proof fn lemma_port_round_trip(p: u16)
    ensures
        port_of(port_bytes(p)[0], port_bytes(p)[1]) == p,
{
}

proof fn lemma_port_bytes_of(hi: u8, lo: u8)
    ensures
        port_bytes(port_of(hi, lo)) == seq![hi, lo],
{
    assert(port_bytes(port_of(hi, lo)) =~= seq![hi, lo]);
}

proof fn lemma_addr_decode_encode(b: Seq<u8>)
    requires
        decode_addr_spec(b) is Ok,
    ensures
        ({
            let (a, n) = decode_addr_spec(b)->Ok_0;
            &&& addr_wf(a)
            &&& n <= b.len()
            &&& encode_addr(a) == b.subrange(0, n as int)
        }),
{
    let (a, n) = decode_addr_spec(b)->Ok_0;
    assert(encode_addr(a) =~= b.subrange(0, n as int));
}

proof fn lemma_addr_encode_decode(a: AddrModel, rest: Seq<u8>)
    requires
        addr_wf(a),
    ensures
        decode_addr_spec(encode_addr(a) + rest) == Ok::<(AddrModel, nat), CodecError>(
            (a, encode_addr(a).len()),
        ),
{
    let b = encode_addr(a) + rest;
    match a {
        AddrModel::Ipv4(s) => {
            assert(b.subrange(1, 5) =~= s);
        },
        AddrModel::Domain(s) => {
            assert(b.subrange(2, 2 + b[1]) =~= s);
        },
        AddrModel::Ipv6(s) => {
            assert(b.subrange(1, 17) =~= s);
        },
    }
}

proof fn lemma_tail_decode_encode(b: Seq<u8>)
    requires
        b.len() >= 3,
        decode_tail_spec(b) is Ok,
    ensures
        ({
            let (a, p, n) = decode_tail_spec(b)->Ok_0;
            &&& addr_wf(a)
            &&& n <= b.len()
            &&& b.subrange(3, n as int) == encode_addr(a) + port_bytes(p)
        }),
{
    let (a, p, n) = decode_tail_spec(b)->Ok_0;
    let (a2, m) = decode_addr_spec(b.skip(3))->Ok_0;
    lemma_addr_decode_encode(b.skip(3));
    lemma_port_bytes_of(b[3 + m as int], b[4 + m as int]);
    assert(b.subrange(3, n as int) =~= b.skip(3).subrange(0, m as int) + seq![
        b[3 + m as int],
        b[4 + m as int],
    ]);
}

proof fn lemma_tail_encode_decode(head: Seq<u8>, a: AddrModel, p: u16, rest: Seq<u8>)
    requires
        head.len() == 3,
        addr_wf(a),
    ensures
        decode_tail_spec(head + encode_addr(a) + port_bytes(p) + rest) == Ok::<
            (AddrModel, u16, nat),
            CodecError,
        >((a, p, 5 + encode_addr(a).len())),
{
    let b = head + encode_addr(a) + port_bytes(p) + rest;
    assert(b.skip(3) =~= encode_addr(a) + (port_bytes(p) + rest));
    lemma_addr_encode_decode(a, port_bytes(p) + rest);
    let n = encode_addr(a).len();
    assert(b[3 + n as int] == port_bytes(p)[0]);
    assert(b[4 + n as int] == port_bytes(p)[1]);
    lemma_port_round_trip(p);
}

/// Decoding a greeting and encoding it again gives back the octets it was
/// decoded from.
pub proof fn lemma_greeting_decode_encode(b: Seq<u8>)
    requires
        decode_greeting_spec(b) is Ok,
    ensures
        ({
            let (m, n) = decode_greeting_spec(b)->Ok_0;
            encode_greeting_spec(m) == b.subrange(0, n as int)
        }),
{
    let (m, n) = decode_greeting_spec(b)->Ok_0;
    assert(encode_greeting_spec(m) =~= b.subrange(0, n as int));
}

/// An encoded greeting decodes to the same methods, whatever follows it.
pub proof fn lemma_greeting_encode_decode(methods: Seq<u8>, rest: Seq<u8>)
    requires
        methods.len() <= 255,
    ensures
        decode_greeting_spec(encode_greeting_spec(methods) + rest) == Ok::<(Seq<u8>, nat), CodecError>(
            (methods, 2 + methods.len()),
        ),
{
    let b = encode_greeting_spec(methods) + rest;
    assert(b.subrange(2, 2 + b[1]) =~= methods);
}

/// Decoding a method selection and encoding it again gives back its octets.
pub proof fn lemma_method_selection_decode_encode(b: Seq<u8>)
    requires
        decode_method_selection_spec(b) is Ok,
    ensures
        ({
            let (m, n) = decode_method_selection_spec(b)->Ok_0;
            encode_method_selection_spec(m) == b.subrange(0, n as int)
        }),
{
    let (m, n) = decode_method_selection_spec(b)->Ok_0;
    assert(encode_method_selection_spec(m) =~= b.subrange(0, n as int));
}

/// An encoded method selection decodes to the same method.
pub proof fn lemma_method_selection_encode_decode(method: u8, rest: Seq<u8>)
    ensures
        decode_method_selection_spec(encode_method_selection_spec(method) + rest) == Ok::<
            (u8, nat),
            CodecError,
        >((method, 2)),
{
}

/// Decoding a request and encoding it again gives back the octets it was
/// decoded from.
pub proof fn lemma_request_decode_encode(b: Seq<u8>)
    requires
        decode_request_spec(b) is Ok,
    ensures
        ({
            let (a, p, n) = decode_request_spec(b)->Ok_0;
            &&& addr_wf(a)
            &&& encode_request_spec(a, p) == b.subrange(0, n as int)
        }),
{
    let (a, p, n) = decode_request_spec(b)->Ok_0;
    lemma_tail_decode_encode(b);
    assert(encode_request_spec(a, p) =~= b.subrange(0, 3) + b.subrange(3, n as int));
    assert(b.subrange(0, n as int) =~= b.subrange(0, 3) + b.subrange(3, n as int));
}

/// An encoded request decodes to the same address and port, whatever follows it.
pub proof fn lemma_request_encode_decode(a: AddrModel, port: u16, rest: Seq<u8>)
    requires
        addr_wf(a),
    ensures
        decode_request_spec(encode_request_spec(a, port) + rest) == Ok::<
            (AddrModel, u16, nat),
            CodecError,
        >((a, port, encode_request_spec(a, port).len())),
{
    let head = seq![SOCKS_VERSION, CMD_CONNECT, 0u8];
    let b = encode_request_spec(a, port) + rest;
    assert(b =~= head + encode_addr(a) + port_bytes(port) + rest);
    lemma_tail_encode_decode(head, a, port, rest);
}

/// Decoding a reply and encoding it again gives back the octets it was decoded
/// from.
pub proof fn lemma_reply_decode_encode(b: Seq<u8>)
    requires
        decode_reply_spec(b) is Ok,
    ensures
        ({
            let (c, a, p, n) = decode_reply_spec(b)->Ok_0;
            &&& addr_wf(a)
            &&& encode_reply_spec(c, a, p) == b.subrange(0, n as int)
        }),
{
    let (c, a, p, n) = decode_reply_spec(b)->Ok_0;
    lemma_tail_decode_encode(b);
    assert(encode_reply_spec(c, a, p) =~= b.subrange(0, 3) + b.subrange(3, n as int));
    assert(b.subrange(0, n as int) =~= b.subrange(0, 3) + b.subrange(3, n as int));
}

/// An encoded reply decodes to the same code, address and port, whatever
/// follows it.
pub proof fn lemma_reply_encode_decode(code: u8, a: AddrModel, port: u16, rest: Seq<u8>)
    requires
        addr_wf(a),
    ensures
        decode_reply_spec(encode_reply_spec(code, a, port) + rest) == Ok::<
            (u8, AddrModel, u16, nat),
            CodecError,
        >((code, a, port, encode_reply_spec(code, a, port).len())),
{
    let head = seq![SOCKS_VERSION, code, 0u8];
    let b = encode_reply_spec(code, a, port) + rest;
    assert(b =~= head + encode_addr(a) + port_bytes(port) + rest);
    lemma_tail_encode_decode(head, a, port, rest);
}

} // verus!
