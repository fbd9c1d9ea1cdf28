//! The decisions of one client session, as a state machine.
//!
//! A session greets the client, reads its CONNECT request, asks the pool for
//! an upstream, dials it, repeats the handshake against it, and relays once
//! the upstream accepted the target. The caller performs each `Action` and
//! feeds back what happened as an `Event`.
use vstd::prelude::*;
use crate::codec::{
    decode_greeting, decode_greeting_spec, decode_method_selection, decode_method_selection_spec,
    decode_reply, decode_reply_spec, decode_request, decode_request_spec, encode_greeting,
    encode_greeting_spec, encode_method_selection, encode_method_selection_spec, encode_reply,
    encode_reply_spec, encode_request, encode_request_spec, lemma_request_decode_encode, AddrModel,
    CodecError, Greeting, Reply, Request, TargetAddr, METHOD_NO_AUTH, REPLY_GENERAL_FAILURE,
    REPLY_HOST_UNREACHABLE, REPLY_SUCCEEDED, addr_wf,
};
use crate::proxy::Proxy;

verus! {

/// Where a session stands.
#[derive(Debug, Clone, Copy, PartialEq, Eq, Structural)]
pub enum Phase {
    /// Waiting for the client's greeting.
    Greeting,
    /// Waiting for the client's request.
    Request,
    /// Waiting for the pool's choice of upstream.
    Pick,
    /// Waiting for the connect to the upstream.
    Dial,
    /// Waiting for the upstream's method selection.
    UpstreamGreeting,
    /// Waiting for the upstream's reply to the forwarded request.
    UpstreamRequest,
    /// Relaying bytes both ways.
    Relay,
    /// Ended.
    Closed,
}

/// What happened since the last action.
#[derive(Debug)]
pub enum Event {
    /// Bytes from the client not consumed yet.
    Client(Vec<u8>),
    /// The pool's choice, or nothing when no upstream is available.
    Picked(Option<Proxy>),
    /// Whether the connect to the upstream succeeded.
    Dialed(bool),
    /// Bytes from the upstream not consumed yet.
    Upstream(Vec<u8>),
}

/// What the caller does next.
#[derive(Debug)]
pub enum Action {
    /// Read more from the same side; nothing was consumed.
    Wait,
    /// Drop `consumed` client bytes and write `bytes` to the client. The
    /// client's greeting did not offer "no authentication required" when
    /// `lenient` is set; the session selects it all the same.
    ReplyClient { bytes: Vec<u8>, consumed: usize, lenient: bool },
    /// Drop `consumed` client bytes and ask the pool for an upstream.
    Pick { consumed: usize },
    /// Connect to this upstream.
    Dial { host: String, port: u16 },
    /// Drop `consumed` upstream bytes and write `bytes` to the upstream.
    SendUpstream { bytes: Vec<u8>, consumed: usize },
    /// Drop `consumed` upstream bytes, write `reply` to the client, then
    /// relay both ways until either side ends.
    Relay { reply: Vec<u8>, consumed: usize },
    /// Write `farewell` to the client if there is one, then close both sides.
    Close { farewell: Option<Vec<u8>> },
}

/// The reply a client gets: the code, with the IPv4 bound address 0.0.0.0:0.
pub open spec fn client_reply_spec(code: u8) -> Seq<u8> {
    encode_reply_spec(code, AddrModel::Ipv4(seq![0u8, 0u8, 0u8, 0u8]), 0)
}

/// The greeting sent upstream: no-auth only.
pub open spec fn upstream_greeting_spec() -> Seq<u8> {
    encode_greeting_spec(seq![METHOD_NO_AUTH])
}

/// `a` closes the session, writing the reply with `code` first if there is one.
pub open spec fn closes_with(a: Action, code: Option<u8>) -> bool {
    match a {
        Action::Close { farewell } => match (farewell, code) {
            (None, None) => true,
            (Some(b), Some(c)) => b@ == client_reply_spec(c),
            _ => false,
        },
        _ => false,
    }
}

/// The mathematical value of a session.
pub struct SessionModel {
    pub phase: Phase,
    /// The client's target, once its request was read.
    pub target: Option<(AddrModel, u16)>,
}

/// One client session.
pub struct Session {
    phase: Phase,
    request: Option<Request>,
}

impl View for Session {
    type V = SessionModel;

    closed spec fn view(&self) -> SessionModel {
        SessionModel {
            phase: self.phase,
            target: match self.request {
                Some(q) => Some((q.addr@, q.port)),
                None => None,
            },
        }
    }
}

/// Encodes the reply a client gets for `code`.
pub fn client_reply(code: u8) -> (r: Vec<u8>)
    ensures
        r@ == client_reply_spec(code),
{
    let z: [u8; 4] = [0, 0, 0, 0];
    let reply = Reply { code, addr: TargetAddr::Ipv4(z), port: 0 };
    assert(reply.addr@ == AddrModel::Ipv4(seq![0u8, 0u8, 0u8, 0u8])) by {
        assert(z@ =~= seq![0u8, 0u8, 0u8, 0u8]);
    }
    encode_reply(&reply)
}

/// Encodes the greeting sent upstream.
pub fn upstream_greeting() -> (r: Vec<u8>)
    ensures
        r@ == upstream_greeting_spec(),
{
    let mut methods: Vec<u8> = Vec::new();
    methods.push(METHOD_NO_AUTH);
    assert(methods@ =~= seq![METHOD_NO_AUTH]);
    encode_greeting(&Greeting { methods })
}

/// Whether a client greeting offers "no authentication required". The
/// session selects it either way.
pub fn offers_no_auth(g: &Greeting) -> (r: bool)
    ensures
        r == g.methods@.contains(METHOD_NO_AUTH),
{
    let mut i: usize = 0;
    while i < g.methods.len()
        invariant
            i <= g.methods@.len(),
            forall|k: int| 0 <= k < i ==> g.methods@[k] != METHOD_NO_AUTH,
        decreases g.methods@.len() - i,
    {
        if g.methods[i] == METHOD_NO_AUTH {
            assert(g.methods@[i as int] == METHOD_NO_AUTH);
            return true;
        }
        i = i + 1;
    }
    false
}

impl Session {
    pub open spec fn wf(&self) -> bool {
        match self@.phase {
            Phase::Pick | Phase::Dial | Phase::UpstreamGreeting | Phase::UpstreamRequest => {
                &&& self@.target is Some
                &&& addr_wf(self@.target->Some_0.0)
            },
            _ => true,
        }
    }

    /// A session that waits for the client's greeting.
    pub fn new() -> (r: Self)
        ensures
            r.wf(),
            r@.phase == Phase::Greeting,
            r@.target is None,
    {
        Session { phase: Phase::Greeting, request: None }
    }

    pub fn phase(&self) -> (r: Phase)
        ensures
            r == self@.phase,
    {
        self.phase
    }

    fn close(&mut self, code: Option<u8>) -> (r: Action)
        ensures
            final(self)@.phase == Phase::Closed,
            final(self)@.target == old(self)@.target,
            closes_with(r, code),
    {
        self.phase = Phase::Closed;
        match code {
            None => Action::Close { farewell: None },
            Some(c) => Action::Close { farewell: Some(client_reply(c)) },
        }
    }

    /// Takes the next event and says what to do.
    pub fn step(&mut self, ev: Event) -> (r: Action)
        requires
            old(self).wf(),
        ensures
            final(self).wf(),
            old(self)@.phase == Phase::Greeting ==> match ev {
                Event::Client(b) => match decode_greeting_spec(b@) {
                    Err(CodecError::Incomplete) => r is Wait && final(self)@ == old(self)@,
                    Err(_) => closes_with(r, None) && final(self)@.phase == Phase::Closed,
                    Ok((m, n)) => final(self)@.phase == Phase::Request && match r {
                        Action::ReplyClient { bytes, consumed, lenient } => bytes@
                            == encode_method_selection_spec(METHOD_NO_AUTH) && consumed == n
                            && lenient == !m.contains(METHOD_NO_AUTH),
                        _ => false,
                    },
                },
                _ => closes_with(r, None) && final(self)@.phase == Phase::Closed,
            },
            old(self)@.phase == Phase::Request ==> match ev {
                Event::Client(b) => match decode_request_spec(b@) {
                    Err(CodecError::Incomplete) => r is Wait && final(self)@ == old(self)@,
                    Err(_) => closes_with(r, None) && final(self)@.phase == Phase::Closed,
                    Ok((a, p, n)) => final(self)@.phase == Phase::Pick && final(self)@.target == Some(
                        (a, p),
                    ) && r == Action::Pick { consumed: n as usize },
                },
                _ => closes_with(r, None) && final(self)@.phase == Phase::Closed,
            },
            old(self)@.phase == Phase::Pick ==> match ev {
                Event::Picked(None) => closes_with(r, Some(REPLY_HOST_UNREACHABLE))
                    && final(self)@.phase == Phase::Closed,
                Event::Picked(Some(p)) => final(self)@.phase == Phase::Dial && final(self)@.target
                    == old(self)@.target && match r {
                    Action::Dial { host, port } => host == p.info.host && port == p.info.port,
                    _ => false,
                },
                _ => closes_with(r, None) && final(self)@.phase == Phase::Closed,
            },
            old(self)@.phase == Phase::Dial ==> match ev {
                Event::Dialed(false) => closes_with(r, Some(REPLY_GENERAL_FAILURE))
                    && final(self)@.phase == Phase::Closed,
                Event::Dialed(true) => final(self)@.phase == Phase::UpstreamGreeting
                    && final(self)@.target == old(self)@.target && match r {
                    Action::SendUpstream { bytes, consumed } => bytes@ == upstream_greeting_spec()
                        && consumed == 0,
                    _ => false,
                },
                _ => closes_with(r, None) && final(self)@.phase == Phase::Closed,
            },
            old(self)@.phase == Phase::UpstreamGreeting ==> match ev {
                Event::Upstream(b) => match decode_method_selection_spec(b@) {
                    Err(CodecError::Incomplete) => r is Wait && final(self)@ == old(self)@,
                    Err(_) => closes_with(r, Some(REPLY_GENERAL_FAILURE)) && final(self)@.phase
                        == Phase::Closed,
                    Ok((m, n)) => if m == METHOD_NO_AUTH {
                        final(self)@.phase == Phase::UpstreamRequest && final(self)@.target == old(
                            self,
                        )@.target && match r {
                            Action::SendUpstream { bytes, consumed } => bytes@
                                == encode_request_spec(
                                old(self)@.target->Some_0.0,
                                old(self)@.target->Some_0.1,
                            ) && consumed == n,
                            _ => false,
                        }
                    } else {
                        closes_with(r, Some(REPLY_GENERAL_FAILURE)) && final(self)@.phase
                            == Phase::Closed
                    },
                },
                _ => closes_with(r, None) && final(self)@.phase == Phase::Closed,
            },
            old(self)@.phase == Phase::UpstreamRequest ==> match ev {
                Event::Upstream(b) => match decode_reply_spec(b@) {
                    Err(CodecError::Incomplete) => r is Wait && final(self)@ == old(self)@,
                    Err(_) => closes_with(r, Some(REPLY_GENERAL_FAILURE)) && final(self)@.phase
                        == Phase::Closed,
                    Ok((code, _, _, n)) => if code == REPLY_SUCCEEDED {
                        final(self)@.phase == Phase::Relay && match r {
                            Action::Relay { reply, consumed } => reply@ == client_reply_spec(
                                REPLY_SUCCEEDED,
                            ) && consumed == n,
                            _ => false,
                        }
                    } else {
                        closes_with(r, Some(REPLY_GENERAL_FAILURE)) && final(self)@.phase
                            == Phase::Closed
                    },
                },
                _ => closes_with(r, None) && final(self)@.phase == Phase::Closed,
            },
            old(self)@.phase == Phase::Relay || old(self)@.phase == Phase::Closed ==> closes_with(
                r,
                None,
            ) && final(self)@.phase == Phase::Closed,
    {
        match self.phase {
            Phase::Greeting => match ev {
                Event::Client(b) => match decode_greeting(b.as_slice()) {
                    Err(CodecError::Incomplete) => Action::Wait,
                    Err(_) => self.close(None),
                    Ok((g, n)) => {
                        let lenient = !offers_no_auth(&g);
                        self.phase = Phase::Request;
                        Action::ReplyClient {
                            bytes: encode_method_selection(METHOD_NO_AUTH),
                            consumed: n,
                            lenient,
                        }
                    },
                },
                _ => self.close(None),
            },
            Phase::Request => match ev {
                Event::Client(b) => match decode_request(b.as_slice()) {
                    Err(CodecError::Incomplete) => Action::Wait,
                    Err(_) => self.close(None),
                    Ok((q, n)) => {
                        proof {
                            lemma_request_decode_encode(b@);
                        }
                        self.phase = Phase::Pick;
                        self.request = Some(q);
                        Action::Pick { consumed: n }
                    },
                },
                _ => self.close(None),
            },
            Phase::Pick => match ev {
                Event::Picked(None) => self.close(Some(REPLY_HOST_UNREACHABLE)),
                Event::Picked(Some(p)) => {
                    self.phase = Phase::Dial;
                    Action::Dial { host: p.info.host, port: p.info.port }
                },
                _ => self.close(None),
            },
            Phase::Dial => match ev {
                Event::Dialed(false) => self.close(Some(REPLY_GENERAL_FAILURE)),
                Event::Dialed(true) => {
                    self.phase = Phase::UpstreamGreeting;
                    Action::SendUpstream { bytes: upstream_greeting(), consumed: 0 }
                },
                _ => self.close(None),
            },
            Phase::UpstreamGreeting => match ev {
                Event::Upstream(b) => match decode_method_selection(b.as_slice()) {
                    Err(CodecError::Incomplete) => Action::Wait,
                    Err(_) => self.close(Some(REPLY_GENERAL_FAILURE)),
                    Ok((m, n)) => {
                        if m == METHOD_NO_AUTH {
                            match &self.request {
                                Some(q) => {
                                    let bytes = encode_request(q);
                                    self.phase = Phase::UpstreamRequest;
                                    Action::SendUpstream { bytes, consumed: n }
                                },
                                None => self.close(None),
                            }
                        } else {
                            self.close(Some(REPLY_GENERAL_FAILURE))
                        }
                    },
                },
                _ => self.close(None),
            },
            Phase::UpstreamRequest => match ev {
                Event::Upstream(b) => match decode_reply(b.as_slice()) {
                    Err(CodecError::Incomplete) => Action::Wait,
                    Err(_) => self.close(Some(REPLY_GENERAL_FAILURE)),
                    Ok((rep, n)) => {
                        if rep.code == REPLY_SUCCEEDED {
                            self.phase = Phase::Relay;
                            Action::Relay { reply: client_reply(REPLY_SUCCEEDED), consumed: n }
                        } else {
                            self.close(Some(REPLY_GENERAL_FAILURE))
                        }
                    },
                },
                _ => self.close(None),
            },
            Phase::Relay | Phase::Closed => self.close(None),
        }
    }
}

} // verus!
