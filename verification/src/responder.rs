//! The per-request reply state machine: a parsed request and a resolved
//! lease become an OFFER or an ACK, or the request is dropped. The state
//! is selected solely by the message-type option of the request.

use vstd::prelude::*;

verus! {

use crate::codec::{encode, encoded, opt_fits};
use crate::frame::{Frame, FrameView, OP_REPLY};
use crate::options::{
    CODE_END, CODE_LEASE_TIME, CODE_MSG_TYPE, CODE_ROUTER, CODE_SUBNET_MASK, OptView,
    OptionTable, find_code, u32_be_bytes,
};
use crate::records::Interface;
use crate::resolver::{Lease, resolve, spec_parse_ipv4};

/// Message-type value of a DISCOVER request.
pub const MSG_DISCOVER: u8 = 1;

/// Message-type value of an OFFER reply.
pub const MSG_OFFER: u8 = 2;

/// Message-type value of a REQUEST request.
pub const MSG_REQUEST: u8 = 3;

/// Message-type value of an ACK reply.
pub const MSG_ACK: u8 = 5;

/// The state a request puts the responder in: answer a DISCOVER, answer a
/// REQUEST, or drop anything else.
#[derive(Clone, Copy, Debug, PartialEq, Eq, Structural)]
pub enum RequestState {
    Discover,
    Request,
    Unsupported,
}

/// The requested message type: the first byte of the first message-type
/// option, if the option is present and carries data.
pub open spec fn spec_msg_type(opts: Seq<OptView>) -> Option<u8> {
    let i = find_code(opts, CODE_MSG_TYPE, 0);
    if i >= 0 && opts[i].data.len() >= 1 {
        Some(opts[i].data[0])
    } else {
        None
    }
}

/// Which state a request selects.
pub open spec fn spec_classify(req: FrameView) -> RequestState {
    match spec_msg_type(req.options) {
        Some(t) => {
            if t == MSG_DISCOVER {
                RequestState::Discover
            } else if t == MSG_REQUEST {
                RequestState::Request
            } else {
                RequestState::Unsupported
            }
        },
        None => RequestState::Unsupported,
    }
}

/// Message type of the reply to a supported request: OFFER answers
/// DISCOVER, ACK answers REQUEST.
pub open spec fn reply_msg_type(st: RequestState) -> u8 {
    match st {
        RequestState::Discover => MSG_OFFER,
        RequestState::Request => MSG_ACK,
        RequestState::Unsupported => MSG_OFFER,
    }
}

/// Selects the responder state for a parsed request.
pub fn classify(req: &Frame) -> (r: RequestState)
    ensures
        r == spec_classify(req@),
{
    match req.options.get(CODE_MSG_TYPE) {
        Some(data) => {
            if data.len() >= 1 {
                let t = data[0];
                if t == MSG_DISCOVER {
                    RequestState::Discover
                } else if t == MSG_REQUEST {
                    RequestState::Request
                } else {
                    RequestState::Unsupported
                }
            } else {
                RequestState::Unsupported
            }
        },
        None => RequestState::Unsupported,
    }
}

/// The responder's own addresses and lease term, passed in explicitly.
pub struct ServerConfig {
    pub server_ip: Vec<u8>,
    pub subnet_mask: Vec<u8>,
    pub router: Vec<u8>,
    pub lease_secs: u32,
}

/// Mathematical model of a server configuration.
pub ghost struct ConfigView {
    pub server_ip: Seq<u8>,
    pub subnet_mask: Seq<u8>,
    pub router: Seq<u8>,
    pub lease_secs: u32,
}

impl View for ServerConfig {
    type V = ConfigView;

    open spec fn view(&self) -> ConfigView {
        ConfigView {
            server_ip: self.server_ip@,
            subnet_mask: self.subnet_mask@,
            router: self.router@,
            lease_secs: self.lease_secs,
        }
    }
}

impl ConfigView {
    /// Every address field has its four octets.
    pub open spec fn wf(self) -> bool {
        self.server_ip.len() == 4 && self.subnet_mask.len() == 4 && self.router.len() == 4
    }
}

/// The stock configuration the daemon runs with: server 192.168.1.253,
/// mask 255.255.255.0, router 192.168.1.254, one-day leases.
impl Default for ServerConfig {
    fn default() -> (r: ServerConfig)
        ensures
            r@.wf(),
            r@.server_ip =~= seq![192u8, 168u8, 1u8, 253u8],
            r@.subnet_mask =~= seq![255u8, 255u8, 255u8, 0u8],
            r@.router =~= seq![192u8, 168u8, 1u8, 254u8],
            r@.lease_secs == 86400,
    {
        let mut server_ip: Vec<u8> = Vec::new();
        server_ip.push(192);
        server_ip.push(168);
        server_ip.push(1);
        server_ip.push(253);
        let mut subnet_mask: Vec<u8> = Vec::new();
        subnet_mask.push(255);
        subnet_mask.push(255);
        subnet_mask.push(255);
        subnet_mask.push(0);
        let mut router: Vec<u8> = Vec::new();
        router.push(192);
        router.push(168);
        router.push(1);
        router.push(254);
        proof {
            assert(server_ip@ =~= seq![192u8, 168u8, 1u8, 253u8]);
            assert(subnet_mask@ =~= seq![255u8, 255u8, 255u8, 0u8]);
            assert(router@ =~= seq![192u8, 168u8, 1u8, 254u8]);
        }
        ServerConfig { server_ip, subnet_mask, router, lease_secs: 86400 }
    }
}

/// The reply frame for a supported request: a BOOTP reply carrying the
/// request's transaction id and hardware address verbatim, the leased
/// address in `yiaddr`, the server's own address in `siaddr`, and the
/// required options in order — message type, subnet mask, router, lease
/// time, END.
pub open spec fn spec_reply(req: FrameView, mt: u8, ip: Seq<u8>, cfg: ConfigView) -> FrameView {
    FrameView {
        op: OP_REPLY,
        htype: req.htype,
        hlen: req.hlen,
        hops: 0,
        xid: req.xid,
        secs: req.secs,
        flags: req.flags,
        ciaddr: Seq::new(4, |i: int| 0u8),
        yiaddr: ip,
        siaddr: cfg.server_ip,
        giaddr: Seq::new(4, |i: int| 0u8),
        chaddr: req.chaddr,
        sname: Seq::new(64, |i: int| 0u8),
        file: Seq::new(128, |i: int| 0u8),
        options: seq![
            OptView { code: CODE_MSG_TYPE, data: seq![mt] },
            OptView { code: CODE_SUBNET_MASK, data: cfg.subnet_mask },
            OptView { code: CODE_ROUTER, data: cfg.router },
            OptView { code: CODE_LEASE_TIME, data: u32_be_bytes(cfg.lease_secs) },
            OptView { code: CODE_END, data: Seq::empty() },
        ],
    }
}

/// Every reply echoes the originating request: whatever the message type,
/// the leased address and the configuration, the reply frame's `xid` and
/// `chaddr` equal the request's, byte for byte.
pub proof fn lemma_reply_echoes_request(req: FrameView, mt: u8, ip: Seq<u8>, cfg: ConfigView)
    ensures
        spec_reply(req, mt, ip, cfg).xid == req.xid,
        spec_reply(req, mt, ip, cfg).chaddr == req.chaddr,
{
}

/// Copies a byte vector.
fn copy_bytes(src: &Vec<u8>) -> (r: Vec<u8>)
    ensures
        r@ == src@,
{
    let n = src.len();
    let mut r: Vec<u8> = Vec::new();
    let mut i: usize = 0;
    while i < n
        invariant
            0 <= i <= n,
            n == src@.len(),
            r@ =~= src@.take(i as int),
        decreases n - i,
    {
        r.push(src[i]);
        i = i + 1;
    }
    proof {
        assert(r@ =~= src@);
    }
    r
}

/// No entry at or after `i` carries the code, so the search misses.
proof fn lemma_find_code_miss(opts: Seq<OptView>, code: u8, i: int)
    requires
        0 <= i,
        forall|k: int| i <= k < opts.len() ==> (#[trigger] opts[k]).code != code,
    ensures
        find_code(opts, code, i) == -1,
    decreases opts.len() - i,
{
    if i < opts.len() {
        lemma_find_code_miss(opts, code, i + 1);
    }
}

/// Builds the reply frame for a request and a resolved lease, or nothing
/// when the request's message type is absent or unsupported. The reply's
/// `xid` and `chaddr` always equal the request's, byte for byte.
pub fn build(req: &Frame, lease: &Lease, cfg: &ServerConfig) -> (r: Option<Frame>)
    requires
        req@.wf(),
        lease.wf(),
        cfg@.wf(),
    ensures
        match r {
            Some(rep) => spec_classify(req@) != RequestState::Unsupported && rep@ == spec_reply(
                req@,
                reply_msg_type(spec_classify(req@)),
                lease.ip@,
                cfg@,
            ) && rep@.wf(),
            None => spec_classify(req@) == RequestState::Unsupported,
        },
{
    let st = classify(req);
    let mt: u8 = match st {
        RequestState::Discover => MSG_OFFER,
        RequestState::Request => MSG_ACK,
        RequestState::Unsupported => {
            return None;
        },
    };

    let mut f = Frame::new();
    f.op = OP_REPLY;
    f.htype = req.htype;
    f.hlen = req.hlen;
    f.xid = copy_bytes(&req.xid);
    f.secs = copy_bytes(&req.secs);
    f.flags = copy_bytes(&req.flags);
    f.yiaddr = copy_bytes(&lease.ip);
    f.siaddr = copy_bytes(&cfg.server_ip);
    f.chaddr = copy_bytes(&req.chaddr);

    let ghost o53 = OptView { code: CODE_MSG_TYPE, data: seq![mt] };
    let ghost o1 = OptView { code: CODE_SUBNET_MASK, data: cfg.subnet_mask@ };
    let ghost o3 = OptView { code: CODE_ROUTER, data: cfg.router@ };
    let ghost o51 = OptView { code: CODE_LEASE_TIME, data: u32_be_bytes(cfg.lease_secs) };
    let ghost oend = OptView { code: CODE_END, data: Seq::<u8>::empty() };

    let mut t = OptionTable::new();
    t.set_u8(CODE_MSG_TYPE, mt);
    proof {
        lemma_find_code_miss(Seq::<OptView>::empty(), CODE_MSG_TYPE, 0);
        assert(t@ =~= seq![o53]);
    }
    t.set_ipv4(
        CODE_SUBNET_MASK,
        cfg.subnet_mask[0],
        cfg.subnet_mask[1],
        cfg.subnet_mask[2],
        cfg.subnet_mask[3],
    );
    proof {
        lemma_find_code_miss(seq![o53], CODE_SUBNET_MASK, 0);
        assert(seq![
            cfg.subnet_mask@[0],
            cfg.subnet_mask@[1],
            cfg.subnet_mask@[2],
            cfg.subnet_mask@[3],
        ] =~= cfg.subnet_mask@);
        assert(t@ =~= seq![o53, o1]);
    }
    t.set_ipv4(CODE_ROUTER, cfg.router[0], cfg.router[1], cfg.router[2], cfg.router[3]);
    proof {
        lemma_find_code_miss(seq![o53, o1], CODE_ROUTER, 0);
        assert(seq![cfg.router@[0], cfg.router@[1], cfg.router@[2], cfg.router@[3]] =~= cfg.router@);
        assert(t@ =~= seq![o53, o1, o3]);
    }
    match t.set_u32_be(CODE_LEASE_TIME, cfg.lease_secs) {
        Ok(_) => {},
        Err(_) => {
            return None;
        },
    }
    proof {
        lemma_find_code_miss(seq![o53, o1, o3], CODE_LEASE_TIME, 0);
        assert(t@ =~= seq![o53, o1, o3, o51]);
    }
    t.append(CODE_END, Vec::new());
    proof {
        assert(t@ =~= seq![o53, o1, o3, o51, oend]);
    }
    f.options = t;

    proof {
        assert(f@ == spec_reply(req@, mt, lease.ip@, cfg@));
    }
    Some(f)
}

/// Handles one looked-up request end to end: resolves the record to a
/// lease, builds the OFFER or ACK, and serialises it. Yields nothing —
/// and so sends nothing — when the client is unknown, its stored address
/// is malformed, or the request's message type is absent or unsupported;
/// such a request is dropped without an error.
pub fn respond(req: &Frame, rec: Option<&Interface>, cfg: &ServerConfig) -> (r: Option<Vec<u8>>)
    requires
        req@.wf(),
        cfg@.wf(),
    ensures
        match rec {
            None => r is None,
            Some(iface) => match spec_parse_ipv4(iface.ip@) {
                None => r is None,
                Some(oct) => {
                    if spec_classify(req@) == RequestState::Unsupported {
                        r is None
                    } else {
                        r matches Some(bytes) && bytes@ == encoded(
                            spec_reply(req@, reply_msg_type(spec_classify(req@)), oct, cfg@),
                        )
                    }
                },
            },
        },
{
    let lease = match resolve(rec) {
        Some(l) => l,
        None => {
            return None;
        },
    };
    let rep = match build(req, &lease, cfg) {
        Some(rep) => rep,
        None => {
            return None;
        },
    };
    proof {
        assert(opt_fits(rep@.options[0]));
        assert(opt_fits(rep@.options[1]));
        assert(opt_fits(rep@.options[2]));
        assert(opt_fits(rep@.options[3]));
        assert(opt_fits(rep@.options[4]));
    }
    match encode(&rep) {
        Ok(bytes) => Some(bytes),
        Err(_) => None,
    }
}

} // verus!
