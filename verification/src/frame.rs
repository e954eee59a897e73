//! A DHCP/BOOTP message held in memory: the fixed header fields at their
//! native widths and the ordered option table.

use vstd::prelude::*;

verus! {

use crate::options::{OptView, OptionTable};

/// `op` value of a request frame.
pub const OP_REQUEST: u8 = 1;

/// `op` value of a reply frame.
pub const OP_REPLY: u8 = 2;

/// A parsed or freshly built DHCP/BOOTP frame. The four address fields and
/// `xid`, `secs`, `flags`, `chaddr`, `sname` and `file` are kept as raw
/// byte vectors of their fixed wire widths.
pub struct Frame {
    pub op: u8,
    pub htype: u8,
    pub hlen: u8,
    pub hops: u8,
    pub xid: Vec<u8>,
    pub secs: Vec<u8>,
    pub flags: Vec<u8>,
    pub ciaddr: Vec<u8>,
    pub yiaddr: Vec<u8>,
    pub siaddr: Vec<u8>,
    pub giaddr: Vec<u8>,
    pub chaddr: Vec<u8>,
    pub sname: Vec<u8>,
    pub file: Vec<u8>,
    pub options: OptionTable,
}

/// Mathematical model of a frame.
pub ghost struct FrameView {
    pub op: u8,
    pub htype: u8,
    pub hlen: u8,
    pub hops: u8,
    pub xid: Seq<u8>,
    pub secs: Seq<u8>,
    pub flags: Seq<u8>,
    pub ciaddr: Seq<u8>,
    pub yiaddr: Seq<u8>,
    pub siaddr: Seq<u8>,
    pub giaddr: Seq<u8>,
    pub chaddr: Seq<u8>,
    pub sname: Seq<u8>,
    pub file: Seq<u8>,
    pub options: Seq<OptView>,
}

impl View for Frame {
    type V = FrameView;

    open spec fn view(&self) -> FrameView {
        FrameView {
            op: self.op,
            htype: self.htype,
            hlen: self.hlen,
            hops: self.hops,
            xid: self.xid@,
            secs: self.secs@,
            flags: self.flags@,
            ciaddr: self.ciaddr@,
            yiaddr: self.yiaddr@,
            siaddr: self.siaddr@,
            giaddr: self.giaddr@,
            chaddr: self.chaddr@,
            sname: self.sname@,
            file: self.file@,
            options: self.options@,
        }
    }
}

impl FrameView {
    /// Well-formedness: every fixed field has its wire width.
    pub open spec fn wf(self) -> bool {
        &&& self.xid.len() == 4
        &&& self.secs.len() == 2
        &&& self.flags.len() == 2
        &&& self.ciaddr.len() == 4
        &&& self.yiaddr.len() == 4
        &&& self.siaddr.len() == 4
        &&& self.giaddr.len() == 4
        &&& self.chaddr.len() == 16
        &&& self.sname.len() == 64
        &&& self.file.len() == 128
    }

    /// A frame as parsing yields it: well-formed, with every stored option
    /// a real entry (PAD bytes skipped, the END terminator left implicit).
    pub open spec fn canonical(self) -> bool {
        &&& self.wf()
        &&& forall|i: int|
            0 <= i < self.options.len() ==> (#[trigger] self.options[i]).valid_entry()
    }
}

impl Frame {
    /// A zeroed frame with an empty option table.
    pub fn new() -> (r: Frame)
        ensures
            r@.wf(),
            r@.op == 0 && r@.htype == 0 && r@.hlen == 0 && r@.hops == 0,
            r@.xid =~= Seq::new(4, |i: int| 0u8),
            r@.secs =~= Seq::new(2, |i: int| 0u8),
            r@.flags =~= Seq::new(2, |i: int| 0u8),
            r@.ciaddr =~= Seq::new(4, |i: int| 0u8),
            r@.yiaddr =~= Seq::new(4, |i: int| 0u8),
            r@.siaddr =~= Seq::new(4, |i: int| 0u8),
            r@.giaddr =~= Seq::new(4, |i: int| 0u8),
            r@.chaddr =~= Seq::new(16, |i: int| 0u8),
            r@.sname =~= Seq::new(64, |i: int| 0u8),
            r@.file =~= Seq::new(128, |i: int| 0u8),
            r@.options =~= Seq::<OptView>::empty(),
    {
        Frame {
            op: 0,
            htype: 0,
            hlen: 0,
            hops: 0,
            xid: zero_bytes(4),
            secs: zero_bytes(2),
            flags: zero_bytes(2),
            ciaddr: zero_bytes(4),
            yiaddr: zero_bytes(4),
            siaddr: zero_bytes(4),
            giaddr: zero_bytes(4),
            chaddr: zero_bytes(16),
            sname: zero_bytes(64),
            file: zero_bytes(128),
            options: OptionTable::new(),
        }
    }

    /// The client hardware address: the first `hlen` bytes of `chaddr`
    /// (all sixteen when `hlen` overstates the field).
    pub fn client_mac(&self) -> (r: Vec<u8>)
        requires
            self@.wf(),
        ensures
            r@ == self@.chaddr.take(if self@.hlen <= 16 {
                self@.hlen as int
            } else {
                16
            }),
    {
        let n: usize = if self.hlen <= 16 {
            self.hlen as usize
        } else {
            16
        };
        let mut r: Vec<u8> = Vec::new();
        let mut i: usize = 0;
        while i < n
            invariant
                0 <= i <= n,
                n <= self.chaddr@.len(),
                r@ =~= self.chaddr@.take(i as int),
            decreases n - i,
        {
            r.push(self.chaddr[i]);
            i = i + 1;
        }
        r
    }
}

/// A vector of `n` zero bytes.
pub fn zero_bytes(n: usize) -> (r: Vec<u8>)
    ensures
        r@ =~= Seq::new(n as nat, |i: int| 0u8),
{
    let mut r: Vec<u8> = Vec::new();
    let mut i: usize = 0;
    while i < n
        invariant
            0 <= i <= n,
            r@ =~= Seq::new(i as nat, |j: int| 0u8),
        decreases n - i,
    {
        r.push(0u8);
        i = i + 1;
    }
    r
}

} // verus!
