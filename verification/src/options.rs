//! The typed-length-value option list of a DHCP frame: lookup by code,
//! typed setters, ordered insertion and terminator handling.

use vstd::prelude::*;

verus! {

/// Option code of a PAD entry: a single filler byte on the wire.
pub const CODE_PAD: u8 = 0;

/// Option code of the END terminator.
pub const CODE_END: u8 = 255;

/// Option code of the subnet-mask option.
pub const CODE_SUBNET_MASK: u8 = 1;

/// Option code of the router option.
pub const CODE_ROUTER: u8 = 3;

/// Option code of the address-lease-time option.
pub const CODE_LEASE_TIME: u8 = 51;

/// Option code of the DHCP message-type option.
pub const CODE_MSG_TYPE: u8 = 53;

/// Errors raised while building the wire form of a frame or an option.
#[derive(Clone, Copy, Debug, PartialEq, Eq, Structural)]
pub enum EncodeError {
    /// An option's data does not fit the one-byte length field.
    OptionTooLarge,
    /// A typed setter was asked for a value wider than its field.
    ValueOutOfRange,
}

/// One type-length-value entry: a code and its raw data bytes.
pub struct DhcpOption {
    pub code: u8,
    pub data: Vec<u8>,
}

/// Mathematical model of one option entry.
pub ghost struct OptView {
    pub code: u8,
    pub data: Seq<u8>,
}

impl View for DhcpOption {
    type V = OptView;

    open spec fn view(&self) -> OptView {
        OptView { code: self.code, data: self.data@ }
    }
}

impl OptView {
    /// An entry that can stand in a parsed table: a real option (neither
    /// PAD nor END) whose data fits the one-byte length field.
    pub open spec fn valid_entry(self) -> bool {
        self.code != CODE_PAD && self.code != CODE_END && self.data.len() <= 255
    }
}

/// The model of a whole table: its entries in insertion order.
pub open spec fn opts_view(s: Seq<DhcpOption>) -> Seq<OptView> {
    s.map_values(|o: DhcpOption| o@)
}

/// Index of the first entry with the given code at or after position `i`,
/// or -1 if there is none.
pub open spec fn find_code(opts: Seq<OptView>, code: u8, i: int) -> int
    decreases opts.len() - i,
{
    if i < 0 || i >= opts.len() {
        -1
    } else if opts[i].code == code {
        i
    } else {
        find_code(opts, code, i + 1)
    }
}

/// What a setter leaves behind: the first entry with the code replaced in
/// place, or a fresh entry appended when the code is absent.
pub open spec fn spec_set(opts: Seq<OptView>, code: u8, data: Seq<u8>) -> Seq<OptView> {
    let i = find_code(opts, code, 0);
    if i >= 0 {
        opts.update(i, OptView { code, data })
    } else {
        opts.push(OptView { code, data })
    }
}

/// Whether some entry is an END terminator.
pub open spec fn has_end(opts: Seq<OptView>) -> bool {
    exists|i: int| 0 <= i < opts.len() && opts[i].code == CODE_END
}

/// The four big-endian bytes of a 32-bit value.
pub open spec fn u32_be_bytes(v: u32) -> Seq<u8> {
    seq![(v >> 24) as u8, ((v >> 16) & 0xff) as u8, ((v >> 8) & 0xff) as u8, (v & 0xff) as u8]
}

/// An ordered list of TLV options.
pub struct OptionTable {
    pub(crate) entries: Vec<DhcpOption>,
}

impl View for OptionTable {
    type V = Seq<OptView>;

    closed spec fn view(&self) -> Seq<OptView> {
        opts_view(self.entries@)
    }
}

/// A found index lies in range and carries the sought code.
pub proof fn lemma_find_code_range(opts: Seq<OptView>, code: u8, i: int)
    ensures
        find_code(opts, code, i) == -1 || (i <= find_code(opts, code, i) < opts.len()
            && opts[find_code(opts, code, i)].code == code),
    decreases opts.len() - i,
{
    if i < 0 || i >= opts.len() {
    } else if opts[i].code == code {
    } else {
        lemma_find_code_range(opts, code, i + 1);
    }
}

/// Appending an entry appends its model.
proof fn lemma_opts_view_push(s: Seq<DhcpOption>, o: DhcpOption)
    ensures
        opts_view(s.push(o)) == opts_view(s).push(o@),
{
    assert(opts_view(s.push(o)) =~= opts_view(s).push(o@));
}

impl OptionTable {
    /// An empty table.
    pub fn new() -> (r: OptionTable)
        ensures
            r@ == Seq::<OptView>::empty(),
    {
        let r = OptionTable { entries: Vec::new() };
        proof {
            assert(r@ =~= Seq::<OptView>::empty());
        }
        r
    }

    /// How many entries the table holds.
    pub fn len(&self) -> (r: usize)
        ensures
            r == self@.len(),
    {
        self.entries.len()
    }

    /// The entry at a position, in insertion order.
    pub fn entry_at(&self, i: usize) -> (r: &DhcpOption)
        requires
            i < self@.len(),
        ensures
            r@ == self@[i as int],
    {
        &self.entries[i]
    }

    /// Position of the first entry with the given code, if any.
    pub fn position(&self, code: u8) -> (r: Option<usize>)
        ensures
            match r {
                Some(j) => find_code(self@, code, 0) == j as int,
                None => find_code(self@, code, 0) == -1,
            },
    {
        let n = self.entries.len();
        let mut j: usize = 0;
        while j < n
            invariant
                0 <= j <= n,
                n == self@.len(),
                find_code(self@, code, 0) == find_code(self@, code, j as int),
            decreases n - j,
        {
            if self.entries[j].code == code {
                return Some(j);
            }
            j = j + 1;
        }
        None
    }

    /// Data of the first entry with the given code. With replacement
    /// setters the first match is also the value set last.
    pub fn get(&self, code: u8) -> (r: Option<&Vec<u8>>)
        ensures
            match r {
                Some(d) => {
                    let i = find_code(self@, code, 0);
                    0 <= i < self@.len() && d@ == self@[i].data
                },
                None => find_code(self@, code, 0) == -1,
            },
    {
        proof {
            lemma_find_code_range(self@, code, 0);
        }
        match self.position(code) {
            Some(j) => {
                proof {
                    assert(self@[j as int] == self.entries@[j as int]@);
                }
                Some(&self.entries[j].data)
            },
            None => None,
        }
    }

    /// Pushes an entry at the end, whatever codes are already present.
    pub fn append(&mut self, code: u8, data: Vec<u8>)
        ensures
            final(self)@ == old(self)@.push(OptView { code, data: data@ }),
    {
        let ghost before = self.entries@;
        let ghost entry = OptView { code, data: data@ };
        let o = DhcpOption { code, data };
        proof {
            lemma_opts_view_push(before, o);
        }
        self.entries.push(o);
    }

    /// Replaces the data of the first entry with the given code, or
    /// appends a fresh entry when the code is absent.
    pub fn set(&mut self, code: u8, data: Vec<u8>)
        ensures
            final(self)@ == spec_set(old(self)@, code, data@),
    {
        let ghost before = self.entries@;
        let ghost entry = OptView { code, data: data@ };
        proof {
            lemma_find_code_range(self@, code, 0);
        }
        match self.position(code) {
            Some(j) => {
                let o = DhcpOption { code, data };
                self.entries.remove(j);
                self.entries.insert(j, o);
                proof {
                    assert(opts_view(self.entries@) =~= opts_view(before).update(
                        j as int,
                        entry,
                    ));
                }
            },
            None => {
                let o = DhcpOption { code, data };
                proof {
                    lemma_opts_view_push(before, o);
                }
                self.entries.push(o);
            },
        }
    }

    /// Sets a one-byte option value.
    pub fn set_u8(&mut self, code: u8, value: u8)
        ensures
            final(self)@ == spec_set(old(self)@, code, seq![value]),
    {
        let mut data: Vec<u8> = Vec::new();
        data.push(value);
        proof {
            assert(data@ =~= seq![value]);
        }
        self.set(code, data);
    }

    /// Sets a 32-bit option value in big-endian byte order. The one-byte
    /// option length field could not hold a value wider than 255 bytes,
    /// but four bytes always fit: for the native 32-bit input the
    /// out-of-range failure is unreachable and the call always succeeds.
    pub fn set_u32_be(&mut self, code: u8, value: u32) -> (r: Result<(), EncodeError>)
        ensures
            r is Ok,
            final(self)@ == spec_set(old(self)@, code, u32_be_bytes(value)),
    {
        let mut data: Vec<u8> = Vec::new();
        data.push((value >> 24) as u8);
        data.push(((value >> 16) & 0xff) as u8);
        data.push(((value >> 8) & 0xff) as u8);
        data.push((value & 0xff) as u8);
        proof {
            assert(data@ =~= u32_be_bytes(value));
        }
        self.set(code, data);
        Ok(())
    }

    /// Sets a four-byte IPv4 address option value.
    pub fn set_ipv4(&mut self, code: u8, a: u8, b: u8, c: u8, d: u8)
        ensures
            final(self)@ == spec_set(old(self)@, code, seq![a, b, c, d]),
    {
        let mut data: Vec<u8> = Vec::new();
        data.push(a);
        data.push(b);
        data.push(c);
        data.push(d);
        proof {
            assert(data@ =~= seq![a, b, c, d]);
        }
        self.set(code, data);
    }

    /// Whether the table already carries an END terminator.
    pub fn contains_end(&self) -> (r: bool)
        ensures
            r == has_end(self@),
    {
        let n = self.entries.len();
        let mut j: usize = 0;
        while j < n
            invariant
                0 <= j <= n,
                n == self@.len(),
                forall|k: int| 0 <= k < j ==> self@[k].code != CODE_END,
            decreases n - j,
        {
            if self.entries[j].code == CODE_END {
                proof {
                    assert(self@[j as int] == self.entries@[j as int]@);
                }
                return true;
            }
            j = j + 1;
        }
        false
    }
}

} // verus!
