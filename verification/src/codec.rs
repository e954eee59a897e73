//! Wire codec for DHCP/BOOTP frames: parsing a raw UDP payload into a
//! `Frame` and serialising a `Frame` back to bytes, bit-exact.

use vstd::prelude::*;

verus! {

use crate::frame::{Frame, FrameView};
use crate::options::{
    CODE_END, CODE_PAD, EncodeError, OptView, OptionTable, has_end,
};

/// Width of the fixed header that precedes the magic cookie.
pub const HEADER_LEN: usize = 236;

/// Failures of `parse` on malformed input.
#[derive(Clone, Copy, Debug, PartialEq, Eq, Structural)]
pub enum ParseError {
    /// The buffer does not even hold the fixed header.
    TooShort,
    /// The four bytes after the fixed header are not the magic cookie.
    BadMagicCookie,
    /// The buffer ran out inside an option's length or data bytes.
    TruncatedOption,
}

/// The four-byte constant separating the fixed header from the options.
pub open spec fn magic_cookie() -> Seq<u8> {
    seq![0x63u8, 0x82u8, 0x53u8, 0x63u8]
}

/// The 236 fixed-header bytes of a frame, field after field at their
/// canonical offsets.
pub open spec fn header_bytes(f: FrameView) -> Seq<u8> {
    seq![f.op, f.htype, f.hlen, f.hops] + f.xid + f.secs + f.flags + f.ciaddr + f.yiaddr
        + f.siaddr + f.giaddr + f.chaddr + f.sname + f.file
}

/// Whether an option can be written at all: PAD and END carry no length
/// byte, every other code needs data that fits the one-byte length field.
pub open spec fn opt_fits(o: OptView) -> bool {
    o.code == CODE_PAD || o.code == CODE_END || o.data.len() <= 255
}

/// Wire form of one option: PAD and END are a bare code byte, every other
/// code carries a length byte and its data.
pub open spec fn opt_bytes(o: OptView) -> Seq<u8> {
    if o.code == CODE_PAD || o.code == CODE_END {
        seq![o.code]
    } else {
        seq![o.code, o.data.len() as u8] + o.data
    }
}

/// Wire form of a whole option list, in stored order.
pub open spec fn opts_bytes(os: Seq<OptView>) -> Seq<u8>
    decreases os.len(),
{
    if os.len() == 0 {
        Seq::empty()
    } else {
        opt_bytes(os[0]) + opts_bytes(os.drop_first())
    }
}

/// The full wire form of a frame: fixed header, magic cookie, options,
/// and an END terminator appended when the table does not carry its own.
pub open spec fn encoded(f: FrameView) -> Seq<u8> {
    header_bytes(f) + magic_cookie() + opts_bytes(f.options) + (if has_end(f.options) {
        Seq::<u8>::empty()
    } else {
        seq![CODE_END]
    })
}

/// Result of reading the option region from position `i` on: PAD bytes
/// are skipped, an END byte or the end of the buffer stops the scan, and
/// every other code must carry a complete length byte and data.
pub open spec fn spec_parse_options(s: Seq<u8>, i: int) -> Result<Seq<OptView>, ParseError>
    decreases s.len() - i,
{
    if i < 0 || i >= s.len() {
        Ok(Seq::empty())
    } else if s[i] == CODE_PAD {
        spec_parse_options(s, i + 1)
    } else if s[i] == CODE_END {
        Ok(Seq::empty())
    } else if i + 2 > s.len() {
        Err(ParseError::TruncatedOption)
    } else if i + 2 + (s[i + 1] as int) > s.len() {
        Err(ParseError::TruncatedOption)
    } else {
        let l = s[i + 1] as int;
        match spec_parse_options(s, i + 2 + l) {
            Ok(rest) => Ok(
                seq![OptView { code: s[i], data: s.subrange(i + 2, i + 2 + l) }] + rest,
            ),
            Err(e) => Err(e),
        }
    }
}

/// What `parse` yields on a byte buffer.
pub open spec fn spec_parse(s: Seq<u8>) -> Result<FrameView, ParseError> {
    if s.len() < 236 {
        Err(ParseError::TooShort)
    } else if !(s.len() >= 240 && s.subrange(236, 240) == magic_cookie()) {
        Err(ParseError::BadMagicCookie)
    } else {
        match spec_parse_options(s, 240) {
            Ok(opts) => Ok(
                FrameView {
                    op: s[0],
                    htype: s[1],
                    hlen: s[2],
                    hops: s[3],
                    xid: s.subrange(4, 8),
                    secs: s.subrange(8, 10),
                    flags: s.subrange(10, 12),
                    ciaddr: s.subrange(12, 16),
                    yiaddr: s.subrange(16, 20),
                    siaddr: s.subrange(20, 24),
                    giaddr: s.subrange(24, 28),
                    chaddr: s.subrange(28, 44),
                    sname: s.subrange(44, 108),
                    file: s.subrange(108, 236),
                    options: opts,
                },
            ),
            Err(e) => Err(e),
        }
    }
}

/// Copies `buf[from..to]` into a fresh vector.
fn copy_range(buf: &[u8], from: usize, to: usize) -> (r: Vec<u8>)
    requires
        from <= to <= buf@.len(),
    ensures
        r@ == buf@.subrange(from as int, to as int),
{
    let mut r: Vec<u8> = Vec::new();
    let mut i: usize = from;
    while i < to
        invariant
            from <= i <= to <= buf@.len(),
            r@ =~= buf@.subrange(from as int, i as int),
        decreases to - i,
    {
        r.push(buf[i]);
        i = i + 1;
    }
    proof {
        assert(r@ =~= buf@.subrange(from as int, to as int));
    }
    r
}

/// Parses a raw UDP payload into a frame.
///
/// Fails with `TooShort` exactly when the buffer is shorter than the
/// 236-byte fixed header, with `BadMagicCookie` exactly when the buffer
/// does not carry the magic cookie at offset 236, and with
/// `TruncatedOption` when an option's declared data runs past the end.
/// Unknown option codes are retained as raw entries.
pub fn parse(buf: &[u8]) -> (r: Result<Frame, ParseError>)
    ensures
        match r {
            Ok(f) => spec_parse(buf@) == Ok::<FrameView, ParseError>(f@) && f@.canonical(),
            Err(e) => spec_parse(buf@) == Err::<FrameView, ParseError>(e),
        },
        buf@.len() < 236 <==> r == Err::<Frame, ParseError>(ParseError::TooShort),
        buf@.len() >= 236 && !(buf@.len() >= 240 && buf@.subrange(236, 240) == magic_cookie())
            <==> r == Err::<Frame, ParseError>(ParseError::BadMagicCookie),
{
    let ghost s = buf@;
    let n = buf.len();
    if n < HEADER_LEN {
        return Err(ParseError::TooShort);
    }
    if n < 240 {
        return Err(ParseError::BadMagicCookie);
    }
    if !(buf[236] == 0x63 && buf[237] == 0x82 && buf[238] == 0x53 && buf[239] == 0x63) {
        proof {
            assert(s.subrange(236, 240)[0] == s[236]);
            assert(s.subrange(236, 240)[1] == s[237]);
            assert(s.subrange(236, 240)[2] == s[238]);
            assert(s.subrange(236, 240)[3] == s[239]);
        }
        return Err(ParseError::BadMagicCookie);
    }
    proof {
        assert(s.subrange(236, 240) =~= magic_cookie());
    }

    let mut table = OptionTable::new();
    let mut i: usize = 240;
    let mut failed: Option<ParseError> = None;
    let mut ended = false;
    while i < n && !ended && failed.is_none()
        invariant
            240 <= i <= n,
            n == s.len(),
            s == buf@,
            !ended && failed.is_none() ==> spec_parse_options(s, 240) == (match spec_parse_options(
                s,
                i as int,
            ) {
                Ok(rest) => Ok::<Seq<OptView>, ParseError>(table@ + rest),
                Err(e) => Err::<Seq<OptView>, ParseError>(e),
            }),
            ended ==> spec_parse_options(s, 240) == Ok::<Seq<OptView>, ParseError>(table@),
            failed matches Some(e) ==> e == ParseError::TruncatedOption && spec_parse_options(
                s,
                240,
            ) == Err::<Seq<OptView>, ParseError>(e),
            forall|k: int| 0 <= k < table@.len() ==> (#[trigger] table@[k]).valid_entry(),
        decreases s.len() - i + (if ended || failed is Some {
            0int
        } else {
            1int
        }),
    {
        let c = buf[i];
        if c == CODE_PAD {
            proof {
                assert(spec_parse_options(s, i as int) == spec_parse_options(s, i as int + 1));
            }
            i = i + 1;
        } else if c == CODE_END {
            proof {
                assert(spec_parse_options(s, i as int) == Ok::<Seq<OptView>, ParseError>(
                    Seq::empty(),
                ));
                assert(table@ + Seq::<OptView>::empty() =~= table@);
            }
            ended = true;
        } else if i + 1 >= n {
            proof {
                assert(spec_parse_options(s, i as int) == Err::<Seq<OptView>, ParseError>(
                    ParseError::TruncatedOption,
                ));
            }
            failed = Some(ParseError::TruncatedOption);
        } else {
            let l = buf[i + 1] as usize;
            let rem = n - (i + 2);
            if l > rem {
                proof {
                    assert(spec_parse_options(s, i as int) == Err::<Seq<OptView>, ParseError>(
                        ParseError::TruncatedOption,
                    ));
                }
                failed = Some(ParseError::TruncatedOption);
            } else {
                let data = copy_range(buf, i + 2, i + 2 + l);
                let ghost entry = OptView { code: c, data: data@ };
                let ghost prev = table@;
                table.append(c, data);
                proof {
                    assert(spec_parse_options(s, i as int) == (match spec_parse_options(
                        s,
                        i as int + 2 + l as int,
                    ) {
                        Ok(rest) => Ok::<Seq<OptView>, ParseError>(seq![entry] + rest),
                        Err(e) => Err::<Seq<OptView>, ParseError>(e),
                    }));
                    assert forall|rest: Seq<OptView>| true implies prev + (seq![entry] + rest)
                        =~= (prev.push(entry)) + rest by {};
                }
                i = i + 2 + l;
            }
        }
    }

    if let Some(e) = failed {
        return Err(e);
    }
    if !ended {
        proof {
            assert(spec_parse_options(s, i as int) == Ok::<Seq<OptView>, ParseError>(Seq::empty()));
            assert(table@ + Seq::<OptView>::empty() =~= table@);
        }
    }

    let f = Frame {
        op: buf[0],
        htype: buf[1],
        hlen: buf[2],
        hops: buf[3],
        xid: copy_range(buf, 4, 8),
        secs: copy_range(buf, 8, 10),
        flags: copy_range(buf, 10, 12),
        ciaddr: copy_range(buf, 12, 16),
        yiaddr: copy_range(buf, 16, 20),
        siaddr: copy_range(buf, 20, 24),
        giaddr: copy_range(buf, 24, 28),
        chaddr: copy_range(buf, 28, 44),
        sname: copy_range(buf, 44, 108),
        file: copy_range(buf, 108, 236),
        options: table,
    };
    Ok(f)
}

/// Appends a whole byte vector to the output buffer.
fn push_all(out: &mut Vec<u8>, src: &Vec<u8>)
    ensures
        final(out)@ == old(out)@ + src@,
{
    let ghost before = out@;
    let n = src.len();
    let mut i: usize = 0;
    while i < n
        invariant
            0 <= i <= n,
            n == src@.len(),
            out@ =~= before + src@.take(i as int),
        decreases n - i,
    {
        out.push(src[i]);
        i = i + 1;
    }
    proof {
        assert(out@ =~= before + src@);
    }
}

/// Serialising one more option extends the wire form by its bytes.
proof fn lemma_opts_bytes_push(os: Seq<OptView>, o: OptView)
    ensures
        opts_bytes(os.push(o)) == opts_bytes(os) + opt_bytes(o),
    decreases os.len(),
{
    if os.len() == 0 {
        assert(os.push(o).drop_first() =~= Seq::<OptView>::empty());
        assert(os.push(o)[0] == o);
        assert(opts_bytes(os.push(o)) == opt_bytes(o) + opts_bytes(Seq::<OptView>::empty()));
        assert(opts_bytes(Seq::<OptView>::empty()) == Seq::<u8>::empty());
        assert(opt_bytes(o) + Seq::<u8>::empty() =~= opt_bytes(o));
        assert(opts_bytes(os) == Seq::<u8>::empty());
        assert(Seq::<u8>::empty() + opt_bytes(o) =~= opt_bytes(o));
    } else {
        lemma_opts_bytes_push(os.drop_first(), o);
        assert(os.push(o).drop_first() =~= os.drop_first().push(o));
        assert(os.push(o)[0] == os[0]);
        assert(opts_bytes(os.push(o)) == opt_bytes(os[0]) + (opts_bytes(os.drop_first())
            + opt_bytes(o)));
        assert(opt_bytes(os[0]) + (opts_bytes(os.drop_first()) + opt_bytes(o)) =~= (opt_bytes(
            os[0],
        ) + opts_bytes(os.drop_first())) + opt_bytes(o));
    }
}

/// Serialises a frame to its wire form.
///
/// Never fails on a frame whose option data fits the one-byte length
/// field; an oversize option is reported as `OptionTooLarge` and nothing
/// is produced.
pub fn encode(f: &Frame) -> (r: Result<Vec<u8>, EncodeError>)
    requires
        f@.wf(),
    ensures
        match r {
            Ok(bytes) => bytes@ == encoded(f@) && (forall|j: int|
                0 <= j < f@.options.len() ==> opt_fits(#[trigger] f@.options[j])),
            Err(e) => e == EncodeError::OptionTooLarge && (exists|j: int|
                0 <= j < f@.options.len() && !opt_fits(#[trigger] f@.options[j])),
        },
{
    let ghost fv = f@;
    let n = f.options.len();
    let mut j: usize = 0;
    while j < n
        invariant
            0 <= j <= n,
            n == fv.options.len(),
            fv == f@,
            forall|k: int| 0 <= k < j ==> opt_fits(#[trigger] fv.options[k]),
        decreases n - j,
    {
        let o = f.options.entry_at(j);
        if o.code != CODE_PAD && o.code != CODE_END && o.data.len() > 255 {
            return Err(EncodeError::OptionTooLarge);
        }
        j = j + 1;
    }

    let mut out: Vec<u8> = Vec::new();
    out.push(f.op);
    out.push(f.htype);
    out.push(f.hlen);
    out.push(f.hops);
    push_all(&mut out, &f.xid);
    push_all(&mut out, &f.secs);
    push_all(&mut out, &f.flags);
    push_all(&mut out, &f.ciaddr);
    push_all(&mut out, &f.yiaddr);
    push_all(&mut out, &f.siaddr);
    push_all(&mut out, &f.giaddr);
    push_all(&mut out, &f.chaddr);
    push_all(&mut out, &f.sname);
    push_all(&mut out, &f.file);
    proof {
        assert(out@ =~= header_bytes(fv));
    }
    out.push(0x63);
    out.push(0x82);
    out.push(0x53);
    out.push(0x63);
    proof {
        assert(out@ =~= header_bytes(fv) + magic_cookie());
    }

    let ghost base = out@;
    let mut j: usize = 0;
    while j < n
        invariant
            0 <= j <= n,
            n == fv.options.len(),
            fv == f@,
            forall|k: int| 0 <= k < n ==> opt_fits(#[trigger] fv.options[k]),
            base == header_bytes(fv) + magic_cookie(),
            out@ == base + opts_bytes(fv.options.take(j as int)),
        decreases n - j,
    {
        let ghost done = fv.options.take(j as int);
        proof {
            lemma_opts_bytes_push(done, fv.options[j as int]);
            assert(fv.options.take(j as int + 1) =~= done.push(fv.options[j as int]));
        }
        let o = f.options.entry_at(j);
        if o.code == CODE_PAD || o.code == CODE_END {
            out.push(o.code);
            proof {
                assert(out@ =~= base + opts_bytes(fv.options.take(j as int + 1)));
            }
        } else {
            out.push(o.code);
            out.push(o.data.len() as u8);
            push_all(&mut out, &o.data);
            proof {
                assert(opt_bytes(fv.options[j as int]) =~= seq![
                    o.code,
                    o.data.len() as u8,
                ] + o.data@);
                assert(out@ =~= base + opts_bytes(fv.options.take(j as int + 1)));
            }
        }
        j = j + 1;
    }
    proof {
        assert(fv.options.take(n as int) =~= fv.options);
    }

    if !f.options.contains_end() {
        out.push(CODE_END);
        proof {
            assert(out@ =~= encoded(fv));
        }
    } else {
        proof {
            assert(out@ =~= encoded(fv));
        }
    }
    Ok(out)
}

/// Scanning the wire form of a table of real entries followed by an END
/// byte recovers exactly those entries.
proof fn lemma_parse_options_encoded(s: Seq<u8>, base: int, opts: Seq<OptView>)
    requires
        0 <= base <= s.len(),
        s.subrange(base, s.len() as int) == opts_bytes(opts) + seq![CODE_END],
        forall|j: int| 0 <= j < opts.len() ==> (#[trigger] opts[j]).valid_entry(),
    ensures
        spec_parse_options(s, base) == Ok::<Seq<OptView>, ParseError>(opts),
    decreases opts.len(),
{
    let tail = s.subrange(base, s.len() as int);
    if opts.len() == 0 {
        assert(opts_bytes(opts) == Seq::<u8>::empty());
        assert(tail =~= seq![CODE_END]);
        assert(s[base] == tail[0]);
        assert(s[base] == CODE_END);
        assert(opts =~= Seq::<OptView>::empty());
    } else {
        let o = opts[0];
        let rest = opts.drop_first();
        assert(o.valid_entry());
        assert(forall|j: int| 0 <= j < rest.len() ==> (#[trigger] rest[j]).valid_entry())
            by {
            assert(forall|j: int| 0 <= j < rest.len() ==> rest[j] == opts[j + 1]);
        }
        let l = o.data.len() as int;
        assert(opts_bytes(opts) == opt_bytes(o) + opts_bytes(rest));
        assert(opt_bytes(o) == seq![o.code, o.data.len() as u8] + o.data);
        assert(tail.len() == 2 + l + opts_bytes(rest).len() + 1);
        assert(tail == (seq![o.code, o.data.len() as u8] + o.data) + opts_bytes(rest) + seq![
            CODE_END,
        ]);
        assert(tail[0] == o.code);
        assert(tail[1] == o.data.len() as u8);
        assert(s[base] == tail[0]);
        assert(s[base + 1] == tail[1]);
        assert((o.data.len() as u8) as int == l);
        assert(s.subrange(base + 2, base + 2 + l) =~= o.data) by {
            assert forall|k: int| 0 <= k < l implies s.subrange(base + 2, base + 2 + l)[k]
                == o.data[k] by {
                assert(s.subrange(base + 2, base + 2 + l)[k] == s[base + 2 + k]);
                assert(s[base + 2 + k] == tail[2 + k]);
                assert(tail[2 + k] == o.data[k]);
            }
        }
        let base2 = base + 2 + l;
        assert(base2 <= s.len());
        assert(s.subrange(base2, s.len() as int) =~= opts_bytes(rest) + seq![CODE_END]) by {
            assert forall|k: int|
                0 <= k < s.len() - base2 implies s.subrange(base2, s.len() as int)[k]
                == (opts_bytes(rest) + seq![CODE_END])[k] by {
                assert(s.subrange(base2, s.len() as int)[k] == s[base2 + k]);
                assert(s[base2 + k] == tail[2 + l + k]);
                assert(tail[2 + l + k] == (opts_bytes(rest) + seq![CODE_END])[k]);
            }
        }
        lemma_parse_options_encoded(s, base2, rest);
        assert(s[base] != CODE_PAD && s[base] != CODE_END);
        assert(base + 2 <= s.len());
        assert(s[base + 1] as int == l);
        assert(base + 2 + (s[base + 1] as int) <= s.len());
        assert(spec_parse_options(s, base) == Ok::<Seq<OptView>, ParseError>(
            seq![OptView { code: s[base], data: s.subrange(base + 2, base + 2 + l) }] + rest,
        ));
        assert(OptView { code: s[base], data: s.subrange(base + 2, base + 2 + l) } == o);
        assert(seq![o] + rest =~= opts);
    }
}

/// The round-trip law: parsing the wire form of any well-formed frame
/// whose stored options are real entries yields that frame back, field
/// for field and option for option.
pub proof fn lemma_parse_encode(f: FrameView)
    requires
        f.canonical(),
    ensures
        spec_parse(encoded(f)) == Ok::<FrameView, ParseError>(f),
{
    let s = encoded(f);
    let h = header_bytes(f);
    assert(h.len() == 236);
    assert(!has_end(f.options)) by {
        if has_end(f.options) {
            let i = choose|i: int|
                0 <= i < f.options.len() && f.options[i].code == CODE_END;
            assert(f.options[i].valid_entry());
        }
    }
    let ob = opts_bytes(f.options);
    assert(s == h + magic_cookie() + ob + seq![CODE_END]);
    assert(s.len() == 241 + ob.len());
    assert(s.subrange(236, 240) =~= magic_cookie());
    assert(s[0] == f.op && s[1] == f.htype && s[2] == f.hlen && s[3] == f.hops);
    assert(s.subrange(4, 8) =~= f.xid);
    assert(s.subrange(8, 10) =~= f.secs);
    assert(s.subrange(10, 12) =~= f.flags);
    assert(s.subrange(12, 16) =~= f.ciaddr);
    assert(s.subrange(16, 20) =~= f.yiaddr);
    assert(s.subrange(20, 24) =~= f.siaddr);
    assert(s.subrange(24, 28) =~= f.giaddr);
    assert(s.subrange(28, 44) =~= f.chaddr);
    assert(s.subrange(44, 108) =~= f.sname);
    assert(s.subrange(108, 236) =~= f.file);
    assert(s.subrange(240, s.len() as int) =~= ob + seq![CODE_END]);
    lemma_parse_options_encoded(s, 240, f.options);
    assert(spec_parse(s) == Ok::<FrameView, ParseError>(f));
}

} // verus!
