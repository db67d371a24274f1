use vstd::prelude::*;
use vstd::slice::slice_subrange;

use crate::bus::I2cBus;
use crate::cmds;
use crate::error::Sh1107gError;
use crate::framer::{
    byte_views, chunk_split, cmd_frame, data_frame, data_frame_list, data_frames,
    lemma_chunk_split_shape, lemma_sent_append, lemma_sent_push, lemma_take_append,
    make_cmd_frame, sent,
};
use crate::Sh1107g;
use crate::{BUFFER_SIZE, DISPLAY_WIDTH, I2C_MAX_WRITE, PAGE_COUNT};

verus! {

/// The commands of the initialization sequence, in the order they are
/// sent: configuration first (clock, multiplex, offset, start line),
/// then the charge pump, orientation, contrast and timing, and the
/// panel switched on only at the very end.
pub open spec fn init_cmds() -> Seq<Seq<u8>> {
    seq![
        seq![0xAEu8],  // display off
        seq![0xD5u8, 0x51u8],  // clock divide ratio / oscillator frequency
        seq![0xA8u8, 0x7Fu8],  // multiplex ratio: height - 1
        seq![0xD3u8, 0x60u8],  // display offset
        seq![0xDCu8, 0x00u8],  // display start line 0
        seq![0xADu8, 0x8Bu8],  // charge pump enabled
        seq![0xA1u8],  // segment remap
        seq![0xC8u8],  // COM scan direction remapped
        seq![0xDAu8, 0x12u8],  // COM pins hardware configuration
        seq![0x81u8, 0x2Fu8],  // contrast
        seq![0xD9u8, 0x22u8],  // pre-charge period
        seq![0xDBu8, 0x35u8],  // VCOM deselect level
        seq![0xA4u8],  // resume display of RAM content
        seq![0xA6u8],  // normal, non-inverted display
        seq![0xAFu8],  // display on
    ]
}

/// The command frames `init` writes, in order.
pub open spec fn init_wire() -> Seq<Seq<u8>> {
    init_cmds().map_values(|c: Seq<u8>| cmd_frame(c))
}

/// Every initialization command fits one frame beside its control byte.
proof fn lemma_init_cmds_fit()
    ensures
        forall|i: int|
            0 <= i < init_cmds().len() ==> (#[trigger] init_cmds()[i]).len() < I2C_MAX_WRITE,
{
    assert forall|i: int|
        0 <= i < init_cmds().len() implies (#[trigger] init_cmds()[i]).len() < I2C_MAX_WRITE by {
        if i < 8 {
            if i < 4 {
                if i < 2 {
                    assert(init_cmds()[0].len() == 1 && init_cmds()[1].len() == 2);
                } else {
                    assert(init_cmds()[2].len() == 2 && init_cmds()[3].len() == 2);
                }
            } else {
                if i < 6 {
                    assert(init_cmds()[4].len() == 2 && init_cmds()[5].len() == 2);
                } else {
                    assert(init_cmds()[6].len() == 1 && init_cmds()[7].len() == 1);
                }
            }
        } else {
            if i < 12 {
                if i < 10 {
                    assert(init_cmds()[8].len() == 2 && init_cmds()[9].len() == 2);
                } else {
                    assert(init_cmds()[10].len() == 2 && init_cmds()[11].len() == 2);
                }
            } else {
                if i < 14 {
                    assert(init_cmds()[12].len() == 1 && init_cmds()[13].len() == 1);
                } else {
                    assert(init_cmds()[14].len() == 1);
                }
            }
        }
    }
}

/// The initialization commands as byte vectors, in send order; what the
/// suspendable transport binding walks instead of calling `init`.
pub fn init_commands() -> (r: Vec<Vec<u8>>)
    ensures
        byte_views(r@) == init_cmds(),
{
    proof {
        assert((((0x05u8 & 0x0F) << 4u8) | (0x01u8 & 0x0F)) == 0x51u8) by (bit_vector);
        assert((0x00u8 & 0x7F) == 0x00u8) by (bit_vector);
    }
    let mut r: Vec<Vec<u8>> = Vec::new();
    r.push(cmds::display_power(false));
    r.push(cmds::clock_divide(0x01, 0x05));
    r.push(cmds::multiplex_ratio(0x7F));
    r.push(cmds::display_offset(0x60));
    r.push(cmds::display_start_line(0x00));
    r.push(cmds::charge_pump(true));
    r.push(cmds::segment_remap(true));
    r.push(cmds::com_scan_direction(true));
    r.push(cmds::com_pins(0x12));
    r.push(cmds::contrast(0x2F));
    r.push(cmds::pre_charge_period(0x22));
    r.push(cmds::vcom_deselect_level(0x35));
    r.push(cmds::entire_display(false));
    r.push(cmds::invert_display(false));
    r.push(cmds::display_power(true));
    proof {
        assert(byte_views(r@) =~~= init_cmds());
    }
    r
}

/// The frames `init` would write, built without a bus: what the
/// suspendable transport binding walks, one bus write per frame.
pub fn init_frame_list() -> (r: Vec<Vec<u8>>)
    ensures
        byte_views(r@) == init_wire(),
{
    let cmd_list = init_commands();
    let mut r: Vec<Vec<u8>> = Vec::new();
    let mut i: usize = 0;
    proof {
        assert(byte_views(r@) =~= init_wire().take(0));
    }
    while i < cmd_list.len()
        invariant
            byte_views(cmd_list@) == init_cmds(),
            cmd_list@.len() == init_cmds().len(),
            i <= cmd_list@.len(),
            byte_views(r@) == init_wire().take(i as int),
        decreases cmd_list@.len() - i,
    {
        proof {
            assert(cmd_list@[i as int]@ == init_cmds()[i as int]);
            assert(init_wire()[i as int] == cmd_frame(init_cmds()[i as int]));
            assert(init_wire().take(i as int + 1) =~= init_wire().take(i as int).push(
                init_wire()[i as int],
            ));
        }
        let f = make_cmd_frame(cmd_list[i].as_slice());
        r.push(f);
        proof {
            assert(byte_views(r@) =~~= init_wire().take(i as int + 1));
        }
        i = i + 1;
    }
    proof {
        assert(init_wire().take(init_wire().len() as int) =~= init_wire());
    }
    r
}

/// The byte that selects `page`.
pub open spec fn page_address_byte(page: int) -> u8 {
    (0xB0 + page) as u8
}

/// The framebuffer bytes of one page: a `DISPLAY_WIDTH`-byte strip.
pub open spec fn page_bytes(buf: Seq<u8>, page: int) -> Seq<u8> {
    buf.subrange(page * (DISPLAY_WIDTH as int), (page + 1) * (DISPLAY_WIDTH as int))
}

/// The frames `flush` writes for one page: the page-address command, the
/// two column-address commands, then the data frames that carry the
/// page's bytes.
pub open spec fn page_frames(buf: Seq<u8>, page: int) -> Seq<Seq<u8>> {
    seq![
        cmd_frame(seq![page_address_byte(page)]),
        cmd_frame(seq![0x00u8]),
        cmd_frame(seq![0x10u8]),
    ] + data_frames(page_bytes(buf, page))
}

/// The frames of the first `pages` pages, in page order.
pub open spec fn wire_upto(buf: Seq<u8>, pages: int) -> Seq<Seq<u8>>
    decreases pages,
{
    if pages <= 0 {
        Seq::empty()
    } else {
        wire_upto(buf, pages - 1) + page_frames(buf, pages - 1)
    }
}

/// Every frame `flush` writes for the framebuffer `buf`, in order.
pub open spec fn flush_wire(buf: Seq<u8>) -> Seq<Seq<u8>> {
    wire_upto(buf, PAGE_COUNT as int)
}

/// Selecting a page: masking the low nibble into `0xB0` is adding the
/// page number, for pages below 16.
proof fn lemma_page_byte(p: u8)
    by (bit_vector)
    requires
        p < 16,
    ensures
        (0xB0u8 | (p & 0x0F)) == ((0xB0 + p) as u8),
{
}

/// A prefix of the flush wire that ends `j` frames into page `p` holds
/// the pages before `p` whole and the first `j` frames of page `p`.
proof fn lemma_wire_take_mid(buf: Seq<u8>, p: int, j: int, q: int)
    requires
        0 <= p < q,
        0 <= j <= page_frames(buf, p).len(),
    ensures
        wire_upto(buf, p).len() + j <= wire_upto(buf, q).len(),
        wire_upto(buf, q).take(wire_upto(buf, p).len() + j) == wire_upto(buf, p) + page_frames(
            buf,
            p,
        ).take(j),
    decreases q,
{
    if q == p + 1 {
        lemma_take_append(wire_upto(buf, p), page_frames(buf, p), j);
    } else {
        lemma_wire_take_mid(buf, p, j, q - 1);
        let k = wire_upto(buf, p).len() + j;
        assert(wire_upto(buf, q).take(k) =~= wire_upto(buf, q - 1).take(k));
    }
}

impl<B: I2cBus> Sh1107g<B> {
    /// Runs the fixed initialization sequence: each command is framed and
    /// written in order, and the first bus failure aborts at once, so
    /// commands after a failed one are never attempted. The framebuffer
    /// is not touched.
    pub fn init(&mut self) -> (r: Result<(), Sh1107gError<B::BusError>>)
        ensures
            final(self).buffer == old(self).buffer,
            final(self).address == old(self).address,
            r is Ok ==> final(self).log() == old(self).log() + sent(old(self).addr(), init_wire()),
            r is Err ==> (r matches Err(Sh1107gError::I2cError(_))) && (exists|k: int|
                1 <= k <= init_wire().len() && final(self).log() == old(self).log() + sent(
                    old(self).addr(),
                    init_wire().take(k),
                )),
    {
        let cmd_list = init_commands();
        let mut i: usize = 0;
        proof {
            assert(old(self).log() + sent(old(self).addr(), init_wire().take(0)) =~= old(
                self,
            ).log());
        }
        while i < cmd_list.len()
            invariant
                self.buffer == old(self).buffer,
                self.address == old(self).address,
                byte_views(cmd_list@) == init_cmds(),
                i <= cmd_list@.len(),
                cmd_list@.len() == init_cmds().len(),
                self.log() == old(self).log() + sent(
                    old(self).addr(),
                    init_wire().take(i as int),
                ),
            decreases cmd_list@.len() - i,
        {
            proof {
                lemma_init_cmds_fit();
                assert(cmd_list@[i as int]@ == init_cmds()[i as int]);
                assert(init_wire()[i as int] == cmd_frame(init_cmds()[i as int]));
                assert(init_wire().take(i as int + 1) =~= init_wire().take(i as int).push(
                    init_wire()[i as int],
                ));
                lemma_sent_push(
                    old(self).addr(),
                    init_wire().take(i as int),
                    init_wire()[i as int],
                );
            }
            match self.send_cmd(cmd_list[i].as_slice()) {
                Ok(()) => {},
                Err(e) => {
                    return Err(e);
                },
            }
            i = i + 1;
        }
        proof {
            assert(init_wire().take(init_wire().len() as int) =~= init_wire());
        }
        Ok(())
    }

    /// Transmits the framebuffer: for each page, the page-address and
    /// column-address commands, then the page's bytes in chunked data
    /// frames. The first bus failure aborts at once and leaves the
    /// framebuffer untouched, so the caller may retry the whole flush.
    pub fn flush(&mut self) -> (r: Result<(), Sh1107gError<B::BusError>>)
        requires
            old(self).wf(),
        ensures
            final(self).wf(),
            final(self).buffer == old(self).buffer,
            final(self).address == old(self).address,
            r is Ok ==> final(self).log() == old(self).log() + sent(
                old(self).addr(),
                flush_wire(old(self).buf()),
            ),
            r is Err ==> (r matches Err(Sh1107gError::I2cError(_))) && (exists|k: int|
                1 <= k <= flush_wire(old(self).buf()).len() && final(self).log() == old(self).log()
                    + sent(old(self).addr(), flush_wire(old(self).buf()).take(k))),
    {
        let ghost buf0 = old(self).buf();
        let ghost addr0 = old(self).addr();
        let mut page: usize = 0;
        proof {
            assert(wire_upto(buf0, 0) =~= Seq::<Seq<u8>>::empty());
            assert(old(self).log() + sent(addr0, wire_upto(buf0, 0)) =~= old(self).log());
        }
        while page < PAGE_COUNT
            invariant
                self.wf(),
                self.buffer == old(self).buffer,
                self.address == old(self).address,
                page <= PAGE_COUNT,
                buf0 == old(self).buf(),
                addr0 == old(self).addr(),
                self.log() == old(self).log() + sent(addr0, wire_upto(buf0, page as int)),
            decreases PAGE_COUNT - page,
        {
            let ghost pf = page_frames(buf0, page as int);
            let ghost base = wire_upto(buf0, page as int);
            let ghost df = data_frames(page_bytes(buf0, page as int));
            proof {
                assert(pf.len() == 3 + df.len());
            }
            // Page address select.
            let pa = cmds::page_address(page as u8);
            proof {
                lemma_page_byte(page as u8);
                assert(pa@ == seq![page_address_byte(page as int)]);
                assert(pf[0] == cmd_frame(pa@));
                assert(base + pf.take(1) =~= base.push(pf[0]));
                lemma_sent_push(addr0, base, pf[0]);
            }
            match self.send_cmd(pa.as_slice()) {
                Ok(()) => {},
                Err(e) => {
                    proof {
                        assert(self.log() =~= old(self).log() + sent(addr0, base + pf.take(1)));
                        flush_fail_witness(buf0, addr0, page as int, 1, old(self).log(), self.log());
                    }
                    return Err(e);
                },
            }
            proof {
                assert(self.log() =~= old(self).log() + sent(addr0, base + pf.take(1)));
            }
            // Lower column address select.
            let cl = cmds::column_address_low(0);
            proof {
                assert((0x00u8 & 0x0F) == 0x00u8) by (bit_vector);
                assert(pf[1] == cmd_frame(cl@));
                assert(base + pf.take(2) =~= (base + pf.take(1)).push(pf[1]));
                lemma_sent_push(addr0, base + pf.take(1), pf[1]);
            }
            match self.send_cmd(cl.as_slice()) {
                Ok(()) => {},
                Err(e) => {
                    proof {
                        assert(self.log() =~= old(self).log() + sent(addr0, base + pf.take(2)));
                        flush_fail_witness(buf0, addr0, page as int, 2, old(self).log(), self.log());
                    }
                    return Err(e);
                },
            }
            proof {
                assert(self.log() =~= old(self).log() + sent(addr0, base + pf.take(2)));
            }
            // Higher column address select.
            let ch = cmds::column_address_high(0);
            proof {
                assert((0x10u8 | ((0x00u8 >> 4u8) & 0x0F)) == 0x10u8) by (bit_vector);
                assert(pf[2] == cmd_frame(ch@));
                assert(base + pf.take(3) =~= (base + pf.take(2)).push(pf[2]));
                lemma_sent_push(addr0, base + pf.take(2), pf[2]);
            }
            match self.send_cmd(ch.as_slice()) {
                Ok(()) => {},
                Err(e) => {
                    proof {
                        assert(self.log() =~= old(self).log() + sent(addr0, base + pf.take(3)));
                        flush_fail_witness(buf0, addr0, page as int, 3, old(self).log(), self.log());
                    }
                    return Err(e);
                },
            }
            proof {
                assert(self.log() =~= old(self).log() + sent(addr0, base + pf.take(3)));
            }
            // The page's bytes, copied out and sent as chunked data frames.
            let start = page * DISPLAY_WIDTH;
            let mut pd: Vec<u8> = Vec::new();
            let mut fill: usize = 0;
            while fill < DISPLAY_WIDTH
                invariant
                    self.wf(),
                    start == page * DISPLAY_WIDTH,
                    page < PAGE_COUNT,
                    fill <= DISPLAY_WIDTH,
                    pd@ == self.buf().subrange(start as int, start as int + fill as int),
                decreases DISPLAY_WIDTH - fill,
            {
                proof {
                    assert(self.buf().subrange(start as int, start as int + fill as int + 1)
                        =~= self.buf().subrange(start as int, start as int + fill as int).push(
                        self.buf()[start as int + fill as int],
                    ));
                }
                pd.push(self.buffer[start + fill]);
                fill = fill + 1;
            }
            proof {
                assert(pd@ == page_bytes(buf0, page as int));
                assert(pf.take(3) + df =~= pf);
            }
            let ghost log_before_data = self.log();
            match self.send_data(pd.as_slice()) {
                Ok(()) => {},
                Err(e) => {
                    proof {
                        let kd = choose|kd: int|
                            1 <= kd <= df.len() && self.log() == log_before_data + sent(
                                addr0,
                                df.take(kd),
                            );
                        assert(pf.take(3 + kd) =~= pf.take(3) + df.take(kd));
                        lemma_sent_append(addr0, base + pf.take(3), df.take(kd));
                        assert((base + pf.take(3)) + df.take(kd) =~= base + pf.take(3 + kd));
                        assert(self.log() == old(self).log() + sent(addr0, base + pf.take(3 + kd)));
                        flush_fail_witness(
                            buf0,
                            addr0,
                            page as int,
                            3 + kd,
                            old(self).log(),
                            self.log(),
                        );
                    }
                    return Err(e);
                },
            }
            proof {
                lemma_sent_append(addr0, base + pf.take(3), df);
                assert((base + pf.take(3)) + df =~= base + pf);
                assert(self.log() == old(self).log() + sent(addr0, base + pf));
                assert(wire_upto(buf0, page as int + 1) == base + pf);
            }
            page = page + 1;
        }
        Ok(())
    }

    /// The frames `flush` would write for the current framebuffer, built
    /// without touching the bus: what the suspendable transport binding
    /// walks, one bus write per frame.
    pub fn flush_frame_list(&self) -> (r: Vec<Vec<u8>>)
        requires
            self.wf(),
        ensures
            byte_views(r@) == flush_wire(self.buf()),
    {
        let mut r: Vec<Vec<u8>> = Vec::new();
        let mut page: usize = 0;
        proof {
            assert(byte_views(r@) =~= wire_upto(self.buf(), 0));
        }
        while page < PAGE_COUNT
            invariant
                self.wf(),
                page <= PAGE_COUNT,
                byte_views(r@) == wire_upto(self.buf(), page as int),
            decreases PAGE_COUNT - page,
        {
            let ghost pf = page_frames(self.buf(), page as int);
            let ghost base = wire_upto(self.buf(), page as int);
            let ghost df = data_frames(page_bytes(self.buf(), page as int));
            let pa = cmds::page_address(page as u8);
            proof {
                lemma_page_byte(page as u8);
                assert(pf[0] == cmd_frame(pa@));
            }
            let f0 = make_cmd_frame(pa.as_slice());
            r.push(f0);
            let cl = cmds::column_address_low(0);
            proof {
                assert((0x00u8 & 0x0F) == 0x00u8) by (bit_vector);
                assert(pf[1] == cmd_frame(cl@));
            }
            let f1 = make_cmd_frame(cl.as_slice());
            r.push(f1);
            let ch = cmds::column_address_high(0);
            proof {
                assert((0x10u8 | ((0x00u8 >> 4u8) & 0x0F)) == 0x10u8) by (bit_vector);
                assert(pf[2] == cmd_frame(ch@));
            }
            let f2 = make_cmd_frame(ch.as_slice());
            r.push(f2);
            proof {
                assert(byte_views(r@) =~~= base + pf.take(3));
            }
            let start = page * DISPLAY_WIDTH;
            let pd = slice_subrange(self.buffer.as_slice(), start, start + DISPLAY_WIDTH);
            proof {
                assert(pd@ == page_bytes(self.buf(), page as int));
            }
            let mut dfl = data_frame_list(pd);
            r.append(&mut dfl);
            proof {
                assert(byte_views(r@) =~~= (base + pf.take(3)) + df);
                assert((base + pf.take(3)) + df =~= base + pf);
                assert(byte_views(r@) =~~= wire_upto(self.buf(), page as int + 1));
            }
            page = page + 1;
        }
        r
    }
}

/// The frames of the first `pages` pages are eight frames per page:
/// three command frames, then five data frames for the page's
/// `DISPLAY_WIDTH` bytes.
proof fn lemma_wire_upto_len(buf: Seq<u8>, p: int)
    requires
        buf.len() == BUFFER_SIZE,
        0 <= p <= PAGE_COUNT,
    ensures
        wire_upto(buf, p).len() == 8 * p,
    decreases p,
{
    if p > 0 {
        lemma_wire_upto_len(buf, p - 1);
        lemma_chunk_split_shape(page_bytes(buf, p - 1));
        assert(page_bytes(buf, p - 1).len() == DISPLAY_WIDTH);
        assert(page_frames(buf, p - 1).len() == 8);
    }
}

/// What `flush` puts on the wire, page by page: eight frames per page,
/// the page-address command frame first, the two column-address command
/// frames next, and then data frames, each within the transaction limit,
/// whose payloads concatenate to exactly that page's framebuffer bytes,
/// in order.
pub proof fn lemma_flush_wire_structure(buf: Seq<u8>, page: int)
    requires
        buf.len() == BUFFER_SIZE,
        0 <= page < PAGE_COUNT,
    ensures
        flush_wire(buf).len() == 8 * PAGE_COUNT,
        flush_wire(buf).subrange(8 * page, 8 * page + 8) == page_frames(buf, page),
        page_frames(buf, page).len() == 8,
        page_frames(buf, page)[0] == cmd_frame(seq![page_address_byte(page)]),
        page_frames(buf, page)[1] == cmd_frame(seq![0x00u8]),
        page_frames(buf, page)[2] == cmd_frame(seq![0x10u8]),
        forall|i: int|
            3 <= i < 8 ==> (#[trigger] page_frames(buf, page)[i])[0] == 0x40u8 && 0 < page_frames(
                buf,
                page,
            )[i].len() <= I2C_MAX_WRITE,
        page_frames(buf, page).skip(3).map_values(|f: Seq<u8>| f.skip(1)).flatten() == page_bytes(
            buf,
            page,
        ),
{
    let pf = page_frames(buf, page);
    let pb = page_bytes(buf, page);
    let df = data_frames(pb);
    lemma_wire_upto_len(buf, PAGE_COUNT as int);
    lemma_wire_upto_len(buf, page);
    lemma_chunk_split_shape(pb);
    assert(pb.len() == DISPLAY_WIDTH);
    assert(df.len() == 5);
    assert(pf.len() == 8);
    // The eight frames of this page sit at offset 8 * page of the wire.
    lemma_wire_take_mid(buf, page, 8, PAGE_COUNT as int);
    assert(pf.take(8) =~= pf);
    assert(flush_wire(buf).take(8 * page + 8) == wire_upto(buf, page) + pf);
    assert forall|j: int| 0 <= j < 8 implies flush_wire(buf)[8 * page + j] == pf[j] by {
        assert(flush_wire(buf).take(8 * page + 8)[8 * page + j] == flush_wire(buf)[8 * page + j]);
        assert((wire_upto(buf, page) + pf)[8 * page + j] == pf[j]);
    }
    assert(flush_wire(buf).subrange(8 * page, 8 * page + 8) =~= pf);
    // Each data frame is its chunk behind the data control byte.
    assert(forall|i: int|
        3 <= i < 8 ==> #[trigger] pf[i] == data_frame(chunk_split(pb)[i - 3]));
    assert(pf.skip(3) =~= df);
    assert(df.map_values(|f: Seq<u8>| f.skip(1)) =~~= chunk_split(pb));
}

/// On a failure `j` frames into page `p`, the attempted transactions are
/// exactly a prefix of the flush wire, and a nonempty one.
proof fn flush_fail_witness(
    buf: Seq<u8>,
    addr: u8,
    p: int,
    j: int,
    log0: Seq<(u8, Seq<u8>)>,
    log1: Seq<(u8, Seq<u8>)>,
)
    requires
        0 <= p < PAGE_COUNT,
        1 <= j <= page_frames(buf, p).len(),
        log1 == log0 + sent(addr, wire_upto(buf, p) + page_frames(buf, p).take(j)),
    ensures
        exists|k: int|
            1 <= k <= flush_wire(buf).len() && log1 == log0 + sent(addr, flush_wire(buf).take(k)),
{
    lemma_wire_take_mid(buf, p, j, PAGE_COUNT as int);
    let k = wire_upto(buf, p).len() + j;
    assert(1 <= k <= flush_wire(buf).len());
    assert(log1 == log0 + sent(addr, flush_wire(buf).take(k)));
}

} // verus!
