use vstd::prelude::*;
use vstd::slice::slice_subrange;

use crate::bus::I2cBus;
use crate::error::Sh1107gError;
use crate::I2C_MAX_WRITE;
use crate::Sh1107g;

verus! {

/// Payload bytes carried by one frame, control byte excluded.
pub const CHUNK_SIZE: usize = I2C_MAX_WRITE - 1;

/// A command frame: the command control byte, then the command bytes.
pub open spec fn cmd_frame(c: Seq<u8>) -> Seq<u8> {
    seq![0x00u8] + c
}

/// A data frame: the pixel-data control byte, then the payload bytes.
pub open spec fn data_frame(c: Seq<u8>) -> Seq<u8> {
    seq![0x40u8] + c
}

/// The frames as bus transactions, all to one address.
pub open spec fn sent(addr: u8, frames: Seq<Seq<u8>>) -> Seq<(u8, Seq<u8>)> {
    frames.map_values(|f: Seq<u8>| (addr, f))
}

/// `data` split into payload chunks of at most `CHUNK_SIZE` bytes,
/// in order, none empty.
pub open spec fn chunk_split(data: Seq<u8>) -> Seq<Seq<u8>>
    decreases data.len(),
{
    if data.len() == 0 {
        Seq::empty()
    } else if data.len() <= CHUNK_SIZE {
        seq![data]
    } else {
        seq![data.subrange(0, CHUNK_SIZE as int)] + chunk_split(
            data.subrange(CHUNK_SIZE as int, data.len() as int),
        )
    }
}

/// The data frames that carry `data`: one per chunk.
pub open spec fn data_frames(data: Seq<u8>) -> Seq<Seq<u8>> {
    chunk_split(data).map_values(|c: Seq<u8>| data_frame(c))
}

/// The byte sequences held by a list of byte vectors.
pub open spec fn byte_views(s: Seq<Vec<u8>>) -> Seq<Seq<u8>> {
    s.map_values(|v: Vec<u8>| v@)
}

/// One command frame as bytes: the command control byte, then `cmd`.
pub(crate) fn make_cmd_frame(cmd: &[u8]) -> (r: Vec<u8>)
    ensures
        r@ == cmd_frame(cmd@),
{
    let mut r: Vec<u8> = Vec::new();
    r.push(0x00);
    r.extend_from_slice(cmd);
    proof {
        assert(r@ =~= cmd_frame(cmd@));
    }
    r
}

/// One data frame as bytes: the pixel-data control byte, then `chunk`.
fn make_data_frame(chunk: &[u8]) -> (r: Vec<u8>)
    ensures
        r@ == data_frame(chunk@),
{
    let mut r: Vec<u8> = Vec::new();
    r.push(0x40);
    r.extend_from_slice(chunk);
    proof {
        assert(r@ =~= data_frame(chunk@));
    }
    r
}

/// The data frames that would carry `data`, built without a bus: what
/// the suspendable transport binding walks, one bus write per frame.
pub fn data_frame_list(data: &[u8]) -> (r: Vec<Vec<u8>>)
    ensures
        byte_views(r@) == data_frames(data@),
{
    let n = data.len();
    let mut r: Vec<Vec<u8>> = Vec::new();
    let mut off: usize = 0;
    let mut done: usize = 0;
    proof {
        assert(data@.subrange(0, n as int) =~= data@);
        assert(chunk_split(data@).skip(0) =~= chunk_split(data@));
        assert(byte_views(r@) =~= data_frames(data@).take(0));
    }
    while off < n
        invariant
            n == data@.len(),
            off <= n,
            done <= off,
            done <= chunk_split(data@).len(),
            chunk_split(data@).skip(done as int) == chunk_split(
                data@.subrange(off as int, n as int),
            ),
            byte_views(r@) == data_frames(data@).take(done as int),
        decreases n - off,
    {
        let end = if n - off > CHUNK_SIZE {
            off + CHUNK_SIZE
        } else {
            n
        };
        let ghost remaining = data@.subrange(off as int, n as int);
        let ghost chunks = chunk_split(data@);
        let ghost frames = data_frames(data@);
        proof {
            if remaining.len() <= CHUNK_SIZE {
                assert(chunk_split(remaining) == seq![remaining]);
                assert(remaining =~= data@.subrange(off as int, end as int));
                assert(chunk_split(remaining).drop_first() =~= Seq::<Seq<u8>>::empty());
                assert(data@.subrange(end as int, n as int) =~= Seq::<u8>::empty());
            } else {
                let head = remaining.subrange(0, CHUNK_SIZE as int);
                let tail = remaining.subrange(CHUNK_SIZE as int, remaining.len() as int);
                assert(chunk_split(remaining) == seq![head] + chunk_split(tail));
                assert(head =~= data@.subrange(off as int, end as int));
                assert(tail =~= data@.subrange(end as int, n as int));
                assert(chunk_split(remaining).drop_first() =~= chunk_split(tail));
            }
            assert(done < chunks.len());
            assert(chunks.skip(done as int)[0] == chunks[done as int]);
            assert(chunks[done as int] == data@.subrange(off as int, end as int));
            assert(frames[done as int] == data_frame(chunks[done as int]));
            assert(frames.take(done as int + 1) =~= frames.take(done as int).push(
                frames[done as int],
            ));
            assert(chunks.skip(done as int + 1) =~= chunks.skip(done as int).drop_first());
        }
        let chunk = slice_subrange(data, off, end);
        let frame = make_data_frame(chunk);
        r.push(frame);
        proof {
            assert(byte_views(r@) =~~= frames.take(done as int + 1));
        }
        off = end;
        done = done + 1;
    }
    proof {
        assert(data@.subrange(off as int, n as int) =~= Seq::<u8>::empty());
        assert(chunk_split(data@).skip(done as int).len() == 0);
        assert(done == chunk_split(data@).len());
        assert(data_frames(data@).take(done as int) =~= data_frames(data@));
    }
    r
}

// The staging buffer that assembles one frame before it is handed to the
// bus is a fixed-capacity vector of an outside crate, held behind the
// declarations and wrappers below.

/// Relies on heapless::Vec: a vector with a fixed inline capacity of `N`
/// elements; opaque here, read and written only through the wrappers below.
#[verifier::external_type_specification]
#[verifier::external_body]
#[verifier::reject_recursive_types(T)]
pub struct ExHeaplessVec<T, const N: usize>(heapless::Vec<T, N>);

/// The bytes a staging buffer holds, in order.
pub uninterp spec fn staged(v: heapless::Vec<u8, I2C_MAX_WRITE>) -> Seq<u8>;

/// Relies on heapless::Vec::new: the new vector is empty.
#[verifier::external_body]
fn staging_new() -> (r: heapless::Vec<u8, I2C_MAX_WRITE>)
    ensures
        staged(r) == Seq::<u8>::empty(),
{
    heapless::Vec::new()
}

/// Relies on heapless::Vec::push: appends the byte when the vector holds
/// fewer bytes than its capacity, else hands the byte back unappended.
#[verifier::external_body]
fn staging_push(v: &mut heapless::Vec<u8, I2C_MAX_WRITE>, byte: u8) -> (r: Result<(), u8>)
    ensures
        r == (if staged(*old(v)).len() < I2C_MAX_WRITE {
            Ok::<(), u8>(())
        } else {
            Err::<(), u8>(byte)
        }),
        staged(*final(v)) == (if staged(*old(v)).len() < I2C_MAX_WRITE {
            staged(*old(v)).push(byte)
        } else {
            staged(*old(v))
        }),
{
    v.push(byte)
}

/// Relies on heapless::Vec::extend_from_slice: appends all of `data` when
/// it fits within the capacity, else changes nothing and reports an error.
#[verifier::external_body]
fn staging_extend(v: &mut heapless::Vec<u8, I2C_MAX_WRITE>, data: &[u8]) -> (r: Result<(), ()>)
    ensures
        r == (if staged(*old(v)).len() + data@.len() <= I2C_MAX_WRITE {
            Ok::<(), ()>(())
        } else {
            Err::<(), ()>(())
        }),
        staged(*final(v)) == (if staged(*old(v)).len() + data@.len() <= I2C_MAX_WRITE {
            staged(*old(v)) + data@
        } else {
            staged(*old(v))
        }),
{
    v.extend_from_slice(data)
}

/// Relies on heapless::Vec::as_slice: the held bytes, in order.
#[verifier::external_body]
fn staging_slice(v: &heapless::Vec<u8, I2C_MAX_WRITE>) -> (r: &[u8])
    ensures
        r@ == staged(*v),
{
    v.as_slice()
}

impl<B: I2cBus> Sh1107g<B> {
    /// Stages one frame, `control` then `data`, and writes it to the bus
    /// as a single transaction. A payload that cannot fit in one frame is
    /// refused before anything reaches the bus.
    fn send(&mut self, control: u8, data: &[u8]) -> (r: Result<(), Sh1107gError<B::BusError>>)
        ensures
            final(self).buffer == old(self).buffer,
            final(self).address == old(self).address,
            data@.len() < I2C_MAX_WRITE ==> {
                &&& final(self).log() == old(self).log().push(
                    (old(self).addr(), seq![control] + data@),
                )
                &&& (r is Ok || r matches Err(Sh1107gError::I2cError(_)))
            },
            data@.len() >= I2C_MAX_WRITE ==> r == Err::<(), Sh1107gError<B::BusError>>(
                Sh1107gError::PayloadOverflow,
            ) && final(self).log() == old(self).log(),
    {
        let mut payload = staging_new();
        match staging_push(&mut payload, control) {
            Ok(()) => {},
            Err(_) => {
                return Err(Sh1107gError::PayloadOverflow);
            },
        }
        match staging_extend(&mut payload, data) {
            Ok(()) => {},
            Err(()) => {
                return Err(Sh1107gError::PayloadOverflow);
            },
        }
        proof {
            assert(staged(payload) =~= seq![control] + data@);
        }
        let bytes = staging_slice(&payload);
        match self.i2c.bus_write(self.address, bytes) {
            Ok(()) => Ok(()),
            Err(e) => Err(Sh1107gError::I2cError(e)),
        }
    }

    /// Splits `data` into chunks of at most `CHUNK_SIZE` bytes, frames each
    /// as one data frame, and writes the frames to the bus in order. A bus
    /// failure aborts at once: frames already written stay written, later
    /// chunks are never attempted.
    pub fn send_data(&mut self, data: &[u8]) -> (r: Result<(), Sh1107gError<B::BusError>>)
        ensures
            final(self).buffer == old(self).buffer,
            final(self).address == old(self).address,
            r is Ok ==> final(self).log() == old(self).log() + sent(
                old(self).addr(),
                data_frames(data@),
            ),
            r is Err ==> (r matches Err(Sh1107gError::I2cError(_))) && (exists|k: int|
                1 <= k <= data_frames(data@).len() && final(self).log() == old(self).log() + sent(
                    old(self).addr(),
                    data_frames(data@).take(k),
                )),
    {
        let n = data.len();
        let mut off: usize = 0;
        let mut done: usize = 0;
        proof {
            assert(data@.subrange(0, n as int) =~= data@);
            assert(chunk_split(data@).skip(0) =~= chunk_split(data@));
            assert(old(self).log() + sent(old(self).addr(), data_frames(data@).take(0)) =~= old(
                self,
            ).log());
        }
        while off < n
            invariant
                self.buffer == old(self).buffer,
                self.address == old(self).address,
                n == data@.len(),
                off <= n,
                done <= off,
                done <= chunk_split(data@).len(),
                chunk_split(data@).skip(done as int) == chunk_split(
                    data@.subrange(off as int, n as int),
                ),
                self.log() == old(self).log() + sent(
                    old(self).addr(),
                    data_frames(data@).take(done as int),
                ),
            decreases n - off,
        {
            let end = if n - off > CHUNK_SIZE {
                off + CHUNK_SIZE
            } else {
                n
            };
            let ghost remaining = data@.subrange(off as int, n as int);
            let ghost chunks = chunk_split(data@);
            let ghost frames = data_frames(data@);
            proof {
                // The split of what is left starts with exactly data[off..end],
                // and dropping it leaves the split of data[end..].
                if remaining.len() <= CHUNK_SIZE {
                    assert(chunk_split(remaining) == seq![remaining]);
                    assert(remaining =~= data@.subrange(off as int, end as int));
                    assert(chunk_split(remaining).drop_first()
                        =~= Seq::<Seq<u8>>::empty());
                    assert(data@.subrange(end as int, n as int) =~= Seq::<u8>::empty());
                } else {
                    let head = remaining.subrange(0, CHUNK_SIZE as int);
                    let tail = remaining.subrange(CHUNK_SIZE as int, remaining.len() as int);
                    assert(chunk_split(remaining) == seq![head] + chunk_split(tail));
                    assert(head =~= data@.subrange(off as int, end as int));
                    assert(tail =~= data@.subrange(end as int, n as int));
                    assert(chunk_split(remaining).drop_first() =~= chunk_split(tail));
                }
                assert(done < chunks.len());
                assert(chunks.skip(done as int)[0] == chunks[done as int]);
                assert(chunks[done as int] == data@.subrange(off as int, end as int));
                assert(frames[done as int] == data_frame(chunks[done as int]));
                assert(frames.take(done as int + 1) =~= frames.take(done as int).push(
                    frames[done as int],
                ));
                lemma_sent_push(old(self).addr(), frames.take(done as int), frames[done as int]);
                assert(chunks.skip(done as int + 1) =~= chunks.skip(done as int).drop_first());
            }
            let chunk = slice_subrange(data, off, end);
            match self.send(0x40, chunk) {
                Ok(()) => {},
                Err(e) => {
                    proof {
                        assert(self.log() == old(self).log() + sent(
                            old(self).addr(),
                            frames.take(done as int + 1),
                        ));
                    }
                    return Err(e);
                },
            }
            off = end;
            done = done + 1;
        }
        proof {
            assert(data@.subrange(off as int, n as int) =~= Seq::<u8>::empty());
            assert(chunk_split(data@).skip(done as int).len() == 0);
            assert(done == chunk_split(data@).len());
            assert(data_frames(data@).take(done as int) =~= data_frames(data@));
        }
        Ok(())
    }

    /// Frames `cmd` as one command frame and writes it to the bus.
    pub fn send_cmd(&mut self, cmd: &[u8]) -> (r: Result<(), Sh1107gError<B::BusError>>)
        ensures
            final(self).buffer == old(self).buffer,
            final(self).address == old(self).address,
            cmd@.len() < I2C_MAX_WRITE ==> {
                &&& final(self).log() == old(self).log().push(
                    (old(self).addr(), cmd_frame(cmd@)),
                )
                &&& (r is Ok || r matches Err(Sh1107gError::I2cError(_)))
            },
            cmd@.len() >= I2C_MAX_WRITE ==> r == Err::<(), Sh1107gError<B::BusError>>(
                Sh1107gError::PayloadOverflow,
            ) && final(self).log() == old(self).log(),
    {
        self.send(0x00, cmd)
    }
}

/// Shape of the chunk split: how many chunks there are, that each holds
/// between one and `CHUNK_SIZE` bytes, and that together they hold all of
/// `data` in order.
pub proof fn lemma_chunk_split_shape(data: Seq<u8>)
    ensures
        data.len() == 0 ==> chunk_split(data).len() == 0,
        data.len() > 0 ==> chunk_split(data).len() == (data.len() - 1) / (CHUNK_SIZE as int) + 1,
        forall|i: int|
            0 <= i < chunk_split(data).len() ==> 0 < (#[trigger] chunk_split(data)[i]).len()
                <= CHUNK_SIZE,
        chunk_split(data).flatten() == data,
    decreases data.len(),
{
    if data.len() == 0 {
        assert(chunk_split(data).flatten() =~= data);
    } else if data.len() <= CHUNK_SIZE {
        let s = chunk_split(data);
        assert(s == seq![data]);
        s.lemma_flatten_one_element();
    } else {
        let head = data.subrange(0, CHUNK_SIZE as int);
        let tail = data.subrange(CHUNK_SIZE as int, data.len() as int);
        lemma_chunk_split_shape(tail);
        let s = chunk_split(data);
        assert(s == seq![head] + chunk_split(tail));
        assert(s.first() == head);
        assert(s.drop_first() =~= chunk_split(tail));
        assert(s.flatten() == head + chunk_split(tail).flatten());
        assert(head + tail =~= data);
        assert(forall|i: int|
            1 <= i < s.len() ==> s[i] == #[trigger] chunk_split(tail)[i - 1]);
    }
}

/// Appending one frame to the wire model appends one transaction.
pub proof fn lemma_sent_push(addr: u8, frames: Seq<Seq<u8>>, f: Seq<u8>)
    ensures
        sent(addr, frames.push(f)) == sent(addr, frames).push((addr, f)),
{
    assert(sent(addr, frames.push(f)) =~= sent(addr, frames).push((addr, f)));
}

/// The wire model distributes over concatenation of frame lists.
pub proof fn lemma_sent_append(addr: u8, a: Seq<Seq<u8>>, b: Seq<Seq<u8>>)
    ensures
        sent(addr, a + b) == sent(addr, a) + sent(addr, b),
{
    assert(sent(addr, a + b) =~= sent(addr, a) + sent(addr, b));
}

/// Taking a prefix of a concatenation that ends inside the second part
/// keeps all of the first part and a prefix of the second.
pub proof fn lemma_take_append<A>(a: Seq<A>, b: Seq<A>, k: int)
    requires
        0 <= k <= b.len(),
    ensures
        (a + b).take(a.len() + k) == a + b.take(k),
{
    assert((a + b).take(a.len() + k) =~= a + b.take(k));
}

} // verus!
