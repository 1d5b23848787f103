//! The display interface over an SPI device and a data/command select line.
use vstd::prelude::*;
use embedded_hal::digital::OutputPin;
use embedded_hal::spi::SpiDevice;
use crate::wire::{
    buffers_view, chunks_of, frame_chunks, payload_fits, DataFormat, DisplayError,
};

verus! {

/// One operation on the wire, as attempted by the interface.
pub enum WireOp {
    /// The data/command line driven high (data) or low (command).
    Select(bool),
    /// One bus write of these bytes.
    Write(Seq<u8>),
    /// One bus read of this many bytes.
    Read(nat),
}

/// The writes of `chunks`, in order.
pub open spec fn writes(chunks: Seq<Seq<u8>>) -> Seq<WireOp> {
    chunks.map_values(|c: Seq<u8>| WireOp::Write(c))
}

/// What a transfer of `chunks` with the select line at `data` leaves on the
/// wire: the select, then the writes up to and including the first that
/// failed.
pub open spec fn transfer_outcome(
    before: Seq<WireOp>,
    after: Seq<WireOp>,
    data: bool,
    chunks: Seq<Seq<u8>>,
    r: Result<(), DisplayError>,
) -> bool {
    match r {
        Ok(()) => after == before.push(WireOp::Select(data)) + writes(chunks),
        Err(DisplayError::DCError) => after == before.push(WireOp::Select(data)),
        Err(DisplayError::BusWriteError) => exists|k: int|
            0 < k <= chunks.len() && after == before.push(WireOp::Select(data)) + writes(
                chunks.take(k),
            ),
        Err(_) => false,
    }
}

/// What a read leaves on the wire: the command transfer, then the select line
/// driven to data and one read of `len` bytes, stopping at the first failure.
pub open spec fn read_outcome(
    before: Seq<WireOp>,
    after: Seq<WireOp>,
    cmd_chunks: Seq<Seq<u8>>,
    len: nat,
    r: Result<(), DisplayError>,
) -> bool {
    let sent = before.push(WireOp::Select(false)) + writes(cmd_chunks);
    match r {
        Ok(()) | Err(DisplayError::BusReadError) => after == sent.push(WireOp::Select(true)).push(
            WireOp::Read(len),
        ),
        Err(DisplayError::DCError) => after == before.push(WireOp::Select(false)) || after
            == sent.push(WireOp::Select(true)),
        _ => transfer_outcome(before, after, false, cmd_chunks, r),
    }
}

/// Relies on `embedded_hal::digital::OutputPin::set_high`: drives the line
/// high; false when the pin reported an error.
#[verifier::external_body]
pub(crate) fn line_high<P: OutputPin>(pin: &mut P) -> (ok: bool) {
    pin.set_high().is_ok()
}

/// Relies on `embedded_hal::digital::OutputPin::set_low`: drives the line
/// low; false when the pin reported an error.
#[verifier::external_body]
pub(crate) fn line_low<P: OutputPin>(pin: &mut P) -> (ok: bool) {
    pin.set_low().is_ok()
}

/// Drives the line high or low.
pub(crate) fn drive_line<P: OutputPin>(pin: &mut P, high: bool) -> (ok: bool) {
    if high {
        line_high(pin)
    } else {
        line_low(pin)
    }
}

/// Relies on `embedded_hal::spi::SpiDevice::write`: one write transaction of
/// `bytes`; false when the device reported an error.
#[verifier::external_body]
fn spi_write<S: SpiDevice>(spi: &mut S, bytes: &[u8]) -> (ok: bool) {
    spi.write(bytes).is_ok()
}

/// Relies on `embedded_hal::spi::SpiDevice::read`: one read transaction into
/// `buf`, which keeps its length; false when the device reported an error.
#[verifier::external_body]
fn spi_read<S: SpiDevice>(spi: &mut S, buf: &mut [u8]) -> (ok: bool)
    ensures
        final(buf)@.len() == old(buf)@.len(),
{
    spi.read(buf).is_ok()
}

/// Display interface over an SPI device and a data/command select line.
pub struct SPIInterface<SPI, DC> {
    spi: SPI,
    dc: DC,
    wire: Ghost<Seq<WireOp>>,
}

impl<SPI, DC> SPIInterface<SPI, DC> {
    /// Every wire operation attempted so far, in order.
    pub closed spec fn wire_log(&self) -> Seq<WireOp> {
        self.wire@
    }

    pub fn new(spi: SPI, dc: DC) -> (r: Self)
        ensures
            r.wire_log() == Seq::<WireOp>::empty(),
    {
        SPIInterface { spi, dc, wire: Ghost(Seq::empty()) }
    }

    /// Gives back the SPI device and the select line.
    pub fn release(self) -> (SPI, DC) {
        (self.spi, self.dc)
    }
}

impl<SPI: SpiDevice, DC: OutputPin> SPIInterface<SPI, DC> {
    /// Drives the select line to `data`, then writes the chunks of `words`,
    /// stopping at the first failed write.
    pub fn transfer(&mut self, data: bool, words: DataFormat) -> (r: Result<(), DisplayError>)
        requires
            payload_fits(words@),
        ensures
            exists|le: bool|
                transfer_outcome(
                    old(self).wire_log(),
                    final(self).wire_log(),
                    data,
                    chunks_of(words@, le),
                    r,
                ),
    {
        let chunks = frame_chunks(&words);
        let ghost le = choose|le: bool| buffers_view(chunks@) == chunks_of(words@, le);
        let ghost cs = buffers_view(chunks@);
        let ghost start = self.wire@.push(WireOp::Select(data));
        let selected = drive_line(&mut self.dc, data);
        self.wire = Ghost(start);
        if !selected {
            return Err(DisplayError::DCError);
        }
        let mut i: usize = 0;
        assert(cs.take(0) =~= Seq::<Seq<u8>>::empty());
        assert(writes(cs.take(0)) =~= Seq::<WireOp>::empty());
        while i < chunks.len()
            invariant
                cs == buffers_view(chunks@),
                cs == chunks_of(words@, le),
                i <= chunks@.len(),
                start == old(self).wire@.push(WireOp::Select(data)),
                self.wire@ == start + writes(cs.take(i as int)),
            decreases chunks@.len() - i,
        {
            let ok = spi_write(&mut self.spi, chunks[i].as_slice());
            self.wire = Ghost(self.wire@.push(WireOp::Write(chunks@[i as int]@)));
            assert(writes(cs.take(i + 1)) =~= writes(cs.take(i as int)).push(
                WireOp::Write(cs[i as int]),
            ));
            if !ok {
                assert(self.wire@ == start + writes(cs.take(i + 1)));
                let ghost k = i + 1;
                assert(0 < k <= cs.len() && self.wire@ == old(self).wire@.push(
                    WireOp::Select(data),
                ) + writes(cs.take(k)));
                assert(transfer_outcome(
                    old(self).wire@,
                    self.wire@,
                    data,
                    cs,
                    Err(DisplayError::BusWriteError),
                ));
                return Err(DisplayError::BusWriteError);
            }
            i += 1;
        }
        assert(cs.take(i as int) =~= cs);
        Ok(())
    }

    /// Sends `cmd`, drives the select line to data, then reads `buf.len()`
    /// bytes.
    pub fn fetch(&mut self, cmd: DataFormat, buf: &mut [u8]) -> (r: Result<(), DisplayError>)
        requires
            payload_fits(cmd@),
        ensures
            final(buf)@.len() == old(buf)@.len(),
            exists|le: bool|
                read_outcome(
                    old(self).wire_log(),
                    final(self).wire_log(),
                    chunks_of(cmd@, le),
                    old(buf)@.len(),
                    r,
                ),
    {
        self.transfer(false, cmd)?;
        let ghost mid = self.wire@;
        let selected = drive_line(&mut self.dc, true);
        self.wire = Ghost(self.wire@.push(WireOp::Select(true)));
        if !selected {
            return Err(DisplayError::DCError);
        }
        let ok = spi_read(&mut self.spi, buf);
        self.wire = Ghost(self.wire@.push(WireOp::Read(buf@.len() as nat)));
        if ok {
            Ok(())
        } else {
            Err(DisplayError::BusReadError)
        }
    }
}

/// Whether a payload's bytes can be laid out in memory.
pub fn payload_fits_exec(p: &DataFormat) -> (r: bool)
    ensures
        r == payload_fits(p@),
{
    match p {
        DataFormat::U8(_) | DataFormat::U8Iter(_) => true,
        DataFormat::U16(w) | DataFormat::U16BE(w) | DataFormat::U16LE(w)
        | DataFormat::U16BEIter(w) | DataFormat::U16LEIter(w) => w.len() <= usize::MAX / 2,
    }
}

} // verus!
