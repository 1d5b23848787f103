//! Transport codec: payload shapes, their wire encoding, and the split of a
//! payload into bus writes.
use vstd::prelude::*;

verus! {

/// Number of items gathered before one bus write when a payload comes from a
/// sequence producer.
pub const BUFFER_SIZE: usize = 64;

/// Errors that may occur during display interface operations.
#[derive(Clone, Copy, Debug, PartialEq, Eq, Structural)]
pub enum DisplayError {
    /// The specified data format is not valid for the selected interface.
    InvalidFormatError,
    /// A bus write operation failed.
    BusWriteError,
    /// A bus read operation failed.
    BusReadError,
    /// Failed to toggle the data/command (DC) line.
    DCError,
    /// Failed to control the chip select (CS) line.
    CSError,
    /// The payload shape is not implemented by the interface.
    DataFormatNotImplemented,
    /// Failed to toggle the reset (RST) line.
    RSError,
    /// Attempted to write to an out-of-bounds pixel coordinate.
    OutOfBoundsError,
}

/// Shape of a payload handed to a display interface.
///
/// The `...Iter` variants stand for a bounded sequence producer: they are
/// gathered into fixed-size chunks before each bus write, while the slice
/// variants go out in a single write.
pub enum DataFormat {
    /// Raw bytes.
    U8(Vec<u8>),
    /// 16-bit words in the byte order of the host (not recommended).
    U16(Vec<u16>),
    /// 16-bit words sent big-endian.
    U16BE(Vec<u16>),
    /// 16-bit words sent little-endian.
    U16LE(Vec<u16>),
    /// Bytes from a bounded producer.
    U8Iter(Vec<u8>),
    /// 16-bit words from a bounded producer, sent big-endian.
    U16BEIter(Vec<u16>),
    /// 16-bit words from a bounded producer, sent little-endian.
    U16LEIter(Vec<u16>),
}

/// Mathematical value of a [`DataFormat`].
pub enum Payload {
    U8(Seq<u8>),
    U16(Seq<u16>),
    U16BE(Seq<u16>),
    U16LE(Seq<u16>),
    U8Iter(Seq<u8>),
    U16BEIter(Seq<u16>),
    U16LEIter(Seq<u16>),
}

impl View for DataFormat {
    type V = Payload;

    open spec fn view(&self) -> Payload {
        match self {
            DataFormat::U8(v) => Payload::U8(v@),
            DataFormat::U16(v) => Payload::U16(v@),
            DataFormat::U16BE(v) => Payload::U16BE(v@),
            DataFormat::U16LE(v) => Payload::U16LE(v@),
            DataFormat::U8Iter(v) => Payload::U8Iter(v@),
            DataFormat::U16BEIter(v) => Payload::U16BEIter(v@),
            DataFormat::U16LEIter(v) => Payload::U16LEIter(v@),
        }
    }
}

/// High byte of a word.
pub open spec fn hi(w: u16) -> u8 {
    (w >> 8u16) as u8
}

/// Low byte of a word.
pub open spec fn lo(w: u16) -> u8 {
    (w & 0xffu16) as u8
}

/// Words laid out most significant byte first.
pub open spec fn be_bytes(w: Seq<u16>) -> Seq<u8> {
    Seq::new(2 * w.len(), |i: int| if i % 2 == 0 { hi(w[i / 2]) } else { lo(w[i / 2]) })
}

/// Words laid out least significant byte first.
pub open spec fn le_bytes(w: Seq<u16>) -> Seq<u8> {
    Seq::new(2 * w.len(), |i: int| if i % 2 == 0 { lo(w[i / 2]) } else { hi(w[i / 2]) })
}

/// Number of chunks of at most `n` items that `len` items make.
pub open spec fn chunk_count(len: nat, n: nat) -> nat
    recommends
        n > 0,
{
    if len == 0 {
        0
    } else {
        ((len - 1) / (n as int) + 1) as nat
    }
}

/// `s` cut into consecutive pieces of `n` items; only the last may be shorter.
pub open spec fn split_chunks(s: Seq<u8>, n: nat) -> Seq<Seq<u8>>
    recommends
        n > 0,
{
    Seq::new(
        chunk_count(s.len(), n),
        |k: int|
            s.subrange(
                k * n,
                if (k + 1) * n <= s.len() {
                    (k + 1) * n
                } else {
                    s.len() as int
                },
            ),
    )
}

/// The bus writes that carry a payload, in order; `host_le` tells the byte
/// order of the host, which only the host-order shape depends on.
pub open spec fn chunks_of(p: Payload, host_le: bool) -> Seq<Seq<u8>> {
    match p {
        Payload::U8(b) => seq![b],
        Payload::U16(w) => seq![if host_le { le_bytes(w) } else { be_bytes(w) }],
        Payload::U16BE(w) => seq![be_bytes(w)],
        Payload::U16LE(w) => seq![le_bytes(w)],
        Payload::U8Iter(b) => split_chunks(b, BUFFER_SIZE as nat),
        Payload::U16BEIter(w) => split_chunks(be_bytes(w), 2 * BUFFER_SIZE as nat),
        Payload::U16LEIter(w) => split_chunks(le_bytes(w), 2 * BUFFER_SIZE as nat),
    }
}

/// Relies on `byte_slice_cast::AsByteSlice::as_byte_slice` for `[u16]`: the
/// words' in-memory bytes, in the host's byte order.
#[verifier::external_body]
fn host_order_bytes(words: &[u16]) -> (r: Vec<u8>)
    ensures
        r@ == le_bytes(words@) || r@ == be_bytes(words@),
{
    byte_slice_cast::AsByteSlice::as_byte_slice(words).to_vec()
}

/// Big-endian bytes of `words`.
pub fn to_be_bytes(words: &[u16]) -> (r: Vec<u8>)
    requires
        2 * words@.len() <= usize::MAX,
    ensures
        r@ == be_bytes(words@),
{
    let mut out: Vec<u8> = Vec::with_capacity(2 * words.len());
    let mut i: usize = 0;
    while i < words.len()
        invariant
            i <= words@.len(),
            2 * words@.len() <= usize::MAX,
            out@.len() == 2 * i,
            forall|j: int| 0 <= j < 2 * i ==> out@[j] == be_bytes(words@)[j],
        decreases words@.len() - i,
    {
        let w = words[i];
        out.push((w >> 8u16) as u8);
        out.push((w & 0xffu16) as u8);
        i += 1;
    }
    assert(out@ =~= be_bytes(words@));
    out
}

/// Little-endian bytes of `words`.
pub fn to_le_bytes(words: &[u16]) -> (r: Vec<u8>)
    requires
        2 * words@.len() <= usize::MAX,
    ensures
        r@ == le_bytes(words@),
{
    let mut out: Vec<u8> = Vec::with_capacity(2 * words.len());
    let mut i: usize = 0;
    while i < words.len()
        invariant
            i <= words@.len(),
            2 * words@.len() <= usize::MAX,
            out@.len() == 2 * i,
            forall|j: int| 0 <= j < 2 * i ==> out@[j] == le_bytes(words@)[j],
        decreases words@.len() - i,
    {
        let w = words[i];
        out.push((w & 0xffu16) as u8);
        out.push((w >> 8u16) as u8);
        i += 1;
    }
    assert(out@ =~= le_bytes(words@));
    out
}

/// Copy of `s[start..end]`.
fn copy_range(s: &Vec<u8>, start: usize, end: usize) -> (r: Vec<u8>)
    requires
        start <= end <= s@.len(),
    ensures
        r@ == s@.subrange(start as int, end as int),
{
    let mut out: Vec<u8> = Vec::with_capacity(end - start);
    let mut i: usize = start;
    while i < end
        invariant
            start <= i <= end <= s@.len(),
            out@ == s@.subrange(start as int, i as int),
        decreases end - i,
    {
        out.push(s[i]);
        i += 1;
        assert(out@ =~= s@.subrange(start as int, i as int));
    }
    out
}

/// Cuts `bytes` into consecutive chunks of `size` bytes, the last one
/// possibly shorter; no chunk is empty.
pub fn split_into_chunks(bytes: &Vec<u8>, size: usize) -> (r: Vec<Vec<u8>>)
    requires
        size > 0,
    ensures
        r@.len() == chunk_count(bytes@.len(), size as nat),
        forall|k: int| 0 <= k < r@.len() ==> r@[k]@ == split_chunks(bytes@, size as nat)[k],
{
    let mut out: Vec<Vec<u8>> = Vec::new();
    let mut start: usize = 0;
    let ghost n = size as nat;
    assert(out@.len() * n == 0);
    while start < bytes.len()
        invariant
            size > 0,
            n == size as nat,
            start <= bytes@.len(),
            start < bytes@.len() ==> start == out@.len() * n,
            start < bytes@.len() ==> out@.len() < chunk_count(bytes@.len(), n),
            start >= bytes@.len() ==> out@.len() == chunk_count(bytes@.len(), n),
            forall|k: int| 0 <= k < out@.len() ==> out@[k]@ == split_chunks(bytes@, n)[k],
        decreases bytes@.len() - start,
    {
        let room = bytes.len() - start;
        let end = if room > size { start + size } else { bytes.len() };
        let piece = copy_range(bytes, start, end);
        let ghost k = out@.len() as int;
        proof {
            assert(k * n + n == (k + 1) * n) by (nonlinear_arith);
            lemma_chunk_count_step(bytes@.len(), n, k as nat);
        }
        out.push(piece);
        start = end;
        proof {
            assert(out@[k]@ == split_chunks(bytes@, n)[k]);
            if start < bytes@.len() {
                assert((k + 1) * n == start);
            }
        }
    }
    out
}

proof fn lemma_chunk_count_step(len: nat, n: nat, k: nat)
    requires
        n > 0,
        k * n < len,
    ensures
        k < chunk_count(len, n),
        (k + 1) * n < len ==> k + 1 < chunk_count(len, n),
        (k + 1) * n >= len ==> k + 1 == chunk_count(len, n),
{
    assert(((k * n) as int) / (n as int) == k as int) by {
        vstd::arithmetic::div_mod::lemma_div_by_multiple(k as int, n as int);
    }
    vstd::arithmetic::div_mod::lemma_div_is_ordered((k * n) as int, len - 1, n as int);
    if (k + 1) * n < len {
        assert((((k + 1) * n) as int) / (n as int) == (k + 1) as int) by {
            vstd::arithmetic::div_mod::lemma_div_by_multiple((k + 1) as int, n as int);
        }
        vstd::arithmetic::div_mod::lemma_div_is_ordered(((k + 1) * n) as int, len - 1, n as int);
    } else {
        assert((k + 1) * n == k * n + n) by (nonlinear_arith);
        vstd::arithmetic::div_mod::lemma_fundamental_div_mod(len - 1, n as int);
        let q = (len - 1) / (n as int);
        let r = (len - 1) % (n as int);
        assert(0 <= r < n) by {
            vstd::arithmetic::div_mod::lemma_mod_bound(len - 1, n as int);
        }
        assert(len - 1 == n * q + r);
        assert(q >= k);
        if q > k {
            assert(n * q >= n * (k + 1)) by (nonlinear_arith) requires q >= k + 1, n > 0;
            assert(n * (k + 1) == (k + 1) * n) by (nonlinear_arith);
        }
    }
}

/// A display interface that carries commands and data, with read-back for
/// controllers that support it. Implemented by whatever bus the panel sits on.
pub trait ReadWriteDataCommand {
    /// Sends one or more command bytes.
    fn send_commands(&mut self, cmd: DataFormat) -> Result<(), DisplayError>;

    /// Sends a data payload following a command.
    fn send_data(&mut self, buf: DataFormat) -> Result<(), DisplayError>;

    /// Sends `cmd`, then fills `buf` with the bytes the controller returns.
    fn read_data(&mut self, cmd: DataFormat, buf: &mut [u8]) -> Result<(), DisplayError>;
}

/// Views of a list of byte buffers.
pub open spec fn buffers_view(r: Seq<Vec<u8>>) -> Seq<Seq<u8>> {
    r.map_values(|c: Vec<u8>| c@)
}

/// Whether the words of a payload fit twice in memory as bytes.
pub open spec fn payload_fits(p: Payload) -> bool {
    match p {
        Payload::U8(_) | Payload::U8Iter(_) => true,
        Payload::U16(w) | Payload::U16BE(w) | Payload::U16LE(w) | Payload::U16BEIter(w)
        | Payload::U16LEIter(w) => 2 * w.len() <= usize::MAX,
    }
}

/// The bus writes that carry `words`: one write for a slice shape, chunks of
/// `BUFFER_SIZE` items for a producer shape, 16-bit words laid out in the
/// requested byte order.
pub fn frame_chunks(words: &DataFormat) -> (r: Vec<Vec<u8>>)
    requires
        payload_fits(words@),
    ensures
        exists|le: bool| buffers_view(r@) == chunks_of(words@, le),
{
    match words {
        DataFormat::U8(b) => {
            let r = vec![b.clone()];
            assert(buffers_view(r@) =~= chunks_of(words@, true));
            r
        },
        DataFormat::U16(w) => {
            let bytes = host_order_bytes(w.as_slice());
            let r = vec![bytes];
            proof {
                if bytes@ == le_bytes(w@) {
                    assert(buffers_view(r@) =~= chunks_of(words@, true));
                } else {
                    assert(buffers_view(r@) =~= chunks_of(words@, false));
                }
            }
            r
        },
        DataFormat::U16BE(w) => {
            let r = vec![to_be_bytes(w.as_slice())];
            assert(buffers_view(r@) =~= chunks_of(words@, true));
            r
        },
        DataFormat::U16LE(w) => {
            let r = vec![to_le_bytes(w.as_slice())];
            assert(buffers_view(r@) =~= chunks_of(words@, true));
            r
        },
        DataFormat::U8Iter(b) => {
            let r = split_into_chunks(b, BUFFER_SIZE);
            assert(buffers_view(r@) =~= chunks_of(words@, true));
            r
        },
        DataFormat::U16BEIter(w) => {
            let bytes = to_be_bytes(w.as_slice());
            let r = split_into_chunks(&bytes, 2 * BUFFER_SIZE);
            assert(buffers_view(r@) =~= chunks_of(words@, true));
            r
        },
        DataFormat::U16LEIter(w) => {
            let bytes = to_le_bytes(w.as_slice());
            let r = split_into_chunks(&bytes, 2 * BUFFER_SIZE);
            assert(buffers_view(r@) =~= chunks_of(words@, true));
            r
        },
    }
}

} // verus!
