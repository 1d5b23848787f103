use embedded_hal::digital::{ErrorType as PinErrorType, OutputPin};
use embedded_hal::spi::{Error, ErrorKind, ErrorType, Operation, SpiDevice};
use scope_ui::spi::SPIInterface;
use scope_ui::wire::{frame_chunks, to_be_bytes, to_le_bytes, DataFormat, DisplayError};

#[derive(Debug)]
struct BusFault;

impl Error for BusFault {
    fn kind(&self) -> ErrorKind {
        ErrorKind::Other
    }
}

/// Records every write; fails the write with index `fail_at`, and reads
/// when `fail_read`.
#[derive(Default)]
struct RecordingSpi {
    writes: Vec<Vec<u8>>,
    fail_at: Option<usize>,
    fail_read: bool,
}

impl ErrorType for RecordingSpi {
    type Error = BusFault;
}

impl SpiDevice for RecordingSpi {
    fn transaction(&mut self, operations: &mut [Operation<'_, u8>]) -> Result<(), BusFault> {
        for op in operations.iter_mut() {
            match op {
                Operation::Write(buf) => {
                    let index = self.writes.len();
                    self.writes.push(buf.to_vec());
                    if self.fail_at == Some(index) {
                        return Err(BusFault);
                    }
                }
                Operation::Read(buf) => {
                    if self.fail_read {
                        return Err(BusFault);
                    }
                    buf.fill(0x5a);
                }
                _ => {}
            }
        }
        Ok(())
    }
}

#[derive(Debug)]
struct PinFault;

impl embedded_hal::digital::Error for PinFault {
    fn kind(&self) -> embedded_hal::digital::ErrorKind {
        embedded_hal::digital::ErrorKind::Other
    }
}

#[derive(Default)]
struct SelectPin {
    levels: Vec<bool>,
    fail: bool,
}

impl PinErrorType for SelectPin {
    type Error = PinFault;
}

impl OutputPin for SelectPin {
    fn set_low(&mut self) -> Result<(), PinFault> {
        self.levels.push(false);
        if self.fail { Err(PinFault) } else { Ok(()) }
    }

    fn set_high(&mut self) -> Result<(), PinFault> {
        self.levels.push(true);
        if self.fail { Err(PinFault) } else { Ok(()) }
    }
}

fn bytes(n: usize) -> Vec<u8> {
    (0..n).map(|i| i as u8).collect()
}

#[test]
fn iterator_payload_is_chunked() {
    let chunks = frame_chunks(&DataFormat::U8Iter(bytes(200)));
    let lens: Vec<usize> = chunks.iter().map(|c| c.len()).collect();
    assert_eq!(lens, vec![64, 64, 64, 8]);
    assert_eq!(chunks.concat(), bytes(200));
}

#[test]
fn iterator_payload_makes_four_bus_writes() {
    let mut iface = SPIInterface::new(RecordingSpi::default(), SelectPin::default());
    iface.transfer(true, DataFormat::U8Iter(bytes(200))).unwrap();
    let (spi, dc) = iface.release();
    let lens: Vec<usize> = spi.writes.iter().map(|c| c.len()).collect();
    assert_eq!(lens, vec![64, 64, 64, 8]);
    assert_eq!(dc.levels, vec![true]);
}

#[test]
fn word_producer_chunks_of_sixty_four_words() {
    let words: Vec<u16> = (0..100).collect();
    let chunks = frame_chunks(&DataFormat::U16BEIter(words));
    let lens: Vec<usize> = chunks.iter().map(|c| c.len()).collect();
    assert_eq!(lens, vec![128, 72]);
    assert_eq!(&chunks[0][..4], &[0, 0, 0, 1]);
}

#[test]
fn slices_go_in_one_write() {
    assert_eq!(frame_chunks(&DataFormat::U8(bytes(300))).len(), 1);
    assert_eq!(frame_chunks(&DataFormat::U8(Vec::new())), vec![Vec::<u8>::new()]);
    assert!(frame_chunks(&DataFormat::U8Iter(Vec::new())).is_empty());
}

#[test]
fn byte_orders() {
    assert_eq!(frame_chunks(&DataFormat::U16BE(vec![0x1234, 0xabcd])), vec![vec![0x12, 0x34, 0xab, 0xcd]]);
    assert_eq!(frame_chunks(&DataFormat::U16LE(vec![0x1234, 0xabcd])), vec![vec![0x34, 0x12, 0xcd, 0xab]]);
    assert_eq!(frame_chunks(&DataFormat::U16LEIter(vec![0x0102])), vec![vec![0x02, 0x01]]);
    assert_eq!(to_be_bytes(&[0xbeef]), vec![0xbe, 0xef]);
    assert_eq!(to_le_bytes(&[0xbeef]), vec![0xef, 0xbe]);
}

#[test]
fn host_order_words() {
    let chunks = frame_chunks(&DataFormat::U16(vec![0x0102, 0x0304]));
    assert_eq!(chunks.len(), 1);
    assert!(chunks[0] == vec![0x02, 0x01, 0x04, 0x03] || chunks[0] == vec![0x01, 0x02, 0x03, 0x04]);
    assert_eq!(chunks[0], [0x0102u16.to_ne_bytes(), 0x0304u16.to_ne_bytes()].concat());
}

#[test]
fn command_drives_select_low() {
    let mut iface = SPIInterface::new(RecordingSpi::default(), SelectPin::default());
    iface.transfer(false, DataFormat::U8(vec![0x2c])).unwrap();
    let (spi, dc) = iface.release();
    assert_eq!(spi.writes, vec![vec![0x2c]]);
    assert_eq!(dc.levels, vec![false]);
}

#[test]
fn select_line_failure() {
    let dc = SelectPin { fail: true, ..SelectPin::default() };
    let mut iface = SPIInterface::new(RecordingSpi::default(), dc);
    let r = iface.transfer(true, DataFormat::U8(vec![1, 2]));
    assert!(matches!(r, Err(DisplayError::DCError)));
    let (spi, _) = iface.release();
    assert!(spi.writes.is_empty());
}

#[test]
fn write_failure_stops_remaining_chunks() {
    let spi = RecordingSpi { fail_at: Some(1), ..RecordingSpi::default() };
    let mut iface = SPIInterface::new(spi, SelectPin::default());
    let r = iface.transfer(true, DataFormat::U8Iter(bytes(200)));
    assert!(matches!(r, Err(DisplayError::BusWriteError)));
    let (spi, _) = iface.release();
    assert_eq!(spi.writes.len(), 2);
}

#[test]
fn read_back() {
    let mut iface = SPIInterface::new(RecordingSpi::default(), SelectPin::default());
    let mut buf = [0u8; 3];
    iface.fetch(DataFormat::U8(vec![0x09]), &mut buf).unwrap();
    assert_eq!(buf, [0x5a; 3]);
    let (spi, dc) = iface.release();
    assert_eq!(spi.writes, vec![vec![0x09]]);
    assert_eq!(dc.levels, vec![false, true]);
}

#[test]
fn read_failure() {
    let spi = RecordingSpi { fail_read: true, ..RecordingSpi::default() };
    let mut iface = SPIInterface::new(spi, SelectPin::default());
    let mut buf = [0u8; 2];
    let r = iface.fetch(DataFormat::U8(vec![0x09]), &mut buf);
    assert!(matches!(r, Err(DisplayError::BusReadError)));
}
