use core::cell::RefCell;
use std::rc::Rc;

use embedded_hal::delay::DelayNs;
use embedded_hal::digital::{Error, ErrorKind, ErrorType, OutputPin};
use scope_ui::ili9341::{
    DisplaySize, FrameRate, FrameRateClockDivision, Ili9341, ModeState, Orientation,
};
use scope_ui::simulated::SimulatedDisplay;
use scope_ui::wire::{DataFormat, DisplayError, ReadWriteDataCommand};

/// Dummy display size for testing
struct DummySize;

impl DisplaySize for DummySize {
    const WIDTH: usize = 2;
    const HEIGHT: usize = 2;
}

struct WideSize;

impl DisplaySize for WideSize {
    const WIDTH: usize = 4;
    const HEIGHT: usize = 3;
}

/// Mock implementation of Delay
struct DummyDelay;
impl DelayNs for DummyDelay {
    fn delay_ns(&mut self, _ns: u32) {}
    fn delay_us(&mut self, _us: u32) {}
    fn delay_ms(&mut self, _ms: u32) {}
}

/// Simple mock reset pin
#[derive(Default)]
struct DummyPin {
    pub set_low_called: bool,
    pub set_high_called: bool,
    pub fail: bool,
}

#[derive(Debug)]
struct DummyError;

impl Error for DummyError {
    fn kind(&self) -> ErrorKind {
        return ErrorKind::Other;
    }
}

impl ErrorType for DummyPin {
    type Error = DummyError;
}

impl OutputPin for DummyPin {
    fn set_low(&mut self) -> Result<(), Self::Error> {
        self.set_low_called = true;
        if self.fail {
            Err(DummyError)
        } else {
            Ok(())
        }
    }

    fn set_high(&mut self) -> Result<(), Self::Error> {
        self.set_high_called = true;
        Ok(())
    }
}

/// Records sent commands and data
#[derive(Default)]
struct DummyInterface {
    pub commands: RefCell<Vec<u8>>,
    pub data: RefCell<Vec<u8>>,
}

impl ReadWriteDataCommand for DummyInterface {
    fn send_commands(&mut self, data: DataFormat) -> Result<(), DisplayError> {
        if let DataFormat::U8(slice) = data {
            self.commands.borrow_mut().extend_from_slice(&slice);
        }
        Ok(())
    }

    fn send_data(&mut self, data: DataFormat) -> Result<(), DisplayError> {
        match data {
            DataFormat::U8(slice) => self.data.borrow_mut().extend_from_slice(&slice),
            DataFormat::U16(slice) => {
                for val in slice {
                    self.data.borrow_mut().extend_from_slice(&val.to_be_bytes());
                }
            }
            DataFormat::U16BEIter(iter) => {
                for val in iter {
                    self.data.borrow_mut().extend_from_slice(&val.to_be_bytes());
                }
            }
            _ => return Err(DisplayError::DataFormatNotImplemented),
        }
        Ok(())
    }

    fn read_data(&mut self, _cmd: DataFormat, buf: &mut [u8]) -> Result<(), DisplayError> {
        buf.fill(0xAB); // dummy value
        Ok(())
    }
}

/// Shared handle on a recording interface, so a test can look at what the
/// driver sent.
struct SharedIface(Rc<RefCell<DummyInterface>>);

impl ReadWriteDataCommand for SharedIface {
    fn send_commands(&mut self, data: DataFormat) -> Result<(), DisplayError> {
        self.0.borrow_mut().send_commands(data)
    }

    fn send_data(&mut self, data: DataFormat) -> Result<(), DisplayError> {
        self.0.borrow_mut().send_data(data)
    }

    fn read_data(&mut self, cmd: DataFormat, buffer: &mut [u8]) -> Result<(), DisplayError> {
        self.0.borrow_mut().read_data(cmd, buffer)
    }
}

/// A panel controller model: window registers, write cursor, pixel memory.
struct Panel {
    width: usize,
    mem: Vec<u16>,
    mode: u8,
    window: [u16; 4],
    cursor: usize,
    transfers: usize,
    fail_data: bool,
}

impl Panel {
    fn new(width: usize, height: usize) -> Self {
        Panel {
            width,
            mem: vec![0xdead; width * height],
            mode: 0,
            window: [0; 4],
            cursor: 0,
            transfers: 0,
            fail_data: false,
        }
    }

    fn put(&mut self, word: u16) {
        let [x0, x1, y0, y1] = self.window;
        let ww = (x1 - x0 + 1) as usize;
        let x = x0 as usize + self.cursor % ww;
        let y = y0 as usize + self.cursor / ww;
        if y <= y1 as usize {
            self.mem[y * self.width + x] = word;
        }
        self.cursor += 1;
    }
}

struct SharedPanel(Rc<RefCell<Panel>>);

impl ReadWriteDataCommand for SharedPanel {
    fn send_commands(&mut self, data: DataFormat) -> Result<(), DisplayError> {
        let mut p = self.0.borrow_mut();
        p.transfers += 1;
        if let DataFormat::U8(b) = data {
            p.mode = b[0];
            p.cursor = 0;
        }
        Ok(())
    }

    fn send_data(&mut self, data: DataFormat) -> Result<(), DisplayError> {
        let mut p = self.0.borrow_mut();
        p.transfers += 1;
        if p.fail_data {
            return Err(DisplayError::BusWriteError);
        }
        match (p.mode, data) {
            (0x2a, DataFormat::U8(b)) => {
                p.window[0] = u16::from_be_bytes([b[0], b[1]]);
                p.window[1] = u16::from_be_bytes([b[2], b[3]]);
            }
            (0x2b, DataFormat::U8(b)) => {
                p.window[2] = u16::from_be_bytes([b[0], b[1]]);
                p.window[3] = u16::from_be_bytes([b[2], b[3]]);
            }
            (0x2c, DataFormat::U16BEIter(words)) | (0x2c, DataFormat::U16BE(words)) => {
                for w in words {
                    p.put(w);
                }
            }
            _ => {}
        }
        Ok(())
    }

    fn read_data(&mut self, _cmd: DataFormat, buf: &mut [u8]) -> Result<(), DisplayError> {
        buf.fill(0);
        Ok(())
    }
}

fn panel_display(
    width: usize,
    height: usize,
) -> (Rc<RefCell<Panel>>, Ili9341<SharedPanel, DummyPin>) {
    let panel = Rc::new(RefCell::new(Panel::new(width, height)));
    let mut delay = DummyDelay;
    let display = Ili9341::new(SharedPanel(panel.clone()), DummyPin::default(), &mut delay, WideSize).unwrap();
    (panel, display)
}

#[test]
fn test_initialization() {
    let iface = DummyInterface::default();
    let reset = DummyPin::default();
    let mut delay = DummyDelay;

    let display = Ili9341::new(iface, reset, &mut delay, DummySize);

    assert!(display.is_ok());

    let display = display.unwrap();
    assert_eq!(display.width(), 2);
    assert_eq!(display.height(), 2);
}

#[test]
fn test_clear_screen() {
    let iface = Rc::new(RefCell::new(DummyInterface::default()));
    let reset = DummyPin::default();
    let mut delay = DummyDelay;

    let mut display = Ili9341::new(SharedIface(iface.clone()), reset, &mut delay, DummySize).unwrap();

    display.clear_screen(0x1234).unwrap();

    let binding = iface.borrow();
    let data = binding.data.borrow();

    let expected_bytes = vec![0x12, 0x34, 0x12, 0x34, 0x12, 0x34, 0x12, 0x34];
    assert_eq!(&data[data.len() - 8..], &expected_bytes[..]);
}

#[test]
fn init_sequence_is_in_order() {
    let iface = Rc::new(RefCell::new(DummyInterface::default()));
    let mut delay = DummyDelay;
    let _display = Ili9341::new(SharedIface(iface.clone()), DummyPin::default(), &mut delay, DummySize).unwrap();
    let binding = iface.borrow();
    assert_eq!(&binding.commands.borrow()[..], &[0x01, 0x36, 0x3a, 0x11, 0x29]);
    assert_eq!(&binding.data.borrow()[..], &[0xe8, 0x55]);
}

#[test]
fn reset_pin_failure_is_reported() {
    let iface = DummyInterface::default();
    let reset = DummyPin { fail: true, ..DummyPin::default() };
    let mut delay = DummyDelay;
    let display = Ili9341::new(iface, reset, &mut delay, DummySize);
    assert!(matches!(display, Err(DisplayError::RSError)));
}

#[test]
fn write_pixel_out_of_bounds() {
    let (panel, mut display) = panel_display(4, 3);
    let before = panel.borrow().transfers;
    assert!(matches!(display.write_pixel(4, 0, 0xffff), Err(DisplayError::OutOfBoundsError)));
    assert!(matches!(display.write_pixel(0, 3, 0xffff), Err(DisplayError::OutOfBoundsError)));
    // nothing changed, so nothing is sent
    display.flush().unwrap();
    assert_eq!(panel.borrow().transfers, before);
}

#[test]
fn flush_sends_dirty_rectangle_only() {
    let (panel, mut display) = panel_display(4, 3);
    display.clear_screen(0).unwrap();
    display.write_pixel(1, 0, 0x0f0f).unwrap();
    display.write_pixel(2, 2, 0xf0f0).unwrap();
    let before = panel.borrow().transfers;
    display.flush().unwrap();
    let p = panel.borrow();
    assert_eq!(p.window, [1, 2, 0, 2]);
    // column range, page range, memory write: 3 commands and 3 data payloads
    assert_eq!(p.transfers - before, 6);
    assert_eq!(p.cursor, 6);
    assert_eq!(p.mem[1], 0x0f0f);
    assert_eq!(p.mem[2 * 4 + 2], 0xf0f0);
    assert_eq!(p.mem[0], 0);
}

#[test]
fn second_flush_sends_nothing() {
    let (panel, mut display) = panel_display(4, 3);
    display.write_pixel(3, 2, 7).unwrap();
    display.flush().unwrap();
    let after_first = panel.borrow().transfers;
    display.flush().unwrap();
    assert_eq!(panel.borrow().transfers, after_first);
}

#[test]
fn clear_then_flush_round_trip() {
    let (panel, mut display) = panel_display(4, 3);
    display.clear_screen(0x07e0).unwrap();
    display.flush().unwrap();
    assert!(panel.borrow().mem.iter().all(|&c| c == 0x07e0));
}

#[test]
fn clear_and_flush_paints_panel() {
    let (panel, mut display) = panel_display(4, 3);
    display.clear_screen(0).unwrap();
    display.clear(0x001f);
    display.flush().unwrap();
    assert!(panel.borrow().mem.iter().all(|&c| c == 0x001f));
}

#[test]
fn failed_flush_is_retried() {
    let (panel, mut display) = panel_display(4, 3);
    display.clear_screen(0).unwrap();
    display.write_pixel(0, 0, 5).unwrap();
    panel.borrow_mut().fail_data = true;
    assert!(matches!(display.flush(), Err(DisplayError::BusWriteError)));
    panel.borrow_mut().fail_data = false;
    display.flush().unwrap();
    assert_eq!(panel.borrow().mem[0], 5);
    assert_eq!(panel.borrow().window, [0, 0, 0, 0]);
}

#[test]
fn orientation_swaps_dimensions() {
    let (panel, mut display) = panel_display(4, 3);
    display.set_orientation(Orientation::Portrait).unwrap();
    assert_eq!((display.width(), display.height()), (3, 4));
    assert_eq!(panel.borrow().mode, 0x36);
    display.set_orientation(Orientation::PortraitFlipped).unwrap();
    assert_eq!((display.width(), display.height()), (3, 4));
    display.set_orientation(Orientation::Landscape).unwrap();
    assert_eq!((display.width(), display.height()), (4, 3));
}

#[test]
fn mode_commands_send_opcodes() {
    let iface = Rc::new(RefCell::new(DummyInterface::default()));
    let mut delay = DummyDelay;
    let mut display = Ili9341::new(SharedIface(iface.clone()), DummyPin::default(), &mut delay, DummySize).unwrap();
    iface.borrow().commands.borrow_mut().clear();
    iface.borrow().data.borrow_mut().clear();
    display.sleep_mode(ModeState::On).unwrap();
    display.display_mode(ModeState::Off).unwrap();
    display.invert_mode(ModeState::On).unwrap();
    display.idle_mode(ModeState::Off).unwrap();
    display.brightness(0x7f).unwrap();
    display
        .normal_mode_frame_rate(FrameRateClockDivision::FoscDiv2, FrameRate::FrameRate70)
        .unwrap();
    let binding = iface.borrow();
    assert_eq!(&binding.commands.borrow()[..], &[0x10, 0x28, 0x21, 0x38, 0x51, 0xb1]);
    assert_eq!(&binding.data.borrow()[..], &[0x7f, 0x01, 0x1b]);
}

#[test]
fn status_reads_five_bytes() {
    let iface = DummyInterface::default();
    let mut delay = DummyDelay;
    let mut display = Ili9341::new(iface, DummyPin::default(), &mut delay, DummySize).unwrap();
    assert_eq!(display.status().unwrap(), [0xAB; 5]);
}

#[test]
fn draw_pixels_iter_sets_window_big_endian() {
    let iface = Rc::new(RefCell::new(DummyInterface::default()));
    let mut delay = DummyDelay;
    let mut display = Ili9341::new(SharedIface(iface.clone()), DummyPin::default(), &mut delay, DummySize).unwrap();
    iface.borrow().data.borrow_mut().clear();
    display.draw_pixels_iter(0x0102, 3, 0x0104, 3, vec![0xabcd, 0x1234]).unwrap();
    let binding = iface.borrow();
    assert_eq!(
        &binding.data.borrow()[..],
        &[0x01, 0x02, 0x01, 0x04, 0x00, 0x03, 0x00, 0x03, 0xab, 0xcd, 0x12, 0x34]
    );
}

#[test]
fn vertical_scroll_wraps_below_top_area() {
    let iface = Rc::new(RefCell::new(DummyInterface::default()));
    let mut delay = DummyDelay;
    let mut display = Ili9341::new(SharedIface(iface.clone()), DummyPin::default(), &mut delay, WideSize).unwrap();
    iface.borrow().data.borrow_mut().clear();
    // landscape: the scrolling direction runs along the 4-pixel side
    let mut scroller = display.configure_vertical_scroll(1, 1).unwrap();
    assert_eq!(scroller.top_offset(), 1);
    assert_eq!(&iface.borrow().data.borrow()[..], &[0, 1, 0, 2, 0, 1]);
    display.scroll_vertically(&mut scroller, 1).unwrap();
    assert_eq!(scroller.top_offset(), 2);
    display.scroll_vertically(&mut scroller, 2).unwrap();
    assert_eq!(scroller.top_offset(), 2);
}

fn simulated(width: usize, height: usize) -> Ili9341<SimulatedDisplay, DummyPin> {
    let mut delay = DummyDelay;
    let panel = SimulatedDisplay::build(width, height);
    Ili9341::new(panel, DummyPin::default(), &mut delay, WideSize).unwrap()
}

fn panel_pixels(display: &Ili9341<SimulatedDisplay, DummyPin>) -> Vec<u16> {
    let panel = display.interface();
    let mut out = Vec::new();
    for y in 0..3 {
        for x in 0..4 {
            out.push(panel.pixel(x, y).unwrap());
        }
    }
    out
}

#[test]
fn simulated_panel_clear_screen_round_trip() {
    let mut display = simulated(4, 3);
    display.clear_screen(0xf800).unwrap();
    display.flush().unwrap();
    assert_eq!(panel_pixels(&display), vec![0xf800; 12]);
}

#[test]
fn simulated_panel_follows_flushes() {
    let mut display = simulated(4, 3);
    display.write_pixel(3, 2, 0x1234).unwrap();
    display.write_pixel(0, 1, 0x5678).unwrap();
    display.flush().unwrap();
    let mut expected = vec![0u16; 12];
    expected[2 * 4 + 3] = 0x1234;
    expected[4] = 0x5678;
    assert_eq!(panel_pixels(&display), expected);
    display.write_pixel(1, 1, 0x0001).unwrap();
    display.flush().unwrap();
    expected[5] = 0x0001;
    assert_eq!(panel_pixels(&display), expected);
    assert_eq!(display.interface().pixel(4, 0), None);
}

#[test]
fn simulated_panel_reads_byte_and_little_endian_pixels() {
    let mut panel = SimulatedDisplay::build(2, 1);
    panel.send_commands(DataFormat::U8(vec![0x2a])).unwrap();
    panel.send_data(DataFormat::U8(vec![0, 0, 0, 1])).unwrap();
    panel.send_commands(DataFormat::U8(vec![0x2b])).unwrap();
    panel.send_data(DataFormat::U8(vec![0, 0, 0, 0])).unwrap();
    panel.send_commands(DataFormat::U8(vec![0x2c])).unwrap();
    panel.send_data(DataFormat::U8(vec![0x12, 0x34])).unwrap();
    panel.send_data(DataFormat::U16LE(vec![0x5678])).unwrap();
    assert_eq!(panel.pixel(0, 0), Some(0x1234));
    assert_eq!(panel.pixel(1, 0), Some(0x7856));
}

#[test]
fn simulated_panel_has_no_status() {
    let mut display = simulated(4, 3);
    assert!(matches!(display.status(), Err(DisplayError::DataFormatNotImplemented)));
}
