//! Driver for ILI9341 panels: initialisation, window and pixel commands, and
//! the dirty-rectangle flush of a local framebuffer.
use vstd::prelude::*;
use embedded_hal::delay::DelayNs;
use embedded_hal::digital::OutputPin;
use crate::framebuffer::{
    dirty_box, full_window, is_dirty_box, lemma_dirty_box_is_smallest, window_pixels,
    window_seq, buffers_ok, Window,
};
use crate::spi::drive_line;
use crate::wire::{DataFormat, DisplayError, Payload, ReadWriteDataCommand};

verus! {

pub const SOFTWARE_RESET: u8 = 0x01;
pub const STATUS_INFO: u8 = 0x09;
pub const SLEEP_MODE_ON: u8 = 0x10;
pub const SLEEP_MODE_OFF: u8 = 0x11;
pub const INVERT_OFF: u8 = 0x20;
pub const INVERT_ON: u8 = 0x21;
pub const DISPLAY_OFF: u8 = 0x28;
pub const DISPLAY_ON: u8 = 0x29;
pub const COLUMN_ADDRESS_SET: u8 = 0x2a;
pub const PAGE_ADDRESS_SET: u8 = 0x2b;
pub const MEMORY_WRITE: u8 = 0x2c;
pub const VERTICAL_SCROLL_DEFINE: u8 = 0x33;
pub const MEMORY_ACCESS_CONTROL: u8 = 0x36;
pub const VERTICAL_SCROLL_ADDR: u8 = 0x37;
pub const IDLE_MODE_OFF: u8 = 0x38;
pub const IDLE_MODE_ON: u8 = 0x39;
pub const PIXEL_FORMAT_SET: u8 = 0x3a;
pub const SET_BRIGHTNESS: u8 = 0x51;
pub const CONTENT_ADAPTIVE_BRIGHTNESS: u8 = 0x55;
pub const NORMAL_MODE_FRAME_RATE: u8 = 0xb1;
pub const IDLE_MODE_FRAME_RATE: u8 = 0xb2;

/// Pixel format argument for 16 bits per pixel.
pub const PIXEL_FORMAT_16BPP: u8 = 0x55;

/// Resolution of a panel model.
pub trait DisplaySize {
    /// Width in pixels.
    const WIDTH: usize;
    /// Height in pixels.
    const HEIGHT: usize;
}

/// A 240x320 panel.
pub struct DisplaySize240x320;

impl DisplaySize for DisplaySize240x320 {
    const WIDTH: usize = 240;
    const HEIGHT: usize = 320;
}

/// A 320x240 panel.
pub struct DisplaySize320x240;

impl DisplaySize for DisplaySize320x240 {
    const WIDTH: usize = 320;
    const HEIGHT: usize = 240;
}

/// A 320x480 panel.
pub struct DisplaySize320x480;

impl DisplaySize for DisplaySize320x480 {
    const WIDTH: usize = 320;
    const HEIGHT: usize = 480;
}

/// On/off state of a display mode such as sleep or display power.
#[derive(Clone, Copy, Debug, PartialEq, Eq, Structural)]
pub enum ModeState {
    On,
    Off,
}

/// Memory access control setting of a panel orientation, and whether it is
/// a landscape one.
pub trait Mode {
    fn mode(&self) -> u8;

    fn is_landscape(&self) -> bool;
}

/// Panel orientations.
#[derive(Clone, Copy, Debug, PartialEq, Eq, Structural)]
pub enum Orientation {
    Portrait,
    PortraitFlipped,
    Landscape,
    LandscapeFlipped,
}

/// Memory access control flags (row/column exchange and mirroring, BGR
/// order) of an orientation.
pub open spec fn orientation_bits(o: Orientation) -> u8 {
    match o {
        Orientation::Portrait => 0x48,
        Orientation::Landscape => 0x28,
        Orientation::PortraitFlipped => 0x88,
        Orientation::LandscapeFlipped => 0xe8,
    }
}

/// Whether rows and columns are exchanged in an orientation.
pub open spec fn orientation_is_landscape(o: Orientation) -> bool {
    o is Landscape || o is LandscapeFlipped
}

impl Orientation {
    /// Memory access control flags of this orientation.
    pub fn bits(&self) -> (r: u8)
        ensures
            r == orientation_bits(*self),
    {
        match self {
            // column mirror, BGR
            Orientation::Portrait => 0x48,
            // row/column exchange, BGR
            Orientation::Landscape => 0x28,
            // row mirror, BGR
            Orientation::PortraitFlipped => 0x88,
            // row and column mirror, row/column exchange, BGR
            Orientation::LandscapeFlipped => 0xe8,
        }
    }

    /// Whether this orientation is a landscape one.
    pub fn landscape(&self) -> (r: bool)
        ensures
            r == orientation_is_landscape(*self),
    {
        match self {
            Orientation::Landscape | Orientation::LandscapeFlipped => true,
            Orientation::Portrait | Orientation::PortraitFlipped => false,
        }
    }
}

impl Mode for Orientation {
    fn mode(&self) -> u8 {
        self.bits()
    }

    fn is_landscape(&self) -> bool {
        self.landscape()
    }
}

/// Content adaptive brightness settings.
#[derive(Clone, Copy, Debug, PartialEq, Eq, Structural)]
pub enum AdaptiveBrightness {
    Off,
    UserInterfaceImage,
    StillPicture,
    MovingImage,
}

impl AdaptiveBrightness {
    /// Register value of this setting.
    pub fn value(&self) -> (r: u8)
        ensures
            r == adaptive_brightness_value(*self),
    {
        match self {
            AdaptiveBrightness::Off => 0x00,
            AdaptiveBrightness::UserInterfaceImage => 0x01,
            AdaptiveBrightness::StillPicture => 0x02,
            AdaptiveBrightness::MovingImage => 0x03,
        }
    }
}

pub open spec fn adaptive_brightness_value(a: AdaptiveBrightness) -> u8 {
    match a {
        AdaptiveBrightness::Off => 0x00,
        AdaptiveBrightness::UserInterfaceImage => 0x01,
        AdaptiveBrightness::StillPicture => 0x02,
        AdaptiveBrightness::MovingImage => 0x03,
    }
}

/// Frame rates, in Hz.
#[derive(Clone, Copy, Debug, PartialEq, Eq, Structural)]
pub enum FrameRate {
    FrameRate119,
    FrameRate112,
    FrameRate106,
    FrameRate100,
    FrameRate95,
    FrameRate90,
    FrameRate86,
    FrameRate83,
    FrameRate79,
    FrameRate76,
    FrameRate73,
    FrameRate70,
    FrameRate68,
    FrameRate65,
    FrameRate63,
    FrameRate61,
}

pub open spec fn frame_rate_value(f: FrameRate) -> u8 {
    match f {
        FrameRate::FrameRate119 => 0x10,
        FrameRate::FrameRate112 => 0x11,
        FrameRate::FrameRate106 => 0x12,
        FrameRate::FrameRate100 => 0x13,
        FrameRate::FrameRate95 => 0x14,
        FrameRate::FrameRate90 => 0x15,
        FrameRate::FrameRate86 => 0x16,
        FrameRate::FrameRate83 => 0x17,
        FrameRate::FrameRate79 => 0x18,
        FrameRate::FrameRate76 => 0x19,
        FrameRate::FrameRate73 => 0x1a,
        FrameRate::FrameRate70 => 0x1b,
        FrameRate::FrameRate68 => 0x1c,
        FrameRate::FrameRate65 => 0x1d,
        FrameRate::FrameRate63 => 0x1e,
        FrameRate::FrameRate61 => 0x1f,
    }
}

impl FrameRate {
    /// Register value of this frame rate.
    pub fn value(&self) -> (r: u8)
        ensures
            r == frame_rate_value(*self),
    {
        match self {
            FrameRate::FrameRate119 => 0x10,
            FrameRate::FrameRate112 => 0x11,
            FrameRate::FrameRate106 => 0x12,
            FrameRate::FrameRate100 => 0x13,
            FrameRate::FrameRate95 => 0x14,
            FrameRate::FrameRate90 => 0x15,
            FrameRate::FrameRate86 => 0x16,
            FrameRate::FrameRate83 => 0x17,
            FrameRate::FrameRate79 => 0x18,
            FrameRate::FrameRate76 => 0x19,
            FrameRate::FrameRate73 => 0x1a,
            FrameRate::FrameRate70 => 0x1b,
            FrameRate::FrameRate68 => 0x1c,
            FrameRate::FrameRate65 => 0x1d,
            FrameRate::FrameRate63 => 0x1e,
            FrameRate::FrameRate61 => 0x1f,
        }
    }
}

/// Frame rate clock division.
#[derive(Clone, Copy, Debug, PartialEq, Eq, Structural)]
pub enum FrameRateClockDivision {
    Fosc,
    FoscDiv2,
    FoscDiv4,
    FoscDiv8,
}

pub open spec fn clock_division_value(c: FrameRateClockDivision) -> u8 {
    match c {
        FrameRateClockDivision::Fosc => 0x00,
        FrameRateClockDivision::FoscDiv2 => 0x01,
        FrameRateClockDivision::FoscDiv4 => 0x02,
        FrameRateClockDivision::FoscDiv8 => 0x03,
    }
}

impl FrameRateClockDivision {
    /// Register value of this division.
    pub fn value(&self) -> (r: u8)
        ensures
            r == clock_division_value(*self),
    {
        match self {
            FrameRateClockDivision::Fosc => 0x00,
            FrameRateClockDivision::FoscDiv2 => 0x01,
            FrameRateClockDivision::FoscDiv4 => 0x02,
            FrameRateClockDivision::FoscDiv8 => 0x03,
        }
    }
}

/// A display that pushes its pending drawing to the panel.
pub trait Flushable {
    fn flush(&mut self) -> Result<(), DisplayError>;
}

/// One step the driver takes towards the panel, in order.
pub enum BusEvent {
    /// A command payload handed to the interface.
    Command(Payload),
    /// A data payload handed to the interface.
    Data(Payload),
    /// A read: the command payload and the number of bytes asked for.
    Read(Payload, nat),
    /// The reset line driven high (true) or low (false).
    ResetLevel(bool),
    /// A pause of this many milliseconds.
    DelayMs(u32),
}

/// The steps of a command with its arguments; arguments only when there
/// are some.
pub open spec fn command_events(cmd: u8, args: Seq<u8>) -> Seq<BusEvent> {
    if args.len() == 0 {
        seq![BusEvent::Command(Payload::U8(seq![cmd]))]
    } else {
        seq![BusEvent::Command(Payload::U8(seq![cmd])), BusEvent::Data(Payload::U8(args))]
    }
}

/// Big-endian start and end coordinates, as the range commands take them.
pub open spec fn pack(start: u16, end: u16) -> Seq<u8> {
    seq![(start >> 8u16) as u8, (start & 0xffu16) as u8, (end >> 8u16) as u8, (end & 0xffu16) as u8]
}

/// Column range, then page range, of a window.
pub open spec fn window_events(x0: u16, y0: u16, x1: u16, y1: u16) -> Seq<BusEvent> {
    command_events(COLUMN_ADDRESS_SET, pack(x0, x1)) + command_events(PAGE_ADDRESS_SET, pack(y0, y1))
}

/// A memory write of big-endian pixel words.
pub open spec fn pixel_events(pixels: Seq<u16>, slice: bool) -> Seq<BusEvent> {
    command_events(MEMORY_WRITE, seq![]) + seq![
        BusEvent::Data(
            if slice {
                Payload::U16BE(pixels)
            } else {
                Payload::U16BEIter(pixels)
            },
        ),
    ]
}

/// Retransmission of the pixels of `buf` inside `b`.
pub open spec fn window_plan(buf: Seq<u16>, w: nat, b: Window) -> Seq<BusEvent> {
    window_events(b.x0, b.y0, b.x1, b.y1) + pixel_events(window_seq(buf, w, b), false)
}

/// The dirty box of two differing buffers.
pub open spec fn dirty_window(sent: Seq<u16>, current: Seq<u16>, w: nat, h: nat) -> Window {
    choose|b: Window| is_dirty_box(sent, current, w, h, b)
}

/// What a flush sends: nothing when the buffers agree, else the dirty box of
/// `current`.
pub open spec fn flush_plan(sent: Seq<u16>, current: Seq<u16>, w: nat, h: nat) -> Seq<BusEvent> {
    if sent == current {
        seq![]
    } else {
        window_plan(current, w, dirty_window(sent, current, w, h))
    }
}

/// The steps of the initialisation, with the settle times the controller
/// asks for.
pub open spec fn init_plan() -> Seq<BusEvent> {
    seq![
        BusEvent::ResetLevel(false),
        BusEvent::DelayMs(1),
        BusEvent::ResetLevel(true),
        BusEvent::DelayMs(5),
    ] + command_events(SOFTWARE_RESET, seq![]) + seq![BusEvent::DelayMs(120)] + command_events(
        MEMORY_ACCESS_CONTROL,
        seq![orientation_bits(Orientation::LandscapeFlipped)],
    ) + command_events(PIXEL_FORMAT_SET, seq![PIXEL_FORMAT_16BPP]) + command_events(
        SLEEP_MODE_OFF,
        seq![],
    ) + seq![BusEvent::DelayMs(5)] + command_events(DISPLAY_ON, seq![])
}

/// `after` is `before` followed by all of `plan` when `ok`, and otherwise by
/// a non-empty prefix of it, whose last step is the one that failed.
pub open spec fn ran(before: Seq<BusEvent>, after: Seq<BusEvent>, plan: Seq<BusEvent>, ok: bool) -> bool {
    if ok {
        after == before + plan
    } else {
        exists|k: int| 0 < k <= plan.len() && after == before + plan.take(k)
    }
}

proof fn lemma_ran_then(
    a: Seq<BusEvent>,
    b: Seq<BusEvent>,
    c: Seq<BusEvent>,
    p: Seq<BusEvent>,
    q: Seq<BusEvent>,
    ok: bool,
)
    requires
        ran(a, b, p, true),
        ran(b, c, q, ok),
    ensures
        ran(a, c, p + q, ok),
{
    if !ok {
        let k = choose|k: int| 0 < k <= q.len() && c == b + q.take(k);
        assert((p + q).take(p.len() + k) =~= p + q.take(k));
        assert(c =~= a + (p + q).take(p.len() + k));
    } else {
        assert(c =~= a + (p + q));
    }
}

proof fn lemma_ran_stop(a: Seq<BusEvent>, b: Seq<BusEvent>, p: Seq<BusEvent>, q: Seq<BusEvent>)
    requires
        ran(a, b, p, false),
    ensures
        ran(a, b, p + q, false),
{
    let k = choose|k: int| 0 < k <= p.len() && b == a + p.take(k);
    assert((p + q).take(k) =~= p.take(k));
}

/// What the driver holds, as values.
pub struct DriverView {
    pub width: nat,
    pub height: nat,
    pub landscape: bool,
    /// The pixels last written to the panel.
    pub sent: Seq<u16>,
    /// The pixels drawn since.
    pub current: Seq<u16>,
    /// Every step taken towards the panel, in order.
    pub log: Seq<BusEvent>,
}

/// Relies on `embedded_hal::delay::DelayNs::delay_ms`: pauses for at least
/// `ms` milliseconds.
#[verifier::external_body]
fn pause_ms<D: DelayNs>(delay: &mut D, ms: u32) {
    delay.delay_ms(ms)
}

/// `n` pixels of one colour.
fn filled(color: u16, n: usize) -> (r: Vec<u16>)
    ensures
        r@ == Seq::new(n as nat, |_i: int| color),
{
    let mut v: Vec<u16> = Vec::with_capacity(n);
    while v.len() < n
        invariant
            v@.len() <= n,
            forall|k: int| 0 <= k < v@.len() ==> v@[k] == color,
        decreases n - v@.len(),
    {
        v.push(color);
    }
    assert(v@ =~= Seq::new(n as nat, |_i: int| color));
    v
}

/// Big-endian start and end coordinates.
fn pack_coords(start: u16, end: u16) -> (r: Vec<u8>)
    ensures
        r@ == pack(start, end),
{
    let r = vec![(start >> 8) as u8, (start & 0xff) as u8, (end >> 8) as u8, (end & 0xff) as u8];
    assert(r@ =~= pack(start, end));
    r
}

/// Driver for ILI9341-based panels, with a local framebuffer that `flush`
/// brings to the panel.
pub struct Ili9341<IFACE, RESET> {
    interface: IFACE,
    reset: RESET,
    width: usize,
    height: usize,
    landscape: bool,
    drawn_buffer: Vec<u16>,
    buffer: Vec<u16>,
    log: Ghost<Seq<BusEvent>>,
}

impl<IFACE, RESET> View for Ili9341<IFACE, RESET> {
    type V = DriverView;

    closed spec fn view(&self) -> DriverView {
        DriverView {
            width: self.width as nat,
            height: self.height as nat,
            landscape: self.landscape,
            sent: self.drawn_buffer@,
            current: self.buffer@,
            log: self.log@,
        }
    }
}

impl<IFACE, RESET> Ili9341<IFACE, RESET> {
    /// Both buffers hold one colour per pixel of the panel.
    pub closed spec fn wf(&self) -> bool {
        &&& buffers_ok(self.drawn_buffer@, self.buffer@, self.width as nat, self.height as nat)
        &&& self.width * self.height <= usize::MAX
    }

    /// Width in pixels in the current orientation.
    pub fn width(&self) -> (r: usize)
        ensures
            r == self@.width,
    {
        self.width
    }

    /// Height in pixels in the current orientation.
    pub fn height(&self) -> (r: usize)
        ensures
            r == self@.height,
    {
        self.height
    }

    /// The interface the panel is reached through.
    pub fn interface(&self) -> &IFACE {
        &self.interface
    }

    /// Whether `(x, y)` is a pixel of the panel.
    pub open spec fn contains(&self, x: u16, y: u16) -> bool {
        (x as nat) < self@.width && (y as nat) < self@.height
    }

    /// Index of pixel `(x, y)` in the buffers.
    pub open spec fn index(&self, x: u16, y: u16) -> int {
        y * self@.width + x
    }
}

/// Width, height, orientation and both buffers agree.
pub open spec fn same_frame(a: DriverView, b: DriverView) -> bool {
    &&& a.width == b.width
    &&& a.height == b.height
    &&& a.landscape == b.landscape
    &&& a.sent == b.sent
    &&& a.current == b.current
}

/// Two dirty boxes of the same buffers are the same window.
proof fn lemma_dirty_box_unique(sent: Seq<u16>, current: Seq<u16>, w: nat, h: nat, b: Window)
    requires
        buffers_ok(sent, current, w, h),
        is_dirty_box(sent, current, w, h, b),
    ensures
        dirty_window(sent, current, w, h) == b,
{
    let c = dirty_window(sent, current, w, h);
    lemma_dirty_box_is_smallest(sent, current, w, h, b, c);
    lemma_dirty_box_is_smallest(sent, current, w, h, c, b);
}

/// A flush right after a successful one sends nothing: the panel's copy is
/// then the framebuffer, and equal buffers have no dirty box.
pub proof fn lemma_second_flush_sends_nothing(current: Seq<u16>, w: nat, h: nat)
    ensures
        flush_plan(current, current, w, h) == Seq::<BusEvent>::empty(),
{
}

impl<IFACE: ReadWriteDataCommand, RESET> Ili9341<IFACE, RESET> {
    /// Sends a command byte, then its arguments when there are some.
    fn command(&mut self, cmd: u8, args: Vec<u8>) -> (r: Result<(), DisplayError>)
        requires
            old(self).wf(),
        ensures
            final(self).wf(),
            same_frame(old(self)@, final(self)@),
            ran(old(self)@.log, final(self)@.log, command_events(cmd, args@), r is Ok),
    {
        let ghost a = args@;
        let ghost plan = command_events(cmd, a);
        let code = vec![cmd];
        assert(code@ =~= seq![cmd]);
        let sent = self.interface.send_commands(DataFormat::U8(code));
        self.log = Ghost(self.log@.push(BusEvent::Command(Payload::U8(seq![cmd]))));
        if let Err(e) = sent {
            assert(plan.take(1) =~= seq![BusEvent::Command(Payload::U8(seq![cmd]))]);
            assert(self.log@ =~= old(self).log@ + plan.take(1));
            return Err(e);
        }
        if args.len() == 0 {
            assert(self.log@ =~= old(self).log@ + plan);
            return Ok(());
        }
        let r = self.interface.send_data(DataFormat::U8(args));
        self.log = Ghost(self.log@.push(BusEvent::Data(Payload::U8(a))));
        assert(plan.take(2) =~= plan);
        assert(self.log@ =~= old(self).log@ + plan.take(2));
        r
    }

    /// Sets the window that the next pixel data fills: column range, then
    /// page range, both inclusive.
    fn set_window(&mut self, x0: u16, y0: u16, x1: u16, y1: u16) -> (r: Result<(), DisplayError>)
        requires
            old(self).wf(),
        ensures
            final(self).wf(),
            same_frame(old(self)@, final(self)@),
            ran(old(self)@.log, final(self)@.log, window_events(x0, y0, x1, y1), r is Ok),
    {
        let r = self.command(COLUMN_ADDRESS_SET, pack_coords(x0, x1));
        if r.is_err() {
            proof {
                lemma_ran_stop(
                    old(self)@.log,
                    self@.log,
                    command_events(COLUMN_ADDRESS_SET, pack(x0, x1)),
                    command_events(PAGE_ADDRESS_SET, pack(y0, y1)),
                );
            }
            return r;
        }
        let ghost mid = self@.log;
        let r = self.command(PAGE_ADDRESS_SET, pack_coords(y0, y1));
        proof {
            lemma_ran_then(
                old(self)@.log,
                mid,
                self@.log,
                command_events(COLUMN_ADDRESS_SET, pack(x0, x1)),
                command_events(PAGE_ADDRESS_SET, pack(y0, y1)),
                r is Ok,
            );
        }
        r
    }

    /// Memory write, then `payload`, which is `last` as a value.
    fn write_memory(&mut self, payload: DataFormat, last: Ghost<Payload>) -> (r: Result<(), DisplayError>)
        requires
            old(self).wf(),
            payload@ == last@,
        ensures
            final(self).wf(),
            same_frame(old(self)@, final(self)@),
            ran(
                old(self)@.log,
                final(self)@.log,
                command_events(MEMORY_WRITE, seq![]) + seq![BusEvent::Data(last@)],
                r is Ok,
            ),
    {
        let none: Vec<u8> = Vec::new();
        assert(none@ =~= Seq::<u8>::empty());
        let r = self.command(MEMORY_WRITE, none);
        let ghost first = command_events(MEMORY_WRITE, seq![]);
        assert(first =~= command_events(MEMORY_WRITE, Seq::<u8>::empty()));
        if r.is_err() {
            proof {
                lemma_ran_stop(old(self)@.log, self@.log, first, seq![BusEvent::Data(last@)]);
            }
            return r;
        }
        let ghost mid = self@.log;
        let r = self.interface.send_data(payload);
        self.log = Ghost(self.log@.push(BusEvent::Data(last@)));
        proof {
            let q = seq![BusEvent::Data(last@)];
            assert(q.take(1) =~= q);
            assert(self@.log =~= mid + q);
            lemma_ran_then(old(self)@.log, mid, self@.log, first, q, r is Ok);
        }
        r
    }

    /// Memory write of pixel words, sent big-endian through the chunked
    /// producer shape.
    fn write_iter(&mut self, data: Vec<u16>) -> (r: Result<(), DisplayError>)
        requires
            old(self).wf(),
        ensures
            final(self).wf(),
            same_frame(old(self)@, final(self)@),
            ran(old(self)@.log, final(self)@.log, pixel_events(data@, false), r is Ok),
    {
        let ghost last = Payload::U16BEIter(data@);
        self.write_memory(DataFormat::U16BEIter(data), Ghost(last))
    }

    /// Memory write of pixel words, sent big-endian in one write.
    fn write_slice(&mut self, data: Vec<u16>) -> (r: Result<(), DisplayError>)
        requires
            old(self).wf(),
        ensures
            final(self).wf(),
            same_frame(old(self)@, final(self)@),
            ran(old(self)@.log, final(self)@.log, pixel_events(data@, true), r is Ok),
    {
        let ghost last = Payload::U16BE(data@);
        self.write_memory(DataFormat::U16BE(data), Ghost(last))
    }

    /// Sets the window, then writes pixel words into it.
    fn draw_window(&mut self, x0: u16, y0: u16, x1: u16, y1: u16, data: Vec<u16>, slice: bool) -> (r:
        Result<(), DisplayError>)
        requires
            old(self).wf(),
        ensures
            final(self).wf(),
            same_frame(old(self)@, final(self)@),
            ran(
                old(self)@.log,
                final(self)@.log,
                window_events(x0, y0, x1, y1) + pixel_events(data@, slice),
                r is Ok,
            ),
    {
        let ghost d = data@;
        let r = self.set_window(x0, y0, x1, y1);
        if r.is_err() {
            proof {
                lemma_ran_stop(old(self)@.log, self@.log, window_events(x0, y0, x1, y1), pixel_events(d, slice));
            }
            return r;
        }
        let ghost mid = self@.log;
        let r = if slice {
            self.write_slice(data)
        } else {
            self.write_iter(data)
        };
        proof {
            lemma_ran_then(old(self)@.log, mid, self@.log, window_events(x0, y0, x1, y1), pixel_events(d, slice), r is Ok);
        }
        r
    }

    /// Sends the pixels changed since the last successful flush: the
    /// smallest window holding every pixel where the framebuffer differs
    /// from what the panel was last sent, or nothing when they agree. On
    /// success the panel's copy becomes the framebuffer; on failure it is
    /// kept, so the next flush sends at least the same window.
    pub fn flush(&mut self) -> (r: Result<(), DisplayError>)
        requires
            old(self).wf(),
        ensures
            final(self).wf(),
            final(self)@.width == old(self)@.width,
            final(self)@.height == old(self)@.height,
            final(self)@.landscape == old(self)@.landscape,
            final(self)@.current == old(self)@.current,
            ran(
                old(self)@.log,
                final(self)@.log,
                flush_plan(old(self)@.sent, old(self)@.current, old(self)@.width, old(self)@.height),
                r is Ok,
            ),
            r is Ok ==> final(self)@.sent == old(self)@.current,
            r is Err ==> final(self)@.sent == old(self)@.sent,
            old(self)@.sent == old(self)@.current ==> r is Ok && *final(self) == *old(self),
    {
        match dirty_box(&self.drawn_buffer, &self.buffer, self.width, self.height) {
            None => {
                assert(self@.log =~= old(self)@.log + Seq::<BusEvent>::empty());
                Ok(())
            },
            Some(b) => {
                proof {
                    lemma_dirty_box_unique(
                        self.drawn_buffer@,
                        self.buffer@,
                        self.width as nat,
                        self.height as nat,
                        b,
                    );
                }
                let data = window_pixels(&self.buffer, self.width, self.height, b);
                let r = self.draw_window(b.x0, b.y0, b.x1, b.y1, data, false);
                if r.is_ok() {
                    self.drawn_buffer = self.buffer.clone();
                    assert(self.drawn_buffer@ =~= self.buffer@);
                }
                r
            },
        }
    }
}


/// Vertical scrolling state, obtained by configuring the panel for it.
pub struct Scroller {
    top_offset: u16,
    fixed_bottom_lines: u16,
    fixed_top_lines: u16,
    height: u16,
}

/// What a [`Scroller`] holds, as values.
pub struct ScrollerView {
    pub top_offset: nat,
    pub fixed_top_lines: nat,
    pub fixed_bottom_lines: nat,
    pub height: nat,
}

impl View for Scroller {
    type V = ScrollerView;

    closed spec fn view(&self) -> ScrollerView {
        ScrollerView {
            top_offset: self.top_offset as nat,
            fixed_top_lines: self.fixed_top_lines as nat,
            fixed_bottom_lines: self.fixed_bottom_lines as nat,
            height: self.height as nat,
        }
    }
}

/// The fixed areas fit on the panel.
pub open spec fn scroller_ok(v: ScrollerView) -> bool {
    v.fixed_top_lines + v.fixed_bottom_lines <= v.height <= 0xffff
}

/// First line shown in the scrolling area after moving it by `n` lines: past
/// the bottom fixed area it wraps around to just below the top one.
pub open spec fn next_offset(v: ScrollerView, n: nat) -> nat {
    let t = v.top_offset + n;
    if t > v.height - v.fixed_bottom_lines {
        (v.fixed_top_lines + (t - (v.height - v.fixed_bottom_lines))) as nat
    } else {
        t
    }
}

impl Scroller {
    fn new(fixed_top_lines: u16, fixed_bottom_lines: u16, height: u16) -> (r: Scroller)
        ensures
            r@ == (ScrollerView {
                top_offset: fixed_top_lines as nat,
                fixed_top_lines: fixed_top_lines as nat,
                fixed_bottom_lines: fixed_bottom_lines as nat,
                height: height as nat,
            }),
    {
        Scroller { top_offset: fixed_top_lines, fixed_top_lines, fixed_bottom_lines, height }
    }

    /// First line currently shown in the scrolling area.
    pub fn top_offset(&self) -> (r: u16)
        ensures
            r == self@.top_offset,
    {
        self.top_offset
    }
}

/// Big-endian bytes of one word.
fn word_bytes(v: u16) -> (r: Vec<u8>)
    ensures
        r@ == seq![(v >> 8u16) as u8, (v & 0xffu16) as u8],
{
    let r = vec![(v >> 8) as u8, (v & 0xff) as u8];
    assert(r@ =~= seq![(v >> 8u16) as u8, (v & 0xffu16) as u8]);
    r
}

/// Number of lines of the panel that scroll vertically, before the fixed
/// areas are taken out.
pub open spec fn scroll_span(v: DriverView) -> nat {
    if v.landscape {
        v.width
    } else {
        v.height
    }
}

/// Arguments of the vertical scroll definition: top fixed area, scrolling
/// area and bottom fixed area, each big-endian.
pub open spec fn scroll_define_args(top: u16, lines: u16, bottom: u16) -> Seq<u8> {
    seq![
        (top >> 8u16) as u8,
        (top & 0xffu16) as u8,
        (lines >> 8u16) as u8,
        (lines & 0xffu16) as u8,
        (bottom >> 8u16) as u8,
        (bottom & 0xffu16) as u8,
    ]
}

/// The opcode that turns a mode on or off.
pub open spec fn switch(mode: ModeState, on: u8, off: u8) -> u8 {
    if mode is On {
        on
    } else {
        off
    }
}

impl<IFACE: ReadWriteDataCommand, RESET> Ili9341<IFACE, RESET> {
    /// Fills the framebuffer with one colour; nothing is sent.
    pub fn clear(&mut self, color: u16)
        requires
            old(self).wf(),
        ensures
            final(self).wf(),
            final(self)@ == (DriverView {
                current: Seq::new(old(self)@.width * old(self)@.height, |_i: int| color),
                ..old(self)@
            }),
    {
        self.buffer = filled(color, self.width * self.height);
    }

    /// Fills the framebuffer with one colour and writes the whole panel with
    /// it. On success the panel's copy is the framebuffer.
    pub fn clear_screen(&mut self, color: u16) -> (r: Result<(), DisplayError>)
        requires
            old(self).wf(),
        ensures
            final(self).wf(),
            final(self)@.width == old(self)@.width,
            final(self)@.height == old(self)@.height,
            final(self)@.landscape == old(self)@.landscape,
            final(self)@.current == Seq::new(
                old(self)@.width * old(self)@.height,
                |_i: int| color,
            ),
            ran(
                old(self)@.log,
                final(self)@.log,
                window_plan(
                    final(self)@.current,
                    old(self)@.width,
                    full_window(old(self)@.width, old(self)@.height),
                ),
                r is Ok,
            ),
            r is Ok ==> final(self)@.sent == final(self)@.current,
            r is Err ==> final(self)@.sent == old(self)@.sent,
    {
        self.clear(color);
        let b = Window {
            x0: 0,
            y0: 0,
            x1: (self.width - 1) as u16,
            y1: (self.height - 1) as u16,
        };
        assert(b == full_window(self@.width, self@.height));
        let data = window_pixels(&self.buffer, self.width, self.height, b);
        let r = self.draw_window(b.x0, b.y0, b.x1, b.y1, data, false);
        if r.is_ok() {
            self.drawn_buffer = self.buffer.clone();
            assert(self.drawn_buffer@ =~= self.buffer@);
        }
        r
    }

    /// Sets pixel `(x, y)` of the framebuffer; an error, and no change, when
    /// it lies outside the panel.
    pub fn write_pixel(&mut self, x: u16, y: u16, data: u16) -> (r: Result<(), DisplayError>)
        requires
            old(self).wf(),
        ensures
            final(self).wf(),
            old(self).contains(x, y) ==> r is Ok && final(self)@ == (DriverView {
                current: old(self)@.current.update(old(self).index(x, y), data),
                ..old(self)@
            }),
            !old(self).contains(x, y) ==> r == Err::<(), DisplayError>(
                DisplayError::OutOfBoundsError,
            ) && final(self)@ == old(self)@,
    {
        let (xs, ys) = (x as usize, y as usize);
        if xs < self.width && ys < self.height {
            proof {
                assert(ys * self.width + xs < self.width * self.height) by (nonlinear_arith)
                    requires ys < self.height, xs < self.width;
            }
            self.buffer.set(ys * self.width + xs, data);
            Ok(())
        } else {
            Err(DisplayError::OutOfBoundsError)
        }
    }

    /// Sets pixel `(x, y)` of the framebuffer.
    pub fn set_pixel(&mut self, x: u16, y: u16, value: u16)
        requires
            old(self).wf(),
            old(self).contains(x, y),
        ensures
            final(self).wf(),
            final(self)@ == (DriverView {
                current: old(self)@.current.update(old(self).index(x, y), value),
                ..old(self)@
            }),
    {
        let r = self.write_pixel(x, y, value);
    }

    /// Draws the inclusive rectangle `(x0, y0)` to `(x1, y1)` directly on the
    /// panel from big-endian pixel words, sent in chunks.
    pub fn draw_pixels_iter(&mut self, x0: u16, y0: u16, x1: u16, y1: u16, data: Vec<u16>) -> (r:
        Result<(), DisplayError>)
        requires
            old(self).wf(),
        ensures
            final(self).wf(),
            same_frame(old(self)@, final(self)@),
            ran(
                old(self)@.log,
                final(self)@.log,
                window_events(x0, y0, x1, y1) + pixel_events(data@, false),
                r is Ok,
            ),
    {
        self.draw_window(x0, y0, x1, y1, data, false)
    }

    /// Draws the inclusive rectangle `(x0, y0)` to `(x1, y1)` directly on the
    /// panel from big-endian pixel words, sent in chunks.
    pub fn draw_raw_iter(&mut self, x0: u16, y0: u16, x1: u16, y1: u16, data: Vec<u16>) -> (r: Result<
        (),
        DisplayError,
    >)
        requires
            old(self).wf(),
        ensures
            final(self).wf(),
            same_frame(old(self)@, final(self)@),
            ran(
                old(self)@.log,
                final(self)@.log,
                window_events(x0, y0, x1, y1) + pixel_events(data@, false),
                r is Ok,
            ),
    {
        self.draw_window(x0, y0, x1, y1, data, false)
    }

    /// Draws the inclusive rectangle `(x0, y0)` to `(x1, y1)` directly on the
    /// panel from big-endian pixel words, sent in one write.
    pub fn draw_pixels_slice(&mut self, x0: u16, y0: u16, x1: u16, y1: u16, data: Vec<u16>) -> (r:
        Result<(), DisplayError>)
        requires
            old(self).wf(),
        ensures
            final(self).wf(),
            same_frame(old(self)@, final(self)@),
            ran(
                old(self)@.log,
                final(self)@.log,
                window_events(x0, y0, x1, y1) + pixel_events(data@, true),
                r is Ok,
            ),
    {
        self.draw_window(x0, y0, x1, y1, data, true)
    }

    /// Draws the inclusive rectangle `(x0, y0)` to `(x1, y1)` directly on the
    /// panel from big-endian pixel words, sent in one write.
    pub fn draw_raw_slice(&mut self, x0: u16, y0: u16, x1: u16, y1: u16, data: Vec<u16>) -> (r:
        Result<(), DisplayError>)
        requires
            old(self).wf(),
        ensures
            final(self).wf(),
            same_frame(old(self)@, final(self)@),
            ran(
                old(self)@.log,
                final(self)@.log,
                window_events(x0, y0, x1, y1) + pixel_events(data@, true),
                r is Ok,
            ),
    {
        self.draw_window(x0, y0, x1, y1, data, true)
    }

    /// Enters (`On`) or leaves (`Off`) sleep mode.
    pub fn sleep_mode(&mut self, mode: ModeState) -> (r: Result<(), DisplayError>)
        requires
            old(self).wf(),
        ensures
            final(self).wf(),
            same_frame(old(self)@, final(self)@),
            ran(
                old(self)@.log,
                final(self)@.log,
                command_events(switch(mode, SLEEP_MODE_ON, SLEEP_MODE_OFF), seq![]),
                r is Ok,
            ),
    {
        let args: Vec<u8> = Vec::new();
        assert(args@ =~= Seq::<u8>::empty());
        match mode {
            ModeState::On => self.command(SLEEP_MODE_ON, args),
            ModeState::Off => self.command(SLEEP_MODE_OFF, args),
        }
    }

    /// Turns the display output on or off.
    pub fn display_mode(&mut self, mode: ModeState) -> (r: Result<(), DisplayError>)
        requires
            old(self).wf(),
        ensures
            final(self).wf(),
            same_frame(old(self)@, final(self)@),
            ran(
                old(self)@.log,
                final(self)@.log,
                command_events(switch(mode, DISPLAY_ON, DISPLAY_OFF), seq![]),
                r is Ok,
            ),
    {
        let args: Vec<u8> = Vec::new();
        assert(args@ =~= Seq::<u8>::empty());
        match mode {
            ModeState::On => self.command(DISPLAY_ON, args),
            ModeState::Off => self.command(DISPLAY_OFF, args),
        }
    }

    /// Turns colour inversion on or off.
    pub fn invert_mode(&mut self, mode: ModeState) -> (r: Result<(), DisplayError>)
        requires
            old(self).wf(),
        ensures
            final(self).wf(),
            same_frame(old(self)@, final(self)@),
            ran(
                old(self)@.log,
                final(self)@.log,
                command_events(switch(mode, INVERT_ON, INVERT_OFF), seq![]),
                r is Ok,
            ),
    {
        let args: Vec<u8> = Vec::new();
        assert(args@ =~= Seq::<u8>::empty());
        match mode {
            ModeState::On => self.command(INVERT_ON, args),
            ModeState::Off => self.command(INVERT_OFF, args),
        }
    }

    /// Turns idle mode, which reduces the panel to 8 colours, on or off.
    pub fn idle_mode(&mut self, mode: ModeState) -> (r: Result<(), DisplayError>)
        requires
            old(self).wf(),
        ensures
            final(self).wf(),
            same_frame(old(self)@, final(self)@),
            ran(
                old(self)@.log,
                final(self)@.log,
                command_events(switch(mode, IDLE_MODE_ON, IDLE_MODE_OFF), seq![]),
                r is Ok,
            ),
    {
        let args: Vec<u8> = Vec::new();
        assert(args@ =~= Seq::<u8>::empty());
        match mode {
            ModeState::On => self.command(IDLE_MODE_ON, args),
            ModeState::Off => self.command(IDLE_MODE_OFF, args),
        }
    }

    /// Sets the display brightness, 0 to 255.
    pub fn brightness(&mut self, brightness: u8) -> (r: Result<(), DisplayError>)
        requires
            old(self).wf(),
        ensures
            final(self).wf(),
            same_frame(old(self)@, final(self)@),
            ran(old(self)@.log, final(self)@.log, command_events(SET_BRIGHTNESS, seq![brightness]), r is Ok),
    {
        let args = vec![brightness];
        assert(args@ =~= seq![brightness]);
        self.command(SET_BRIGHTNESS, args)
    }

    /// Sets content adaptive brightness.
    pub fn content_adaptive_brightness(&mut self, value: AdaptiveBrightness) -> (r: Result<(), DisplayError>)
        requires
            old(self).wf(),
        ensures
            final(self).wf(),
            same_frame(old(self)@, final(self)@),
            ran(
                old(self)@.log,
                final(self)@.log,
                command_events(CONTENT_ADAPTIVE_BRIGHTNESS, seq![adaptive_brightness_value(value)]),
                r is Ok,
            ),
    {
        let args = vec![value.value()];
        assert(args@ =~= seq![adaptive_brightness_value(value)]);
        self.command(CONTENT_ADAPTIVE_BRIGHTNESS, args)
    }

    /// Sets clock division and frame rate for normal mode.
    pub fn normal_mode_frame_rate(
        &mut self,
        clk_div: FrameRateClockDivision,
        frame_rate: FrameRate,
    ) -> (r: Result<(), DisplayError>)
        requires
            old(self).wf(),
        ensures
            final(self).wf(),
            same_frame(old(self)@, final(self)@),
            ran(
                old(self)@.log,
                final(self)@.log,
                command_events(
                    NORMAL_MODE_FRAME_RATE,
                    seq![clock_division_value(clk_div), frame_rate_value(frame_rate)],
                ),
                r is Ok,
            ),
    {
        let args = vec![clk_div.value(), frame_rate.value()];
        assert(args@ =~= seq![clock_division_value(clk_div), frame_rate_value(frame_rate)]);
        self.command(NORMAL_MODE_FRAME_RATE, args)
    }

    /// Sets clock division and frame rate for idle mode.
    pub fn idle_mode_frame_rate(
        &mut self,
        clk_div: FrameRateClockDivision,
        frame_rate: FrameRate,
    ) -> (r: Result<(), DisplayError>)
        requires
            old(self).wf(),
        ensures
            final(self).wf(),
            same_frame(old(self)@, final(self)@),
            ran(
                old(self)@.log,
                final(self)@.log,
                command_events(
                    IDLE_MODE_FRAME_RATE,
                    seq![clock_division_value(clk_div), frame_rate_value(frame_rate)],
                ),
                r is Ok,
            ),
    {
        let args = vec![clk_div.value(), frame_rate.value()];
        assert(args@ =~= seq![clock_division_value(clk_div), frame_rate_value(frame_rate)]);
        self.command(IDLE_MODE_FRAME_RATE, args)
    }

    /// Sends a read command, then fills `buf` with the controller's answer.
    fn read(&mut self, cmd: u8, buf: &mut [u8]) -> (r: Result<(), DisplayError>)
        requires
            old(self).wf(),
        ensures
            final(self).wf(),
            same_frame(old(self)@, final(self)@),
            final(self)@.log == old(self)@.log.push(
                BusEvent::Read(Payload::U8(seq![cmd]), old(buf)@.len()),
            ),
    {
        let ghost len = buf@.len();
        let code = vec![cmd];
        assert(code@ =~= seq![cmd]);
        let r = self.interface.read_data(DataFormat::U8(code), buf);
        self.log = Ghost(self.log@.push(BusEvent::Read(Payload::U8(seq![cmd]), len)));
        r
    }

    /// Reads the 5 bytes of display status information.
    pub fn status(&mut self) -> (r: Result<[u8; 5], DisplayError>)
        requires
            old(self).wf(),
        ensures
            final(self).wf(),
            same_frame(old(self)@, final(self)@),
            final(self)@.log == old(self)@.log.push(
                BusEvent::Read(Payload::U8(seq![STATUS_INFO]), 5),
            ),
    {
        let mut buf = [0u8; 5];
        let r = self.read(STATUS_INFO, &mut buf);
        match r {
            Ok(()) => Ok(buf),
            Err(e) => Err(e),
        }
    }

    /// Sets the orientation; width and height are exchanged when it changes
    /// between portrait and landscape.
    pub fn set_orientation(&mut self, mode: Orientation) -> (r: Result<(), DisplayError>)
        requires
            old(self).wf(),
        ensures
            final(self).wf(),
            ran(
                old(self)@.log,
                final(self)@.log,
                command_events(MEMORY_ACCESS_CONTROL, seq![orientation_bits(mode)]),
                r is Ok,
            ),
            final(self)@.sent == old(self)@.sent,
            final(self)@.current == old(self)@.current,
            r is Err ==> same_frame(old(self)@, final(self)@),
            r is Ok ==> final(self)@.landscape == orientation_is_landscape(mode),
            r is Ok && old(self)@.landscape == orientation_is_landscape(mode) ==> final(self)@.width
                == old(self)@.width && final(self)@.height == old(self)@.height,
            r is Ok && old(self)@.landscape != orientation_is_landscape(mode) ==> final(self)@.width
                == old(self)@.height && final(self)@.height == old(self)@.width,
    {
        let args = vec![mode.bits()];
        assert(args@ =~= seq![orientation_bits(mode)]);
        let r = self.command(MEMORY_ACCESS_CONTROL, args);
        if r.is_err() {
            return r;
        }
        let landscape = mode.landscape();
        if self.landscape != landscape {
            let w = self.width;
            self.width = self.height;
            self.height = w;
            assert(self.height * self.width == self.width * self.height) by (nonlinear_arith);
        }
        self.landscape = landscape;
        Ok(())
    }

    /// Configures hardware vertical scrolling with fixed areas of
    /// `fixed_top_lines` and `fixed_bottom_lines` lines.
    pub fn configure_vertical_scroll(&mut self, fixed_top_lines: u16, fixed_bottom_lines: u16) -> (r:
        Result<Scroller, DisplayError>)
        requires
            old(self).wf(),
            scroll_span(old(self)@) <= 0xffff,
            fixed_top_lines + fixed_bottom_lines <= scroll_span(old(self)@),
        ensures
            final(self).wf(),
            same_frame(old(self)@, final(self)@),
            ran(
                old(self)@.log,
                final(self)@.log,
                command_events(
                    VERTICAL_SCROLL_DEFINE,
                    scroll_define_args(
                        fixed_top_lines,
                        (scroll_span(old(self)@) - fixed_top_lines - fixed_bottom_lines) as u16,
                        fixed_bottom_lines,
                    ),
                ),
                r is Ok,
            ),
            r matches Ok(s) ==> scroller_ok(s@) && s@ == (ScrollerView {
                top_offset: fixed_top_lines as nat,
                fixed_top_lines: fixed_top_lines as nat,
                fixed_bottom_lines: fixed_bottom_lines as nat,
                height: scroll_span(old(self)@),
            }),
    {
        let height = if self.landscape {
            self.width
        } else {
            self.height
        } as u16;
        let scroll_lines = height - fixed_top_lines - fixed_bottom_lines;
        let args = vec![
            (fixed_top_lines >> 8) as u8,
            (fixed_top_lines & 0xff) as u8,
            (scroll_lines >> 8) as u8,
            (scroll_lines & 0xff) as u8,
            (fixed_bottom_lines >> 8) as u8,
            (fixed_bottom_lines & 0xff) as u8,
        ];
        assert(args@ =~= scroll_define_args(fixed_top_lines, scroll_lines, fixed_bottom_lines));
        self.command(VERTICAL_SCROLL_DEFINE, args)?;
        Ok(Scroller::new(fixed_top_lines, fixed_bottom_lines, height))
    }

    /// Moves the scrolling area by `num_lines` lines.
    pub fn scroll_vertically(&mut self, scroller: &mut Scroller, num_lines: u16) -> (r: Result<
        (),
        DisplayError,
    >)
        requires
            old(self).wf(),
            scroller_ok(old(scroller)@),
            old(scroller)@.top_offset + num_lines <= 0xffff,
        ensures
            final(self).wf(),
            same_frame(old(self)@, final(self)@),
            final(scroller)@ == (ScrollerView {
                top_offset: next_offset(old(scroller)@, num_lines as nat),
                ..old(scroller)@
            }),
            ran(
                old(self)@.log,
                final(self)@.log,
                command_events(
                    VERTICAL_SCROLL_ADDR,
                    seq![
                        (final(scroller)@.top_offset as u16 >> 8u16) as u8,
                        (final(scroller)@.top_offset as u16 & 0xffu16) as u8,
                    ],
                ),
                r is Ok,
            ),
    {
        scroller.top_offset = scroller.top_offset + num_lines;
        let bottom_start = scroller.height - scroller.fixed_bottom_lines;
        if scroller.top_offset > bottom_start {
            scroller.top_offset = scroller.fixed_top_lines + (scroller.top_offset - bottom_start);
        }
        let args = word_bytes(scroller.top_offset);
        self.command(VERTICAL_SCROLL_ADDR, args)
    }
}

impl<IFACE: ReadWriteDataCommand, RESET: OutputPin> Ili9341<IFACE, RESET> {
    /// Resets and initialises the panel: hardware reset, software reset,
    /// landscape orientation, 16 bits per pixel, sleep out, display on, with
    /// the settle time the controller needs after each step. Both buffers
    /// start black.
    pub fn new<DELAY: DelayNs, SIZE: DisplaySize>(
        interface: IFACE,
        reset: RESET,
        delay: &mut DELAY,
        _display_size: SIZE,
    ) -> (r: Result<Self, DisplayError>)
        requires
            0 < SIZE::WIDTH <= 0x10000,
            0 < SIZE::HEIGHT <= 0x10000,
            SIZE::WIDTH * SIZE::HEIGHT <= usize::MAX,
        ensures
            r matches Ok(d) ==> {
                &&& d.wf()
                &&& d@.width == SIZE::WIDTH
                &&& d@.height == SIZE::HEIGHT
                &&& d@.landscape
                &&& d@.sent == Seq::new((SIZE::WIDTH * SIZE::HEIGHT) as nat, |_i: int| 0u16)
                &&& d@.current == d@.sent
                &&& d@.log == init_plan()
            },
    {
        let n = SIZE::WIDTH * SIZE::HEIGHT;
        let mut ili9341 = Ili9341 {
            interface,
            reset,
            width: SIZE::WIDTH,
            height: SIZE::HEIGHT,
            landscape: true,
            drawn_buffer: filled(0, n),
            buffer: filled(0, n),
            log: Ghost(Seq::empty()),
        };
        let ghost zeros = ili9341.buffer@;
        // hardware reset: low for at least 10us, then high
        let low = drive_line(&mut ili9341.reset, false);
        ili9341.log = Ghost(ili9341.log@.push(BusEvent::ResetLevel(false)));
        if !low {
            return Err(DisplayError::RSError);
        }
        pause_ms(delay, 1);
        ili9341.log = Ghost(ili9341.log@.push(BusEvent::DelayMs(1)));
        let high = drive_line(&mut ili9341.reset, true);
        ili9341.log = Ghost(ili9341.log@.push(BusEvent::ResetLevel(true)));
        if !high {
            return Err(DisplayError::RSError);
        }
        pause_ms(delay, 5);
        ili9341.log = Ghost(ili9341.log@.push(BusEvent::DelayMs(5)));
        let ghost l1 = ili9341.log@;
        let none: Vec<u8> = Vec::new();
        assert(none@ =~= Seq::<u8>::empty());
        ili9341.command(SOFTWARE_RESET, none)?;
        // the controller needs 120ms after a software reset before sleep out
        pause_ms(delay, 120);
        ili9341.log = Ghost(ili9341.log@.push(BusEvent::DelayMs(120)));
        let ghost l2 = ili9341.log@;
        let madctl = vec![Orientation::LandscapeFlipped.bits()];
        assert(madctl@ =~= seq![orientation_bits(Orientation::LandscapeFlipped)]);
        ili9341.command(MEMORY_ACCESS_CONTROL, madctl)?;
        let ghost l3 = ili9341.log@;
        let format = vec![PIXEL_FORMAT_16BPP];
        assert(format@ =~= seq![PIXEL_FORMAT_16BPP]);
        ili9341.command(PIXEL_FORMAT_SET, format)?;
        let ghost l4 = ili9341.log@;
        ili9341.sleep_mode(ModeState::Off)?;
        // 5ms after sleep out before the next command
        pause_ms(delay, 5);
        ili9341.log = Ghost(ili9341.log@.push(BusEvent::DelayMs(5)));
        let ghost l5 = ili9341.log@;
        ili9341.display_mode(ModeState::On)?;
        proof {
            assert(ili9341.log@ =~= init_plan());
            assert(zeros =~= Seq::new((SIZE::WIDTH * SIZE::HEIGHT) as nat, |_i: int| 0u16));
        }
        Ok(ili9341)
    }
}

impl<IFACE: ReadWriteDataCommand, RESET> Flushable for Ili9341<IFACE, RESET> {
    fn flush(&mut self) -> Result<(), DisplayError> {
        if self.check_buffers() {
            Ili9341::flush(self)
        } else {
            Err(DisplayError::InvalidFormatError)
        }
    }
}

impl<IFACE, RESET> Ili9341<IFACE, RESET> {
    /// Whether both buffers hold one colour per pixel of the panel.
    fn check_buffers(&self) -> (r: bool)
        ensures
            r == self.wf(),
    {
        if self.width == 0 || self.width > 0x10000 || self.height == 0 || self.height > 0x10000 {
            return false;
        }
        if self.width > usize::MAX / self.height {
            proof {
                let q = usize::MAX as int / (self.height as int);
                vstd::arithmetic::div_mod::lemma_fundamental_div_mod(usize::MAX as int, self.height as int);
                vstd::arithmetic::div_mod::lemma_mod_bound(usize::MAX as int, self.height as int);
                assert(self.width * self.height > usize::MAX) by (nonlinear_arith)
                    requires
                        self.width >= q + 1,
                        usize::MAX as int == (self.height as int) * q + usize::MAX as int % (self.height as int),
                        usize::MAX as int % (self.height as int) < self.height,
                        self.height > 0;
            }
            return false;
        }
        proof {
            let q = usize::MAX as int / (self.height as int);
            vstd::arithmetic::div_mod::lemma_fundamental_div_mod(usize::MAX as int, self.height as int);
            vstd::arithmetic::div_mod::lemma_mod_bound(usize::MAX as int, self.height as int);
            assert(self.width * self.height <= usize::MAX) by (nonlinear_arith)
                requires
                    self.width <= q,
                    usize::MAX as int == (self.height as int) * q + usize::MAX as int % (self.height as int),
                    usize::MAX as int % (self.height as int) >= 0,
                    self.height > 0;
        }
        self.buffer.len() == self.width * self.height && self.drawn_buffer.len() == self.width
            * self.height
    }
}
} // verus!
