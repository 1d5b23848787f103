//! A model of the panel's controller: the window registers, the write
//! cursor and the pixel memory, driven by the steps the driver takes.
use vstd::prelude::*;
use crate::framebuffer::{
    buffers_ok, col, differs, full_window, in_window, lemma_dirty_box_exists, lemma_index_of,
    lemma_index_split, row, window_fits, window_height, window_seq, window_width, Window,
};
use crate::ili9341::{
    dirty_window, flush_plan, pack, window_plan, BusEvent, COLUMN_ADDRESS_SET, MEMORY_WRITE,
    PAGE_ADDRESS_SET,
};
use crate::wire::{DataFormat, DisplayError, Payload, ReadWriteDataCommand};

verus! {

/// State of the panel's controller.
pub struct PanelModel {
    /// Pixel memory, row-major.
    pub mem: Seq<u16>,
    /// Pixels per row.
    pub width: nat,
    /// Last command received.
    pub mode: u8,
    /// Column range of the window.
    pub x0: u16,
    pub x1: u16,
    /// Page (row) range of the window.
    pub y0: u16,
    pub y1: u16,
    /// Pixels written into the window since the memory write began.
    pub cursor: nat,
}

/// Word from its big-endian bytes.
pub open spec fn be16(h: u8, l: u8) -> u16 {
    (((h as u16) << 8u16) | (l as u16)) as u16
}

/// The two bytes of a word the other way round.
pub open spec fn swap16(w: u16) -> u16 {
    (((w & 0xffu16) << 8u16) | (w >> 8u16)) as u16
}

/// Bytes of a byte-shaped payload.
pub open spec fn payload_bytes(p: Payload) -> Option<Seq<u8>> {
    match p {
        Payload::U8(b) | Payload::U8Iter(b) => Some(b),
        _ => None,
    }
}

/// Pixel words the panel reads from a payload: bytes are paired big-endian,
/// as on the wire; words sent in the host's own order are not interpreted.
pub open spec fn payload_words(p: Payload) -> Option<Seq<u16>> {
    match p {
        Payload::U8(b) | Payload::U8Iter(b) => Some(
            Seq::new(b.len() / 2, |k: int| be16(b[2 * k], b[2 * k + 1])),
        ),
        Payload::U16BE(w) | Payload::U16BEIter(w) => Some(w),
        Payload::U16LE(w) | Payload::U16LEIter(w) => Some(w.map_values(|v: u16| swap16(v))),
        Payload::U16(_) => None,
    }
}

/// The window the model's registers describe.
pub open spec fn model_window(m: PanelModel) -> Window {
    Window { x0: m.x0, y0: m.y0, x1: m.x1, y1: m.y1 }
}

/// Position of pixel `i` in the window's fill order.
pub open spec fn fill_position(b: Window, i: int, w: nat) -> int {
    (row(i, w) - b.y0) * window_width(b) + (col(i, w) - b.x0)
}

/// Memory after `words` are written into the window from the cursor on.
pub open spec fn write_words(m: PanelModel, words: Seq<u16>) -> PanelModel {
    let b = model_window(m);
    PanelModel {
        mem: Seq::new(
            m.mem.len(),
            |i: int|
                if in_window(b, i, m.width) && m.cursor <= fill_position(b, i, m.width) < m.cursor
                    + words.len() {
                    words[fill_position(b, i, m.width) - m.cursor]
                } else {
                    m.mem[i]
                },
        ),
        cursor: m.cursor + words.len(),
        ..m
    }
}

/// The controller's response to one step of the driver.
pub open spec fn panel_step(m: PanelModel, e: BusEvent) -> PanelModel {
    match e {
        BusEvent::Command(Payload::U8(b)) => if b.len() > 0 {
            PanelModel { mode: b[0], cursor: 0, ..m }
        } else {
            m
        },
        BusEvent::Data(p) => if m.mode == COLUMN_ADDRESS_SET || m.mode == PAGE_ADDRESS_SET {
            match payload_bytes(p) {
                Some(b) => if b.len() >= 4 {
                    if m.mode == COLUMN_ADDRESS_SET {
                        PanelModel { x0: be16(b[0], b[1]), x1: be16(b[2], b[3]), ..m }
                    } else {
                        PanelModel { y0: be16(b[0], b[1]), y1: be16(b[2], b[3]), ..m }
                    }
                } else {
                    m
                },
                None => m,
            }
        } else if m.mode == MEMORY_WRITE {
            match payload_words(p) {
                Some(words) => write_words(m, words),
                None => m,
            }
        } else {
            m
        },
        _ => m,
    }
}

/// The controller after a run of steps.
pub open spec fn panel_run(m: PanelModel, es: Seq<BusEvent>) -> PanelModel
    decreases es.len(),
{
    if es.len() == 0 {
        m
    } else {
        panel_step(panel_run(m, es.drop_last()), es.last())
    }
}

proof fn lemma_run_push(m: PanelModel, es: Seq<BusEvent>, e: BusEvent)
    ensures
        panel_run(m, es.push(e)) == panel_step(panel_run(m, es), e),
{
    assert(es.push(e).drop_last() =~= es);
}

proof fn lemma_be16_split(v: u16)
    ensures
        be16((v >> 8u16) as u8, (v & 0xffu16) as u8) == v,
{
    assert((((((v >> 8u16) as u8) as u16) << 8u16) | (((v & 0xffu16) as u8) as u16)) as u16 == v)
        by (bit_vector);
}

/// Retransmitting a window paints it with the buffer's pixels and leaves the
/// rest of the panel as it was.
pub proof fn lemma_window_plan_paints(m: PanelModel, buf: Seq<u16>, w: nat, h: nat, b: Window)
    requires
        m.width == w,
        0 < w,
        m.mem.len() == w * h,
        buf.len() == w * h,
        window_fits(b, w, h),
    ensures
        panel_run(m, window_plan(buf, w, b)).mem == Seq::new(
            w * h,
            |i: int|
                if in_window(b, i, w) {
                    buf[i]
                } else {
                    m.mem[i]
                },
        ),
{
    let px = window_seq(buf, w, b);
    let e1 = BusEvent::Command(Payload::U8(seq![COLUMN_ADDRESS_SET]));
    let e2 = BusEvent::Data(Payload::U8(pack(b.x0, b.x1)));
    let e3 = BusEvent::Command(Payload::U8(seq![PAGE_ADDRESS_SET]));
    let e4 = BusEvent::Data(Payload::U8(pack(b.y0, b.y1)));
    let e5 = BusEvent::Command(Payload::U8(seq![MEMORY_WRITE]));
    let e6 = BusEvent::Data(Payload::U16BEIter(px));
    let s0 = Seq::<BusEvent>::empty();
    assert(window_plan(buf, w, b) =~= s0.push(e1).push(e2).push(e3).push(e4).push(e5).push(e6));
    lemma_run_push(m, s0, e1);
    lemma_run_push(m, s0.push(e1), e2);
    lemma_run_push(m, s0.push(e1).push(e2), e3);
    lemma_run_push(m, s0.push(e1).push(e2).push(e3), e4);
    lemma_run_push(m, s0.push(e1).push(e2).push(e3).push(e4), e5);
    lemma_run_push(m, s0.push(e1).push(e2).push(e3).push(e4).push(e5), e6);
    lemma_be16_split(b.x0);
    lemma_be16_split(b.x1);
    lemma_be16_split(b.y0);
    lemma_be16_split(b.y1);
    let m5 = panel_run(m, s0.push(e1).push(e2).push(e3).push(e4).push(e5));
    assert(m5.x0 == b.x0 && m5.x1 == b.x1 && m5.y0 == b.y0 && m5.y1 == b.y1);
    assert(m5.mode == MEMORY_WRITE && m5.cursor == 0 && m5.mem == m.mem && m5.width == w);
    let ww = window_width(b);
    let wh = window_height(b);
    let after = panel_run(m, window_plan(buf, w, b));
    assert(after == write_words(m5, px));
    assert forall|i: int| 0 <= i < w * h implies #[trigger] after.mem[i] == (if in_window(b, i, w) {
        buf[i]
    } else {
        m.mem[i]
    }) by {
        if in_window(b, i, w) {
            let x = col(i, w);
            let y = row(i, w);
            vstd::arithmetic::div_mod::lemma_fundamental_div_mod(i, w as int);
            vstd::arithmetic::div_mod::lemma_mod_bound(i, w as int);
            let p = fill_position(b, i, w);
            assert(0 <= p < ww * wh) by (nonlinear_arith)
                requires
                    p == (y - b.y0) * ww + (x - b.x0),
                    0 <= y - b.y0 < wh,
                    0 <= x - b.x0 < ww;
            lemma_index_of(x - b.x0, y - b.y0, ww);
            assert(p / (ww as int) == y - b.y0 && p % (ww as int) == x - b.x0);
            assert(px[p] == buf[(b.y0 + (y - b.y0)) * w + b.x0 + (x - b.x0)]);
            assert(i == y * w + x) by (nonlinear_arith)
                requires i == (w as int) * y + x;
        }
    }
    assert(after.mem =~= Seq::new(
        w * h,
        |i: int|
            if in_window(b, i, w) {
                buf[i]
            } else {
                m.mem[i]
            },
    ));
}

/// A panel whose memory holds what was last sent ends a flush holding the
/// framebuffer, whatever window and mode it was left in.
pub proof fn lemma_flush_round_trip(
    m: PanelModel,
    sent: Seq<u16>,
    current: Seq<u16>,
    w: nat,
    h: nat,
)
    requires
        buffers_ok(sent, current, w, h),
        m.width == w,
        m.mem == sent,
    ensures
        panel_run(m, flush_plan(sent, current, w, h)).mem == current,
{
    if sent != current {
        lemma_dirty_box_exists(sent, current, w, h);
        let b = dirty_window(sent, current, w, h);
        lemma_window_plan_paints(m, current, w, h, b);
        let after = panel_run(m, flush_plan(sent, current, w, h));
        assert forall|i: int| 0 <= i < w * h implies after.mem[i] == current[i] by {
            if !in_window(b, i, w) {
                assert(!differs(sent, current, i));
            }
        }
        assert(after.mem =~= current);
    }
}

/// After `clear_screen(color)` succeeds the panel holds `color` in every
/// pixel, whatever it held before.
pub proof fn lemma_clear_screen_round_trip(m: PanelModel, w: nat, h: nat, color: u16)
    requires
        0 < w <= 0x10000,
        0 < h <= 0x10000,
        m.width == w,
        m.mem.len() == w * h,
    ensures
        panel_run(
            m,
            window_plan(Seq::new(w * h, |_i: int| color), w, full_window(w, h)),
        ).mem == Seq::new(w * h, |_i: int| color),
{
    let fill = Seq::new(w * h, |_i: int| color);
    let b = full_window(w, h);
    lemma_window_plan_paints(m, fill, w, h, b);
    let after = panel_run(m, window_plan(fill, w, b));
    assert forall|i: int| 0 <= i < w * h implies after.mem[i] == fill[i] by {
        lemma_index_split(i, w, h);
        assert(in_window(b, i, w));
    }
    assert(after.mem =~= fill);
}

/// Which pixel, if any, the word at fill position `p` lands on: its index,
/// when the position lies in the window and the pixel on the panel.
pub open spec fn target(b: Window, w: nat, h: nat, p: int) -> Option<int> {
    if b.x0 <= b.x1 && b.y0 <= b.y1 && 0 <= p < window_width(b) * window_height(b) {
        let x = b.x0 + p % (window_width(b) as int);
        let y = b.y0 + p / (window_width(b) as int);
        if x < w && y < h {
            Some(y * w + x)
        } else {
            None
        }
    } else {
        None
    }
}

proof fn lemma_target_in_range(b: Window, w: nat, h: nat, p: int)
    requires
        0 < w,
    ensures
        target(b, w, h, p) matches Some(i) ==> 0 <= i < w * h,
{
    if let Some(i) = target(b, w, h, p) {
        let x = b.x0 + p % (window_width(b) as int);
        let y = b.y0 + p / (window_width(b) as int);
        vstd::arithmetic::div_mod::lemma_mod_bound(p, window_width(b) as int);
        vstd::arithmetic::div_mod::lemma_div_pos_is_pos(p, window_width(b) as int);
        assert(0 <= y * w + x < w * h) by (nonlinear_arith)
            requires 0 <= x < w, 0 <= y < h;
    }
}

proof fn lemma_target(b: Window, w: nat, h: nat, p: int, j: int)
    requires
        0 < w,
        0 <= j < w * h,
        0 <= p,
    ensures
        (in_window(b, j, w) && fill_position(b, j, w) == p) <==> target(b, w, h, p) == Some(j),
{
    lemma_index_split(j, w, h);
    let ww = window_width(b);
    let wh = window_height(b);
    if in_window(b, j, w) && fill_position(b, j, w) == p {
        let cx = col(j, w) - b.x0;
        let ry = row(j, w) - b.y0;
        assert(0 <= cx < ww && 0 <= ry < wh);
        lemma_index_of(cx, ry, ww);
        assert(p < ww * wh) by (nonlinear_arith)
            requires p == ry * ww + cx, 0 <= cx < ww, 0 <= ry < wh;
    }
    if target(b, w, h, p) == Some(j) {
        vstd::arithmetic::div_mod::lemma_mod_bound(p, ww as int);
        vstd::arithmetic::div_mod::lemma_fundamental_div_mod(p, ww as int);
        vstd::arithmetic::div_mod::lemma_div_pos_is_pos(p, ww as int);
        let x = b.x0 + p % (ww as int);
        let y = b.y0 + p / (ww as int);
        lemma_index_of(x, y, w);
        assert(p / (ww as int) < wh) by {
            if p / (ww as int) >= wh {
                assert((ww as int) * (p / (ww as int)) >= ww * wh) by (nonlinear_arith)
                    requires p / (ww as int) >= wh, ww >= 0;
            }
        }
        assert(fill_position(b, j, w) == (p / (ww as int)) * ww + p % (ww as int));
        assert((p / (ww as int)) * ww == (ww as int) * (p / (ww as int))) by (nonlinear_arith);
    }
}

/// `write_words` of one more word changes at most the pixel that word lands on.
proof fn lemma_write_one_more(m: PanelModel, h: nat, words: Seq<u16>, k: int)
    requires
        0 < m.width,
        m.mem.len() == m.width * h,
        0 <= k < words.len(),
    ensures
        write_words(m, words.take(k + 1)).mem == (match target(model_window(m), m.width, h, m.cursor + k) {
            Some(i) => write_words(m, words.take(k)).mem.update(i, words[k]),
            None => write_words(m, words.take(k)).mem,
        }),
{
    let b = model_window(m);
    let w = m.width;
    let next = write_words(m, words.take(k + 1)).mem;
    let prev = write_words(m, words.take(k)).mem;
    let expect = match target(b, w, h, m.cursor + k) {
        Some(i) => prev.update(i, words[k]),
        None => prev,
    };
    let c = m.cursor;
    lemma_target_in_range(b, w, h, c + k);
    assert(next.len() == m.mem.len() && prev.len() == m.mem.len());
    assert(expect.len() == m.mem.len());
    assert forall|j: int| 0 <= j < next.len() implies next[j] == expect[j] by {
        lemma_target(b, w, h, c + k, j);
        let fp = fill_position(b, j, w);
        let hit = in_window(b, j, w) && fp == c + k;
        assert(next[j] == (if in_window(b, j, w) && c <= fp < c + k + 1 {
            words.take(k + 1)[fp - c]
        } else {
            m.mem[j]
        }));
        assert(prev[j] == (if in_window(b, j, w) && c <= fp < c + k {
            words.take(k)[fp - c]
        } else {
            m.mem[j]
        }));
        if hit {
            assert(target(b, w, h, c + k) == Some(j));
            assert(expect[j] == words[k]);
            assert(words.take(k + 1)[k] == words[k]);
        } else {
            assert(target(b, w, h, c + k) != Some(j));
            assert(expect[j] == prev[j]);
            if in_window(b, j, w) && c <= fp < c + k {
                assert(words.take(k + 1)[fp - c] == words.take(k)[fp - c]);
            }
        }
    }
    assert(next =~= expect);
}

/// A panel controller in memory: the window registers, the write cursor and
/// the pixel memory, following the steps it receives.
pub struct SimulatedDisplay {
    mem: Vec<u16>,
    width: usize,
    height: usize,
    mode: u8,
    x0: u16,
    x1: u16,
    y0: u16,
    y1: u16,
    cursor: usize,
}

impl View for SimulatedDisplay {
    type V = PanelModel;

    closed spec fn view(&self) -> PanelModel {
        PanelModel {
            mem: self.mem@,
            width: self.width as nat,
            mode: self.mode,
            x0: self.x0,
            x1: self.x1,
            y0: self.y0,
            y1: self.y1,
            cursor: self.cursor as nat,
        }
    }
}

/// Word from its big-endian bytes.
fn join_bytes(h: u8, l: u8) -> (r: u16)
    ensures
        r == be16(h, l),
{
    ((h as u16) << 8u16) | (l as u16)
}

/// Pixel words of a payload, as the panel reads them.
fn decode_words(p: &DataFormat) -> (r: Option<Vec<u16>>)
    ensures
        r matches Some(v) ==> payload_words(p@) == Some(v@),
        r is None ==> payload_words(p@) is None,
{
    match p {
        DataFormat::U8(b) | DataFormat::U8Iter(b) => {
            let len = b.len();
            let n = len / 2;
            let mut out: Vec<u16> = Vec::with_capacity(n);
            while out.len() < n
                invariant
                    len == b@.len(),
                    n == len / 2,
                    out@.len() <= n,
                    forall|k: int| 0 <= k < out@.len() ==> out@[k] == be16(b@[2 * k], b@[2 * k + 1]),
                decreases n - out@.len(),
            {
                let k = out.len();
                assert(2 * k + 1 < len);
                out.push(join_bytes(b[2 * k], b[2 * k + 1]));
            }
            assert(out@ =~= Seq::new(b@.len() / 2, |k: int| be16(b@[2 * k], b@[2 * k + 1])));
            Some(out)
        },
        DataFormat::U16BE(w) | DataFormat::U16BEIter(w) => Some(w.clone()),
        DataFormat::U16LE(w) | DataFormat::U16LEIter(w) => {
            let mut out: Vec<u16> = Vec::with_capacity(w.len());
            while out.len() < w.len()
                invariant
                    out@.len() <= w@.len(),
                    forall|k: int| 0 <= k < out@.len() ==> out@[k] == swap16(w@[k]),
                decreases w@.len() - out@.len(),
            {
                let v = w[out.len()];
                out.push(((v & 0xff) << 8u16) | (v >> 8u16));
            }
            assert(out@ =~= w@.map_values(|v: u16| swap16(v)));
            Some(out)
        },
        DataFormat::U16(_) => None,
    }
}

impl SimulatedDisplay {
    /// One colour per pixel.
    #[verifier::type_invariant]
    spec fn sized(&self) -> bool {
        &&& 0 < self.width <= 0x10000
        &&& 0 < self.height <= 0x10000
        &&& self.mem@.len() == self.width * self.height
        &&& self.width * self.height <= usize::MAX
    }

    /// A `width` by `height` panel, all black, with an empty window.
    pub fn build(width: usize, height: usize) -> (r: Self)
        requires
            0 < width <= 0x10000,
            0 < height <= 0x10000,
            width * height <= usize::MAX,
        ensures
            r@ == (PanelModel {
                mem: Seq::new((width * height) as nat, |_i: int| 0u16),
                width: width as nat,
                mode: 0,
                x0: 0,
                x1: 0,
                y0: 0,
                y1: 0,
                cursor: 0,
            }),
    {
        let n = width * height;
        let mut mem: Vec<u16> = Vec::with_capacity(n);
        while mem.len() < n
            invariant
                mem@.len() <= n,
                forall|k: int| 0 <= k < mem@.len() ==> mem@[k] == 0u16,
            decreases n - mem@.len(),
        {
            mem.push(0);
        }
        assert(mem@ =~= Seq::new((width * height) as nat, |_i: int| 0u16));
        SimulatedDisplay { mem, width, height, mode: 0, x0: 0, x1: 0, y0: 0, y1: 0, cursor: 0 }
    }

    /// Colour of pixel `(x, y)`; `None` off the panel.
    pub fn pixel(&self, x: usize, y: usize) -> (r: Option<u16>)
        ensures
            r == (if x < self@.width && y * self@.width + x < self@.mem.len() {
                Some(self@.mem[y * self@.width + x])
            } else {
                None
            }),
    {
        proof {
            use_type_invariant(self);
        }
        if x < self.width && y < self.height {
            proof {
                assert(y * self.width + x < self.width * self.height) by (nonlinear_arith)
                    requires y < self.height, x < self.width;
            }
            Some(self.mem[y * self.width + x])
        } else {
            proof {
                if x < self.width {
                    assert(y * self.width + x >= self.width * self.height) by (nonlinear_arith)
                        requires y >= self.height, x >= 0;
                }
            }
            None
        }
    }

    /// Takes a command.
    pub fn receive_command(&mut self, cmd: &DataFormat)
        ensures
            final(self)@ == panel_step(old(self)@, BusEvent::Command(cmd@)),
    {
        proof {
            use_type_invariant(&*self);
        }
        if let DataFormat::U8(b) = cmd {
            if b.len() > 0 {
                self.mode = b[0];
                self.cursor = 0;
            }
        }
    }

    /// Takes a data payload.
    pub fn receive_data(&mut self, data: &DataFormat)
        requires
            payload_words(data@) matches Some(ws) ==> old(self)@.cursor + ws.len() <= usize::MAX,
        ensures
            final(self)@ == panel_step(old(self)@, BusEvent::Data(data@)),
    {
        proof {
            use_type_invariant(&*self);
        }
        if self.mode == COLUMN_ADDRESS_SET || self.mode == PAGE_ADDRESS_SET {
            match data {
                DataFormat::U8(b) | DataFormat::U8Iter(b) => {
                    if b.len() >= 4 {
                        if self.mode == COLUMN_ADDRESS_SET {
                            self.x0 = join_bytes(b[0], b[1]);
                            self.x1 = join_bytes(b[2], b[3]);
                        } else {
                            self.y0 = join_bytes(b[0], b[1]);
                            self.y1 = join_bytes(b[2], b[3]);
                        }
                    }
                },
                _ => {},
            }
        } else if self.mode == MEMORY_WRITE {
            if let Some(words) = decode_words(data) {
                self.write_words(&words);
            }
        }
    }

    fn write_words(&mut self, words: &Vec<u16>)
        requires
            old(self)@.cursor + words@.len() <= usize::MAX,
        ensures
            final(self)@ == write_words(old(self)@, words@),
    {
        proof {
            use_type_invariant(&*self);
        }
        let ghost m = self@;
        let ghost h = self.height as nat;
        let ghost b = model_window(m);
        if self.x0 <= self.x1 && self.y0 <= self.y1 {
            let ww = (self.x1 - self.x0) as u64 + 1;
            let wh = (self.y1 - self.y0) as u64 + 1;
            assert(ww * wh <= 0x1_0000_0000) by (nonlinear_arith)
                requires ww <= 0x10000, wh <= 0x10000;
            let area: u64 = ww * wh;
            let mut mem = self.mem.clone();
            assert(mem@ =~= self.mem@);
            let mut k: usize = 0;
            while k < words.len()
                invariant
                    0 <= k <= words@.len(),
                    m.cursor + words@.len() <= usize::MAX,
                    ww == window_width(b),
                    wh == window_height(b),
                    area == ww * wh,
                    area <= 0x1_0000_0000,
                    b.x0 <= b.x1 && b.y0 <= b.y1,
                    b == model_window(m),
                    m.width == self.width,
                    h == self.height,
                    0 < self.width <= 0x10000,
                    0 < self.height <= 0x10000,
                    self.width * self.height <= usize::MAX,
                    m.mem.len() == self.width * self.height,
                    mem@ == write_words(m, words@.take(k as int)).mem,
                    mem@.len() == m.mem.len(),
                    self@ == m,
                decreases words@.len() - k,
            {
                let p: u64 = self.cursor as u64 + k as u64;
                proof {
                    lemma_write_one_more(m, h, words@, k as int);
                }
                if p < area {
                    proof {
                        vstd::arithmetic::div_mod::lemma_div_is_ordered_by_denominator(p as int, 1, ww as int);
                        assert(p as int / 1 == p as int);
                        vstd::arithmetic::div_mod::lemma_mod_bound(p as int, ww as int);
                    }
                    let x: u64 = self.x0 as u64 + p % ww;
                    let y: u64 = self.y0 as u64 + p / ww;
                    if x < self.width as u64 && y < self.height as u64 {
                        proof {
                            assert(y * self.width + x < self.width * self.height) by (nonlinear_arith)
                                requires
                                    y < self.height,
                                    x < self.width;
                        }
                        let i = (y as usize) * self.width + (x as usize);
                        proof {
                            assert(target(b, m.width, h, m.cursor + k) == Some(i as int));
                        }
                        mem.set(i, words[k]);
                    }
                }
                k += 1;
            }
            self.mem = mem;
        } else {
            let mut k: usize = 0;
            while k < words.len()
                invariant
                    0 <= k <= words@.len(),
                    !(b.x0 <= b.x1 && b.y0 <= b.y1),
                    b == model_window(m),
                    m.mem.len() == m.width * h,
                    0 < m.width,
                    self.mem@ == write_words(m, words@.take(k as int)).mem,
                decreases words@.len() - k,
            {
                proof {
                    lemma_write_one_more(m, h, words@, k as int);
                }
                k += 1;
            }
        }
        assert(words@.take(words@.len() as int) =~= words@);
        self.cursor = self.cursor + words.len();
    }
}

impl ReadWriteDataCommand for SimulatedDisplay {
    fn send_commands(&mut self, cmd: DataFormat) -> Result<(), DisplayError> {
        self.receive_command(&cmd);
        Ok(())
    }

    fn send_data(&mut self, buf: DataFormat) -> Result<(), DisplayError> {
        let n = match &buf {
            DataFormat::U8(b) | DataFormat::U8Iter(b) => b.len() / 2,
            DataFormat::U16(w) | DataFormat::U16BE(w) | DataFormat::U16LE(w)
            | DataFormat::U16BEIter(w) | DataFormat::U16LEIter(w) => w.len(),
        };
        if n > usize::MAX - self.cursor {
            return Err(DisplayError::BusWriteError);
        }
        self.receive_data(&buf);
        Ok(())
    }

    fn read_data(&mut self, cmd: DataFormat, buf: &mut [u8]) -> Result<(), DisplayError> {
        self.receive_command(&cmd);
        Err(DisplayError::DataFormatNotImplemented)
    }
}

} // verus!
