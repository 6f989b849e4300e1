//! What the panel receives: the bytes that the recorded operations put on the
//! SPI lines while CS is asserted, each tagged command or data by DC, and how
//! an ILI9341 in RGB565 mode turns them into pixels of its frame memory.
use vstd::prelude::*;
use crate::bus::{Op, Pin};
use crate::grid::{
    cell, cell_index, in_box, lemma_cell_index, lemma_cell_next, lemma_index_cell,
    lemma_next_cell_in_box, next_cell,
};
use crate::ili9341::{
    cmd_data_ops, cmd_ops, data_ops, data_seq_ops, pin_op, window_args, window_ops, CMD_CASET,
    CMD_RAMWR, CMD_RASET, HEIGHT, WIDTH,
};

verus! {

/// The state of the lines between the microcontroller and the panel.
pub ghost struct Wire {
    /// CS is asserted (low).
    pub cs_active: bool,
    /// DC is high: bytes are data, not commands.
    pub dc_data: bool,
    /// SPI1 sends 16-bit frames.
    pub frame16: bool,
    /// A DMA transfer has been handed to the SPI and the SPI may still be
    /// shifting out its last frame.
    pub busy: bool,
    /// CS, DC or the frame size changed while the SPI was busy, which can cut
    /// a frame short.
    pub glitch: bool,
}

/// One byte as the panel receives it: a command byte (DC low) or a data byte
/// (DC high).
pub ghost struct Sym {
    pub data: bool,
    pub byte: u8,
}

/// The lines at rest in 8-bit mode: nothing being shifted out, CS deasserted.
pub open spec fn idle(w: Wire) -> bool {
    !w.cs_active && !w.frame16 && !w.busy
}

/// The bytes that one value written to the SPI data register puts on the
/// line: its low byte in 8-bit mode, both bytes most significant first in
/// 16-bit mode.
pub open spec fn frame_bytes(frame16: bool, v: u16) -> Seq<u8> {
    if frame16 {
        seq![(v >> 8u16) as u8, v as u8]
    } else {
        seq![v as u8]
    }
}

/// The bytes the panel receives from one operation.
pub open spec fn op_syms(w: Wire, op: Op) -> Seq<Sym> {
    if !w.cs_active {
        Seq::empty()
    } else {
        match op {
            Op::SpiByte(b) => frame_bytes(w.frame16, b as u16).map_values(
                |x: u8| Sym { data: w.dc_data, byte: x },
            ),
            Op::DmaTx(bytes) => if w.frame16 {
                Seq::new(
                    2 * bytes.len(),
                    |i: int| Sym { data: w.dc_data, byte: if i % 2 == 0 { 0 } else { bytes[i / 2] } },
                )
            } else {
                bytes.map_values(|x: u8| Sym { data: w.dc_data, byte: x })
            },
            Op::DmaFill16 { color, count } => if w.frame16 {
                Seq::new(
                    2 * count as nat,
                    |i: int|
                        Sym {
                            data: w.dc_data,
                            byte: if i % 2 == 0 { (color >> 8u16) as u8 } else { color as u8 },
                        },
                )
            } else {
                Seq::new(count as nat, |i: int| Sym { data: w.dc_data, byte: color as u8 })
            },
            _ => Seq::empty(),
        }
    }
}

/// The state of the lines after one operation.
pub open spec fn op_wire(w: Wire, op: Op) -> Wire {
    match op {
        Op::PinWrite { pin: Pin::Cs, high } => Wire {
            cs_active: !high,
            glitch: w.glitch || w.busy,
            ..w
        },
        Op::PinWrite { pin: Pin::Dc, high } => Wire {
            dc_data: high,
            glitch: w.glitch || w.busy,
            ..w
        },
        Op::SpiByte(_) => Wire { busy: false, ..w },
        Op::SpiFrame16(on) => Wire { frame16: on, glitch: w.glitch || w.busy, ..w },
        Op::DmaTx(bytes) => if bytes.len() > 0 { Wire { busy: true, ..w } } else { w },
        Op::DmaFill16 { color, count } => if count > 0 { Wire { busy: true, ..w } } else { w },
        Op::WaitIdle => Wire { busy: false, ..w },
        _ => w,
    }
}

/// The state of the lines after `ops`.
pub open spec fn wire_state(w: Wire, ops: Seq<Op>) -> Wire
    decreases ops.len(),
{
    if ops.len() == 0 {
        w
    } else {
        wire_state(op_wire(w, ops[0]), ops.drop_first())
    }
}

/// The bytes the panel receives from `ops`, in order.
pub open spec fn wire_syms(w: Wire, ops: Seq<Op>) -> Seq<Sym>
    decreases ops.len(),
{
    if ops.len() == 0 {
        Seq::empty()
    } else {
        op_syms(w, ops[0]) + wire_syms(op_wire(w, ops[0]), ops.drop_first())
    }
}

/// Running two sequences of operations one after the other.
pub proof fn lemma_wire_concat(w: Wire, a: Seq<Op>, b: Seq<Op>)
    ensures
        wire_state(w, a + b) == wire_state(wire_state(w, a), b),
        wire_syms(w, a + b) == wire_syms(w, a) + wire_syms(wire_state(w, a), b),
    decreases a.len(),
{
    if a.len() == 0 {
        assert(a + b =~= b);
    } else {
        assert((a + b).drop_first() =~= a.drop_first() + b);
        assert((a + b)[0] == a[0]);
        lemma_wire_concat(op_wire(w, a[0]), a.drop_first(), b);
        assert(wire_syms(w, a + b) =~= wire_syms(w, a) + wire_syms(wire_state(w, a), b));
    }
}

/// Running a single operation.
pub proof fn lemma_wire_one(w: Wire, op: Op)
    ensures
        wire_state(w, seq![op]) == op_wire(w, op),
        wire_syms(w, seq![op]) == op_syms(w, op),
{
    let s = seq![op];
    assert(s.drop_first() =~= Seq::<Op>::empty());
    assert(s[0] == op);
    assert(wire_state(op_wire(w, op), s.drop_first()) == op_wire(w, op));
    assert(wire_syms(op_wire(w, op), s.drop_first()) == Seq::<Sym>::empty());
    assert(wire_syms(w, s) =~= op_syms(w, op));
}


/// Running one more operation.
pub proof fn lemma_wire_push(w: Wire, s: Seq<Op>, op: Op)
    ensures
        wire_state(w, s.push(op)) == op_wire(wire_state(w, s), op),
        wire_syms(w, s.push(op)) == wire_syms(w, s) + op_syms(wire_state(w, s), op),
{
    assert(s.push(op) =~= s + seq![op]);
    lemma_wire_concat(w, s, seq![op]);
    lemma_wire_one(wire_state(w, s), op);
}

/// `bytes` received as data bytes.
pub open spec fn data_syms(bytes: Seq<u8>) -> Seq<Sym> {
    bytes.map_values(|b: u8| Sym { data: true, byte: b })
}

/// The lines after a polled transfer: CS deasserted, DC as last set, nothing
/// being shifted out.
pub open spec fn after_polled(w: Wire, dc: bool) -> Wire {
    Wire { cs_active: false, dc_data: dc, busy: false, ..w }
}

/// A command byte reaches the panel as that command, from lines that are not
/// busy and in 8-bit mode.
pub proof fn lemma_cmd(w: Wire, c: u8)
    requires
        !w.busy,
        !w.frame16,
    ensures
        wire_state(w, cmd_ops(c)) == after_polled(w, false),
        wire_syms(w, cmd_ops(c)) == seq![Sym { data: false, byte: c }],
{
    let o1 = pin_op(Pin::Dc, false);
    let o2 = pin_op(Pin::Cs, false);
    let o3 = Op::SpiByte(c);
    let o4 = pin_op(Pin::Cs, true);
    lemma_wire_one(w, o1);
    lemma_wire_push(w, seq![o1], o2);
    lemma_wire_push(w, seq![o1, o2], o3);
    lemma_wire_push(w, seq![o1, o2, o3], o4);
    assert(cmd_ops(c) =~= seq![o1, o2, o3].push(o4));
    assert(seq![o1, o2] =~= seq![o1].push(o2));
    assert(seq![o1, o2, o3] =~= seq![o1, o2].push(o3));
    let w1 = op_wire(w, o1);
    let w2 = op_wire(w1, o2);
    assert(w2.cs_active && !w2.dc_data && !w2.frame16);
    assert(op_syms(w, o1) =~= Seq::<Sym>::empty());
    assert(op_syms(w1, o2) =~= Seq::<Sym>::empty());
    assert(frame_bytes(false, c as u16) =~= seq![c]);
    assert(op_syms(w2, o3) =~= seq![Sym { data: false, byte: c }]);
    assert(wire_syms(w, cmd_ops(c)) =~= seq![Sym { data: false, byte: c }]);
}

/// A data byte reaches the panel as that data byte.
pub proof fn lemma_data(w: Wire, b: u8)
    requires
        !w.busy,
        !w.frame16,
    ensures
        wire_state(w, data_ops(b)) == after_polled(w, true),
        wire_syms(w, data_ops(b)) == seq![Sym { data: true, byte: b }],
{
    let o1 = pin_op(Pin::Dc, true);
    let o2 = pin_op(Pin::Cs, false);
    let o3 = Op::SpiByte(b);
    let o4 = pin_op(Pin::Cs, true);
    lemma_wire_one(w, o1);
    lemma_wire_push(w, seq![o1], o2);
    lemma_wire_push(w, seq![o1, o2], o3);
    lemma_wire_push(w, seq![o1, o2, o3], o4);
    assert(data_ops(b) =~= seq![o1, o2, o3].push(o4));
    assert(seq![o1, o2] =~= seq![o1].push(o2));
    assert(seq![o1, o2, o3] =~= seq![o1, o2].push(o3));
    let w1 = op_wire(w, o1);
    let w2 = op_wire(w1, o2);
    assert(w2.cs_active && w2.dc_data && !w2.frame16);
    assert(op_syms(w, o1) =~= Seq::<Sym>::empty());
    assert(op_syms(w1, o2) =~= Seq::<Sym>::empty());
    assert(frame_bytes(false, b as u16) =~= seq![b]);
    assert(op_syms(w2, o3) =~= seq![Sym { data: true, byte: b }]);
    assert(wire_syms(w, data_ops(b)) =~= seq![Sym { data: true, byte: b }]);
}

/// Parameter bytes sent one at a time reach the panel as those data bytes.
pub proof fn lemma_data_seq(w: Wire, args: Seq<u8>)
    requires
        !w.busy,
        !w.frame16,
    ensures
        wire_state(w, data_seq_ops(args)) == (if args.len() == 0 {
            w
        } else {
            after_polled(w, true)
        }),
        wire_syms(w, data_seq_ops(args)) == data_syms(args),
    decreases args.len(),
{
    if args.len() == 0 {
        assert(data_syms(args) =~= Seq::<Sym>::empty());
    } else {
        let front = args.drop_last();
        lemma_data_seq(w, front);
        let w1 = wire_state(w, data_seq_ops(front));
        lemma_wire_concat(w, data_seq_ops(front), data_ops(args.last()));
        lemma_data(w1, args.last());
        assert(data_syms(args) =~= data_syms(front) + seq![Sym { data: true, byte: args.last() }]);
    }
}

/// A command and its parameters reach the panel as the command byte followed
/// by the parameters as data bytes.
pub proof fn lemma_cmd_data(w: Wire, c: u8, args: Seq<u8>)
    requires
        !w.busy,
        !w.frame16,
        args.len() > 0,
    ensures
        wire_state(w, cmd_data_ops(c, args)) == after_polled(w, true),
        wire_syms(w, cmd_data_ops(c, args)) == seq![Sym { data: false, byte: c }] + data_syms(
            args,
        ),
{
    lemma_wire_concat(w, cmd_ops(c), data_seq_ops(args));
    lemma_cmd(w, c);
    lemma_data_seq(after_polled(w, false), args);
    assert(after_polled(after_polled(w, false), true) == after_polled(w, true));
}

/// What the panel receives for an address window: column set with its four
/// bytes, row set with its four bytes, memory write.
pub open spec fn window_syms(x: u16, y: u16, x2: u16, y2: u16) -> Seq<Sym> {
    seq![Sym { data: false, byte: CMD_CASET }] + data_syms(window_args(x, x2)) + seq![
        Sym { data: false, byte: CMD_RASET },
    ] + data_syms(window_args(y, y2)) + seq![Sym { data: false, byte: CMD_RAMWR }]
}

/// An address window reaches the panel as column set, row set and memory
/// write, and leaves the lines at rest with DC low.
pub proof fn lemma_window(w: Wire, x: u16, y: u16, x2: u16, y2: u16)
    requires
        !w.busy,
        !w.frame16,
    ensures
        wire_state(w, window_ops(x, y, x2, y2)) == after_polled(w, false),
        wire_syms(w, window_ops(x, y, x2, y2)) == window_syms(x, y, x2, y2),
{
    let a = cmd_data_ops(CMD_CASET, window_args(x, x2));
    let b = cmd_data_ops(CMD_RASET, window_args(y, y2));
    let c = cmd_ops(CMD_RAMWR);
    lemma_wire_concat(w, a, b);
    lemma_wire_concat(w, a + b, c);
    lemma_cmd_data(w, CMD_CASET, window_args(x, x2));
    let w1 = after_polled(w, true);
    lemma_cmd_data(w1, CMD_RASET, window_args(y, y2));
    lemma_cmd(after_polled(w1, true), CMD_RAMWR);
    assert(after_polled(after_polled(w1, true), false) == after_polled(w, false));
    assert(wire_syms(w, window_ops(x, y, x2, y2)) =~= window_syms(x, y, x2, y2));
}


// ── The panel ────────────────────────────────────────────────────────────────

/// An ILI9341 in 16-bit RGB565 mode, as far as drawing goes: its column and
/// row address window, the command being received with the parameter bytes
/// received so far, the memory write cursor, the first byte of a pixel half
/// received, and the frame memory by (column, row).
pub ghost struct Panel {
    pub col_start: int,
    pub col_end: int,
    pub row_start: int,
    pub row_end: int,
    pub cmd: u8,
    pub args: Seq<u8>,
    pub cx: int,
    pub cy: int,
    pub hi: Option<u8>,
    pub gram: Map<(int, int), u16>,
}

/// The width of the panel's address window.
pub open spec fn win_w(p: Panel) -> int {
    p.col_end - p.col_start + 1
}

/// The height of the panel's address window.
pub open spec fn win_h(p: Panel) -> int {
    p.row_end - p.row_start + 1
}

/// A 16-bit value from its two bytes, most significant first.
pub open spec fn be16(hi: u8, lo: u8) -> u16 {
    (hi as int * 256 + lo as int) as u16
}

/// The panel after receiving one byte. A command byte starts that command;
/// memory write also puts the cursor at the start of the window. Data bytes
/// of a column or row address command collect as its four parameters, which
/// set the window once all four are in. Data bytes of a memory write pair up
/// into pixels, stored at the cursor, which then moves one column on, to the
/// next row after the last column and back to the top after the last row.
pub open spec fn panel_step(p: Panel, s: Sym) -> Panel {
    if !s.data {
        if s.byte == CMD_RAMWR {
            Panel { cmd: s.byte, args: Seq::empty(), cx: p.col_start, cy: p.row_start, hi: None, ..p }
        } else {
            Panel { cmd: s.byte, args: Seq::empty(), hi: None, ..p }
        }
    } else if (p.cmd == CMD_CASET || p.cmd == CMD_RASET) && p.args.len() < 4 {
        let a = p.args.push(s.byte);
        if a.len() < 4 {
            Panel { args: a, ..p }
        } else if p.cmd == CMD_CASET {
            Panel {
                args: a,
                col_start: a[0] as int * 256 + a[1] as int,
                col_end: a[2] as int * 256 + a[3] as int,
                ..p
            }
        } else {
            Panel {
                args: a,
                row_start: a[0] as int * 256 + a[1] as int,
                row_end: a[2] as int * 256 + a[3] as int,
                ..p
            }
        }
    } else if p.cmd == CMD_RAMWR {
        match p.hi {
            None => Panel { hi: Some(s.byte), ..p },
            Some(h) => {
                let n = next_cell(p.col_start, p.row_start, win_w(p), win_h(p), (p.cx, p.cy));
                Panel {
                    gram: p.gram.insert((p.cx, p.cy), be16(h, s.byte)),
                    hi: None,
                    cx: n.0,
                    cy: n.1,
                    ..p
                }
            },
        }
    } else {
        p
    }
}

/// The panel after receiving `syms`.
pub open spec fn panel_run(p: Panel, syms: Seq<Sym>) -> Panel
    decreases syms.len(),
{
    if syms.len() == 0 {
        p
    } else {
        panel_run(panel_step(p, syms[0]), syms.drop_first())
    }
}

/// Receiving two sequences of bytes one after the other.
pub proof fn lemma_panel_concat(p: Panel, a: Seq<Sym>, b: Seq<Sym>)
    ensures
        panel_run(p, a + b) == panel_run(panel_run(p, a), b),
    decreases a.len(),
{
    if a.len() == 0 {
        assert(a + b =~= b);
    } else {
        assert((a + b).drop_first() =~= a.drop_first() + b);
        assert((a + b)[0] == a[0]);
        lemma_panel_concat(panel_step(p, a[0]), a.drop_first(), b);
    }
}

/// Receiving one more byte.
pub proof fn lemma_panel_push(p: Panel, a: Seq<Sym>, s: Sym)
    ensures
        panel_run(p, a.push(s)) == panel_step(panel_run(p, a), s),
{
    assert(a.push(s) =~= a + seq![s]);
    lemma_panel_concat(p, a, seq![s]);
    let one = seq![s];
    let q = panel_run(p, a);
    assert(one.drop_first() =~= Seq::<Sym>::empty());
    assert(one[0] == s);
    assert(panel_run(panel_step(q, s), one.drop_first()) == panel_step(q, s));
}

/// The panel writing pixels into the `w` x `h` window at (`x0`, `y0`) with
/// the cursor at the window's `k`-th cell and no half pixel pending.
pub open spec fn writing_at(p: Panel, x0: int, y0: int, w: int, h: int, k: int) -> bool {
    &&& p.cmd == CMD_RAMWR
    &&& p.hi is None
    &&& p.col_start == x0
    &&& p.row_start == y0
    &&& win_w(p) == w
    &&& win_h(p) == h
    &&& (p.cx, p.cy) == cell(x0, y0, w, h, k)
}

/// Pixel `j` of a stream of bytes, two bytes per pixel, most significant
/// first.
pub open spec fn pixel_of(bytes: Seq<u8>, j: int) -> u16 {
    be16(bytes[2 * j], bytes[2 * j + 1])
}

/// Whether cell `c` is one that a stream of `n` pixels written from the `k`-th
/// cell of the window reaches.
pub open spec fn reached(x0: int, y0: int, w: int, h: int, k: int, n: int, c: (int, int)) -> bool {
    in_box(x0, y0, w, h, c) && k <= cell_index(x0, y0, w, c) < k + n
}

/// The panel after the first pixel of a stream: the pixel stored at the
/// cursor, the cursor one cell on.
proof fn lemma_stream_first(p: Panel, x0: int, y0: int, w: int, h: int, k: int, bytes: Seq<u8>)
    requires
        w > 0,
        h > 0,
        writing_at(p, x0, y0, w, h, k),
        bytes.len() >= 2,
        0 <= k < w * h,
    ensures
        ({
            let p1 = panel_run(p, data_syms(bytes.subrange(0, 2)));
            &&& writing_at(p1, x0, y0, w, h, k + 1)
            &&& p1.col_end == p.col_end
            &&& p1.row_end == p.row_end
            &&& p1.gram == p.gram.insert(cell(x0, y0, w, h, k), pixel_of(bytes, 0))
        }),
        panel_run(p, data_syms(bytes)) == panel_run(
            panel_run(p, data_syms(bytes.subrange(0, 2))),
            data_syms(bytes.subrange(2, bytes.len() as int)),
        ),
{
    let first = bytes.subrange(0, 2);
    let rest = bytes.subrange(2, bytes.len() as int);
    assert(bytes =~= first + rest);
    assert(data_syms(bytes) =~= data_syms(first) + data_syms(rest));
    lemma_panel_concat(p, data_syms(first), data_syms(rest));
    let s0 = Sym { data: true, byte: bytes[0] };
    let s1 = Sym { data: true, byte: bytes[1] };
    assert(data_syms(first) =~= seq![s0].push(s1));
    lemma_panel_push(p, seq![s0], s1);
    lemma_panel_push(p, Seq::empty(), s0);
    assert(seq![s0] =~= Seq::<Sym>::empty().push(s0));
    assert(panel_run(p, Seq::<Sym>::empty()) == p);
    lemma_cell_index(x0, y0, w, h, k);
    lemma_cell_next(x0, y0, w, h, k);
}

/// A stream of pixel data written from the `k`-th cell of the window stores
/// pixel `j` in cell `k + j` and leaves every other cell as it was, as long as
/// it does not run past the window's last cell.
pub proof fn lemma_stream_cell(
    p: Panel,
    x0: int,
    y0: int,
    w: int,
    h: int,
    k: int,
    bytes: Seq<u8>,
    c: (int, int),
)
    requires
        w > 0,
        h > 0,
        writing_at(p, x0, y0, w, h, k),
        bytes.len() % 2 == 0,
        0 <= k,
        k + bytes.len() / 2 <= w * h,
    ensures
        reached(x0, y0, w, h, k, (bytes.len() / 2) as int, c) ==> panel_run(
            p,
            data_syms(bytes),
        ).gram.contains_key(c) && panel_run(p, data_syms(bytes)).gram[c] == pixel_of(
            bytes,
            cell_index(x0, y0, w, c) - k,
        ),
        !reached(x0, y0, w, h, k, (bytes.len() / 2) as int, c) ==> panel_run(
            p,
            data_syms(bytes),
        ).gram.contains_key(c) == p.gram.contains_key(c) && panel_run(
            p,
            data_syms(bytes),
        ).gram[c] == p.gram[c],
    decreases bytes.len(),
{
    let n = (bytes.len() / 2) as int;
    if bytes.len() == 0 {
        assert(data_syms(bytes) =~= Seq::<Sym>::empty());
        assert(panel_run(p, data_syms(bytes)) == p);
    } else {
        lemma_stream_first(p, x0, y0, w, h, k, bytes);
        let p1 = panel_run(p, data_syms(bytes.subrange(0, 2)));
        let rest = bytes.subrange(2, bytes.len() as int);
        lemma_stream_cell(p1, x0, y0, w, h, k + 1, rest, c);
        let c0 = cell(x0, y0, w, h, k);
        lemma_cell_index(x0, y0, w, h, k);
        let i = cell_index(x0, y0, w, c);
        if reached(x0, y0, w, h, k, n, c) {
            if i == k {
                lemma_index_cell(x0, y0, w, h, c);
                assert(c == c0);
            } else {
                assert(reached(x0, y0, w, h, k + 1, n - 1, c));
                assert(rest[2 * (i - (k + 1))] == bytes[2 * (i - k)]);
                assert(rest[2 * (i - (k + 1)) + 1] == bytes[2 * (i - k) + 1]);
            }
        } else {
            assert(!reached(x0, y0, w, h, k + 1, n - 1, c));
            assert(c != c0);
        }
    }
}


/// The 16-bit address that the two parameter bytes of an address command
/// encode is the address they were made from.
pub proof fn lemma_addr_bytes(v: u16)
    ensures
        ((v >> 8u16) as u8) as int * 256 + (v as u8) as int == v as int,
        be16((v >> 8u16) as u8, v as u8) == v,
{
    assert(((v >> 8u16) as u8) as u32 * 256 + (v as u8) as u32 == v as u32) by (bit_vector);
}

/// The panel state after a column or row address command: the window on the
/// addressed side set to `start..=end`, everything else as before.
pub open spec fn addressed(p: Panel, cmd: u8, start: u16, end: u16) -> Panel {
    if cmd == CMD_CASET {
        Panel {
            cmd,
            args: window_args(start, end),
            hi: None,
            col_start: start as int,
            col_end: end as int,
            ..p
        }
    } else {
        Panel {
            cmd,
            args: window_args(start, end),
            hi: None,
            row_start: start as int,
            row_end: end as int,
            ..p
        }
    }
}

/// A column or row address command with its four parameters sets that side
/// of the window.
pub proof fn lemma_panel_addr(p: Panel, cmd: u8, start: u16, end: u16)
    requires
        cmd == CMD_CASET || cmd == CMD_RASET,
    ensures
        panel_run(p, seq![Sym { data: false, byte: cmd }] + data_syms(window_args(start, end)))
            == addressed(p, cmd, start, end),
{
    let a = window_args(start, end);
    let c = Sym { data: false, byte: cmd };
    let s0 = Sym { data: true, byte: a[0] };
    let s1 = Sym { data: true, byte: a[1] };
    let s2 = Sym { data: true, byte: a[2] };
    let s3 = Sym { data: true, byte: a[3] };
    assert(seq![c] + data_syms(a) =~= seq![c, s0, s1, s2].push(s3));
    assert(seq![c, s0, s1, s2] =~= seq![c, s0, s1].push(s2));
    assert(seq![c, s0, s1] =~= seq![c, s0].push(s1));
    assert(seq![c, s0] =~= seq![c].push(s0));
    assert(seq![c] =~= Seq::<Sym>::empty().push(c));
    assert(panel_run(p, Seq::<Sym>::empty()) == p);
    lemma_panel_push(p, Seq::empty(), c);
    lemma_panel_push(p, seq![c], s0);
    lemma_panel_push(p, seq![c, s0], s1);
    lemma_panel_push(p, seq![c, s0, s1], s2);
    lemma_panel_push(p, seq![c, s0, s1, s2], s3);
    lemma_addr_bytes(start);
    lemma_addr_bytes(end);
    let q = panel_run(p, seq![c, s0, s1, s2].push(s3));
    assert(q.args =~= a);
    assert(q == addressed(p, cmd, start, end));
}

/// The panel after an address window: writing from the first cell of the
/// window `x..=x2` by `y..=y2`, with its frame memory unchanged.
pub open spec fn windowed(p: Panel, x: u16, y: u16, x2: u16, y2: u16) -> Panel {
    Panel {
        col_start: x as int,
        col_end: x2 as int,
        row_start: y as int,
        row_end: y2 as int,
        cmd: CMD_RAMWR,
        args: Seq::empty(),
        cx: x as int,
        cy: y as int,
        hi: None,
        gram: p.gram,
    }
}

/// Column set, row set and memory write leave the panel ready to write the
/// window from its first cell.
pub proof fn lemma_panel_window(p: Panel, x: u16, y: u16, x2: u16, y2: u16)
    ensures
        panel_run(p, window_syms(x, y, x2, y2)) == windowed(p, x, y, x2, y2),
{
    let a = seq![Sym { data: false, byte: CMD_CASET }] + data_syms(window_args(x, x2));
    let b = seq![Sym { data: false, byte: CMD_RASET }] + data_syms(window_args(y, y2));
    let c = Sym { data: false, byte: CMD_RAMWR };
    assert(window_syms(x, y, x2, y2) =~= (a + b).push(c));
    lemma_panel_concat(p, a, b);
    lemma_panel_addr(p, CMD_CASET, x, x2);
    let p1 = addressed(p, CMD_CASET, x, x2);
    lemma_panel_addr(p1, CMD_RASET, y, y2);
    lemma_panel_push(p, a + b, c);
    assert(panel_run(p, window_syms(x, y, x2, y2)) =~= windowed(p, x, y, x2, y2));
}


/// The panel's write window, as a rectangle of cells.
pub open spec fn in_window(p: Panel, c: (int, int)) -> bool {
    in_box(p.col_start, p.row_start, win_w(p), win_h(p), c)
}

/// The panel writing pixels, with its cursor inside a non-empty window.
pub open spec fn writing_in_window(p: Panel) -> bool {
    p.cmd == CMD_RAMWR && win_w(p) >= 1 && win_h(p) >= 1 && in_window(p, (p.cx, p.cy))
}

/// Pixel data of any length, received while the panel writes, keeps its
/// cursor inside the window and changes no cell outside the window.
pub proof fn lemma_stream_stays(p: Panel, bytes: Seq<u8>, c: (int, int))
    requires
        writing_in_window(p),
    ensures
        writing_in_window(panel_run(p, data_syms(bytes))),
        panel_run(p, data_syms(bytes)).col_start == p.col_start,
        panel_run(p, data_syms(bytes)).col_end == p.col_end,
        panel_run(p, data_syms(bytes)).row_start == p.row_start,
        panel_run(p, data_syms(bytes)).row_end == p.row_end,
        !in_window(p, c) ==> panel_run(p, data_syms(bytes)).gram.contains_key(c)
            == p.gram.contains_key(c) && panel_run(p, data_syms(bytes)).gram[c] == p.gram[c],
    decreases bytes.len(),
{
    if bytes.len() == 0 {
        assert(data_syms(bytes) =~= Seq::<Sym>::empty());
    } else {
        let s0 = Sym { data: true, byte: bytes[0] };
        let rest = bytes.drop_first();
        assert(data_syms(bytes) =~= seq![s0] + data_syms(rest));
        lemma_panel_concat(p, seq![s0], data_syms(rest));
        lemma_panel_push(p, Seq::empty(), s0);
        assert(seq![s0] =~= Seq::<Sym>::empty().push(s0));
        assert(panel_run(p, Seq::<Sym>::empty()) == p);
        let p1 = panel_step(p, s0);
        lemma_next_cell_in_box(p.col_start, p.row_start, win_w(p), win_h(p), (p.cx, p.cy));
        lemma_stream_stays(p1, rest, c);
    }
}

/// A window whose end is not before its start, followed by pixel data of any
/// length, changes no cell outside the window.
pub proof fn lemma_window_stream_stays(
    p: Panel,
    x: u16,
    y: u16,
    x2: u16,
    y2: u16,
    bytes: Seq<u8>,
    c: (int, int),
)
    requires
        x <= x2,
        y <= y2,
    ensures
        !in_box(x as int, y as int, x2 - x + 1, y2 - y + 1, c) ==> panel_run(
            p,
            window_syms(x, y, x2, y2) + data_syms(bytes),
        ).gram.contains_key(c) == p.gram.contains_key(c) && panel_run(
            p,
            window_syms(x, y, x2, y2) + data_syms(bytes),
        ).gram[c] == p.gram[c],
{
    lemma_panel_concat(p, window_syms(x, y, x2, y2), data_syms(bytes));
    lemma_panel_window(p, x, y, x2, y2);
    lemma_stream_stays(windowed(p, x, y, x2, y2), bytes, c);
}


// ── Windows on screen ────────────────────────────────────────────────────────

/// The panel's address window lies on the 320 x 240 screen and is not empty:
/// its first column and row are not after its last, and its last column and
/// row are on the screen. In the terms of a rectangle at `(x, y)` of `w` by
/// `h` cells: `w >= 1`, `h >= 1`, `x + w <= 320` and `y + h <= 240`.
pub open spec fn window_on_screen(p: Panel) -> bool {
    &&& 0 <= p.col_start <= p.col_end < WIDTH
    &&& 0 <= p.row_start <= p.row_end < HEIGHT
}

/// The memory-write command byte, which starts the panel writing into the
/// window that the column and row commands before it set.
pub open spec fn is_ramwr(s: Sym) -> bool {
    !s.data && s.byte == CMD_RAMWR
}

/// Every memory write that `syms` start, run from panel `p`, starts with the
/// panel's window on the screen.
pub open spec fn writes_on_screen(p: Panel, syms: Seq<Sym>) -> bool
    decreases syms.len(),
{
    if syms.len() == 0 {
        true
    } else {
        writes_on_screen(p, syms.drop_last()) && (is_ramwr(syms.last()) ==> window_on_screen(
            panel_run(p, syms),
        ))
    }
}

/// One more byte.
pub proof fn lemma_writes_push(p: Panel, a: Seq<Sym>, s: Sym)
    ensures
        writes_on_screen(p, a.push(s)) == (writes_on_screen(p, a) && (is_ramwr(s)
            ==> window_on_screen(panel_step(panel_run(p, a), s)))),
{
    assert(a.push(s).drop_last() =~= a);
    lemma_panel_push(p, a, s);
}

/// Two sequences of bytes one after the other.
pub proof fn lemma_writes_concat(p: Panel, a: Seq<Sym>, b: Seq<Sym>)
    ensures
        writes_on_screen(p, a + b) == (writes_on_screen(p, a) && writes_on_screen(
            panel_run(p, a),
            b,
        )),
    decreases b.len(),
{
    if b.len() == 0 {
        assert(a + b =~= a);
    } else {
        let b0 = b.drop_last();
        lemma_writes_concat(p, a, b0);
        assert((a + b).drop_last() =~= a + b0);
        lemma_panel_concat(p, a, b);
    }
}

/// Bytes that hold no memory-write command start no memory write.
pub proof fn lemma_writes_none(p: Panel, a: Seq<Sym>)
    requires
        forall|i: int| 0 <= i < a.len() ==> !is_ramwr(#[trigger] a[i]),
    ensures
        writes_on_screen(p, a),
    decreases a.len(),
{
    if a.len() > 0 {
        lemma_writes_none(p, a.drop_last());
    }
}

/// An address window that lies on the screen, then pixel data: the one
/// memory write it starts starts on the screen.
pub proof fn lemma_window_data_writes(
    p: Panel,
    x: u16,
    y: u16,
    x2: u16,
    y2: u16,
    bytes: Seq<u8>,
)
    requires
        x <= x2 < WIDTH,
        y <= y2 < HEIGHT,
    ensures
        writes_on_screen(p, window_syms(x, y, x2, y2) + data_syms(bytes)),
{
    let a = seq![Sym { data: false, byte: CMD_CASET }] + data_syms(window_args(x, x2));
    let b = seq![Sym { data: false, byte: CMD_RASET }] + data_syms(window_args(y, y2));
    let c = Sym { data: false, byte: CMD_RAMWR };
    assert(window_syms(x, y, x2, y2) =~= (a + b).push(c));
    assert forall|i: int| 0 <= i < (a + b).len() implies !is_ramwr(#[trigger] (a + b)[i]) by {
        if i >= a.len() {
            assert((a + b)[i] == b[i - a.len()]);
        }
    }
    lemma_writes_none(p, a + b);
    lemma_writes_push(p, a + b, c);
    lemma_panel_push(p, a + b, c);
    lemma_panel_window(p, x, y, x2, y2);
    assert forall|i: int| 0 <= i < data_syms(bytes).len() implies !is_ramwr(
        #[trigger] data_syms(bytes)[i],
    ) by {}
    lemma_writes_none(windowed(p, x, y, x2, y2), data_syms(bytes));
    lemma_writes_concat(p, window_syms(x, y, x2, y2), data_syms(bytes));
}

} // verus!
