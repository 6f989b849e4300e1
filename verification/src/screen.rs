//! What the drawing routines leave on the screen: their operations, put on the
//! lines as [`crate::panel`] describes and received by the panel model there.
use vstd::prelude::*;
use crate::bus::{Op, Pin};
use crate::grid::{cell_index, in_box};
use crate::ili9341::{
    cmd_data_ops, cmd_ops, init_ops, CMD_CASET, CMD_COLMOD, CMD_DISPON, CMD_MADCTL, CMD_RASET,
    CMD_SLPOUT, CMD_SWRESET, COLMOD_RGB565, MADCTL_LANDSCAPE_BGR, window_args,
    fill_ops, pin_op, pixel_ops, sprite_ops, window_end, window_fits, window_ops, FILL_CHUNK, HEIGHT,
    WIDTH,
};
use crate::spi::spi_dma_tx_ops;
use crate::demo::{block_bytes, block_pixel, char_ops, clip_end, clip_start, erase_ops, row_chunk_ops, CHAR_BLOCK};
use crate::grid::lemma_index_cell;
use crate::panel::{
    addressed, after_polled, be16, lemma_cmd, lemma_cmd_data, lemma_panel_addr, lemma_panel_push,
    panel_step, data_syms, frame_bytes, idle, lemma_addr_bytes, lemma_panel_concat,
    lemma_panel_window, lemma_stream_cell, lemma_window, lemma_wire_concat, lemma_wire_one,
    lemma_wire_push, op_syms, op_wire, panel_run, pixel_of, reached, window_syms, wire_state,
    wire_syms, Panel, Sym, Wire,
};

verus! {

/// Drawing a pixel stores its colour in that one cell of the frame memory and
/// leaves every other cell as it was; the lines end at rest, in 8-bit mode,
/// with CS deasserted and no frame cut short.
pub proof fn lemma_draw_pixel(w: Wire, p: Panel, x: u16, y: u16, color: u16)
    requires
        idle(w),
    ensures
        wire_state(w, pixel_ops(x, y, color)) == after_polled(w, true),
        wire_syms(w, pixel_ops(x, y, color)) == window_syms(x, y, x, y) + data_syms(
            seq![(color >> 8u16) as u8, color as u8],
        ),
        panel_run(p, wire_syms(w, pixel_ops(x, y, color))).gram == p.gram.insert(
            (x as int, y as int),
            color,
        ),
{
    let win = window_ops(x, y, x, y);
    let hi = (color >> 8u16) as u8;
    let lo = color as u8;
    let o1 = pin_op(Pin::Dc, true);
    let o2 = pin_op(Pin::Cs, false);
    let o3 = Op::SpiByte(hi);
    let o4 = Op::SpiByte(lo);
    let o5 = pin_op(Pin::Cs, true);
    let tail = seq![o1, o2, o3, o4, o5];
    assert(pixel_ops(x, y, color) =~= win + tail);
    lemma_wire_concat(w, win, tail);
    lemma_window(w, x, y, x, y);
    let w0 = after_polled(w, false);
    // the tail, one operation at a time
    assert(tail =~= seq![o1, o2, o3, o4].push(o5));
    assert(seq![o1, o2, o3, o4] =~= seq![o1, o2, o3].push(o4));
    assert(seq![o1, o2, o3] =~= seq![o1, o2].push(o3));
    assert(seq![o1, o2] =~= seq![o1].push(o2));
    lemma_wire_one(w0, o1);
    lemma_wire_push(w0, seq![o1], o2);
    lemma_wire_push(w0, seq![o1, o2], o3);
    lemma_wire_push(w0, seq![o1, o2, o3], o4);
    lemma_wire_push(w0, seq![o1, o2, o3, o4], o5);
    let w2 = op_wire(op_wire(w0, o1), o2);
    assert(frame_bytes(false, hi as u16) =~= seq![hi]);
    assert(frame_bytes(false, lo as u16) =~= seq![lo]);
    assert(op_syms(w2, o3) =~= seq![Sym { data: true, byte: hi }]);
    assert(op_syms(op_wire(w2, o3), o4) =~= seq![Sym { data: true, byte: lo }]);
    let bytes = seq![hi, lo];
    assert(wire_syms(w0, tail) =~= data_syms(bytes));
    assert(wire_syms(w, pixel_ops(x, y, color)) == window_syms(x, y, x, y) + data_syms(bytes));
    // the panel
    lemma_panel_concat(p, window_syms(x, y, x, y), data_syms(bytes));
    lemma_panel_window(p, x, y, x, y);
    let p1 = panel_run(p, window_syms(x, y, x, y));
    let q = panel_run(p, wire_syms(w, pixel_ops(x, y, color)));
    assert(q == panel_run(p1, data_syms(bytes)));
    lemma_addr_bytes(color);
    assert forall|c: (int, int)|
        #![trigger q.gram.contains_key(c)]
        #![trigger q.gram[c]]
        q.gram.contains_key(c) == p.gram.insert(
        (x as int, y as int),
        color,
    ).contains_key(c) && q.gram[c] == p.gram.insert((x as int, y as int), color)[c] by {
        lemma_stream_cell(p1, x as int, y as int, 1, 1, 0, bytes, c);
        if reached(x as int, y as int, 1, 1, 0, 1, c) {
            assert(c == (x as int, y as int));
            assert(pixel_of(bytes, 0) == color);
        }
    }
    assert(q.gram.dom() =~= p.gram.insert((x as int, y as int), color).dom());
    assert(q.gram =~= p.gram.insert((x as int, y as int), color));
}


/// The bytes of `n` pixels of one colour, most significant byte first.
pub open spec fn fill_bytes(color: u16, n: nat) -> Seq<u8> {
    Seq::new(2 * n, |i: int| if i % 2 == 0 { (color >> 8u16) as u8 } else { color as u8 })
}

/// A 16-bit DMA fill with CS asserted, DC high and 16-bit frames reaches the
/// panel as the pixel bytes of the fill.
pub proof fn lemma_fill16_syms(w: Wire, color: u16, count: u16)
    requires
        w.cs_active,
        w.dc_data,
        w.frame16,
    ensures
        op_syms(w, Op::DmaFill16 { color, count }) == data_syms(fill_bytes(color, count as nat)),
{
    assert(op_syms(w, Op::DmaFill16 { color, count }) =~= data_syms(
        fill_bytes(color, count as nat),
    ));
}

/// Filling the screen stores the colour in every cell of the 320 x 240
/// screen and leaves every cell outside it as it was; the lines end at rest,
/// back in 8-bit mode, with CS deasserted and no frame cut short.
pub proof fn lemma_fill_screen(w: Wire, p: Panel, color: u16)
    requires
        idle(w),
    ensures
        wire_state(w, fill_ops(color)) == after_polled(w, true),
        wire_syms(w, fill_ops(color)) == window_syms(
            0,
            0,
            (WIDTH - 1) as u16,
            (HEIGHT - 1) as u16,
        ) + data_syms(fill_bytes(color, (WIDTH * HEIGHT) as nat)),
        forall|x: int, y: int|
            #![trigger panel_run(p, wire_syms(w, fill_ops(color))).gram.dom().contains((x, y))]
        #![trigger panel_run(p, wire_syms(w, fill_ops(color))).gram[(x, y)]]
            0 <= x < WIDTH && 0 <= y < HEIGHT ==> panel_run(
                p,
                wire_syms(w, fill_ops(color)),
            ).gram.contains_key((x, y)) && panel_run(p, wire_syms(w, fill_ops(color))).gram[(
            x,
            y,
        )] == color,
        forall|c: (int, int)|
            #![trigger panel_run(p, wire_syms(w, fill_ops(color))).gram.dom().contains(c)]
        #![trigger panel_run(p, wire_syms(w, fill_ops(color))).gram[c]]
            !in_box(0, 0, WIDTH as int, HEIGHT as int, c) ==> panel_run(
                p,
                wire_syms(w, fill_ops(color)),
            ).gram.contains_key(c) == p.gram.contains_key(c) && panel_run(
                p,
                wire_syms(w, fill_ops(color)),
            ).gram[c] == p.gram[c],
{
    let x2 = (WIDTH - 1) as u16;
    let y2 = (HEIGHT - 1) as u16;
    let win = window_ops(0, 0, x2, y2);
    let chunk = Op::DmaFill16 { color, count: FILL_CHUNK as u16 };
    let o1 = Op::SpiFrame16(true);
    let o2 = pin_op(Pin::Dc, true);
    let o3 = pin_op(Pin::Cs, false);
    let o6 = Op::WaitIdle;
    let o7 = pin_op(Pin::Cs, true);
    let o8 = Op::SpiFrame16(false);
    let t1 = seq![o1];
    let t2 = t1.push(o2);
    let t3 = t2.push(o3);
    let t4 = t3.push(chunk);
    let t5 = t4.push(chunk);
    let t6 = t5.push(o6);
    let t7 = t6.push(o7);
    let t8 = t7.push(o8);
    assert(fill_ops(color) =~= win + t8);
    lemma_wire_concat(w, win, t8);
    lemma_window(w, 0, 0, x2, y2);
    let w0 = after_polled(w, false);
    lemma_wire_one(w0, o1);
    lemma_wire_push(w0, t1, o2);
    lemma_wire_push(w0, t2, o3);
    lemma_wire_push(w0, t3, chunk);
    lemma_wire_push(w0, t4, chunk);
    lemma_wire_push(w0, t5, o6);
    lemma_wire_push(w0, t6, o7);
    lemma_wire_push(w0, t7, o8);
    let w3 = wire_state(w0, t3);
    lemma_fill16_syms(w3, color, FILL_CHUNK as u16);
    lemma_fill16_syms(op_wire(w3, chunk), color, FILL_CHUNK as u16);
    let half = fill_bytes(color, FILL_CHUNK as nat);
    let bytes = fill_bytes(color, (WIDTH * HEIGHT) as nat);
    assert(bytes =~= half + half);
    assert(data_syms(bytes) =~= data_syms(half) + data_syms(half));
    assert(wire_syms(w0, t8) =~= data_syms(bytes));
    let syms = wire_syms(w, fill_ops(color));
    assert(syms == window_syms(0, 0, x2, y2) + data_syms(bytes));
    // the panel
    lemma_panel_concat(p, window_syms(0, 0, x2, y2), data_syms(bytes));
    lemma_panel_window(p, 0, 0, x2, y2);
    let p1 = panel_run(p, window_syms(0, 0, x2, y2));
    let q = panel_run(p, syms);
    assert(q == panel_run(p1, data_syms(bytes)));
    lemma_addr_bytes(color);
    assert forall|x: int, y: int|
        #![trigger panel_run(p, wire_syms(w, fill_ops(color))).gram.dom().contains((x, y))]
        #![trigger panel_run(p, wire_syms(w, fill_ops(color))).gram[(x, y)]]
        0 <= x < WIDTH && 0 <= y < HEIGHT implies panel_run(
            p,
            wire_syms(w, fill_ops(color)),
        ).gram.contains_key((x, y)) && panel_run(p, wire_syms(w, fill_ops(color))).gram[(x, y)]
            == color by {
        let c = (x, y);
        lemma_stream_cell(p1, 0, 0, WIDTH as int, HEIGHT as int, 0, bytes, c);
        lemma_index_cell(0, 0, WIDTH as int, HEIGHT as int, c);
        let i = cell_index(0, 0, WIDTH as int, c);
        assert(pixel_of(bytes, i) == be16((color >> 8u16) as u8, color as u8));
    }
    assert forall|c: (int, int)|
        #![trigger panel_run(p, wire_syms(w, fill_ops(color))).gram.dom().contains(c)]
        #![trigger panel_run(p, wire_syms(w, fill_ops(color))).gram[c]]
        !in_box(0, 0, WIDTH as int, HEIGHT as int, c) implies panel_run(
            p,
            wire_syms(w, fill_ops(color)),
        ).gram.contains_key(c) == p.gram.contains_key(c) && panel_run(
            p,
            wire_syms(w, fill_ops(color)),
        ).gram[c] == p.gram[c] by {
        lemma_stream_cell(p1, 0, 0, WIDTH as int, HEIGHT as int, 0, bytes, c);
    }
}


/// A window followed by a stream of pixel data stores pixel `k` of the
/// stream in the window's `k`-th cell and leaves every other cell as it was,
/// as long as the stream does not run past the window's last cell.
pub proof fn lemma_window_stream_cell(
    p: Panel,
    x: u16,
    y: u16,
    x2: u16,
    y2: u16,
    bytes: Seq<u8>,
    c: (int, int),
)
    requires
        x <= x2,
        y <= y2,
        bytes.len() % 2 == 0,
        bytes.len() / 2 <= (x2 - x + 1) * (y2 - y + 1),
    ensures
        ({
            let q = panel_run(p, window_syms(x, y, x2, y2) + data_syms(bytes));
            let w = x2 - x + 1;
            let h = y2 - y + 1;
            &&& reached(x as int, y as int, w, h, 0, (bytes.len() / 2) as int, c)
                ==> q.gram.contains_key(c) && q.gram[c] == pixel_of(
                bytes,
                cell_index(x as int, y as int, w, c),
            )
            &&& !reached(x as int, y as int, w, h, 0, (bytes.len() / 2) as int, c)
                ==> q.gram.contains_key(c) == p.gram.contains_key(c) && q.gram[c] == p.gram[c]
        }),
{
    lemma_panel_concat(p, window_syms(x, y, x2, y2), data_syms(bytes));
    lemma_panel_window(p, x, y, x2, y2);
    let p1 = panel_run(p, window_syms(x, y, x2, y2));
    lemma_stream_cell(p1, x as int, y as int, x2 - x + 1, y2 - y + 1, 0, bytes, c);
}

/// A sprite of any data reaches the panel as its window followed by the data
/// as pixel bytes, and leaves the lines at rest.
pub proof fn lemma_sprite_wire(wire: Wire, x: u16, y: u16, w: u16, h: u16, data: Seq<u8>)
    requires
        idle(wire),
    ensures
        wire_state(wire, sprite_ops(x, y, w, h, data)) == after_polled(wire, true),
        wire_syms(wire, sprite_ops(x, y, w, h, data)) == window_syms(
            x,
            y,
            window_end(x, w),
            window_end(y, h),
        ) + data_syms(data),
{
    let x2 = window_end(x, w);
    let y2 = window_end(y, h);
    let win = window_ops(x, y, x2, y2);
    let o1 = pin_op(Pin::Dc, true);
    let o2 = pin_op(Pin::Cs, false);
    let o3 = Op::DmaTx(data);
    let o4 = Op::WaitIdle;
    let o5 = pin_op(Pin::Cs, true);
    lemma_window(wire, x, y, x2, y2);
    let w0 = after_polled(wire, false);
    let t1 = seq![o1];
    let t2 = t1.push(o2);
    lemma_wire_one(w0, o1);
    lemma_wire_push(w0, t1, o2);
    if data.len() == 0 {
        let t4 = t2.push(o4);
        let t5 = t4.push(o5);
        assert(spi_dma_tx_ops(data) =~= Seq::<Op>::empty());
        assert(sprite_ops(x, y, w, h, data) =~= win + t5);
        lemma_wire_concat(wire, win, t5);
        lemma_wire_push(w0, t2, o4);
        lemma_wire_push(w0, t4, o5);
        assert(wire_syms(w0, t5) =~= data_syms(data));
    } else {
        let t3 = t2.push(o3);
        let t4 = t3.push(o4);
        let t5 = t4.push(o5);
        assert(spi_dma_tx_ops(data) =~= seq![o3]);
        assert(sprite_ops(x, y, w, h, data) =~= win + t5);
        lemma_wire_concat(wire, win, t5);
        lemma_wire_push(w0, t2, o3);
        lemma_wire_push(w0, t3, o4);
        lemma_wire_push(w0, t4, o5);
        assert(wire_syms(w0, t5) =~= data_syms(data));
    }
}

/// Drawing a sprite whose data holds exactly `w * h` pixels stores pixel
/// `j * w + i` of the data in the cell `i` columns and `j` rows from its
/// corner, and leaves every cell outside the sprite as it was; the lines end
/// at rest with CS deasserted and no frame cut short.
pub proof fn lemma_draw_sprite(
    wire: Wire,
    p: Panel,
    x: u16,
    y: u16,
    w: u16,
    h: u16,
    data: Seq<u8>,
)
    requires
        idle(wire),
        1 <= w,
        1 <= h,
        window_fits(x, w),
        window_fits(y, h),
        data.len() == 2 * w * h,
    ensures
        wire_state(wire, sprite_ops(x, y, w, h, data)) == after_polled(wire, true),
        forall|i: int, j: int|
            #![trigger panel_run(p, wire_syms(wire, sprite_ops(x, y, w, h, data))).gram.dom().contains((x + i, y + j))]
            #![trigger panel_run(p, wire_syms(wire, sprite_ops(x, y, w, h, data))).gram[(x + i, y + j)]]
            0 <= i < w && 0 <= j < h ==> panel_run(
                p,
                wire_syms(wire, sprite_ops(x, y, w, h, data)),
            ).gram.contains_key((x + i, y + j)) && panel_run(
                p,
                wire_syms(wire, sprite_ops(x, y, w, h, data)),
            ).gram[(x + i, y + j)] == pixel_of(data, j * w + i),
        forall|c: (int, int)|
            #![trigger panel_run(p, wire_syms(wire, sprite_ops(x, y, w, h, data))).gram.dom().contains(c)]
            #![trigger panel_run(p, wire_syms(wire, sprite_ops(x, y, w, h, data))).gram[c]]
            !in_box(x as int, y as int, w as int, h as int, c) ==> panel_run(
                p,
                wire_syms(wire, sprite_ops(x, y, w, h, data)),
            ).gram.contains_key(c) == p.gram.contains_key(c) && panel_run(
                p,
                wire_syms(wire, sprite_ops(x, y, w, h, data)),
            ).gram[c] == p.gram[c],
{
    let x2 = window_end(x, w);
    let y2 = window_end(y, h);
    assert((w as int) * (h as int) >= 1) by (nonlinear_arith)
        requires 1 <= w, 1 <= h;
    assert(data.len() == 2 * ((w as int) * (h as int))) by (nonlinear_arith)
        requires data.len() == 2 * w * h;
    lemma_sprite_wire(wire, x, y, w, h, data);
    assert((w as int) * (h as int) == (x2 - x + 1) * (y2 - y + 1));
    assert forall|i: int, j: int|
        #![trigger panel_run(p, wire_syms(wire, sprite_ops(x, y, w, h, data))).gram.dom().contains((x + i, y + j))]
        #![trigger panel_run(p, wire_syms(wire, sprite_ops(x, y, w, h, data))).gram[(x + i, y + j)]]
        0 <= i < w && 0 <= j < h implies panel_run(
            p,
            wire_syms(wire, sprite_ops(x, y, w, h, data)),
        ).gram.contains_key((x + i, y + j)) && panel_run(
            p,
            wire_syms(wire, sprite_ops(x, y, w, h, data)),
        ).gram[(x + i, y + j)] == pixel_of(data, j * w + i) by {
        let c = (x + i, y + j);
        lemma_window_stream_cell(p, x, y, x2, y2, data, c);
        lemma_index_cell(x as int, y as int, w as int, h as int, c);
        assert(cell_index(x as int, y as int, w as int, c) == j * w + i);
    }
    assert forall|c: (int, int)|
        #![trigger panel_run(p, wire_syms(wire, sprite_ops(x, y, w, h, data))).gram.dom().contains(c)]
        #![trigger panel_run(p, wire_syms(wire, sprite_ops(x, y, w, h, data))).gram[c]]
        !in_box(x as int, y as int, w as int, h as int, c) implies panel_run(
            p,
            wire_syms(wire, sprite_ops(x, y, w, h, data)),
        ).gram.contains_key(c) == p.gram.contains_key(c) && panel_run(
            p,
            wire_syms(wire, sprite_ops(x, y, w, h, data)),
        ).gram[c] == p.gram[c] by {
        lemma_window_stream_cell(p, x, y, x2, y2, data, c);
    }
}


/// Erasing a block paints every cell of it black and leaves every cell
/// outside it as it was; the lines end at rest, back in 8-bit mode, with CS
/// deasserted and no frame cut short.
pub proof fn lemma_erase_block(wire: Wire, p: Panel, x: u16, y: u16, w: u16, h: u16)
    requires
        idle(wire),
        window_fits(x, w),
        window_fits(y, h),
        1 <= w * h <= 0xFFFF,
    ensures
        wire_state(wire, erase_ops(x, y, w, h)) == after_polled(wire, true),
        wire_syms(wire, erase_ops(x, y, w, h)) == window_syms(
            x,
            y,
            window_end(x, w),
            window_end(y, h),
        ) + data_syms(fill_bytes(0, (w * h) as u16 as nat)),
        forall|c: (int, int)|
            #![trigger panel_run(p, wire_syms(wire, erase_ops(x, y, w, h))).gram.dom().contains(c)]
            #![trigger panel_run(p, wire_syms(wire, erase_ops(x, y, w, h))).gram[c]]
            in_box(x as int, y as int, w as int, h as int, c) ==> panel_run(
                p,
                wire_syms(wire, erase_ops(x, y, w, h)),
            ).gram.contains_key(c) && panel_run(p, wire_syms(wire, erase_ops(x, y, w, h))).gram[c]
                == 0,
        forall|c: (int, int)|
            #![trigger panel_run(p, wire_syms(wire, erase_ops(x, y, w, h))).gram.dom().contains(c)]
            #![trigger panel_run(p, wire_syms(wire, erase_ops(x, y, w, h))).gram[c]]
            !in_box(x as int, y as int, w as int, h as int, c) ==> panel_run(
                p,
                wire_syms(wire, erase_ops(x, y, w, h)),
            ).gram.contains_key(c) == p.gram.contains_key(c) && panel_run(
                p,
                wire_syms(wire, erase_ops(x, y, w, h)),
            ).gram[c] == p.gram[c],
{
    assert(1 <= w && 1 <= h) by (nonlinear_arith)
        requires 1 <= w * h, 0 <= w, 0 <= h;
    let x2 = window_end(x, w);
    let y2 = window_end(y, h);
    let n = (w * h) as u16;
    let win = window_ops(x, y, x2, y2);
    let fill = Op::DmaFill16 { color: 0, count: n };
    let o1 = pin_op(Pin::Dc, true);
    let o2 = pin_op(Pin::Cs, false);
    let o3 = Op::SpiFrame16(true);
    let o5 = Op::WaitIdle;
    let o6 = Op::SpiFrame16(false);
    let o7 = pin_op(Pin::Cs, true);
    let t1 = seq![o1];
    let t2 = t1.push(o2);
    let t3 = t2.push(o3);
    let t4 = t3.push(fill);
    let t5 = t4.push(o5);
    let t6 = t5.push(o6);
    let t7 = t6.push(o7);
    assert(erase_ops(x, y, w, h) =~= win + t7);
    lemma_wire_concat(wire, win, t7);
    lemma_window(wire, x, y, x2, y2);
    let w0 = after_polled(wire, false);
    lemma_wire_one(w0, o1);
    lemma_wire_push(w0, t1, o2);
    lemma_wire_push(w0, t2, o3);
    lemma_wire_push(w0, t3, fill);
    lemma_wire_push(w0, t4, o5);
    lemma_wire_push(w0, t5, o6);
    lemma_wire_push(w0, t6, o7);
    lemma_fill16_syms(wire_state(w0, t3), 0, n);
    let bytes = fill_bytes(0, n as nat);
    assert(wire_syms(w0, t7) =~= data_syms(bytes));
    assert(wire_syms(wire, erase_ops(x, y, w, h)) == window_syms(x, y, x2, y2) + data_syms(bytes));
    assert((w as int) * (h as int) == (x2 - x + 1) * (y2 - y + 1));
    lemma_addr_bytes(0);
    assert forall|c: (int, int)|
        #![trigger panel_run(p, wire_syms(wire, erase_ops(x, y, w, h))).gram.dom().contains(c)]
        #![trigger panel_run(p, wire_syms(wire, erase_ops(x, y, w, h))).gram[c]]
        in_box(x as int, y as int, w as int, h as int, c) implies panel_run(
            p,
            wire_syms(wire, erase_ops(x, y, w, h)),
        ).gram.contains_key(c) && panel_run(p, wire_syms(wire, erase_ops(x, y, w, h))).gram[c]
            == 0 by {
        lemma_window_stream_cell(p, x, y, x2, y2, bytes, c);
        lemma_index_cell(x as int, y as int, w as int, h as int, c);
        let i = cell_index(x as int, y as int, w as int, c);
        assert(pixel_of(bytes, i) == be16(0, 0));
    }
    assert forall|c: (int, int)|
        #![trigger panel_run(p, wire_syms(wire, erase_ops(x, y, w, h))).gram.dom().contains(c)]
        #![trigger panel_run(p, wire_syms(wire, erase_ops(x, y, w, h))).gram[c]]
        !in_box(x as int, y as int, w as int, h as int, c) implies panel_run(
            p,
            wire_syms(wire, erase_ops(x, y, w, h)),
        ).gram.contains_key(c) == p.gram.contains_key(c) && panel_run(
            p,
            wire_syms(wire, erase_ops(x, y, w, h)),
        ).gram[c] == p.gram[c] by {
        lemma_window_stream_cell(p, x, y, x2, y2, bytes, c);
    }
}


/// The visible columns `start..start + w` of rows `0..n` of a 16 x 16 block,
/// row after row.
pub open spec fn rows_bytes(bytes: Seq<u8>, start: int, w: int, n: int) -> Seq<u8>
    decreases n,
{
    if n <= 0 {
        Seq::empty()
    } else {
        let lo = 2 * (16 * (n - 1) + start);
        rows_bytes(bytes, start, w, n - 1) + bytes.subrange(lo, lo + 2 * w)
    }
}

/// The visible columns of the rows of a block, one after the other: pixel
/// `r * w + j` is pixel `start + j` of row `r`.
pub proof fn lemma_rows_bytes(bytes: Seq<u8>, start: int, w: int, n: int)
    requires
        bytes.len() == 512,
        0 <= start,
        1 <= w,
        start + w <= 16,
        0 <= n <= 16,
    ensures
        rows_bytes(bytes, start, w, n).len() == 2 * w * n,
        forall|r: int, j: int|
            0 <= r < n && 0 <= j < w ==> #[trigger] pixel_of(rows_bytes(bytes, start, w, n), r * w + j)
                == pixel_of(bytes, 16 * r + start + j),
    decreases n,
{
    if n > 0 {
        lemma_rows_bytes(bytes, start, w, n - 1);
        let prev = rows_bytes(bytes, start, w, n - 1);
        let lo = 2 * (16 * (n - 1) + start);
        let cur = rows_bytes(bytes, start, w, n);
        assert(2 * w * n == 2 * w * (n - 1) + 2 * w) by (nonlinear_arith);
        assert(prev.len() == 2 * w * (n - 1));
        assert forall|r: int, j: int|
            0 <= r < n && 0 <= j < w implies #[trigger] pixel_of(cur, r * w + j) == pixel_of(
                bytes,
                16 * r + start + j,
            ) by {
            if r < n - 1 {
                assert(2 * (r * w + j) + 1 < 2 * w * (n - 1)) by (nonlinear_arith)
                    requires 0 <= r < n - 1, 0 <= j < w;
                assert(pixel_of(cur, r * w + j) == pixel_of(prev, r * w + j));
            } else {
                assert(2 * (r * w + j) == 2 * w * (n - 1) + 2 * j) by (nonlinear_arith)
                    requires r == n - 1;
            }
        }
    }
}

/// Row-by-row transfers of a block reach the panel as the visible columns of
/// its rows, one after the other.
pub proof fn lemma_row_chunks_wire(w: Wire, bytes: Seq<u8>, start: int, cols: int, n: int)
    requires
        w.cs_active,
        w.dc_data,
        !w.frame16,
        bytes.len() == 512,
        0 <= start,
        1 <= cols,
        start + cols <= 16,
        0 <= n <= 16,
    ensures
        wire_state(w, row_chunk_ops(bytes, start, cols, n)) == (if n == 0 {
            w
        } else {
            Wire { busy: true, ..w }
        }),
        wire_syms(w, row_chunk_ops(bytes, start, cols, n)) == data_syms(
            rows_bytes(bytes, start, cols, n),
        ),
    decreases n,
{
    if n == 0 {
        assert(row_chunk_ops(bytes, start, cols, n) =~= Seq::<Op>::empty());
        assert(data_syms(rows_bytes(bytes, start, cols, n)) =~= Seq::<Sym>::empty());
    } else {
        lemma_row_chunks_wire(w, bytes, start, cols, n - 1);
        let lo = 2 * (16 * (n - 1) + start);
        let chunk = bytes.subrange(lo, lo + 2 * cols);
        let prev = row_chunk_ops(bytes, start, cols, n - 1);
        assert(row_chunk_ops(bytes, start, cols, n) == prev.push(Op::DmaTx(chunk)));
        lemma_wire_push(w, prev, Op::DmaTx(chunk));
        assert(data_syms(rows_bytes(bytes, start, cols, n)) =~= data_syms(
            rows_bytes(bytes, start, cols, n - 1),
        ) + data_syms(chunk));
    }
}

/// Pixel `16 * r + c` of a rendered block is the block's pixel (`r`, `c`).
pub proof fn lemma_block_pixel(glyph: Seq<u8>, color: u16, r: int, c: int)
    requires
        0 <= r < 16,
        0 <= c < 16,
    ensures
        pixel_of(block_bytes(glyph, color), 16 * r + c) == block_pixel(glyph, color, r, c),
{
    let k = 16 * r + c;
    assert((2 * k) / 2 == k && (2 * k + 1) / 2 == k);
    assert(k / 16 == r && k % 16 == c);
    lemma_addr_bytes(block_pixel(glyph, color, r, c));
}

/// The screen column of the first visible column of a block at `x`.
pub open spec fn char_left(x: int) -> int {
    x + clip_start(x)
}

/// The number of visible columns of a block at `x`.
pub open spec fn char_cols(x: int) -> int {
    clip_end(x) - clip_start(x)
}

/// The pixel bytes of a character block whose left edge is at `x`, in the
/// order they are sent: the whole block, or the visible columns of each row.
pub open spec fn char_stream(glyph: Seq<u8>, x: int, color: u16) -> Seq<u8> {
    if char_cols(x) == CHAR_BLOCK {
        block_bytes(glyph, color)
    } else {
        rows_bytes(block_bytes(glyph, color), clip_start(x), char_cols(x), 16)
    }
}

/// Drawing a character block whose left edge is at `x` stores, in the cell
/// `j` columns right of its first visible column and `r` rows down, the
/// block's pixel (`r`, `clip_start(x) + j`): the glyph scaled 2x, clipped to
/// the screen's columns. Every cell outside the visible part is left as it
/// was; the lines end at rest with CS deasserted and no frame cut short.
#[verifier::spinoff_prover]
#[verifier::rlimit(40)]
pub proof fn lemma_draw_char(wire: Wire, p: Panel, glyph: Seq<u8>, x: int, y: i32, color: u16)
    requires
        idle(wire),
        clip_start(x) < clip_end(x),
        window_fits(y as u16, CHAR_BLOCK),
    ensures
        wire_state(wire, char_ops(glyph, x, y, color)) == after_polled(wire, true),
        wire_syms(wire, char_ops(glyph, x, y, color)) == window_syms(
            char_left(x) as u16,
            y as u16,
            window_end(char_left(x) as u16, char_cols(x) as u16),
            window_end(y as u16, CHAR_BLOCK),
        ) + data_syms(char_stream(glyph, x, color)),
        forall|r: int, j: int|
            #![trigger panel_run(p, wire_syms(wire, char_ops(glyph, x, y, color))).gram.dom().contains((char_left(x) + j, (y as u16) + r))]
            #![trigger panel_run(p, wire_syms(wire, char_ops(glyph, x, y, color))).gram[(char_left(x) + j, (y as u16) + r)]]
            0 <= r < 16 && 0 <= j < char_cols(x) ==> panel_run(
                p,
                wire_syms(wire, char_ops(glyph, x, y, color)),
            ).gram.contains_key((char_left(x) + j, (y as u16) + r)) && panel_run(
                p,
                wire_syms(wire, char_ops(glyph, x, y, color)),
            ).gram[(char_left(x) + j, (y as u16) + r)] == block_pixel(
                glyph,
                color,
                r,
                clip_start(x) + j,
            ),
        forall|c: (int, int)|
            #![trigger panel_run(p, wire_syms(wire, char_ops(glyph, x, y, color))).gram.dom().contains(c)]
            #![trigger panel_run(p, wire_syms(wire, char_ops(glyph, x, y, color))).gram[c]]
            !in_box(char_left(x), (y as u16) as int, char_cols(x), 16, c) ==> panel_run(
                p,
                wire_syms(wire, char_ops(glyph, x, y, color)),
            ).gram.contains_key(c) == p.gram.contains_key(c) && panel_run(
                p,
                wire_syms(wire, char_ops(glyph, x, y, color)),
            ).gram[c] == p.gram[c],
{
    let start = clip_start(x);
    let cols = char_cols(x);
    let dx = (x + start) as u16;
    let dy = y as u16;
    assert(dx as int == char_left(x));
    let x2 = window_end(dx, cols as u16);
    let y2 = window_end(dy, CHAR_BLOCK);
    let bytes = block_bytes(glyph, color);
    let win = window_ops(dx, dy, x2, y2);
    let o1 = pin_op(Pin::Dc, true);
    let o2 = pin_op(Pin::Cs, false);
    let o4 = Op::WaitIdle;
    let o5 = pin_op(Pin::Cs, true);
    let body = if cols == CHAR_BLOCK {
        seq![Op::DmaTx(bytes)]
    } else {
        row_chunk_ops(bytes, start, cols, 16)
    };
    let head = seq![o1, o2];
    let tail = seq![o4, o5];
    assert(char_ops(glyph, x, y, color) =~= win + head + body + tail);
    lemma_wire_concat(wire, win, head);
    lemma_wire_concat(wire, win + head, body);
    lemma_wire_concat(wire, win + head + body, tail);
    lemma_window(wire, dx, dy, x2, y2);
    let w0 = after_polled(wire, false);
    assert(head =~= seq![o1].push(o2));
    lemma_wire_one(w0, o1);
    lemma_wire_push(w0, seq![o1], o2);
    let w1 = wire_state(w0, head);
    assert(wire_syms(w0, head) =~= Seq::<Sym>::empty());
    // the visible bytes, in the order they are sent
    let vis = if cols == CHAR_BLOCK {
        bytes
    } else {
        rows_bytes(bytes, start, cols, 16)
    };
    if cols == CHAR_BLOCK {
        lemma_wire_one(w1, Op::DmaTx(bytes));
        assert(op_syms(w1, Op::DmaTx(bytes)) =~= data_syms(bytes));
    } else {
        lemma_row_chunks_wire(w1, bytes, start, cols, 16);
    }
    let w2 = wire_state(w1, body);
    assert(w2 == Wire { busy: true, ..w1 });
    assert(tail =~= seq![o4].push(o5));
    lemma_wire_one(w2, o4);
    lemma_wire_push(w2, seq![o4], o5);
    assert(wire_syms(w2, tail) =~= Seq::<Sym>::empty());
    assert(wire_syms(wire, char_ops(glyph, x, y, color)) =~= window_syms(dx, dy, x2, y2)
        + data_syms(vis));
    if cols != CHAR_BLOCK {
        lemma_rows_bytes(bytes, start, cols, 16);
    }
    assert(vis.len() == 2 * (cols * 16)) by (nonlinear_arith)
        requires vis.len() == 2 * cols * 16 || (cols == 16 && vis.len() == 512);
    assert forall|r: int, j: int|
        #![trigger panel_run(p, wire_syms(wire, char_ops(glyph, x, y, color))).gram.dom().contains((char_left(x) + j, (y as u16) + r))]
        #![trigger panel_run(p, wire_syms(wire, char_ops(glyph, x, y, color))).gram[(char_left(x) + j, (y as u16) + r)]]
        0 <= r < 16 && 0 <= j < char_cols(x) implies panel_run(
            p,
            wire_syms(wire, char_ops(glyph, x, y, color)),
        ).gram.contains_key((char_left(x) + j, (y as u16) + r)) && panel_run(
            p,
            wire_syms(wire, char_ops(glyph, x, y, color)),
        ).gram[(char_left(x) + j, (y as u16) + r)] == block_pixel(
            glyph,
            color,
            r,
            clip_start(x) + j,
        ) by {
        let c = (char_left(x) + j, (y as u16) + r);
        lemma_window_stream_cell(p, dx, dy, x2, y2, vis, c);
        lemma_index_cell(dx as int, dy as int, cols, 16, c);
        assert(cell_index(dx as int, dy as int, cols, c) == r * cols + j);
        lemma_block_pixel(glyph, color, r, start + j);
        if cols == CHAR_BLOCK {
            assert(r * cols + j == 16 * r + start + j);
        } else {
            assert(pixel_of(vis, r * cols + j) == pixel_of(bytes, 16 * r + start + j));
        }
    }
    assert forall|c: (int, int)|
        #![trigger panel_run(p, wire_syms(wire, char_ops(glyph, x, y, color))).gram.dom().contains(c)]
        #![trigger panel_run(p, wire_syms(wire, char_ops(glyph, x, y, color))).gram[c]]
        !in_box(char_left(x), (y as u16) as int, char_cols(x), 16, c) implies panel_run(
            p,
            wire_syms(wire, char_ops(glyph, x, y, color)),
        ).gram.contains_key(c) == p.gram.contains_key(c) && panel_run(
            p,
            wire_syms(wire, char_ops(glyph, x, y, color)),
        ).gram[c] == p.gram[c] by {
        lemma_window_stream_cell(p, dx, dy, x2, y2, vis, c);
    }
}


/// An operation that does not touch the SPI lines: the panel reset line or a
/// delay.
pub open spec fn inert(op: Op) -> bool {
    op is DelayMs || op == (Op::PinWrite { pin: Pin::Rst, high: true }) || op == (Op::PinWrite {
        pin: Pin::Rst,
        high: false,
    })
}

/// Operations that do not touch the SPI lines send nothing and leave the
/// lines as they were.
pub proof fn lemma_wire_inert(w: Wire, s: Seq<Op>)
    requires
        forall|i: int| 0 <= i < s.len() ==> inert(#[trigger] s[i]),
    ensures
        wire_state(w, s) == w,
        wire_syms(w, s) == Seq::<Sym>::empty(),
    decreases s.len(),
{
    if s.len() > 0 {
        assert(inert(s[0]));
        lemma_wire_inert(w, s.drop_first());
        assert(wire_syms(w, s) =~= Seq::<Sym>::empty());
    }
}

/// Initialising the panel sets its address window to the whole 320 x 240
/// screen and leaves its frame memory as it was; the lines end at rest with
/// CS deasserted and no frame cut short.
pub proof fn lemma_init(w: Wire, p: Panel)
    requires
        idle(w),
    ensures
        wire_state(w, init_ops()) == after_polled(w, false),
        panel_run(p, wire_syms(w, init_ops())).col_start == 0,
        panel_run(p, wire_syms(w, init_ops())).col_end == WIDTH - 1,
        panel_run(p, wire_syms(w, init_ops())).row_start == 0,
        panel_run(p, wire_syms(w, init_ops())).row_end == HEIGHT - 1,
        panel_run(p, wire_syms(w, init_ops())).gram == p.gram,
{
    let reset = seq![
        Op::PinWrite { pin: Pin::Rst, high: true },
        Op::DelayMs(10),
        Op::PinWrite { pin: Pin::Rst, high: false },
        Op::DelayMs(20),
        Op::PinWrite { pin: Pin::Rst, high: true },
        Op::DelayMs(150),
    ];
    let d150 = seq![Op::DelayMs(150)];
    let d255 = seq![Op::DelayMs(255)];
    let d10 = seq![Op::DelayMs(10)];
    let cols = seq![0x00u8, 0x00, 0x01, 0x3F];
    let rows = seq![0x00u8, 0x00, 0x00, 0xEF];
    assert((0u16 >> 8u16) as u8 == 0u8 && 0u16 as u8 == 0u8) by (bit_vector);
    assert((319u16 >> 8u16) as u8 == 1u8 && 319u16 as u8 == 0x3Fu8) by (bit_vector);
    assert((239u16 >> 8u16) as u8 == 0u8 && 239u16 as u8 == 0xEFu8) by (bit_vector);
    assert(cols =~= window_args(0, 319));
    assert(rows =~= window_args(0, 239));
    let a1 = cmd_ops(CMD_SWRESET);
    let a2 = cmd_ops(CMD_SLPOUT);
    let a3 = cmd_data_ops(CMD_COLMOD, seq![COLMOD_RGB565]);
    let a4 = cmd_data_ops(CMD_MADCTL, seq![MADCTL_LANDSCAPE_BGR]);
    let a5 = cmd_data_ops(CMD_CASET, cols);
    let a6 = cmd_data_ops(CMD_RASET, rows);
    let a7 = cmd_ops(CMD_DISPON);
    assert(init_ops() =~= reset + a1 + d150 + a2 + d255 + a3 + a4 + a5 + a6 + a7 + d10);
    // the lines, piece by piece
    lemma_wire_inert(w, reset);
    lemma_wire_concat(w, reset, a1);
    lemma_cmd(w, CMD_SWRESET);
    let w1 = after_polled(w, false);
    let s1 = reset + a1;
    lemma_wire_concat(w, s1, d150);
    lemma_wire_inert(w1, d150);
    let s2 = s1 + d150;
    lemma_wire_concat(w, s2, a2);
    lemma_cmd(w1, CMD_SLPOUT);
    let s3 = s2 + a2;
    lemma_wire_concat(w, s3, d255);
    lemma_wire_inert(w1, d255);
    let s4 = s3 + d255;
    lemma_wire_concat(w, s4, a3);
    lemma_cmd_data(w1, CMD_COLMOD, seq![COLMOD_RGB565]);
    let w2 = after_polled(w, true);
    let s5 = s4 + a3;
    lemma_wire_concat(w, s5, a4);
    lemma_cmd_data(w2, CMD_MADCTL, seq![MADCTL_LANDSCAPE_BGR]);
    let s6 = s5 + a4;
    lemma_wire_concat(w, s6, a5);
    lemma_cmd_data(w2, CMD_CASET, cols);
    let s7 = s6 + a5;
    lemma_wire_concat(w, s7, a6);
    lemma_cmd_data(w2, CMD_RASET, rows);
    let s8 = s7 + a6;
    lemma_wire_concat(w, s8, a7);
    lemma_cmd(w2, CMD_DISPON);
    let s9 = s8 + a7;
    lemma_wire_concat(w, s9, d10);
    lemma_wire_inert(w1, d10);
    assert(after_polled(w2, false) == w1);
    assert(after_polled(w1, true) == w2);
    // what the panel receives
    let c1 = seq![Sym { data: false, byte: CMD_SWRESET }];
    let c2 = seq![Sym { data: false, byte: CMD_SLPOUT }];
    let c3 = seq![Sym { data: false, byte: CMD_COLMOD }] + data_syms(seq![COLMOD_RGB565]);
    let c4 = seq![Sym { data: false, byte: CMD_MADCTL }] + data_syms(seq![MADCTL_LANDSCAPE_BGR]);
    let c5 = seq![Sym { data: false, byte: CMD_CASET }] + data_syms(cols);
    let c6 = seq![Sym { data: false, byte: CMD_RASET }] + data_syms(rows);
    let c7 = seq![Sym { data: false, byte: CMD_DISPON }];
    let syms = wire_syms(w, init_ops());
    assert(syms =~= c1 + c2 + c3 + c4 + c5 + c6 + c7);
    // the panel, piece by piece
    let q1 = panel_step(p, c1[0]);
    let q2 = panel_step(q1, c2[0]);
    lemma_panel_push(p, Seq::empty(), c1[0]);
    assert(c1 =~= Seq::<Sym>::empty().push(c1[0]));
    assert(panel_run(p, Seq::<Sym>::empty()) == p);
    lemma_panel_push(p, c1, c2[0]);
    assert(c1 + c2 =~= c1.push(c2[0]));
    let d1 = Sym { data: true, byte: COLMOD_RGB565 };
    let d2 = Sym { data: true, byte: MADCTL_LANDSCAPE_BGR };
    assert(c3 =~= seq![c3[0]].push(d1));
    assert(c4 =~= seq![c4[0]].push(d2));
    lemma_panel_concat(p, c1 + c2, c3);
    lemma_panel_push(q2, seq![c3[0]], d1);
    lemma_panel_push(q2, Seq::empty(), c3[0]);
    assert(seq![c3[0]] =~= Seq::<Sym>::empty().push(c3[0]));
    assert(panel_run(q2, Seq::<Sym>::empty()) == q2);
    let q3 = panel_step(panel_step(q2, c3[0]), d1);
    lemma_panel_concat(p, c1 + c2 + c3, c4);
    lemma_panel_push(q3, seq![c4[0]], d2);
    lemma_panel_push(q3, Seq::empty(), c4[0]);
    assert(seq![c4[0]] =~= Seq::<Sym>::empty().push(c4[0]));
    assert(panel_run(q3, Seq::<Sym>::empty()) == q3);
    let q4 = panel_step(panel_step(q3, c4[0]), d2);
    assert(q4.gram == p.gram);
    lemma_panel_concat(p, c1 + c2 + c3 + c4, c5);
    lemma_panel_addr(q4, CMD_CASET, 0, 319);
    let q5 = addressed(q4, CMD_CASET, 0, 319);
    lemma_panel_concat(p, c1 + c2 + c3 + c4 + c5, c6);
    lemma_panel_addr(q5, CMD_RASET, 0, 239);
    let q6 = addressed(q5, CMD_RASET, 0, 239);
    lemma_panel_concat(p, c1 + c2 + c3 + c4 + c5 + c6, c7);
    lemma_panel_push(q6, Seq::empty(), c7[0]);
    assert(c7 =~= Seq::<Sym>::empty().push(c7[0]));
    assert(panel_run(q6, Seq::<Sym>::empty()) == q6);
}

} // verus!
