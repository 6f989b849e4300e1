//! What the demo and the colour-cycling loop do to the screen over a whole
//! frame: every address window they write into lies on the 320 x 240 screen,
//! they change no cell off it, and they leave the lines at rest without
//! cutting a frame short; the colour-cycling loop paints every cell of the
//! screen with its frame's colour.
use vstd::prelude::*;
use crate::bus::Op;
use crate::demo::{
    block_pixel,
    lemma_font_glyph_entry,
    char_ops, clip_end, clip_start, erase_ops, font_glyph, frame_ops, lemma_sprite_on_screen,
    on_screen, spec_star_color, star_ops, star_sx, star_sy, stars_ops, sprite_x, sprite_y,
    text_char_ops, text_color, text_ops, trail_ops, char_x, moved_z, initial_view, next_view,
    DemoView, Star, CHAR_BLOCK,
    SPRITE_SIZE, TEXT, TEXT_WIDTH, TEXT_Y,
};
use crate::grid::in_box;
use crate::ili9341::{fill_ops, pixel_ops, sprite_ops, window_end, window_fits, HEIGHT, WIDTH};
use crate::palette::{rainbow_frame_ops, FRAME_DELAY_MS, RAINBOW, RAINBOW_LEN};
use crate::panel::{
    idle, lemma_panel_concat, lemma_window_data_writes, lemma_window_stream_stays,
    lemma_wire_concat, lemma_writes_concat, panel_run, wire_state, wire_syms, writes_on_screen,
    Panel, Wire,
};
use crate::screen::{
    char_cols, char_left, char_stream, fill_bytes, lemma_draw_char, lemma_draw_pixel, lemma_erase_block, lemma_fill_screen,
    lemma_sprite_wire, lemma_wire_inert,
};

verus! {

/// Cell `c` of panel `q` holds what it holds in panel `p`.
pub open spec fn same_cell(p: Panel, q: Panel, c: (int, int)) -> bool {
    q.gram.contains_key(c) == p.gram.contains_key(c) && q.gram[c] == p.gram[c]
}

/// Whether `c` is a cell of the 320 x 240 screen.
pub open spec fn screen_cell(c: (int, int)) -> bool {
    in_box(0, 0, WIDTH as int, HEIGHT as int, c)
}

/// `ops`, run from the lines `w` and the panel `p`, leave the lines at rest
/// with no more frames cut short than before, start every memory write with
/// the panel's window on the screen, and change no cell off the screen.
pub open spec fn screen_safe(w: Wire, p: Panel, ops: Seq<Op>) -> bool {
    &&& idle(wire_state(w, ops))
    &&& wire_state(w, ops).glitch == w.glitch
    &&& writes_on_screen(p, wire_syms(w, ops))
    &&& forall|c: (int, int)|
        #![trigger same_cell(p, panel_run(p, wire_syms(w, ops)), c)]
        !screen_cell(c) ==> same_cell(p, panel_run(p, wire_syms(w, ops)), c)
}

proof fn lemma_safe_empty(w: Wire, p: Panel)
    requires
        idle(w),
    ensures
        screen_safe(w, p, Seq::empty()),
{
    assert(wire_syms(w, Seq::empty()) == Seq::<crate::panel::Sym>::empty());
    assert(panel_run(p, Seq::empty()) == p);
}

/// Two screen-safe runs one after the other are screen-safe.
proof fn lemma_safe_concat(w: Wire, p: Panel, a: Seq<Op>, b: Seq<Op>)
    requires
        screen_safe(w, p, a),
        screen_safe(wire_state(w, a), panel_run(p, wire_syms(w, a)), b),
    ensures
        screen_safe(w, p, a + b),
{
    lemma_wire_concat(w, a, b);
    let w1 = wire_state(w, a);
    let p1 = panel_run(p, wire_syms(w, a));
    lemma_panel_concat(p, wire_syms(w, a), wire_syms(w1, b));
    lemma_writes_concat(p, wire_syms(w, a), wire_syms(w1, b));
    let q = panel_run(p, wire_syms(w, a + b));
    assert(q == panel_run(p1, wire_syms(w1, b)));
    assert forall|c: (int, int)|
        #![trigger same_cell(p, panel_run(p, wire_syms(w, a + b)), c)]
        !screen_cell(c) implies same_cell(p, panel_run(p, wire_syms(w, a + b)), c) by {
        assert(same_cell(p, p1, c));
        assert(same_cell(p1, panel_run(p1, wire_syms(w1, b)), c));
    }
}

proof fn lemma_pixel_safe(w: Wire, p: Panel, x: u16, y: u16, color: u16)
    requires
        idle(w),
        x < WIDTH,
        y < HEIGHT,
    ensures
        screen_safe(w, p, pixel_ops(x, y, color)),
{
    lemma_draw_pixel(w, p, x, y, color);
    lemma_window_data_writes(p, x, y, x, y, seq![(color >> 8u16) as u8, color as u8]);
    assert forall|c: (int, int)|
        #![trigger same_cell(p, panel_run(p, wire_syms(w, pixel_ops(x, y, color))), c)]
        !screen_cell(c) implies same_cell(p, panel_run(p, wire_syms(w, pixel_ops(x, y, color))), c) by {
        assert(c != (x as int, y as int));
    }
}

proof fn lemma_star_safe(w: Wire, p: Panel, s: Star)
    requires
        idle(w),
    ensures
        screen_safe(w, p, star_ops(s)),
{
    let z = moved_z(s.z);
    let ox = star_sx(s.x, s.z);
    let oy = star_sy(s.y, s.z);
    let nx = star_sx(s.x, z);
    let ny = star_sy(s.y, z);
    let erase = if s.z > 0 && on_screen(ox, oy) {
        pixel_ops(ox as u16, oy as u16, 0)
    } else {
        Seq::empty()
    };
    let draw = if on_screen(nx, ny) {
        pixel_ops(nx as u16, ny as u16, spec_star_color(z))
    } else {
        Seq::empty()
    };
    assert(star_ops(s) == erase + draw);
    if s.z > 0 && on_screen(ox, oy) {
        lemma_pixel_safe(w, p, ox as u16, oy as u16, 0);
    } else {
        lemma_safe_empty(w, p);
    }
    let w1 = wire_state(w, erase);
    let p1 = panel_run(p, wire_syms(w, erase));
    if on_screen(nx, ny) {
        lemma_pixel_safe(w1, p1, nx as u16, ny as u16, spec_star_color(z));
    } else {
        lemma_safe_empty(w1, p1);
    }
    lemma_safe_concat(w, p, erase, draw);
}

/// A frame of the starfield changes no cell off the screen.
pub proof fn lemma_stars_safe(w: Wire, p: Panel, stars: Seq<Star>)
    requires
        idle(w),
    ensures
        screen_safe(w, p, stars_ops(stars)),
    decreases stars.len(),
{
    if stars.len() == 0 {
        lemma_safe_empty(w, p);
    } else {
        let front = stars_ops(stars.drop_last());
        lemma_stars_safe(w, p, stars.drop_last());
        lemma_star_safe(wire_state(w, front), panel_run(p, wire_syms(w, front)), stars.last());
        lemma_safe_concat(w, p, front, star_ops(stars.last()));
    }
}

proof fn lemma_erase_safe(w: Wire, p: Panel, x: u16, y: u16, bw: u16, bh: u16)
    requires
        idle(w),
        1 <= bw * bh <= 0xFFFF,
        x + bw <= WIDTH,
        y + bh <= HEIGHT,
    ensures
        screen_safe(w, p, erase_ops(x, y, bw, bh)),
{
    assert(1 <= bw && 1 <= bh) by (nonlinear_arith)
        requires 1 <= bw * bh, 0 <= bw, 0 <= bh;
    lemma_erase_block(w, p, x, y, bw, bh);
    lemma_window_data_writes(
        p,
        x,
        y,
        window_end(x, bw),
        window_end(y, bh),
        fill_bytes(0, (bw * bh) as u16 as nat),
    );
    assert forall|c: (int, int)|
        #![trigger same_cell(p, panel_run(p, wire_syms(w, erase_ops(x, y, bw, bh))), c)]
        !screen_cell(c) implies same_cell(p, panel_run(p, wire_syms(w, erase_ops(x, y, bw, bh))), c) by {
        assert(!in_box(x as int, y as int, bw as int, bh as int, c));
    }
}

proof fn lemma_sprite_safe(w: Wire, p: Panel, x: u16, y: u16, sw: u16, sh: u16, data: Seq<u8>)
    requires
        idle(w),
        1 <= sw,
        1 <= sh,
        x + sw <= WIDTH,
        y + sh <= HEIGHT,
    ensures
        screen_safe(w, p, sprite_ops(x, y, sw, sh, data)),
{
    lemma_sprite_wire(w, x, y, sw, sh, data);
    let x2 = window_end(x, sw);
    let y2 = window_end(y, sh);
    lemma_window_data_writes(p, x, y, x2, y2, data);
    assert forall|c: (int, int)|
        #![trigger same_cell(p, panel_run(p, wire_syms(w, sprite_ops(x, y, sw, sh, data))), c)]
        !screen_cell(c) implies same_cell(
        p,
        panel_run(p, wire_syms(w, sprite_ops(x, y, sw, sh, data))),
        c,
    ) by {
        lemma_window_stream_stays(p, x, y, x2, y2, data, c);
    }
}

proof fn lemma_char_safe(w: Wire, p: Panel, glyph: Seq<u8>, x: int, color: u16)
    requires
        idle(w),
    ensures
        screen_safe(w, p, char_ops(glyph, x, TEXT_Y as i32, color)),
{
    if clip_start(x) >= clip_end(x) {
        assert(char_ops(glyph, x, TEXT_Y as i32, color) == Seq::<Op>::empty());
        lemma_safe_empty(w, p);
    } else {
        assert((TEXT_Y as i32) as u16 == TEXT_Y);
        lemma_draw_char(w, p, glyph, x, TEXT_Y as i32, color);
        lemma_window_data_writes(
            p,
            char_left(x) as u16,
            TEXT_Y,
            window_end(char_left(x) as u16, char_cols(x) as u16),
            window_end(TEXT_Y, CHAR_BLOCK),
            char_stream(glyph, x, color),
        );
        assert forall|c: (int, int)|
            #![trigger same_cell(p, panel_run(p, wire_syms(w, char_ops(glyph, x, TEXT_Y as i32, color))), c)]
            !screen_cell(c) implies same_cell(
            p,
            panel_run(p, wire_syms(w, char_ops(glyph, x, TEXT_Y as i32, color))),
            c,
        ) by {
            assert(!in_box(char_left(x), TEXT_Y as int, char_cols(x), 16, c));
        }
    }
}

/// Drawing the banner changes no cell off the screen.
pub proof fn lemma_text_safe(
    w: Wire,
    p: Panel,
    font: Seq<[u8; 8]>,
    scroll_x: i32,
    frame: u8,
    n: int,
)
    requires
        idle(w),
        0 <= n <= 26,
    ensures
        screen_safe(w, p, text_ops(font, scroll_x, frame, n)),
    decreases n,
{
    if n == 0 {
        assert(text_ops(font, scroll_x, frame, n) == Seq::<Op>::empty());
        lemma_safe_empty(w, p);
    } else {
        let front = text_ops(font, scroll_x, frame, n - 1);
        lemma_text_safe(w, p, font, scroll_x, frame, n - 1);
        let w1 = wire_state(w, front);
        let p1 = panel_run(p, wire_syms(w, front));
        let cx = char_x(scroll_x, n - 1);
        if -16 < cx < WIDTH {
            lemma_char_safe(
                w1,
                p1,
                font_glyph(font, TEXT@[n - 1]),
                cx,
                text_color(n - 1, frame),
            );
        } else {
            assert(text_char_ops(font, scroll_x, frame, n - 1) == Seq::<Op>::empty());
            lemma_safe_empty(w1, p1);
        }
        lemma_safe_concat(w, p, front, text_char_ops(font, scroll_x, frame, n - 1));
    }
}

proof fn lemma_trail_safe(w: Wire, p: Panel, scroll_x: i32)
    requires
        idle(w),
    ensures
        screen_safe(w, p, trail_ops(scroll_x)),
{
    let tx = scroll_x + TEXT_WIDTH;
    if 0 <= tx < WIDTH {
        let bw: u16 = if WIDTH - tx < 2 { (WIDTH - tx) as u16 } else { 2 };
        assert(1 <= bw * 16u16 <= 0xFFFF);
        lemma_erase_safe(w, p, tx as u16, TEXT_Y, bw, 16);
    } else {
        assert(trail_ops(scroll_x) == Seq::<Op>::empty());
        lemma_safe_empty(w, p);
    }
}

/// A demo frame writes only into address windows that lie on the 320 x 240
/// screen (the star pixels, the sprite's erase and draw, the banner blocks
/// and the trail erase, each at least one cell wide and high), changes no
/// cell off the screen, and leaves the lines at rest without cutting any
/// frame short, whatever the panel held before and whatever the sprite data
/// and the font hold.
pub proof fn lemma_demo_frame_on_screen(
    w: Wire,
    p: Panel,
    v: DemoView,
    sprite: Seq<u8>,
    font: Seq<[u8; 8]>,
)
    requires
        idle(w),
        v.wf(),
    ensures
        writes_on_screen(p, wire_syms(w, frame_ops(v, sprite, font))),
        screen_safe(w, p, frame_ops(v, sprite, font)),
{
    let a = stars_ops(v.stars);
    let b = erase_ops(v.prev_sx, v.prev_sy, SPRITE_SIZE, SPRITE_SIZE);
    let c = sprite_ops(
        sprite_x(v.frame) as u16,
        sprite_y(v.frame) as u16,
        SPRITE_SIZE,
        SPRITE_SIZE,
        sprite,
    );
    let d = text_ops(font, v.scroll_x, v.frame, 26);
    let e = trail_ops(v.scroll_x);
    assert(frame_ops(v, sprite, font) == a + b + c + d + e);
    lemma_stars_safe(w, p, v.stars);
    let w1 = wire_state(w, a);
    let p1 = panel_run(p, wire_syms(w, a));
    lemma_erase_safe(w1, p1, v.prev_sx, v.prev_sy, SPRITE_SIZE, SPRITE_SIZE);
    lemma_safe_concat(w, p, a, b);
    let ab = a + b;
    let w2 = wire_state(w, ab);
    let p2 = panel_run(p, wire_syms(w, ab));
    lemma_sprite_on_screen(v.frame);
    lemma_sprite_safe(
        w2,
        p2,
        sprite_x(v.frame) as u16,
        sprite_y(v.frame) as u16,
        SPRITE_SIZE,
        SPRITE_SIZE,
        sprite,
    );
    lemma_safe_concat(w, p, ab, c);
    let abc = ab + c;
    let w3 = wire_state(w, abc);
    let p3 = panel_run(p, wire_syms(w, abc));
    lemma_text_safe(w3, p3, font, v.scroll_x, v.frame, 26);
    lemma_safe_concat(w, p, abc, d);
    let abcd = abc + d;
    lemma_trail_safe(wire_state(w, abcd), panel_run(p, wire_syms(w, abcd)), v.scroll_x);
    lemma_safe_concat(w, p, abcd, e);
}

/// Filling the screen writes into the whole screen and nothing else, and
/// leaves the lines at rest without cutting a frame short.
pub proof fn lemma_fill_on_screen(w: Wire, p: Panel, color: u16)
    requires
        idle(w),
    ensures
        screen_safe(w, p, fill_ops(color)),
{
    lemma_fill_screen(w, p, color);
    lemma_window_data_writes(
        p,
        0,
        0,
        (WIDTH - 1) as u16,
        (HEIGHT - 1) as u16,
        fill_bytes(color, (WIDTH * HEIGHT) as nat),
    );
    assert forall|c: (int, int)|
        #![trigger same_cell(p, panel_run(p, wire_syms(w, fill_ops(color))), c)]
        !screen_cell(c) implies same_cell(p, panel_run(p, wire_syms(w, fill_ops(color))), c) by {
        assert(!in_box(0, 0, WIDTH as int, HEIGHT as int, c));
    }
}

/// One frame keeps the demo's state well formed.
pub proof fn lemma_next_view_wf(v: DemoView)
    requires
        v.wf(),
    ensures
        next_view(v).wf(),
{
    lemma_sprite_on_screen(v.frame);
}

/// The demo's state after `n` frames, as `demo_start` and then `n` calls of
/// `demo_frame` leave it.
pub open spec fn view_after(n: nat) -> DemoView
    decreases n,
{
    if n == 0 {
        initial_view()
    } else {
        next_view(view_after((n - 1) as nat))
    }
}

/// What `demo_start` and then `n` calls of `demo_frame` record, in order.
pub open spec fn run_ops(sprite: Seq<u8>, font: Seq<[u8; 8]>, n: nat) -> Seq<Op>
    decreases n,
{
    if n == 0 {
        fill_ops(0)
    } else {
        run_ops(sprite, font, (n - 1) as nat) + frame_ops(view_after((n - 1) as nat), sprite, font)
    }
}

/// The demo's state is well formed after any number of frames.
pub proof fn lemma_view_after_wf(n: nat)
    ensures
        view_after(n).wf(),
    decreases n,
{
    if n > 0 {
        lemma_view_after_wf((n - 1) as nat);
        lemma_next_view_wf(view_after((n - 1) as nat));
    }
}

/// From its start through any number of frames, the demo writes only into
/// address windows that lie on the 320 x 240 screen, changes no cell off the
/// screen, and leaves the lines at rest without cutting any frame short,
/// whatever the panel held before and whatever the sprite data and the font
/// hold.
pub proof fn lemma_demo_run_on_screen(
    w: Wire,
    p: Panel,
    sprite: Seq<u8>,
    font: Seq<[u8; 8]>,
    n: nat,
)
    requires
        idle(w),
    ensures
        writes_on_screen(p, wire_syms(w, run_ops(sprite, font, n))),
        screen_safe(w, p, run_ops(sprite, font, n)),
    decreases n,
{
    if n == 0 {
        lemma_fill_on_screen(w, p, 0);
    } else {
        let m = (n - 1) as nat;
        let a = run_ops(sprite, font, m);
        lemma_demo_run_on_screen(w, p, sprite, font, m);
        lemma_view_after_wf(m);
        lemma_demo_frame_on_screen(
            wire_state(w, a),
            panel_run(p, wire_syms(w, a)),
            view_after(m),
            sprite,
            font,
        );
        lemma_safe_concat(w, p, a, frame_ops(view_after(m), sprite, font));
    }
}

/// A frame of the colour-cycling loop paints every cell of the screen with
/// the rainbow colour of its index, changes no cell off the screen, and
/// leaves the lines at rest without cutting a frame short.
pub proof fn lemma_rainbow_frame(w: Wire, p: Panel, idx: usize)
    requires
        idle(w),
    ensures
        screen_safe(w, p, rainbow_frame_ops(idx)),
        forall|x: int, y: int|
            #![trigger panel_run(p, wire_syms(w, rainbow_frame_ops(idx))).gram.dom().contains((x, y))]
            #![trigger panel_run(p, wire_syms(w, rainbow_frame_ops(idx))).gram[(x, y)]]
            0 <= x < WIDTH && 0 <= y < HEIGHT ==> panel_run(
                p,
                wire_syms(w, rainbow_frame_ops(idx)),
            ).gram.contains_key((x, y)) && panel_run(p, wire_syms(w, rainbow_frame_ops(idx))).gram[(
            x,
            y,
        )] == RAINBOW@[(idx % RAINBOW_LEN) as int],
{
    let color = RAINBOW@[(idx % RAINBOW_LEN) as int];
    let f = fill_ops(color);
    let d = seq![Op::DelayMs(FRAME_DELAY_MS)];
    assert(rainbow_frame_ops(idx) == f + d);
    lemma_fill_screen(w, p, color);
    lemma_fill_on_screen(w, p, color);
    lemma_wire_concat(w, f, d);
    let w1 = wire_state(w, f);
    lemma_wire_inert(w1, d);
    lemma_panel_concat(p, wire_syms(w, f), wire_syms(w1, d));
    let q = panel_run(p, wire_syms(w, f));
    assert(panel_run(q, Seq::empty()) == q);
    assert(panel_run(p, wire_syms(w, rainbow_frame_ops(idx))) == q);
    assert(wire_syms(w, rainbow_frame_ops(idx)) =~= wire_syms(w, f));
    assert forall|c: (int, int)|
        #![trigger same_cell(p, panel_run(p, wire_syms(w, rainbow_frame_ops(idx))), c)]
        !screen_cell(c) implies same_cell(p, panel_run(p, wire_syms(w, rainbow_frame_ops(idx))), c) by {
        assert(!in_box(0, 0, WIDTH as int, HEIGHT as int, c));
        assert(q.gram[c] == p.gram[c]);
        assert(q.gram.contains_key(c) == p.gram.contains_key(c));
    }
    assert forall|x: int, y: int|
        #![trigger panel_run(p, wire_syms(w, rainbow_frame_ops(idx))).gram.dom().contains((x, y))]
        #![trigger panel_run(p, wire_syms(w, rainbow_frame_ops(idx))).gram[(x, y)]]
        0 <= x < WIDTH && 0 <= y < HEIGHT implies panel_run(
            p,
            wire_syms(w, rainbow_frame_ops(idx)),
        ).gram.contains_key((x, y)) && panel_run(p, wire_syms(w, rainbow_frame_ops(idx))).gram[(
        x,
        y,
    )] == color by {
        assert(q.gram[(x, y)] == color);
        assert(q.gram.contains_key((x, y)));
    }
}


// ── What each step of the demo leaves on the panel ───────────────────────────

/// Advancing a star: when the star was placed and its old position is on the
/// screen, that cell ends black unless the star is drawn there again; the
/// star's new position, when on the screen, holds the colour of its new
/// depth; no other cell changes.
pub proof fn lemma_star_moves(w: Wire, p: Panel, s: Star)
    requires
        idle(w),
    ensures
        s.z > 0 && on_screen(star_sx(s.x, s.z), star_sy(s.y, s.z)) && (star_sx(s.x, s.z), star_sy(
            s.y,
            s.z,
        )) != (star_sx(s.x, moved_z(s.z)), star_sy(s.y, moved_z(s.z))) ==> panel_run(
            p,
            wire_syms(w, star_ops(s)),
        ).gram.contains_key((star_sx(s.x, s.z), star_sy(s.y, s.z))) && panel_run(
            p,
            wire_syms(w, star_ops(s)),
        ).gram[(star_sx(s.x, s.z), star_sy(s.y, s.z))] == 0,
        on_screen(star_sx(s.x, moved_z(s.z)), star_sy(s.y, moved_z(s.z))) ==> panel_run(
            p,
            wire_syms(w, star_ops(s)),
        ).gram.contains_key((star_sx(s.x, moved_z(s.z)), star_sy(s.y, moved_z(s.z)))) && panel_run(
            p,
            wire_syms(w, star_ops(s)),
        ).gram[(star_sx(s.x, moved_z(s.z)), star_sy(s.y, moved_z(s.z)))] == spec_star_color(
            moved_z(s.z),
        ),
        forall|c: (int, int)|
            #![trigger same_cell(p, panel_run(p, wire_syms(w, star_ops(s))), c)]
            c != (star_sx(s.x, s.z), star_sy(s.y, s.z)) && c != (star_sx(s.x, moved_z(s.z)), star_sy(
                s.y,
                moved_z(s.z),
            )) ==> same_cell(p, panel_run(p, wire_syms(w, star_ops(s))), c),
{
    let z = moved_z(s.z);
    let ox = star_sx(s.x, s.z);
    let oy = star_sy(s.y, s.z);
    let nx = star_sx(s.x, z);
    let ny = star_sy(s.y, z);
    let erased = s.z > 0 && on_screen(ox, oy);
    let erase = if erased {
        pixel_ops(ox as u16, oy as u16, 0)
    } else {
        Seq::empty()
    };
    let draw = if on_screen(nx, ny) {
        pixel_ops(nx as u16, ny as u16, spec_star_color(z))
    } else {
        Seq::empty()
    };
    assert(star_ops(s) == erase + draw);
    lemma_wire_concat(w, erase, draw);
    let w1 = wire_state(w, erase);
    let p1 = panel_run(p, wire_syms(w, erase));
    lemma_panel_concat(p, wire_syms(w, erase), wire_syms(w1, draw));
    let q = panel_run(p, wire_syms(w, star_ops(s)));
    assert(q == panel_run(p1, wire_syms(w1, draw)));
    if erased {
        lemma_draw_pixel(w, p, ox as u16, oy as u16, 0);
        assert(p1.gram == p.gram.insert((ox, oy), 0u16));
    } else {
        assert(wire_syms(w, erase) == Seq::<crate::panel::Sym>::empty());
        assert(panel_run(p, Seq::<crate::panel::Sym>::empty()) == p);
        assert(w1 == w);
    }
    if on_screen(nx, ny) {
        lemma_draw_pixel(w1, p1, nx as u16, ny as u16, spec_star_color(z));
        assert(q.gram == p1.gram.insert((nx, ny), spec_star_color(z)));
    } else {
        assert(wire_syms(w1, draw) == Seq::<crate::panel::Sym>::empty());
        assert(panel_run(p1, Seq::<crate::panel::Sym>::empty()) == p1);
    }
    assert forall|c: (int, int)|
        #![trigger same_cell(p, panel_run(p, wire_syms(w, star_ops(s))), c)]
        c != (ox, oy) && c != (nx, ny) implies same_cell(p, panel_run(p, wire_syms(w, star_ops(s))), c) by {
        assert(q.gram.contains_key(c) == p1.gram.contains_key(c));
        assert(p1.gram.contains_key(c) == p.gram.contains_key(c));
    }
}

/// Drawing character `ch` of `font` stores, in the cell `j` columns right of
/// the block's first visible column and `r` rows down, the block's pixel
/// `(r, clip_start(x) + j)`: `color` where bit `(clip_start(x) + j) / 2` of
/// row `r / 2` of the font's entry `ch` modulo 128 is set, black elsewhere.
pub proof fn lemma_char_block_cells(
    w: Wire,
    p: Panel,
    font: Seq<[u8; 8]>,
    ch: u8,
    x: int,
    y: i32,
    color: u16,
)
    requires
        idle(w),
        clip_start(x) < clip_end(x),
        window_fits(y as u16, CHAR_BLOCK),
    ensures
        forall|r: int, j: int|
            #![trigger panel_run(p, wire_syms(w, char_ops(font_glyph(font, ch), x, y, color))).gram[(char_left(x) + j, (y as u16) + r)]]
            #![trigger panel_run(p, wire_syms(w, char_ops(font_glyph(font, ch), x, y, color))).gram.dom().contains((char_left(x) + j, (y as u16) + r))]
            0 <= r < 16 && 0 <= j < char_cols(x) ==> panel_run(
                p,
                wire_syms(w, char_ops(font_glyph(font, ch), x, y, color)),
            ).gram.contains_key((char_left(x) + j, (y as u16) + r)) && panel_run(
                p,
                wire_syms(w, char_ops(font_glyph(font, ch), x, y, color)),
            ).gram[(char_left(x) + j, (y as u16) + r)] == (if font[(ch % 128) as int]@[r / 2] & (1u8
                << (((clip_start(x) + j) / 2) as u8)) != 0 {
                color
            } else {
                0
            }),
{
    lemma_font_glyph_entry(font, ch);
    lemma_draw_char(w, p, font_glyph(font, ch), x, y, color);
}


/// Whether cell `c` lies in the 16 rows of the banner.
pub open spec fn in_banner_rows(c: (int, int)) -> bool {
    TEXT_Y <= c.1 < TEXT_Y + CHAR_BLOCK
}

/// Drawing banner characters `0..n` with the banner's left edge at
/// `scroll_x`: every cell of the screen that character `i` covers (its
/// column `j` and row `r`, at screen column `scroll_x + 16 * i + j`) holds
/// the glyph of the font's entry `TEXT[i]` modulo 128, scaled twice, in the
/// character's colour on black, also where the character is only partly on
/// the screen; no cell outside the banner's rows changes.
#[verifier::spinoff_prover]
#[verifier::rlimit(60)]
pub proof fn lemma_banner_cells(
    w: Wire,
    p: Panel,
    font: Seq<[u8; 8]>,
    scroll_x: i32,
    frame: u8,
    n: int,
)
    requires
        idle(w),
        0 <= n <= 26,
    ensures
        forall|c: (int, int)|
            #![trigger same_cell(p, panel_run(p, wire_syms(w, text_ops(font, scroll_x, frame, n))), c)]
            !in_banner_rows(c) ==> same_cell(
                p,
                panel_run(p, wire_syms(w, text_ops(font, scroll_x, frame, n))),
                c,
            ),
        forall|i: int, r: int, j: int|
            #![trigger panel_run(p, wire_syms(w, text_ops(font, scroll_x, frame, n))).gram[(char_x(scroll_x, i) + j, TEXT_Y + r)]]
            #![trigger panel_run(p, wire_syms(w, text_ops(font, scroll_x, frame, n))).gram.dom().contains((char_x(scroll_x, i) + j, TEXT_Y + r))]
            0 <= i < n && 0 <= r < 16 && 0 <= j < 16 && 0 <= char_x(scroll_x, i) + j < WIDTH
                ==> panel_run(
                p,
                wire_syms(w, text_ops(font, scroll_x, frame, n)),
            ).gram.contains_key((char_x(scroll_x, i) + j, TEXT_Y + r)) && panel_run(
                p,
                wire_syms(w, text_ops(font, scroll_x, frame, n)),
            ).gram[(char_x(scroll_x, i) + j, TEXT_Y + r)] == (if font[(TEXT@[i] % 128) as int]@[r
                / 2] & (1u8 << ((j / 2) as u8)) != 0 {
                text_color(i, frame)
            } else {
                0
            }),
    decreases n,
{
    if n == 0 {
        assert(text_ops(font, scroll_x, frame, n) == Seq::<Op>::empty());
        assert(wire_syms(w, Seq::<Op>::empty()) == Seq::<crate::panel::Sym>::empty());
        assert(panel_run(p, Seq::<crate::panel::Sym>::empty()) == p);
    } else {
        let m = n - 1;
        let front = text_ops(font, scroll_x, frame, m);
        let last = text_char_ops(font, scroll_x, frame, m);
        assert(text_ops(font, scroll_x, frame, n) == front + last);
        lemma_banner_cells(w, p, font, scroll_x, frame, m);
        lemma_text_safe(w, p, font, scroll_x, frame, m);
        let w1 = wire_state(w, front);
        let p1 = panel_run(p, wire_syms(w, front));
        lemma_wire_concat(w, front, last);
        lemma_panel_concat(p, wire_syms(w, front), wire_syms(w1, last));
        let q = panel_run(p, wire_syms(w, text_ops(font, scroll_x, frame, n)));
        assert(q == panel_run(p1, wire_syms(w1, last)));
        let cx = char_x(scroll_x, m);
        let glyph = font_glyph(font, TEXT@[m]);
        let color = text_color(m, frame);
        if -16 < cx < WIDTH {
            assert((TEXT_Y as i32) as u16 == TEXT_Y);
            assert(clip_start(cx) < clip_end(cx));
            lemma_draw_char(w1, p1, glyph, cx, TEXT_Y as i32, color);
            lemma_font_glyph_entry(font, TEXT@[m]);
            assert forall|c: (int, int)|
                #![trigger same_cell(p, q, c)]
                !in_banner_rows(c) implies same_cell(p, q, c) by {
                assert(!in_box(char_left(cx), TEXT_Y as int, char_cols(cx), 16, c));
                assert(same_cell(p, p1, c));
                assert(q.gram.contains_key(c) == p1.gram.contains_key(c));
            }
            assert forall|i: int, r: int, j: int|
                #![trigger q.gram[(char_x(scroll_x, i) + j, TEXT_Y + r)]]
                #![trigger q.gram.dom().contains((char_x(scroll_x, i) + j, TEXT_Y + r))]
                0 <= i < n && 0 <= r < 16 && 0 <= j < 16 && 0 <= char_x(scroll_x, i) + j < WIDTH
                    implies q.gram.contains_key((char_x(scroll_x, i) + j, TEXT_Y + r))
                && q.gram[(char_x(scroll_x, i) + j, TEXT_Y + r)] == (if font[(TEXT@[i]
                % 128) as int]@[r / 2] & (1u8 << ((j / 2) as u8)) != 0 {
                text_color(i, frame)
            } else {
                0
            }) by {
                let cell = (char_x(scroll_x, i) + j, TEXT_Y + r);
                if i < m {
                    assert(!in_box(char_left(cx), TEXT_Y as int, char_cols(cx), 16, cell));
                } else {
                    let jj = j - clip_start(cx);
                    assert(char_left(cx) + jj == char_x(scroll_x, i) + j);
                    assert(0 <= jj < char_cols(cx));
                    assert(q.gram[(char_left(cx) + jj, ((TEXT_Y as i32) as u16) + r)]
                        == block_pixel(glyph, color, r, clip_start(cx) + jj));
                }
            }
        } else {
            assert(last == Seq::<Op>::empty());
            assert(wire_syms(w1, last) == Seq::<crate::panel::Sym>::empty());
            assert(panel_run(p1, Seq::<crate::panel::Sym>::empty()) == p1);
            assert forall|c: (int, int)|
                #![trigger same_cell(p, q, c)]
                !in_banner_rows(c) implies same_cell(p, q, c) by {
                assert(same_cell(p, p1, c));
            }
            assert forall|i: int, r: int, j: int|
                #![trigger q.gram[(char_x(scroll_x, i) + j, TEXT_Y + r)]]
                #![trigger q.gram.dom().contains((char_x(scroll_x, i) + j, TEXT_Y + r))]
                0 <= i < n && 0 <= r < 16 && 0 <= j < 16 && 0 <= char_x(scroll_x, i) + j < WIDTH
                    implies q.gram.contains_key((char_x(scroll_x, i) + j, TEXT_Y + r))
                && q.gram[(char_x(scroll_x, i) + j, TEXT_Y + r)] == (if font[(TEXT@[i]
                % 128) as int]@[r / 2] & (1u8 << ((j / 2) as u8)) != 0 {
                text_color(i, frame)
            } else {
                0
            }) by {
                assert(i < m);
                assert(p1.gram[(char_x(scroll_x, i) + j, TEXT_Y + r)] == q.gram[(char_x(scroll_x, i) + j, TEXT_Y + r)]);
            }
        }
    }
}


/// A demo frame erases the sprite where it was: every cell of the 32 x 32
/// box at the sprite's previous position that lies neither in the box where
/// the sprite is drawn now nor in the banner's rows ends black, whatever the
/// panel held before and whatever the sprite data and the font hold.
#[verifier::spinoff_prover]
#[verifier::rlimit(60)]
pub proof fn lemma_demo_frame_erases_old_sprite(
    w: Wire,
    p: Panel,
    v: DemoView,
    sprite: Seq<u8>,
    font: Seq<[u8; 8]>,
)
    requires
        idle(w),
        v.wf(),
    ensures
        forall|c: (int, int)|
            #![trigger panel_run(p, wire_syms(w, frame_ops(v, sprite, font))).gram[c]]
            #![trigger panel_run(p, wire_syms(w, frame_ops(v, sprite, font))).gram.dom().contains(c)]
            in_box(v.prev_sx as int, v.prev_sy as int, SPRITE_SIZE as int, SPRITE_SIZE as int, c)
                && !in_box(
                sprite_x(v.frame),
                sprite_y(v.frame),
                SPRITE_SIZE as int,
                SPRITE_SIZE as int,
                c,
            ) && !in_banner_rows(c) ==> panel_run(
                p,
                wire_syms(w, frame_ops(v, sprite, font)),
            ).gram.contains_key(c) && panel_run(p, wire_syms(w, frame_ops(v, sprite, font))).gram[c]
                == 0,
{
    let sx = sprite_x(v.frame) as u16;
    let sy = sprite_y(v.frame) as u16;
    let a = stars_ops(v.stars);
    let b = erase_ops(v.prev_sx, v.prev_sy, SPRITE_SIZE, SPRITE_SIZE);
    let c = sprite_ops(sx, sy, SPRITE_SIZE, SPRITE_SIZE, sprite);
    let d = text_ops(font, v.scroll_x, v.frame, 26);
    let e = trail_ops(v.scroll_x);
    assert(frame_ops(v, sprite, font) == a + b + c + d + e);
    let ab = a + b;
    let abc = ab + c;
    let abcd = abc + d;
    lemma_sprite_on_screen(v.frame);
    // the lines at rest before each part
    lemma_stars_safe(w, p, v.stars);
    let w1 = wire_state(w, a);
    let p1 = panel_run(p, wire_syms(w, a));
    lemma_erase_safe(w1, p1, v.prev_sx, v.prev_sy, SPRITE_SIZE, SPRITE_SIZE);
    lemma_erase_block(w1, p1, v.prev_sx, v.prev_sy, SPRITE_SIZE, SPRITE_SIZE);
    lemma_wire_concat(w, a, b);
    lemma_panel_concat(p, wire_syms(w, a), wire_syms(w1, b));
    let w2 = wire_state(w, ab);
    let p2 = panel_run(p, wire_syms(w, ab));
    assert(p2 == panel_run(p1, wire_syms(w1, b)));
    lemma_sprite_safe(w2, p2, sx, sy, SPRITE_SIZE, SPRITE_SIZE, sprite);
    lemma_sprite_wire(w2, sx, sy, SPRITE_SIZE, SPRITE_SIZE, sprite);
    lemma_wire_concat(w, ab, c);
    lemma_panel_concat(p, wire_syms(w, ab), wire_syms(w2, c));
    let w3 = wire_state(w, abc);
    let p3 = panel_run(p, wire_syms(w, abc));
    assert(p3 == panel_run(p2, wire_syms(w2, c)));
    lemma_text_safe(w3, p3, font, v.scroll_x, v.frame, 26);
    lemma_banner_cells(w3, p3, font, v.scroll_x, v.frame, 26);
    lemma_wire_concat(w, abc, d);
    lemma_panel_concat(p, wire_syms(w, abc), wire_syms(w3, d));
    let w4 = wire_state(w, abcd);
    let p4 = panel_run(p, wire_syms(w, abcd));
    assert(p4 == panel_run(p3, wire_syms(w3, d)));
    lemma_wire_concat(w, abcd, e);
    lemma_panel_concat(p, wire_syms(w, abcd), wire_syms(w4, e));
    let q = panel_run(p, wire_syms(w, frame_ops(v, sprite, font)));
    assert(q == panel_run(p4, wire_syms(w4, e)));
    let tx = v.scroll_x + TEXT_WIDTH;
    let bw: u16 = if WIDTH - tx < 2 { (WIDTH - tx) as u16 } else { 2 };
    if 0 <= tx < WIDTH {
        assert(1 <= bw * 16u16 <= 0xFFFF);
        lemma_erase_block(w4, p4, tx as u16, TEXT_Y, bw, 16);
    } else {
        assert(e == Seq::<Op>::empty());
        assert(wire_syms(w4, e) == Seq::<crate::panel::Sym>::empty());
        assert(panel_run(p4, Seq::<crate::panel::Sym>::empty()) == p4);
    }
    assert forall|cell: (int, int)|
        #![trigger q.gram[cell]]
        #![trigger q.gram.dom().contains(cell)]
        in_box(v.prev_sx as int, v.prev_sy as int, SPRITE_SIZE as int, SPRITE_SIZE as int, cell)
            && !in_box(
            sprite_x(v.frame),
            sprite_y(v.frame),
            SPRITE_SIZE as int,
            SPRITE_SIZE as int,
            cell,
        ) && !in_banner_rows(cell) implies q.gram.contains_key(cell) && q.gram[cell] == 0 by {
        assert(p2.gram.contains_key(cell) && p2.gram[cell] == 0);
        lemma_window_stream_stays(
            p2,
            sx,
            sy,
            window_end(sx, SPRITE_SIZE),
            window_end(sy, SPRITE_SIZE),
            sprite,
            cell,
        );
        assert(same_cell(p3, p4, cell));
        if 0 <= tx < WIDTH {
            assert(!in_box(tx as int, TEXT_Y as int, bw as int, 16, cell));
        }
    }
}

} // verus!
