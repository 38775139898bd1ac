use vstd::prelude::*;

verus! {

/// Width of the CHIP-8 screen in pixels.
pub const SCREEN_WIDTH: usize = 64;

/// Height of the CHIP-8 screen in pixels.
pub const SCREEN_HEIGHT: usize = 32;

/// Number of pixels on the CHIP-8 screen.
pub const SCREEN_PIXELS: usize = 2048;

/// Whether `(x, y)` names a pixel on the screen.
pub open spec fn on_screen(x: int, y: int) -> bool {
    0 <= x < SCREEN_WIDTH && 0 <= y < SCREEN_HEIGHT
}

/// Position of pixel `(x, y)` in the row-major buffer.
pub open spec fn pixel_index(x: int, y: int) -> int {
    y * SCREEN_WIDTH + x
}

/// The buffer after XOR-ing `value` into pixel `(x, y)`; off-screen writes change nothing.
pub open spec fn xor_pixel(buf: Seq<u8>, x: int, y: int, value: u8) -> Seq<u8> {
    if on_screen(x, y) {
        buf.update(pixel_index(x, y), buf[pixel_index(x, y)] ^ value)
    } else {
        buf
    }
}

/// A write collides when it sets a pixel that is already lit.
pub open spec fn pixel_collides(buf: Seq<u8>, x: int, y: int, value: u8) -> bool {
    on_screen(x, y) && buf[pixel_index(x, y)] == 1 && value == 1
}

/// The coordinates of the non-zero pixels among the first `n` cells, in row-major order.
pub open spec fn lit_cells(buf: Seq<u8>, n: nat) -> Seq<(usize, usize)>
    decreases n,
{
    if n == 0 {
        Seq::empty()
    } else {
        let i = (n - 1) as int;
        let prefix = lit_cells(buf, (n - 1) as nat);
        if buf[i] != 0 {
            prefix.push(((i % 64) as usize, (i / 64) as usize))
        } else {
            prefix
        }
    }
}

/// A monochrome 64x32 frame buffer, one byte per pixel, stored row by row.
pub struct FrameBuffer {
    pub buffer: [u8; 2048],
    pub draw_flag: bool,
}

impl FrameBuffer {
    /// A blank screen that has nothing to redraw.
    pub fn new() -> (fb: Self)
        ensures
            fb.buffer@ == Seq::new(2048, |_i: int| 0u8),
            !fb.draw_flag,
    {
        FrameBuffer { buffer: [0u8; 2048], draw_flag: false }
    }

    /// Turns every pixel off and asks for a redraw.
    pub fn clear(&mut self)
        ensures
            final(self).buffer@ == Seq::new(2048, |_i: int| 0u8),
            final(self).draw_flag,
    {
        self.buffer = [0u8; 2048];
        self.draw_flag = true;
    }

    /// XORs `value` into pixel `(x, y)` and reports whether a lit pixel was hit by a 1.
    ///
    /// Coordinates off the screen are ignored: nothing changes and `false` comes back.
    pub fn set_pixel(&mut self, x: usize, y: usize, value: u8) -> (collision: bool)
        ensures
            collision == pixel_collides(old(self).buffer@, x as int, y as int, value),
            final(self).buffer@ == xor_pixel(old(self).buffer@, x as int, y as int, value),
            final(self).draw_flag == (on_screen(x as int, y as int) || old(self).draw_flag),
    {
        if x >= 64 || y >= 32 {
            return false;
        }
        let index = y * 64 + x;
        let collision = self.buffer[index] == 1 && value == 1;
        self.buffer[index] = self.buffer[index] ^ value;
        self.draw_flag = true;
        collision
    }

    /// The `(x, y)` coordinates of every lit pixel, row by row, left to right.
    pub fn lit_pixels(&self) -> (cells: Vec<(usize, usize)>)
        ensures
            cells@ == lit_cells(self.buffer@, 2048),
    {
        let mut cells: Vec<(usize, usize)> = Vec::new();
        let mut i: usize = 0;
        while i < 2048
            invariant
                i <= 2048,
                cells@ == lit_cells(self.buffer@, i as nat),
            decreases 2048 - i,
        {
            if self.buffer[i] != 0 {
                cells.push((i % 64, i / 64));
            }
            i = i + 1;
        }
        cells
    }
}

/// Drawing the same value twice at the same place gives back the original buffer.
pub proof fn lemma_xor_pixel_twice_restores(buf: Seq<u8>, x: int, y: int, value: u8)
    requires
        buf.len() == SCREEN_PIXELS,
    ensures
        xor_pixel(xor_pixel(buf, x, y, value), x, y, value) == buf,
{
    if on_screen(x, y) {
        let i = pixel_index(x, y);
        let b = buf[i];
        assert((b ^ value) ^ value == b) by (bit_vector);
        assert(xor_pixel(xor_pixel(buf, x, y, value), x, y, value) =~= buf);
    }
}

/// Writing a zero leaves the buffer as it was and never collides.
pub proof fn lemma_xor_zero_is_noop(buf: Seq<u8>, x: int, y: int)
    requires
        buf.len() == SCREEN_PIXELS,
    ensures
        xor_pixel(buf, x, y, 0) == buf,
        !pixel_collides(buf, x, y, 0),
{
    if on_screen(x, y) {
        let b = buf[pixel_index(x, y)];
        assert(b ^ 0 == b) by (bit_vector);
        assert(xor_pixel(buf, x, y, 0) =~= buf);
    }
}

/// A collision always leaves the hit pixel turned off.
pub proof fn lemma_collision_turns_pixel_off(buf: Seq<u8>, x: int, y: int, value: u8)
    requires
        buf.len() == SCREEN_PIXELS,
        pixel_collides(buf, x, y, value),
    ensures
        xor_pixel(buf, x, y, value)[pixel_index(x, y)] == 0,
{
    assert(1u8 ^ 1u8 == 0u8) by (bit_vector);
}

/// The buffer position of a listed cell.
pub open spec fn cell_index(c: (usize, usize)) -> int {
    c.1 * 64 + c.0
}

/// The listed cells are exactly the lit pixels among the first `n`, each on screen, in
/// strictly increasing row-major order.
pub proof fn lemma_lit_cells_exact(buf: Seq<u8>, n: nat)
    requires
        buf.len() == SCREEN_PIXELS,
        n <= SCREEN_PIXELS,
    ensures
        forall|k: int|
            0 <= k < lit_cells(buf, n).len() ==> {
                let c = #[trigger] lit_cells(buf, n)[k];
                &&& c.0 < 64
                &&& c.1 < 32
                &&& 0 <= cell_index(c) < n
                &&& buf[cell_index(c)] != 0
            },
        forall|a: int, b: int|
            0 <= a < b < lit_cells(buf, n).len() ==> cell_index(#[trigger] lit_cells(buf, n)[a])
                < cell_index(#[trigger] lit_cells(buf, n)[b]),
        forall|i: int|
            0 <= i < n && buf[i] != 0 ==> #[trigger] lit_cells(buf, n).contains(
                ((i % 64) as usize, (i / 64) as usize),
            ),
    decreases n,
{
    if n > 0 {
        let m = (n - 1) as nat;
        lemma_lit_cells_exact(buf, m);
        let i = m as int;
        let prev = lit_cells(buf, m);
        let cur = lit_cells(buf, n);
        let c = ((i % 64) as usize, (i / 64) as usize);
        assert(cell_index(c) == i);
        assert forall|j: int| 0 <= j < n && buf[j] != 0 implies #[trigger] cur.contains(
            ((j % 64) as usize, (j / 64) as usize),
        ) by {
            if j < m {
                assert(prev.contains(((j % 64) as usize, (j / 64) as usize)));
                let w = choose|w: int| 0 <= w < prev.len() && prev[w] == ((j % 64) as usize, (j / 64) as usize);
                assert(cur[w] == prev[w]);
            } else {
                assert(cur[cur.len() - 1] == c);
            }
        }
    }
}

/// Drawing at `(x, y)` on the screen XORs `value` into the byte at `y * 64 + x` and
/// leaves every other byte alone; drawing off the screen changes nothing. A collision is
/// a 1 drawn on a byte that holds 1.
pub proof fn lemma_xor_pixel_touches_one_byte(buf: Seq<u8>, x: int, y: int, value: u8)
    requires
        buf.len() == SCREEN_PIXELS,
    ensures
        xor_pixel(buf, x, y, value).len() == SCREEN_PIXELS,
        0 <= x < 64 && 0 <= y < 32 ==> xor_pixel(buf, x, y, value)[y * 64 + x] == buf[y * 64 + x]
            ^ value,
        forall|i: int|
            0 <= i < SCREEN_PIXELS && !(0 <= x < 64 && 0 <= y < 32 && i == y * 64 + x)
                ==> #[trigger] xor_pixel(buf, x, y, value)[i] == buf[i],
        pixel_collides(buf, x, y, value) == (0 <= x < 64 && 0 <= y < 32 && buf[y * 64 + x] == 1
            && value == 1),
{
}

} // verus!
