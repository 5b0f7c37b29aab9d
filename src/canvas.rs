use vstd::prelude::*;

use vstd::string::StringSliceAdditionalSpecFns;

use crate::colour::{btod, digits, Colour};

verus! {

/// Bytes of one encoded cell: the colour prefix and two glyph bytes.
pub const PREFIX_SIZE: usize = 21;

/// Bytes that end every row: a colour reset and a line break.
pub const EOL_SIZE: usize = 5;

/// A cell position on the grid: column `x`, row `y`.
#[derive(Clone, Copy, Debug, PartialEq, Eq, Structural)]
pub struct CanvasVector {
    pub x: usize,
    pub y: usize,
}

impl CanvasVector {
    pub fn new(x: usize, y: usize) -> (v: CanvasVector)
        ensures
            v == (CanvasVector { x, y }),
    {
        CanvasVector { x, y }
    }
}

/// Why a write to the canvas was refused.
#[derive(Clone, Copy, Debug, PartialEq, Eq, Structural)]
pub enum CanvasError {
    /// The cell, or a cell the text would need, lies outside the grid.
    OutOfRange,
}

/// Bytes of one encoded row of `w` cells.
pub open spec fn row_len(w: int) -> int {
    w * 21 + 5
}

/// Bytes of one buffer of `w` by `h` cells.
pub open spec fn buffer_len(w: int, h: int) -> int {
    h * row_len(w)
}

/// Where the encoding of cell `(x, y)` starts in a buffer.
pub open spec fn cell_offset(w: int, x: int, y: int) -> int {
    21 * x + y * row_len(w)
}

/// Where the terminator of row `r` starts in a buffer.
pub open spec fn eol_offset(w: int, r: int) -> int {
    (r + 1) * row_len(w) - 5
}

/// The row terminator: `ESC [ 0 m` and a line feed.
pub open spec fn eol_bytes() -> Seq<u8> {
    seq![27u8, 91u8, 48u8, 109u8, 10u8]
}

/// A background-colour control sequence for `c` followed by the glyph bytes.
pub open spec fn cell_bytes(glyph: Seq<u8>, c: Colour) -> Seq<u8> {
    seq![27u8, 91u8, 52u8, 56u8, 59u8, 50u8, 59u8] + digits(c.r) + seq![59u8] + digits(c.g)
        + seq![59u8] + digits(c.b) + seq![109u8] + glyph
}

/// Two spaces: the glyph of a plain pixel.
pub open spec fn blank_glyph() -> Seq<u8> {
    seq![32u8, 32u8]
}

/// The encoded cell `(x, y)` of a buffer for a grid `w` cells wide.
pub open spec fn cell_at(buf: Seq<u8>, w: int, x: int, y: int) -> Seq<u8> {
    buf.subrange(cell_offset(w, x, y), cell_offset(w, x, y) + 21)
}

/// Row `r` of the buffer ends with the terminator.
pub open spec fn row_terminated(buf: Seq<u8>, w: int, r: int) -> bool {
    buf.subrange(eol_offset(w, r), eol_offset(w, r) + 5) == eol_bytes()
}

/// A buffer of the right length whose every row ends with the terminator.
pub open spec fn buffer_wf(buf: Seq<u8>, w: int, h: int) -> bool {
    &&& buf.len() == buffer_len(w, h)
    &&& forall|r: int| 0 <= r < h ==> #[trigger] row_terminated(buf, w, r)
}

/// `new` is `old` with `bytes` written from `at` on, and nothing else changed.
pub open spec fn written(old: Seq<u8>, new: Seq<u8>, at: int, bytes: Seq<u8>) -> bool {
    &&& new.len() == old.len()
    &&& 0 <= at && at + bytes.len() <= old.len()
    &&& new.subrange(at, at + bytes.len()) == bytes
    &&& forall|j: int|
        0 <= j < old.len() && !(at <= j < at + bytes.len()) ==> #[trigger] new[j] == old[j]
}

/// The buffer length and the row length fit in a `usize`.
pub open spec fn layout_fits(w: int, h: int) -> bool {
    row_len(w) <= usize::MAX && buffer_len(w, h) <= usize::MAX
}

proof fn lemma_row_in_buffer(w: int, h: int, y: int)
    requires
        0 <= w,
        0 <= y < h,
    ensures
        0 <= y * row_len(w),
        y * row_len(w) + 21 * w == eol_offset(w, y),
        eol_offset(w, y) + 5 <= buffer_len(w, h),
{
    assert(0 <= y * row_len(w)) by (nonlinear_arith)
        requires
            0 <= y,
            0 <= w,
    ;
    assert((y + 1) * row_len(w) == y * row_len(w) + row_len(w)) by (nonlinear_arith);
    assert((y + 1) * row_len(w) <= h * row_len(w)) by (nonlinear_arith)
        requires
            y + 1 <= h,
            0 <= w,
    ;
}

proof fn lemma_cell_in_row(w: int, h: int, x: int, y: int)
    requires
        0 <= x < w,
        0 <= y < h,
    ensures
        0 <= cell_offset(w, x, y),
        cell_offset(w, x, y) + 21 <= eol_offset(w, y),
        eol_offset(w, y) + 5 <= buffer_len(w, h),
        y * row_len(w) <= cell_offset(w, x, y),
{
    lemma_row_in_buffer(w, h, y);
}

proof fn lemma_rows_ordered(w: int, r1: int, r2: int)
    requires
        0 <= w,
        0 <= r1 < r2,
    ensures
        eol_offset(w, r1) + 5 <= r2 * row_len(w),
{
    assert((r1 + 1) * row_len(w) <= r2 * row_len(w)) by (nonlinear_arith)
        requires
            r1 + 1 <= r2,
            0 <= w,
    ;
}

/// Two distinct cells of a grid occupy disjoint byte ranges.
proof fn lemma_cells_disjoint(w: int, h: int, x1: int, y1: int, x2: int, y2: int)
    requires
        0 <= x1 < w,
        0 <= y1 < h,
        0 <= x2 < w,
        0 <= y2 < h,
        x1 != x2 || y1 != y2,
    ensures
        cell_offset(w, x1, y1) + 21 <= cell_offset(w, x2, y2) || cell_offset(w, x2, y2) + 21
            <= cell_offset(w, x1, y1),
{
    lemma_cell_in_row(w, h, x1, y1);
    lemma_cell_in_row(w, h, x2, y2);
    if y1 < y2 {
        lemma_rows_ordered(w, y1, y2);
    } else if y2 < y1 {
        lemma_rows_ordered(w, y2, y1);
    }
}

/// A cell and a row terminator occupy disjoint byte ranges.
proof fn lemma_cell_misses_eol(w: int, h: int, x: int, y: int, r: int)
    requires
        0 <= x < w,
        0 <= y < h,
        0 <= r < h,
    ensures
        cell_offset(w, x, y) + 21 <= eol_offset(w, r) || eol_offset(w, r) + 5 <= cell_offset(
            w,
            x,
            y,
        ),
{
    lemma_cell_in_row(w, h, x, y);
    lemma_row_in_buffer(w, h, r);
    if r < y {
        lemma_rows_ordered(w, r, y);
    } else if y < r {
        lemma_rows_ordered(w, y, r);
    }
}

/// Writing inside cell `(x, y)` keeps every row terminated.
proof fn lemma_write_keeps_rows(
    old: Seq<u8>,
    new: Seq<u8>,
    w: int,
    h: int,
    x: int,
    y: int,
    bytes: Seq<u8>,
)
    requires
        buffer_wf(old, w, h),
        0 <= x < w,
        0 <= y < h,
        bytes.len() == 21,
        written(old, new, cell_offset(w, x, y), bytes),
    ensures
        buffer_wf(new, w, h),
{
    assert forall|r: int| 0 <= r < h implies #[trigger] row_terminated(new, w, r) by {
        lemma_cell_misses_eol(w, h, x, y, r);
        lemma_row_in_buffer(w, h, r);
        assert(row_terminated(old, w, r));
        assert(new.subrange(eol_offset(w, r), eol_offset(w, r) + 5) =~= old.subrange(
            eol_offset(w, r),
            eol_offset(w, r) + 5,
        ));
    }
}

/// Writing inside cell `(x, y)` keeps every other cell.
proof fn lemma_write_keeps_cell(
    old: Seq<u8>,
    new: Seq<u8>,
    w: int,
    h: int,
    x: int,
    y: int,
    bytes: Seq<u8>,
    x2: int,
    y2: int,
)
    requires
        old.len() == buffer_len(w, h),
        0 <= x < w,
        0 <= y < h,
        0 <= x2 < w,
        0 <= y2 < h,
        x != x2 || y != y2,
        bytes.len() == 21,
        written(old, new, cell_offset(w, x, y), bytes),
    ensures
        cell_at(new, w, x2, y2) == cell_at(old, w, x2, y2),
{
    lemma_cells_disjoint(w, h, x, y, x2, y2);
    lemma_cell_in_row(w, h, x2, y2);
    assert(cell_at(new, w, x2, y2) =~= cell_at(old, w, x2, y2));
}

/// The encoding of one cell, as `cell_bytes` gives it.
fn encode_cell(cell: [u8; 2], colour: Colour) -> (r: Vec<u8>)
    ensures
        r@ == cell_bytes(cell@, colour),
{
    let r_digits = btod(colour.r);
    let g_digits = btod(colour.g);
    let b_digits = btod(colour.b);
    let mut r: Vec<u8> = Vec::new();
    r.push(27u8);
    r.push(91u8);
    r.push(52u8);
    r.push(56u8);
    r.push(59u8);
    r.push(50u8);
    r.push(59u8);
    r.push(r_digits[0]);
    r.push(r_digits[1]);
    r.push(r_digits[2]);
    r.push(59u8);
    r.push(g_digits[0]);
    r.push(g_digits[1]);
    r.push(g_digits[2]);
    r.push(59u8);
    r.push(b_digits[0]);
    r.push(b_digits[1]);
    r.push(b_digits[2]);
    r.push(109u8);
    r.push(cell[0]);
    r.push(cell[1]);
    assert(r@ =~= cell_bytes(cell@, colour));
    r
}

/// Copies `bytes` into `buf` from position `at` on.
fn copy_into(buf: &mut Vec<u8>, at: usize, bytes: &Vec<u8>)
    requires
        at + bytes@.len() <= old(buf)@.len(),
    ensures
        written(old(buf)@, final(buf)@, at as int, bytes@),
{
    let n = buf.len();
    let mut i: usize = 0;
    while i < bytes.len()
        invariant
            0 <= i <= bytes@.len(),
            at + bytes@.len() <= n == buf@.len(),
            buf@.len() == old(buf)@.len(),
            forall|j: int| 0 <= j < i ==> #[trigger] buf@[at + j] == bytes@[j],
            forall|j: int|
                0 <= j < buf@.len() && !(at <= j < at + i) ==> #[trigger] buf@[j] == old(
                    buf,
                )@[j],
        decreases bytes@.len() - i,
    {
        buf.set(at + i, bytes[i]);
        i = i + 1;
    }
    assert(buf@.subrange(at as int, at + bytes@.len()) =~= bytes@) by {
        assert forall|k: int| 0 <= k < bytes@.len() implies buf@.subrange(
            at as int,
            at + bytes@.len(),
        )[k] == bytes@[k] by {
            assert(buf@[at + k] == bytes@[k]);
        }
    }
}

/// Every cell of a buffer is zero bytes.
pub open spec fn cells_zero(buf: Seq<u8>, w: int, h: int) -> bool {
    forall|x: int, y: int|
        0 <= x < w && 0 <= y < h ==> #[trigger] cell_at(buf, w, x, y) == Seq::new(
            21,
            |i: int| 0u8,
        )
}

/// Index of cell `(x, y)` in a buffer, as `cell_offset` gives it.
fn cell_index<const WIDTH: usize, const HEIGHT: usize>(x: usize, y: usize) -> (r: usize)
    requires
        x < WIDTH,
        y < HEIGHT,
        layout_fits(WIDTH as int, HEIGHT as int),
    ensures
        r == cell_offset(WIDTH as int, x as int, y as int),
        r + 21 <= buffer_len(WIDTH as int, HEIGHT as int),
{
    proof {
        lemma_cell_in_row(WIDTH as int, HEIGHT as int, x as int, y as int);
        assert(row_len(WIDTH as int) <= buffer_len(WIDTH as int, HEIGHT as int)) by (nonlinear_arith)
            requires
                1 <= HEIGHT,
                0 <= WIDTH,
        ;
    }
    PREFIX_SIZE * x + y * (PREFIX_SIZE * WIDTH + EOL_SIZE)
}

/// A buffer of zero bytes whose rows end with the terminator.
fn prepared_buffer<const WIDTH: usize, const HEIGHT: usize>() -> (r: Vec<u8>)
    requires
        layout_fits(WIDTH as int, HEIGHT as int),
    ensures
        buffer_wf(r@, WIDTH as int, HEIGHT as int),
        cells_zero(r@, WIDTH as int, HEIGHT as int),
{
    let w = Ghost(WIDTH as int);
    let h = Ghost(HEIGHT as int);
    assert(0 <= buffer_len(w@, h@)) by (nonlinear_arith)
        requires
            0 <= w@,
            0 <= h@,
    ;
    let len: usize = HEIGHT * (WIDTH * PREFIX_SIZE + EOL_SIZE);
    let mut buf: Vec<u8> = Vec::new();
    while buf.len() < len
        invariant
            buf@.len() <= len == buffer_len(w@, h@),
            forall|j: int| 0 <= j < buf@.len() ==> #[trigger] buf@[j] == 0,
        decreases len - buf@.len(),
    {
        buf.push(0u8);
    }
    assert forall|x: int, y: int| 0 <= x < w@ && 0 <= y < h@ implies #[trigger] cell_at(
        buf@,
        w@,
        x,
        y,
    ) == Seq::new(21, |i: int| 0u8) by {
        lemma_cell_in_row(w@, h@, x, y);
        assert(cell_at(buf@, w@, x, y) =~= Seq::new(21, |i: int| 0u8));
    }
    let eol: Vec<u8> = vec![27u8, 91u8, 48u8, 109u8, 10u8];
    assert(eol@ =~= eol_bytes());
    let mut row: usize = 0;
    while row < HEIGHT
        invariant
            0 <= row <= h@,
            w@ == WIDTH,
            h@ == HEIGHT,
            layout_fits(w@, h@),
            len == buffer_len(w@, h@),
            buf@.len() == len,
            eol@ == eol_bytes(),
            forall|r: int| 0 <= r < row ==> #[trigger] row_terminated(buf@, w@, r),
            cells_zero(buf@, w@, h@),
        decreases h@ - row,
    {
        proof {
            lemma_row_in_buffer(w@, h@, row as int);
        }
        let at: usize = (row + 1) * (WIDTH * PREFIX_SIZE + EOL_SIZE) - EOL_SIZE;
        let ghost before = buf@;
        copy_into(&mut buf, at, &eol);
        proof {
            assert forall|r: int| 0 <= r <= row implies #[trigger] row_terminated(buf@, w@, r) by {
                if r < row {
                    lemma_rows_ordered(w@, r, row as int);
                    lemma_row_in_buffer(w@, h@, r);
                    assert(row_terminated(before, w@, r));
                    assert(buf@.subrange(eol_offset(w@, r), eol_offset(w@, r) + 5) =~= before.subrange(
                        eol_offset(w@, r),
                        eol_offset(w@, r) + 5,
                    ));
                }
            }
            assert forall|x: int, y: int| 0 <= x < w@ && 0 <= y < h@ implies #[trigger] cell_at(
                buf@,
                w@,
                x,
                y,
            ) == Seq::new(21, |i: int| 0u8) by {
                lemma_cell_misses_eol(w@, h@, x, y, row as int);
                lemma_cell_in_row(w@, h@, x, y);
                assert(cell_at(before, w@, x, y) == Seq::new(21, |i: int| 0u8));
                assert(cell_at(buf@, w@, x, y) =~= cell_at(before, w@, x, y));
            }
        }
        row = row + 1;
    }
    buf
}

/// Text as laid into cells: an odd length gets one trailing space.
pub open spec fn padded(t: Seq<u8>) -> Seq<u8> {
    if t.len() % 2 == 1 {
        t.push(32u8)
    } else {
        t
    }
}

/// How many cells a text occupies.
pub open spec fn cell_count(t: Seq<u8>) -> int {
    padded(t).len() as int / 2
}

/// The two glyph bytes of cell `i` of a text.
pub open spec fn text_glyph(t: Seq<u8>, i: int) -> Seq<u8> {
    padded(t).subrange(2 * i, 2 * i + 2)
}

/// An odd-length text gains exactly one trailing space and an even-length
/// one none; the text then fills whole cells, two bytes each.
pub proof fn lemma_text_fills_whole_cells(t: Seq<u8>)
    ensures
        padded(t).len() == 2 * cell_count(t),
        cell_count(t) == (t.len() + 1) / 2,
        t.len() % 2 == 0 ==> padded(t) == t,
        t.len() % 2 == 1 ==> padded(t) == t.push(32u8),
{
}

/// A frame buffer of `BUFFERS` interchangeable grids of `WIDTH` by `HEIGHT`
/// cells. Each grid is kept encoded: every cell as a background-colour
/// control sequence and two glyph bytes, every row ended by a colour reset
/// and a line break. Writes go to the edit buffer; the display buffer is the
/// one shown.
pub struct BufferedCanvas<const WIDTH: usize, const HEIGHT: usize, const BUFFERS: usize> {
    buffers: Vec<Vec<u8>>,
    display_index: usize,
    edit_index: usize,
}

impl<const WIDTH: usize, const HEIGHT: usize, const BUFFERS: usize> BufferedCanvas<
    WIDTH,
    HEIGHT,
    BUFFERS,
> {
    /// The bytes of every buffer, in order.
    pub closed spec fn buffer_views(&self) -> Seq<Seq<u8>> {
        self.buffers@.map_values(|b: Vec<u8>| b@)
    }

    /// Which buffer is shown.
    pub closed spec fn display_pos(&self) -> int {
        self.display_index as int
    }

    /// Which buffer is written.
    pub closed spec fn edit_pos(&self) -> int {
        self.edit_index as int
    }

    pub open spec fn displayed(&self) -> Seq<u8> {
        self.buffer_views()[self.display_pos()]
    }

    pub open spec fn edited(&self) -> Seq<u8> {
        self.buffer_views()[self.edit_pos()]
    }

    /// The buffer after `i` in round-robin order.
    pub open spec fn next_pos(i: int) -> int {
        if i + 1 == BUFFERS {
            0
        } else {
            i + 1
        }
    }

    /// Every buffer has its layout, both indices name a buffer, and with two
    /// or more buffers the shown one is never the one written.
    pub open spec fn wf(&self) -> bool {
        &&& BUFFERS >= 1
        &&& layout_fits(WIDTH as int, HEIGHT as int)
        &&& self.buffer_views().len() == BUFFERS
        &&& 0 <= self.display_pos() < BUFFERS
        &&& 0 <= self.edit_pos() < BUFFERS
        &&& BUFFERS >= 2 ==> self.display_pos() != self.edit_pos()
        &&& forall|b: int|
            0 <= b < BUFFERS ==> #[trigger] buffer_wf(
                self.buffer_views()[b],
                WIDTH as int,
                HEIGHT as int,
            )
    }

    /// `self` is `before` with at most the edit buffer changed.
    pub open spec fn only_edit_changed(&self, before: &Self) -> bool {
        &&& self.display_pos() == before.display_pos()
        &&& self.edit_pos() == before.edit_pos()
        &&& self.buffer_views() == before.buffer_views().update(
            before.edit_pos(),
            self.edited(),
        )
    }

    /// With two buffers, two swaps in a row give back the shown and the
    /// written buffer that were there before.
    pub proof fn lemma_two_swaps_restore(display: int, edit: int)
        requires
            BUFFERS == 2,
            0 <= display < 2,
            0 <= edit < 2,
        ensures
            Self::next_pos(Self::next_pos(display)) == display,
            Self::next_pos(Self::next_pos(edit)) == edit,
    {
    }

    /// With two or more buffers the shown buffer is never the one being
    /// written, so the displayed bytes never come from a half-drawn frame.
    pub proof fn lemma_shown_never_edited(c: &Self)
        requires
            c.wf(),
            BUFFERS >= 2,
        ensures
            c.display_pos() != c.edit_pos(),
    {
    }

    /// Returns the number of buffers.
    pub fn buffers(&self) -> (r: usize)
        ensures
            r == BUFFERS,
    {
        BUFFERS
    }

    /// Returns the grid size in cells.
    pub fn size(&self) -> (r: CanvasVector)
        ensures
            r == (CanvasVector { x: WIDTH, y: HEIGHT }),
    {
        CanvasVector { x: WIDTH, y: HEIGHT }
    }

    /// Which buffer is shown.
    pub fn display_index(&self) -> (r: usize)
        ensures
            r == self.display_pos(),
    {
        self.display_index
    }

    /// Which buffer is written.
    pub fn edit_index(&self) -> (r: usize)
        ensures
            r == self.edit_pos(),
    {
        self.edit_index
    }

    /// Advances a buffer index to the next buffer, wrapping to the first.
    fn adjust_index(index: &mut usize)
        requires
            *old(index) < BUFFERS,
        ensures
            *final(index) == Self::next_pos(*old(index) as int),
    {
        *index = *index + 1;
        if *index == BUFFERS {
            *index = 0;
        }
    }

    /// Rotates both indices one buffer on: the buffer just written is shown
    /// and the next one is written.
    pub fn swap(&mut self)
        requires
            old(self).wf(),
        ensures
            final(self).wf(),
            final(self).buffer_views() == old(self).buffer_views(),
            final(self).display_pos() == Self::next_pos(old(self).display_pos()),
            final(self).edit_pos() == Self::next_pos(old(self).edit_pos()),
    {
        Self::adjust_index(&mut self.display_index);
        Self::adjust_index(&mut self.edit_index);
    }

    /// Exchanges the shown and the written buffer.
    pub fn full_swap(&mut self)
        requires
            old(self).wf(),
        ensures
            final(self).wf(),
            final(self).buffer_views() == old(self).buffer_views(),
            final(self).display_pos() == old(self).edit_pos(),
            final(self).edit_pos() == old(self).display_pos(),
    {
        let tmp = self.edit_index;
        self.edit_index = self.display_index;
        self.display_index = tmp;
    }

    /// Creates a canvas with every buffer laid out, one of them cleared to
    /// black and shown, the first one to be written next.
    pub fn new() -> (c: Self)
        requires
            BUFFERS >= 1,
            layout_fits(WIDTH as int, HEIGHT as int),
        ensures
            c.wf(),
            c.display_pos() == BUFFERS - 1,
            c.edit_pos() == 0,
            forall|x: int, y: int|
                0 <= x < WIDTH && 0 <= y < HEIGHT ==> #[trigger] cell_at(
                    c.displayed(),
                    WIDTH as int,
                    x,
                    y,
                ) == cell_bytes(blank_glyph(), Colour { r: 0, g: 0, b: 0 }),
            forall|b: int|
                0 <= b < BUFFERS - 1 ==> cells_zero(
                    #[trigger] c.buffer_views()[b],
                    WIDTH as int,
                    HEIGHT as int,
                ),
    {
        let mut buffers: Vec<Vec<u8>> = Vec::new();
        while buffers.len() < BUFFERS
            invariant
                buffers@.len() <= BUFFERS,
                layout_fits(WIDTH as int, HEIGHT as int),
                forall|b: int|
                    0 <= b < buffers@.len() ==> buffer_wf(
                        #[trigger] buffers@[b]@,
                        WIDTH as int,
                        HEIGHT as int,
                    ) && cells_zero(buffers@[b]@, WIDTH as int, HEIGHT as int),
            decreases BUFFERS - buffers@.len(),
        {
            buffers.push(prepared_buffer::<WIDTH, HEIGHT>());
        }
        let mut this = BufferedCanvas { buffers, display_index: 0, edit_index: BUFFERS - 1 };
        assert forall|b: int| 0 <= b < BUFFERS implies #[trigger] buffer_wf(
            this.buffer_views()[b],
            WIDTH as int,
            HEIGHT as int,
        ) by {
            assert(this.buffer_views()[b] == this.buffers@[b]@);
        }
        let ghost start = this;
        this.clear();
        this.full_swap();
        assert forall|b: int| 0 <= b < BUFFERS - 1 implies cells_zero(
            #[trigger] this.buffer_views()[b],
            WIDTH as int,
            HEIGHT as int,
        ) by {
            assert(this.buffer_views()[b] == start.buffer_views()[b]);
            assert(start.buffer_views()[b] == start.buffers@[b]@);
        }
        this
    }

    /// Writes one cell of the edit buffer: the colour's control sequence and
    /// the two glyph bytes. A cell outside the grid is refused and nothing
    /// changes.
    pub fn put_cell(&mut self, cell: [u8; 2], colour: Colour, canvas_index: CanvasVector) -> (r:
        Result<(), CanvasError>)
        requires
            old(self).wf(),
        ensures
            final(self).wf(),
            r is Ok <==> canvas_index.x < WIDTH && canvas_index.y < HEIGHT,
            r is Err ==> *final(self) == *old(self),
            final(self).only_edit_changed(old(self)),
            r is Ok ==> written(
                old(self).edited(),
                final(self).edited(),
                cell_offset(WIDTH as int, canvas_index.x as int, canvas_index.y as int),
                cell_bytes(cell@, colour),
            ),
    {
        if canvas_index.x >= WIDTH || canvas_index.y >= HEIGHT {
            proof {
                assert(self.buffer_views() =~= self.buffer_views().update(
                    self.edit_pos(),
                    self.edited(),
                ));
            }
            return Err(CanvasError::OutOfRange);
        }
        let ghost before = *self;
        let at = cell_index::<WIDTH, HEIGHT>(canvas_index.x, canvas_index.y);
        let bytes = encode_cell(cell, colour);
        let e = self.edit_index;
        let mut buf: Vec<u8> = Vec::new();
        self.buffers.set_and_swap(e, &mut buf);
        assert(buf@ == before.edited());
        assert(buffer_wf(before.buffer_views()[e as int], WIDTH as int, HEIGHT as int));
        copy_into(&mut buf, at, &bytes);
        proof {
            lemma_write_keeps_rows(
                before.edited(),
                buf@,
                WIDTH as int,
                HEIGHT as int,
                canvas_index.x as int,
                canvas_index.y as int,
                bytes@,
            );
        }
        self.buffers.set_and_swap(e, &mut buf);
        proof {
            assert(self.buffer_views() =~= before.buffer_views().update(e as int, self.buffers@[e as int]@));
            assert forall|b: int| 0 <= b < BUFFERS implies #[trigger] buffer_wf(
                self.buffer_views()[b],
                WIDTH as int,
                HEIGHT as int,
            ) by {
                if b != e {
                    assert(buffer_wf(before.buffer_views()[b], WIDTH as int, HEIGHT as int));
                }
            }
        }
        Ok(())
    }

    /// Writes a blank cell (two spaces) of the given colour.
    pub fn put_pixel(&mut self, colour: Colour, canvas_index: CanvasVector) -> (r: Result<
        (),
        CanvasError,
    >)
        requires
            old(self).wf(),
        ensures
            final(self).wf(),
            r is Ok <==> canvas_index.x < WIDTH && canvas_index.y < HEIGHT,
            r is Err ==> *final(self) == *old(self),
            final(self).only_edit_changed(old(self)),
            r is Ok ==> written(
                old(self).edited(),
                final(self).edited(),
                cell_offset(WIDTH as int, canvas_index.x as int, canvas_index.y as int),
                cell_bytes(blank_glyph(), colour),
            ),
    {
        let blank: [u8; 2] = [32u8, 32u8];
        assert(blank@ =~= blank_glyph());
        self.put_cell(blank, colour, canvas_index)
    }

    /// Sets every cell of the edit buffer to a blank cell of the given colour.
    pub fn fill(&mut self, colour: Colour)
        requires
            old(self).wf(),
        ensures
            final(self).wf(),
            final(self).only_edit_changed(old(self)),
            forall|x: int, y: int|
                0 <= x < WIDTH && 0 <= y < HEIGHT ==> #[trigger] cell_at(
                    final(self).edited(),
                    WIDTH as int,
                    x,
                    y,
                ) == cell_bytes(blank_glyph(), colour),
    {
        proof {
            assert(old(self).buffer_views() =~= old(self).buffer_views().update(
                old(self).edit_pos(),
                old(self).edited(),
            ));
        }
        let mut y: usize = 0;
        while y < HEIGHT
            invariant
                old(self).wf(),
                self.wf(),
                self.only_edit_changed(old(self)),
                0 <= y <= HEIGHT,
                forall|x2: int, y2: int|
                    0 <= x2 < WIDTH && 0 <= y2 < y ==> #[trigger] cell_at(
                        self.edited(),
                        WIDTH as int,
                        x2,
                        y2,
                    ) == cell_bytes(blank_glyph(), colour),
            decreases HEIGHT - y,
        {
            let mut x: usize = 0;
            while x < WIDTH
                invariant
                    old(self).wf(),
                    self.wf(),
                    self.only_edit_changed(old(self)),
                    0 <= y < HEIGHT,
                    0 <= x <= WIDTH,
                    forall|x2: int, y2: int|
                        0 <= x2 < WIDTH && 0 <= y2 < HEIGHT && (y2 < y || (y2 == y && x2 < x))
                            ==> #[trigger] cell_at(self.edited(), WIDTH as int, x2, y2)
                            == cell_bytes(blank_glyph(), colour),
                decreases WIDTH - x,
            {
                let ghost mid = *self;
                proof {
                    assert(buffer_wf(mid.buffer_views()[mid.edit_pos()], WIDTH as int, HEIGHT as int));
                }
                let _ = self.put_pixel(colour, CanvasVector { x, y });
                proof {
                    assert forall|x2: int, y2: int|
                        0 <= x2 < WIDTH && 0 <= y2 < HEIGHT && (y2 < y || (y2 == y && x2 <= x))
                            implies #[trigger] cell_at(self.edited(), WIDTH as int, x2, y2)
                            == cell_bytes(blank_glyph(), colour) by {
                        if x2 != x || y2 != y {
                            lemma_write_keeps_cell(
                                mid.edited(),
                                self.edited(),
                                WIDTH as int,
                                HEIGHT as int,
                                x as int,
                                y as int,
                                cell_bytes(blank_glyph(), colour),
                                x2,
                                y2,
                            );
                        }
                    }
                    assert(self.buffer_views() =~= old(self).buffer_views().update(
                        old(self).edit_pos(),
                        self.edited(),
                    )) by {
                        assert(mid.buffer_views() == old(self).buffer_views().update(
                            old(self).edit_pos(),
                            mid.edited(),
                        ));
                        assert(self.buffer_views() == mid.buffer_views().update(
                            mid.edit_pos(),
                            self.edited(),
                        ));
                    }
                }
                x = x + 1;
            }
            y = y + 1;
        }
    }

    /// Sets every cell of the edit buffer to black.
    pub fn clear(&mut self)
        requires
            old(self).wf(),
        ensures
            final(self).wf(),
            final(self).only_edit_changed(old(self)),
            forall|x: int, y: int|
                0 <= x < WIDTH && 0 <= y < HEIGHT ==> #[trigger] cell_at(
                    final(self).edited(),
                    WIDTH as int,
                    x,
                    y,
                ) == cell_bytes(blank_glyph(), Colour { r: 0, g: 0, b: 0 }),
    {
        self.fill(Colour { r: 0, g: 0, b: 0 });
    }

    /// Lays `text` across consecutive cells of one row, two bytes per cell,
    /// from `canvas_index` rightwards; an odd length gets one trailing space.
    /// Text that would leave the grid is refused and nothing changes.
    pub fn write(&mut self, text: &str, colour: Colour, canvas_index: CanvasVector) -> (r: Result<
        (),
        CanvasError,
    >)
        requires
            old(self).wf(),
        ensures
            final(self).wf(),
            r is Ok <==> canvas_index.y < HEIGHT && canvas_index.x + cell_count(text.spec_bytes())
                <= WIDTH,
            r is Err ==> *final(self) == *old(self),
            final(self).only_edit_changed(old(self)),
            r is Ok ==> forall|x: int|
                canvas_index.x <= x < canvas_index.x + cell_count(text.spec_bytes()) ==> #[trigger] cell_at(
                    final(self).edited(),
                    WIDTH as int,
                    x,
                    canvas_index.y as int,
                ) == cell_bytes(text_glyph(text.spec_bytes(), x - canvas_index.x), colour),
            r is Ok ==> forall|x: int, y: int|
                0 <= x < WIDTH && 0 <= y < HEIGHT && !(y == canvas_index.y && canvas_index.x <= x
                    < canvas_index.x + cell_count(text.spec_bytes())) ==> #[trigger] cell_at(
                    final(self).edited(),
                    WIDTH as int,
                    x,
                    y,
                ) == cell_at(old(self).edited(), WIDTH as int, x, y),
    {
        let bytes = text.as_bytes();
        let n = bytes.len();
        let count: usize = n / 2 + n % 2;
        let ghost t = text.spec_bytes();
        let x0 = canvas_index.x;
        let y0 = canvas_index.y;
        assert(count == cell_count(t));
        proof {
            assert(old(self).buffer_views() =~= old(self).buffer_views().update(
                old(self).edit_pos(),
                old(self).edited(),
            ));
        }
        if y0 >= HEIGHT || x0 > WIDTH || count > WIDTH - x0 {
            return Err(CanvasError::OutOfRange);
        }
        let mut i: usize = 0;
        while i < count
            invariant
                old(self).wf(),
                self.wf(),
                self.only_edit_changed(old(self)),
                bytes@ == t,
                n == t.len(),
                count == cell_count(t),
                y0 < HEIGHT,
                x0 + count <= WIDTH,
                0 <= i <= count,
                forall|x: int|
                    x0 <= x < x0 + i ==> #[trigger] cell_at(self.edited(), WIDTH as int, x, y0 as int)
                        == cell_bytes(text_glyph(t, x - x0), colour),
                forall|x: int, y: int|
                    0 <= x < WIDTH && 0 <= y < HEIGHT && !(y == y0 && x0 <= x < x0 + i)
                        ==> #[trigger] cell_at(self.edited(), WIDTH as int, x, y) == cell_at(
                        old(self).edited(),
                        WIDTH as int,
                        x,
                        y,
                    ),
            decreases count - i,
        {
            let first = bytes[2 * i];
            let second: u8 = if 2 * i + 1 < n {
                bytes[2 * i + 1]
            } else {
                32u8
            };
            let glyph: [u8; 2] = [first, second];
            assert(glyph@ =~= text_glyph(t, i as int));
            let ghost mid = *self;
            proof {
                assert(buffer_wf(mid.buffer_views()[mid.edit_pos()], WIDTH as int, HEIGHT as int));
            }
            let _ = self.put_cell(glyph, colour, CanvasVector { x: x0 + i, y: y0 });
            proof {
                assert forall|x: int|
                    x0 <= x < x0 + i + 1 implies #[trigger] cell_at(
                    self.edited(),
                    WIDTH as int,
                    x,
                    y0 as int,
                ) == cell_bytes(text_glyph(t, x - x0), colour) by {
                    if x != x0 + i {
                        lemma_write_keeps_cell(
                            mid.edited(),
                            self.edited(),
                            WIDTH as int,
                            HEIGHT as int,
                            x0 + i,
                            y0 as int,
                            cell_bytes(glyph@, colour),
                            x,
                            y0 as int,
                        );
                    }
                }
                assert forall|x: int, y: int|
                    0 <= x < WIDTH && 0 <= y < HEIGHT && !(y == y0 && x0 <= x < x0 + i + 1)
                    implies #[trigger] cell_at(self.edited(), WIDTH as int, x, y) == cell_at(
                    old(self).edited(),
                    WIDTH as int,
                    x,
                    y,
                ) by {
                    lemma_write_keeps_cell(
                        mid.edited(),
                        self.edited(),
                        WIDTH as int,
                        HEIGHT as int,
                        x0 + i,
                        y0 as int,
                        cell_bytes(glyph@, colour),
                        x,
                        y,
                    );
                }
                assert(self.buffer_views() =~= old(self).buffer_views().update(
                    old(self).edit_pos(),
                    self.edited(),
                )) by {
                    assert(mid.buffer_views() == old(self).buffer_views().update(
                        old(self).edit_pos(),
                        mid.edited(),
                    ));
                }
            }
            i = i + 1;
        }
        Ok(())
    }

    /// The bytes of the shown buffer, to be written verbatim to a display.
    pub fn display_bytes(&self) -> (r: &Vec<u8>)
        requires
            self.wf(),
        ensures
            r@ == self.displayed(),
    {
        &self.buffers[self.display_index]
    }
}

} // verus!
