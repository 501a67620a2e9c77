//! The VGA text console driver: a character grid with cursor and scroll
//! management.
//!
//! The driver owns the text cells as plain memory: one glyph byte and one
//! attribute byte per cell, row-major. The surrounding program copies the
//! cells to the memory-mapped hardware region; everything the driver decides
//! (cursor movement, wrapping, scrolling, substitution of wide characters)
//! is stated and proved here over [`ConsoleView`].

use vstd::prelude::*;

verus! {

broadcast use
    vstd::arithmetic::mul::lemma_mul_is_commutative,
    vstd::arithmetic::mul::group_mul_is_distributive,
    vstd::arithmetic::mul::lemma_mul_nonnegative;

/// The default attribute: white foreground on black background, no blink.
pub const DEFAULT_ATTR: u8 = 120;

/// The blank glyph (an ASCII space).
pub const BLANK_GLYPH: u8 = 32;

/// What an attribute byte holds: the foreground colour shifted up by three
/// bits, the background colour in the low three bits, blink in the top bit.
pub open spec fn attr_byte(fg: u8, bg: u8, blink: bool) -> u8 {
    (fg * 8 + bg + if blink { 128int } else { 0int }) as u8
}

/// Packs a foreground colour (`0..=15`), background colour (`0..=7`) and a
/// blink flag into one attribute byte.
pub fn make_attr(fg: u8, bg: u8, blink: bool) -> (r: u8)
    requires
        fg <= 15,
        bg <= 7,
    ensures
        r == attr_byte(fg, bg, blink),
{
    fg * 8 + bg + if blink { 128u8 } else { 0u8 }
}

/// The mathematical model of the console: dimensions, cursor, the glyph and
/// attribute byte of every cell (row-major), and the attribute used for
/// explicit cell writes.
#[verifier::ext_equal]
pub ghost struct ConsoleView {
    pub width: nat,
    pub height: nat,
    pub row: nat,
    pub col: nat,
    pub glyphs: Seq<u8>,
    pub attrs: Seq<u8>,
    pub attr: u8,
}

/// The grid shifted up by one row: every row but the last takes the bytes of
/// the row below it, and the vacated bottom row is filled with `blank`.
pub open spec fn scrolled_seq(s: Seq<u8>, width: nat, height: nat, blank: u8) -> Seq<u8> {
    Seq::new(width * height, |i: int| if i < (height - 1) * width { s[i + width] } else { blank })
}

impl ConsoleView {
    /// The console invariant: positive dimensions that fit the hardware
    /// registers, one glyph and one attribute byte per cell, and a cursor
    /// inside the grid.
    pub open spec fn wf(self) -> bool {
        &&& 1 <= self.width <= 255
        &&& 1 <= self.height <= 255
        &&& self.glyphs.len() == self.width * self.height
        &&& self.attrs.len() == self.width * self.height
        &&& self.row < self.height
        &&& self.col < self.width
    }

    /// The linear cell index of position (`row`, `col`).
    pub open spec fn cell_index(self, row: int, col: int) -> int {
        row * self.width + col
    }

    /// The glyph byte shown at position (`row`, `col`).
    pub open spec fn glyph_at(self, row: int, col: int) -> u8 {
        self.glyphs[self.cell_index(row, col)]
    }

    /// The attribute byte shown at position (`row`, `col`).
    pub open spec fn attr_at(self, row: int, col: int) -> u8 {
        self.attrs[self.cell_index(row, col)]
    }

    /// A blank grid: every cell a space with the default attribute, cursor
    /// home; dimensions and the current write attribute kept.
    pub open spec fn cleared(self) -> ConsoleView {
        ConsoleView {
            row: 0,
            col: 0,
            glyphs: Seq::new(self.width * self.height, |i: int| BLANK_GLYPH),
            attrs: Seq::new(self.width * self.height, |i: int| DEFAULT_ATTR),
            ..self
        }
    }

    /// The cell under the cursor overwritten with `glyph`, and with the given
    /// attribute byte where one is supplied; cursor unmoved.
    pub open spec fn written(self, glyph: u8, attr: Option<u8>) -> ConsoleView {
        let i = self.cell_index(self.row as int, self.col as int);
        ConsoleView {
            glyphs: self.glyphs.update(i, glyph),
            attrs: match attr {
                Option::Some(a) => self.attrs.update(i, a),
                Option::None => self.attrs,
            },
            ..self
        }
    }

    /// The whole grid scrolled up one row, the bottom row blanked, and the
    /// column reset to the left margin.
    pub open spec fn scrolled(self) -> ConsoleView {
        ConsoleView {
            col: 0,
            glyphs: scrolled_seq(self.glyphs, self.width, self.height, BLANK_GLYPH),
            attrs: scrolled_seq(self.attrs, self.width, self.height, DEFAULT_ATTR),
            ..self
        }
    }

    /// A row advance: one row down, or a scroll with the row clamped to the
    /// bottom when already there.
    pub open spec fn moved_down(self) -> ConsoleView {
        if self.row + 1 < self.height {
            ConsoleView { row: self.row + 1, ..self }
        } else {
            ConsoleView { row: (self.height - 1) as nat, ..self.scrolled() }
        }
    }

    /// A column advance: one column right, wrapping to the start of the next
    /// row (with a possible scroll) at the right margin.
    pub open spec fn moved_right(self) -> ConsoleView {
        if self.col + 1 < self.width {
            ConsoleView { col: self.col + 1, ..self }
        } else {
            (ConsoleView { col: 0, ..self }).moved_down()
        }
    }
}


/// A character that prints as a glyph: neither carriage return nor newline.
pub open spec fn is_plain_glyph(ch: char) -> bool {
    ch != '\r' && ch != '\n'
}

impl ConsoleView {
    /// What one character of text does to the console: carriage return
    /// resets the column, newline starts a new row (scrolling at the
    /// bottom), a single-byte code point is written as that byte, and any
    /// wider code point is substituted with `?`; glyph writes advance the
    /// cursor one column.
    pub open spec fn step_char(self, ch: char) -> ConsoleView {
        if ch == '\r' {
            ConsoleView { col: 0, ..self }
        } else if ch == '\n' {
            (ConsoleView { col: 0, ..self }).moved_down()
        } else if ch as u32 <= 255 {
            self.written((ch as u32) as u8, Option::None).moved_right()
        } else {
            self.written(63, Option::None).moved_right()
        }
    }

    /// The console after a sequence of characters, written left to right.
    pub open spec fn write_str_view(self, s: Seq<char>) -> ConsoleView
        decreases s.len(),
    {
        if s.len() == 0 {
            self
        } else {
            self.step_char(s[0]).write_str_view(s.subrange(1, s.len() as int))
        }
    }
}

/// One character step keeps the console well formed and never changes the
/// dimensions or the explicit-write attribute.
pub proof fn lemma_step_char_wf(v: ConsoleView, ch: char)
    requires
        v.wf(),
    ensures
        v.step_char(ch).wf(),
        v.step_char(ch).width == v.width,
        v.step_char(ch).height == v.height,
        v.step_char(ch).attr == v.attr,
{
    if ch != '\r' && ch != '\n' {
        lemma_cell_index_bound(v.row as int, v.col as int, v.width as int, v.height as int);
    }
}

/// Writing any text keeps the console well formed and never changes the
/// dimensions or the explicit-write attribute.
pub proof fn lemma_write_str_view_wf(v: ConsoleView, s: Seq<char>)
    requires
        v.wf(),
    ensures
        v.write_str_view(s).wf(),
        v.write_str_view(s).width == v.width,
        v.write_str_view(s).height == v.height,
        v.write_str_view(s).attr == v.attr,
    decreases s.len(),
{
    if s.len() == 0 {
    } else {
        lemma_step_char_wf(v, s[0]);
        lemma_write_str_view_wf(v.step_char(s[0]), s.subrange(1, s.len() as int));
    }
}

/// Appending one character to a text writes that text and then steps once.
pub proof fn lemma_write_str_view_snoc(v: ConsoleView, s: Seq<char>, ch: char)
    ensures
        v.write_str_view(s.push(ch)) == v.write_str_view(s).step_char(ch),
    decreases s.len(),
{
    if s.len() == 0 {
        assert(s.push(ch)[0] == ch);
        assert(s.push(ch).subrange(1, s.push(ch).len() as int) =~= Seq::<char>::empty());
        assert(v.write_str_view(s) == v);
        assert(v.step_char(ch).write_str_view(Seq::<char>::empty()) == v.step_char(ch));
    } else {
        assert(s.push(ch)[0] == s[0]);
        assert(s.push(ch).subrange(1, s.push(ch).len() as int) =~= s.subrange(
            1,
            s.len() as int,
        ).push(ch));
        lemma_write_str_view_snoc(v.step_char(s[0]), s.subrange(1, s.len() as int), ch);
    }
}

/// Writing the concatenation of two texts writes the one and then the other.
pub proof fn lemma_write_str_view_concat(v: ConsoleView, a: Seq<char>, b: Seq<char>)
    ensures
        v.write_str_view(a + b) == v.write_str_view(a).write_str_view(b),
    decreases b.len(),
{
    if b.len() == 0 {
        assert(a + b =~= a);
    } else {
        let front = b.subrange(0, b.len() - 1);
        let ch = b[b.len() - 1];
        assert(b =~= front.push(ch));
        assert(a + b =~= (a + front).push(ch));
        lemma_write_str_view_concat(v, a, front);
        lemma_write_str_view_snoc(v, a + front, ch);
        lemma_write_str_view_snoc(v.write_str_view(a), front, ch);
    }
}

/// The cell index of a position inside the grid lies inside the cell array.
pub proof fn lemma_cell_index_bound(row: int, col: int, width: int, height: int)
    requires
        0 <= row < height,
        0 <= col < width,
    ensures
        0 <= row * width + col < width * height,
{
    assert(0 <= row * width + col < width * height) by (nonlinear_arith)
        requires
            0 <= row < height,
            0 <= col < width,
    ;
}

/// A grid of hardware-register dimensions has at most 255 * 255 cells.
pub proof fn lemma_grid_size_bound(width: int, height: int)
    requires
        0 <= width <= 255,
        0 <= height <= 255,
    ensures
        width * height <= 65025,
{
    assert(width * height <= 65025) by (nonlinear_arith)
        requires
            0 <= width <= 255,
            0 <= height <= 255,
    ;
}


/// Law: writing exactly one full row of glyph characters from the left
/// margin of a row above the bottom leaves the cursor at the start of the
/// next row. In particular, on a cleared grid of height above one, a row's
/// worth of glyphs leaves the cursor at row one, column zero.
pub proof fn lemma_full_row_wraps(v: ConsoleView, s: Seq<char>)
    requires
        v.wf(),
        v.col == 0,
        v.row + 1 < v.height,
        s.len() == v.width,
        forall|i: int| 0 <= i < s.len() ==> is_plain_glyph(#[trigger] s[i]),
    ensures
        v.write_str_view(s).row == v.row + 1,
        v.write_str_view(s).col == 0,
{
    lemma_plain_glyph_progress(v, s, s.len() as nat);
    assert(s.take(s.len() as int) =~= s);
}

/// Writing the first `j` glyph characters of one full row moves the cursor
/// `j` cells to the right, wrapping only on the last one.
proof fn lemma_plain_glyph_progress(v: ConsoleView, s: Seq<char>, j: nat)
    requires
        v.wf(),
        v.col == 0,
        v.row + 1 < v.height,
        s.len() == v.width,
        j <= s.len(),
        forall|i: int| 0 <= i < s.len() ==> is_plain_glyph(#[trigger] s[i]),
    ensures
        v.write_str_view(s.take(j as int)).wf(),
        v.write_str_view(s.take(j as int)).width == v.width,
        v.write_str_view(s.take(j as int)).height == v.height,
        j < v.width ==> v.write_str_view(s.take(j as int)).row == v.row
            && v.write_str_view(s.take(j as int)).col == j,
        j == v.width ==> v.write_str_view(s.take(j as int)).row == v.row + 1
            && v.write_str_view(s.take(j as int)).col == 0,
    decreases j,
{
    if j == 0 {
        assert(s.take(0) =~= Seq::<char>::empty());
    } else {
        lemma_plain_glyph_progress(v, s, (j - 1) as nat);
        let prev = v.write_str_view(s.take(j - 1));
        let ch = s[j - 1];
        assert(s.take(j - 1).push(ch) =~= s.take(j as int));
        lemma_write_str_view_snoc(v, s.take(j - 1), ch);
        lemma_step_char_wf(prev, ch);
        assert(v.write_str_view(s.take(j as int)) == prev.step_char(ch));
    }
}

/// Law: a newline written while the cursor sits on the bottom row scrolls
/// at once. Every row takes the content of the row below it, glyphs and
/// attributes both, the bottom row becomes blank, and the cursor moves to
/// the left margin of the still-bottom row.
pub proof fn lemma_newline_at_bottom(v: ConsoleView)
    requires
        v.wf(),
        v.row == v.height - 1,
    ensures
        v.step_char('\n').row == v.height - 1,
        v.step_char('\n').col == 0,
        v.step_char('\n').glyphs.len() == v.glyphs.len(),
        forall|i: int|
            0 <= i < (v.height - 1) * v.width ==> v.step_char('\n').glyphs[i] == v.glyphs[i
                + v.width] && v.step_char('\n').attrs[i] == v.attrs[i + v.width],
        forall|i: int|
            (v.height - 1) * v.width <= i < v.width * v.height ==> v.step_char('\n').glyphs[i]
                == BLANK_GLYPH && v.step_char('\n').attrs[i] == DEFAULT_ATTR,
{
}

/// Law: on a grid of a single row, any newline replaces the whole content
/// with blank cells and the cursor stays at the home position.
pub proof fn lemma_single_row_newline_blanks(v: ConsoleView)
    requires
        v.wf(),
        v.height == 1,
    ensures
        v.step_char('\n').row == 0,
        v.step_char('\n').col == 0,
        forall|i: int|
            0 <= i < v.width * v.height ==> v.step_char('\n').glyphs[i] == BLANK_GLYPH
                && v.step_char('\n').attrs[i] == DEFAULT_ATTR,
{
    lemma_newline_at_bottom(v);
}

/// Law: a character whose code point does not fit in one byte is treated
/// exactly as writing `?`: the substitute glyph lands at the cell under the
/// cursor and the cursor advances one column (wrapping as any glyph does).
pub proof fn lemma_wide_char_substituted(v: ConsoleView, ch: char)
    requires
        v.wf(),
        ch as u32 > 255,
    ensures
        v.step_char(ch) == v.written(63, Option::None).moved_right(),
        v.col + 1 < v.width ==> v.step_char(ch).row == v.row && v.step_char(ch).col == v.col + 1
            && v.step_char(ch).glyph_at(v.row as int, v.col as int) == 63,
{
    lemma_cell_index_bound(v.row as int, v.col as int, v.width as int, v.height as int);
}


/// The VGA text console driver.
pub struct VgaConsole {
    glyphs: Vec<u8>,
    attrs: Vec<u8>,
    width: u8,
    height: u8,
    row: u8,
    col: u8,
    attr: u8,
}

impl View for VgaConsole {
    type V = ConsoleView;

    closed spec fn view(&self) -> ConsoleView {
        ConsoleView {
            width: self.width as nat,
            height: self.height as nat,
            row: self.row as nat,
            col: self.col as nat,
            glyphs: self.glyphs@,
            attrs: self.attrs@,
            attr: self.attr,
        }
    }
}

impl VgaConsole {
    /// The console invariant, stated of the model.
    pub open spec fn wf(&self) -> bool {
        self@.wf()
    }

    /// Makes a console of the given text-mode geometry, blank, with the
    /// cursor home and the default attribute.
    pub fn new(width: u8, height: u8) -> (r: VgaConsole)
        requires
            1 <= width,
            1 <= height,
        ensures
            r.wf(),
            r@.width == width,
            r@.height == height,
            r@ == (ConsoleView {
                width: width as nat,
                height: height as nat,
                row: 0,
                col: 0,
                glyphs: Seq::new((width * height) as nat, |i: int| BLANK_GLYPH),
                attrs: Seq::new((width * height) as nat, |i: int| DEFAULT_ATTR),
                attr: DEFAULT_ATTR,
            }),
    {
        proof {
            lemma_grid_size_bound(width as int, height as int);
        }
        let n: usize = (width as usize) * (height as usize);
        let mut glyphs: Vec<u8> = Vec::new();
        let mut attrs: Vec<u8> = Vec::new();
        let mut i: usize = 0;
        while i < n
            invariant
                i <= n,
                glyphs@ =~= Seq::new(i as nat, |j: int| BLANK_GLYPH),
                attrs@ =~= Seq::new(i as nat, |j: int| DEFAULT_ATTR),
            decreases n - i,
        {
            glyphs.push(BLANK_GLYPH);
            attrs.push(DEFAULT_ATTR);
            i = i + 1;
        }
        let r = VgaConsole { glyphs, attrs, width, height, row: 0, col: 0, attr: DEFAULT_ATTR };
        proof {
            lemma_cell_index_bound(0, 0, width as int, height as int);
            assert(r@.glyphs =~= Seq::new((width * height) as nat, |i: int| BLANK_GLYPH));
            assert(r@.attrs =~= Seq::new((width * height) as nat, |i: int| DEFAULT_ATTR));
        }
        r
    }

    /// Writes `glyph` at the cursor, and the attribute byte too where one is
    /// given; the cursor does not move.
    pub fn write(&mut self, glyph: u8, attr: Option<u8>)
        requires
            old(self).wf(),
        ensures
            final(self).wf(),
            final(self)@ == old(self)@.written(glyph, attr),
    {
        proof {
            lemma_cell_index_bound(
                self.row as int,
                self.col as int,
                self.width as int,
                self.height as int,
            );
            lemma_grid_size_bound(self.width as int, self.height as int);
        }
        let offset: usize = (self.row as usize) * (self.width as usize) + (self.col as usize);
        self.glyphs.set(offset, glyph);
        if let Option::Some(a) = attr {
            self.attrs.set(offset, a);
        }
        proof {
            assert(self@ =~= old(self)@.written(glyph, attr));
        }
    }

    /// Sets the attribute used for subsequent explicit cell writes.
    pub fn set_attr(&mut self, attr: u8)
        requires
            old(self).wf(),
        ensures
            final(self).wf(),
            final(self)@ == (ConsoleView { attr, ..old(self)@ }),
    {
        self.attr = attr;
        proof {
            assert(self@ =~= (ConsoleView { attr, ..old(self)@ }));
        }
    }

    /// Scrolls the grid up one row: every row takes the bytes of the row
    /// below it, glyphs and attributes both, and the bottom row is blanked.
    pub fn scroll_page(&mut self)
        requires
            old(self).wf(),
        ensures
            final(self).wf(),
            final(self)@ == old(self)@.scrolled(),
    {
        let w: usize = self.width as usize;
        let h: usize = self.height as usize;
        proof {
            lemma_grid_size_bound(w as int, h as int);
            assert((h - 1) * w <= h * w) by (nonlinear_arith)
                requires
                    h >= 1,
                    w >= 0,
            ;
        }
        let keep: usize = (h - 1) * w;
        proof {
            assert(keep + w == h * w) by (nonlinear_arith)
                requires
                    keep == (h - 1) * w,
                    h >= 1,
            ;
        }
        let mut i: usize = 0;
        while i < keep
            invariant
                i <= keep,
                keep + w == h * w,
                keep + w <= 65025,
                w == old(self)@.width,
                h == old(self)@.height,
                old(self).wf(),
                self.glyphs@.len() == h * w,
                self.attrs@.len() == h * w,
                self@.width == w,
                self@.height == h,
                self@.row == old(self)@.row,
                self@.col == old(self)@.col,
                self@.attr == old(self)@.attr,
                forall|k: int| 0 <= k < i ==> self.glyphs@[k] == old(self)@.glyphs[k + w],
                forall|k: int| 0 <= k < i ==> self.attrs@[k] == old(self)@.attrs[k + w],
                forall|k: int| i <= k < h * w ==> self.glyphs@[k] == old(self)@.glyphs[k],
                forall|k: int| i <= k < h * w ==> self.attrs@[k] == old(self)@.attrs[k],
            decreases keep - i,
        {
            let g: u8 = self.glyphs[i + w];
            self.glyphs.set(i, g);
            let a: u8 = self.attrs[i + w];
            self.attrs.set(i, a);
            i = i + 1;
        }
        let total: usize = h * w;
        let mut j: usize = keep;
        while j < total
            invariant
                total == h * w,
                keep <= j <= h * w,
                keep + w == h * w,
                w == old(self)@.width,
                h == old(self)@.height,
                old(self).wf(),
                self.glyphs@.len() == h * w,
                self.attrs@.len() == h * w,
                self@.width == w,
                self@.height == h,
                self@.row == old(self)@.row,
                self@.col == old(self)@.col,
                self@.attr == old(self)@.attr,
                forall|k: int| 0 <= k < keep ==> self.glyphs@[k] == old(self)@.glyphs[k + w],
                forall|k: int| 0 <= k < keep ==> self.attrs@[k] == old(self)@.attrs[k + w],
                forall|k: int| keep <= k < j ==> self.glyphs@[k] == BLANK_GLYPH,
                forall|k: int| keep <= k < j ==> self.attrs@[k] == DEFAULT_ATTR,
            decreases total - j,
        {
            self.glyphs.set(j, BLANK_GLYPH);
            self.attrs.set(j, DEFAULT_ATTR);
            j = j + 1;
        }
        self.col = 0;
        proof {
            assert(self@.glyphs =~= scrolled_seq(
                old(self)@.glyphs,
                old(self)@.width,
                old(self)@.height,
                BLANK_GLYPH,
            ));
            assert(self@.attrs =~= scrolled_seq(
                old(self)@.attrs,
                old(self)@.width,
                old(self)@.height,
                DEFAULT_ATTR,
            ));
            assert(self@ =~= old(self)@.scrolled());
        }
    }

    /// A row advance: down one row, scrolling when already on the bottom row.
    pub fn move_char_down(&mut self)
        requires
            old(self).wf(),
        ensures
            final(self).wf(),
            final(self)@ == old(self)@.moved_down(),
    {
        if self.row + 1 < self.height {
            self.row = self.row + 1;
            proof {
                assert(self@ =~= old(self)@.moved_down());
            }
        } else {
            self.scroll_page();
            self.row = self.height - 1;
            proof {
                assert(self@ =~= old(self)@.moved_down());
            }
        }
    }

    /// A column advance: right one column, wrapping to the start of the next
    /// row at the right margin.
    pub fn move_char_right(&mut self)
        requires
            old(self).wf(),
        ensures
            final(self).wf(),
            final(self)@ == old(self)@.moved_right(),
    {
        if self.col + 1 < self.width {
            self.col = self.col + 1;
            proof {
                assert(self@ =~= old(self)@.moved_right());
            }
        } else {
            self.col = 0;
            self.move_char_down();
        }
    }

    /// Blanks every cell of the grid, giving it the default attribute, and
    /// sends the cursor home. This holds for every grid size.
    pub fn clear(&mut self)
        requires
            old(self).wf(),
        ensures
            final(self).wf(),
            final(self)@ == old(self)@.cleared(),
            final(self)@.row == 0 && final(self)@.col == 0,
            forall|r: int, c: int|
                0 <= r < final(self)@.height && 0 <= c < final(self)@.width ==> final(self)@.glyph_at(
                    r,
                    c,
                ) == BLANK_GLYPH && final(self)@.attr_at(r, c) == DEFAULT_ATTR,
    {
        let w: usize = self.width as usize;
        let h: usize = self.height as usize;
        proof {
            lemma_grid_size_bound(w as int, h as int);
        }
        let n: usize = h * w;
        let mut i: usize = 0;
        while i < n
            invariant
                i <= n,
                n == h * w,
                w == old(self)@.width,
                h == old(self)@.height,
                old(self).wf(),
                self.glyphs@.len() == n,
                self.attrs@.len() == n,
                self@.width == w,
                self@.height == h,
                self@.row == old(self)@.row,
                self@.col == old(self)@.col,
                self@.attr == old(self)@.attr,
                forall|k: int| 0 <= k < i ==> self.glyphs@[k] == BLANK_GLYPH,
                forall|k: int| 0 <= k < i ==> self.attrs@[k] == DEFAULT_ATTR,
            decreases n - i,
        {
            self.glyphs.set(i, BLANK_GLYPH);
            self.attrs.set(i, DEFAULT_ATTR);
            i = i + 1;
        }
        self.row = 0;
        self.col = 0;
        proof {
            assert(self@ =~= old(self)@.cleared());
            assert forall|r: int, c: int|
                0 <= r < self@.height && 0 <= c < self@.width implies self@.glyph_at(r, c)
                == BLANK_GLYPH && self@.attr_at(r, c) == DEFAULT_ATTR by {
                lemma_cell_index_bound(r, c, self@.width as int, self@.height as int);
            }
        }
    }

    /// Writes a sequence of characters: `\r` resets the column, `\n`
    /// starts a new row (scrolling at the bottom), any single-byte code
    /// point is written as that byte at the cursor with the cell's
    /// attribute byte left unchanged, and any wider code point is
    /// substituted with `?`.
    pub fn write_str(&mut self, data: &str)
        requires
            old(self).wf(),
        ensures
            final(self).wf(),
            final(self)@ == old(self)@.write_str_view(data@),
    {
        let n: usize = data.unicode_len();
        let mut i: usize = 0;
        while i < n
            invariant
                i <= n,
                n == data@.len(),
                old(self).wf(),
                self.wf(),
                self@ == old(self)@.write_str_view(data@.take(i as int)),
            decreases n - i,
        {
            let ghost prev = self@;
            let ch: char = data.get_char(i);
            if ch == '\r' {
                self.col = 0;
                proof {
                    assert(self@ =~= prev.step_char(ch));
                }
            } else if ch == '\n' {
                self.col = 0;
                proof {
                    assert(self@ =~= (ConsoleView { col: 0, ..prev }));
                }
                self.move_char_down();
            } else {
                let cp: u32 = ch as u32;
                if cp <= 255 {
                    self.write(cp as u8, Option::None);
                } else {
                    self.write(63, Option::None);
                }
                self.move_char_right();
            }
            proof {
                assert(self@ == prev.step_char(ch));
                lemma_step_char_wf(prev, ch);
                lemma_write_str_view_snoc(old(self)@, data@.take(i as int), ch);
                assert(data@.take(i as int).push(ch) =~= data@.take(i + 1 as int));
            }
            i = i + 1;
        }
        proof {
            assert(data@.take(n as int) =~= data@);
        }
    }

    /// The text-mode width, in columns.
    pub fn width(&self) -> (r: u8)
        ensures
            r == self@.width,
    {
        self.width
    }

    /// The text-mode height, in rows.
    pub fn height(&self) -> (r: u8)
        ensures
            r == self@.height,
    {
        self.height
    }

    /// The cursor row.
    pub fn row(&self) -> (r: u8)
        ensures
            r == self@.row,
    {
        self.row
    }

    /// The cursor column.
    pub fn col(&self) -> (r: u8)
        ensures
            r == self@.col,
    {
        self.col
    }

    /// The glyph byte at position (`row`, `col`).
    pub fn glyph_at(&self, row: u8, col: u8) -> (r: u8)
        requires
            self.wf(),
            row < self@.height,
            col < self@.width,
        ensures
            r == self@.glyph_at(row as int, col as int),
    {
        proof {
            lemma_cell_index_bound(row as int, col as int, self@.width as int, self@.height as int);
            lemma_grid_size_bound(self@.width as int, self@.height as int);
        }
        self.glyphs[(row as usize) * (self.width as usize) + (col as usize)]
    }

    /// The attribute byte at position (`row`, `col`).
    pub fn attr_at(&self, row: u8, col: u8) -> (r: u8)
        requires
            self.wf(),
            row < self@.height,
            col < self@.width,
        ensures
            r == self@.attr_at(row as int, col as int),
    {
        proof {
            lemma_cell_index_bound(row as int, col as int, self@.width as int, self@.height as int);
            lemma_grid_size_bound(self@.width as int, self@.height as int);
        }
        self.attrs[(row as usize) * (self.width as usize) + (col as usize)]
    }
}

} // verus!
