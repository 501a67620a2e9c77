//! The screen fill command: paints every cell of the grid once, cycling
//! the printable ASCII glyphs and the colour pairs.

use crate::vga::BLANK_GLYPH;
use crate::vga::ConsoleView;
use crate::vga::DEFAULT_ATTR;
use crate::vga::VgaConsole;
use crate::vga::attr_byte;
use crate::vga::lemma_cell_index_bound;
use crate::vga::lemma_grid_size_bound;
use crate::vga::make_attr;
use vstd::arithmetic::div_mod::lemma_div_is_ordered;
use vstd::arithmetic::div_mod::lemma_fundamental_div_mod;
use vstd::arithmetic::div_mod::lemma_fundamental_div_mod_converse;
use vstd::arithmetic::mul::lemma_mul_is_commutative;
use vstd::prelude::*;

verus! {

/// The glyph of the `k`-th cell the fill command writes: the printable
/// ASCII range, cycled.
pub open spec fn fill_glyph(k: nat) -> u8 {
    (32 + k % 95) as u8
}

/// The foreground colour of the `k`-th fill cell: with background zero the
/// foregrounds one to fifteen in turn; with each later background the
/// fourteen foregrounds that differ from it, in increasing order.
pub open spec fn fill_fg(k: nat) -> u8 {
    let p = k % 113;
    if p < 15 {
        (p + 1) as u8
    } else {
        let q = (p - 15) as nat;
        let b = 1 + q / 14;
        let idx = q % 14;
        if idx + 1 < b {
            (idx + 1) as u8
        } else {
            (idx + 2) as u8
        }
    }
}

/// The background colour of the `k`-th fill cell: zero for the first
/// fifteen of each cycle of one hundred and thirteen, then one to seven,
/// fourteen cells each.
pub open spec fn fill_bg(k: nat) -> u8 {
    let p = k % 113;
    if p < 15 {
        0
    } else {
        (1 + (p - 15) / 14) as u8
    }
}

/// The attribute of the `k`-th fill cell; the fill never blinks.
pub open spec fn fill_attr(k: nat) -> u8 {
    attr_byte(fill_fg(k), fill_bg(k), false)
}



/// Scrolling a grid that holds the whole fill pattern shifts the pattern
/// up one row and blanks the bottom row.
#[verifier::spinoff_prover]
#[verifier::rlimit(100)]
proof fn lemma_fill_scroll(v: ConsoleView)
    requires
        v.wf(),
        forall|i: int|
            0 <= i < v.width * v.height ==> v.glyphs[i] == fill_glyph(i as nat) && v.attrs[i]
                == fill_attr(i as nat),
    ensures
        forall|i: int|
            0 <= i < (v.height - 1) * v.width ==> v.scrolled().glyphs[i] == fill_glyph(
                (i + v.width) as nat,
            ) && v.scrolled().attrs[i] == fill_attr((i + v.width) as nat),
        forall|i: int|
            (v.height - 1) * v.width <= i < v.width * v.height ==> v.scrolled().glyphs[i]
                == BLANK_GLYPH && v.scrolled().attrs[i] == DEFAULT_ATTR,
{
    assert((v.height - 1) * v.width + v.width == v.width * v.height) by (nonlinear_arith)
        requires
            v.height >= 1,
    ;
}

/// One fill write and advance: on a grid whose first `k` cells already
/// hold the fill pattern and whose rest is blank, writing the `k`-th
/// pattern cell at the cursor and advancing keeps the shape, and the
/// advance past the last cell scrolls the pattern up one row.
#[verifier::spinoff_prover]
#[verifier::rlimit(100)]
proof fn lemma_fill_advance(v: ConsoleView, k: nat)
    requires
        v.wf(),
        k < v.width * v.height,
        v.row == k / v.width,
        v.col == k % v.width,
        forall|i: int|
            0 <= i < k ==> v.glyphs[i] == fill_glyph(i as nat) && v.attrs[i] == fill_attr(i as nat),
        forall|i: int|
            k <= i < v.width * v.height ==> v.glyphs[i] == BLANK_GLYPH && v.attrs[i]
                == DEFAULT_ATTR,
    ensures
        ({
            let after = v.written(
                fill_glyph(k),
                Option::Some(fill_attr(k)),
            ).moved_right();
            &&& after.wf()
            &&& after.width == v.width
            &&& after.height == v.height
            &&& after.attr == v.attr
            &&& (k + 1 < v.width * v.height ==> after.row == (k + 1) as nat / v.width
                && after.col == (k + 1) as nat % v.width)
            &&& (k + 1 < v.width * v.height ==> (forall|i: int|
                0 <= i < k + 1 ==> after.glyphs[i] == fill_glyph(i as nat) && after.attrs[i]
                    == fill_attr(i as nat)))
            &&& (k + 1 < v.width * v.height ==> (forall|i: int|
                k + 1 <= i < v.width * v.height ==> after.glyphs[i] == BLANK_GLYPH
                    && after.attrs[i] == DEFAULT_ATTR))
            &&& (k + 1 == v.width * v.height ==> after.row == v.height - 1 && after.col == 0)
            &&& (k + 1 == v.width * v.height ==> (forall|i: int|
                0 <= i < (v.height - 1) * v.width ==> after.glyphs[i] == fill_glyph(
                    (i + v.width) as nat,
                ) && after.attrs[i] == fill_attr((i + v.width) as nat)))
            &&& (k + 1 == v.width * v.height ==> (forall|i: int|
                (v.height - 1) * v.width <= i < v.width * v.height ==> after.glyphs[i]
                    == BLANK_GLYPH && after.attrs[i] == DEFAULT_ATTR))
        }),
{
    let w = v.width;
    let h = v.height;
    let n = w * h;
    lemma_cell_index_bound(v.row as int, v.col as int, w as int, h as int);
    lemma_fundamental_div_mod(k as int, w as int);
    lemma_mul_is_commutative(w as int, (k as int) / (w as int));
    assert(v.cell_index(v.row as int, v.col as int) == k);
    let wr = v.written(fill_glyph(k), Option::Some(fill_attr(k)));
    assert(forall|i: int|
        0 <= i < k + 1 ==> wr.glyphs[i] == fill_glyph(i as nat) && wr.attrs[i] == fill_attr(
            i as nat,
        ));
    if v.col + 1 < w {
        lemma_fundamental_div_mod_converse(
            k as int + 1,
            w as int,
            (k as int) / (w as int),
            (k as int) % (w as int) + 1,
        );
        assert(k + 1 < n) by (nonlinear_arith)
            requires
                k as int == (w as int) * ((k as int) / (w as int)) + (k as int) % (w as int),
                (k as int) % (w as int) + 1 < w,
                (k as int) / (w as int) < h,
                n == w * h,
                w >= 1,
        ;
    } else {
        assert(v.col == w - 1);
        if v.row + 1 < h {
            assert(k as int + 1 == ((k as int) / (w as int) + 1) * (w as int)) by (nonlinear_arith)
                requires
                    k as int == (w as int) * ((k as int) / (w as int)) + (k as int) % (w as int),
                    (k as int) % (w as int) == w - 1,
            ;
            lemma_fundamental_div_mod_converse(
                k as int + 1,
                w as int,
                (k as int) / (w as int) + 1,
                0,
            );
            assert(k + 1 < n) by (nonlinear_arith)
                requires
                    k as int == (w as int) * ((k as int) / (w as int)) + (k as int) % (w as int),
                    (k as int) % (w as int) == w - 1,
                    (k as int) / (w as int) + 1 < h,
                    n == w * h,
                    w >= 1,
            ;
        } else {
            assert(v.row == h - 1);
            assert((k as int) / (w as int) == h - 1);
            assert(k as int == (w as int) * (h as int - 1) + (w as int - 1));
            assert(k as int + 1 == (w as int) * (h as int)) by (nonlinear_arith)
                requires
                    k as int == (w as int) * (h as int - 1) + (w as int - 1),
            ;
            assert(k + 1 == n);
            let v2 = ConsoleView { col: 0, ..wr };
            assert(forall|i: int|
                0 <= i < n ==> v2.glyphs[i] == fill_glyph(i as nat) && v2.attrs[i] == fill_attr(
                    i as nat,
                ));
            lemma_fill_scroll(v2);
            let after = v2.moved_down();
            assert(after == (ConsoleView { row: (h - 1) as nat, ..v2.scrolled() }));
        }
    }
}

/// Clears the grid and then writes one glyph into every cell, cycling
/// the printable ASCII glyphs and the colour pairs, exactly one write
/// per cell of the grid. The advance past the last cell scrolls once,
/// so the pattern ends one row up, the bottom row is blank again, and
/// the cursor rests at the left of the bottom row with the default
/// attribute restored.
#[verifier::spinoff_prover]
#[verifier::rlimit(100)]
pub fn fill(console: &mut VgaConsole)
    requires
        old(console).wf(),
    ensures
        final(console).wf(),
        final(console)@.width == old(console)@.width,
        final(console)@.height == old(console)@.height,
        final(console)@.row == old(console)@.height - 1,
        final(console)@.col == 0,
        final(console)@.attr == DEFAULT_ATTR,
        forall|i: int|
            0 <= i < (old(console)@.height - 1) * old(console)@.width ==> final(console)@.glyphs[i]
                == fill_glyph((i + old(console)@.width) as nat) && final(console)@.attrs[i]
                == fill_attr((i + old(console)@.width) as nat),
        forall|i: int|
            (old(console)@.height - 1) * old(console)@.width <= i < old(console)@.height * old(console)@.width ==> final(console)@.glyphs[i] == BLANK_GLYPH && final(console)@.attrs[i]
                == DEFAULT_ATTR,
{
    console.clear();
    let w: usize = console.width() as usize;
    let h: usize = console.height() as usize;
    proof {
        lemma_grid_size_bound(w as int, h as int);
        lemma_mul_is_commutative(h as int, w as int);
        lemma_fundamental_div_mod_converse(0, w as int, 0, 0);
        assert(h * w >= 1) by (nonlinear_arith)
            requires
                h >= 1,
                w >= 1,
        ;
    }
    let n: usize = h * w;
    let mut k: usize = 0;
    while k < n
        invariant
            1 <= w <= 255,
            1 <= h <= 255,
            n == h * w,
            n == w * h,
            n <= 65025,
            k <= n,
            console.wf(),
            console@.width == w,
            console@.height == h,
            k < n ==> console@.row == (k as int) / (w as int) && console@.col == (k as int) % (w as int),
            k < n ==> (forall|i: int|
                0 <= i < k ==> console@.glyphs[i] == fill_glyph(i as nat) && console@.attrs[i]
                    == fill_attr(i as nat)),
            k < n ==> (forall|i: int|
                k <= i < n ==> console@.glyphs[i] == BLANK_GLYPH && console@.attrs[i]
                    == DEFAULT_ATTR),
            k == n ==> console@.row == h - 1 && console@.col == 0,
            k == n ==> (forall|i: int|
                0 <= i < (h - 1) * w ==> console@.glyphs[i] == fill_glyph((i + w) as nat)
                    && console@.attrs[i] == fill_attr((i + w) as nat)),
            k == n ==> (forall|i: int|
                (h - 1) * w <= i < n ==> console@.glyphs[i] == BLANK_GLYPH && console@.attrs[i]
                    == DEFAULT_ATTR),
        decreases n - k,
    {
        let p: usize = k % 113;
        let bg: u8 = if p < 15 {
            0
        } else {
            proof {
                lemma_div_is_ordered((p - 15) as int, 97, 14);
            }
            (1 + (p - 15) / 14) as u8
        };
        let fg: u8 = if p < 15 {
            (p + 1) as u8
        } else {
            let q: usize = p - 15;
            proof {
                lemma_div_is_ordered(q as int, 97, 14);
            }
            let idx: usize = q % 14;
            let b: usize = 1 + q / 14;
            if idx + 1 < b {
                (idx + 1) as u8
            } else {
                (idx + 2) as u8
            }
        };
        let attr: u8 = make_attr(fg, bg, false);
        let glyph: u8 = (32 + k % 95) as u8;
        proof {
            assert(fg == fill_fg(k as nat));
            assert(bg == fill_bg(k as nat));
            assert(attr == fill_attr(k as nat));
            assert(glyph == fill_glyph(k as nat));
        }
        let ghost before = console@;
        console.write(glyph, Option::Some(attr));
        console.move_char_right();
        proof {
            lemma_fill_advance(before, k as nat);
            assert(console@ == before.written(
                fill_glyph(k as nat),
                Option::Some(fill_attr(k as nat)),
            ).moved_right());
        }
        k = k + 1;
    }
    console.set_attr(DEFAULT_ATTR);
}


} // verus!
