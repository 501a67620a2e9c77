//! Tests for the VGA console driver and the dispatcher.

use neotron_os::console::Console;
use neotron_os::console::SerialConsole;
use neotron_os::vga::make_attr;
use neotron_os::vga::VgaConsole;

#[test]
fn clear_blanks_grid_and_homes_cursor() {
    let mut c = VgaConsole::new(4, 3);
    c.write_str("hello\nworld");
    c.clear();
    assert_eq!(c.row(), 0);
    assert_eq!(c.col(), 0);
    for r in 0..3 {
        for col in 0..4 {
            assert_eq!(c.glyph_at(r, col), b' ');
            assert_eq!(c.attr_at(r, col), 120);
        }
    }
}

#[test]
fn full_row_wraps_to_next_row() {
    let mut c = VgaConsole::new(5, 3);
    c.write_str("abcde");
    assert_eq!(c.row(), 1);
    assert_eq!(c.col(), 0);
}

#[test]
fn eighty_by_twenty_five_wrap_scenario() {
    let mut c = VgaConsole::new(80, 25);
    let mut s = String::new();
    for _ in 0..80 {
        s.push('A');
    }
    s.push('B');
    c.write_str(&s);
    assert_eq!(c.row(), 1);
    assert_eq!(c.col(), 1);
    assert_eq!(c.glyph_at(0, 79), b'A');
    assert_eq!(c.glyph_at(1, 0), b'B');
}

#[test]
fn extra_line_scrolls_first_line_away() {
    let mut c = VgaConsole::new(3, 2);
    c.write_str("ab\ncd\nef");
    assert_eq!(c.glyph_at(0, 0), b'c');
    assert_eq!(c.glyph_at(0, 1), b'd');
    assert_eq!(c.glyph_at(0, 2), b' ');
    assert_eq!(c.glyph_at(1, 0), b'e');
    assert_eq!(c.glyph_at(1, 1), b'f');
    assert_eq!(c.glyph_at(1, 2), b' ');
}

#[test]
fn scroll_preserves_attribute_bytes() {
    let mut c = VgaConsole::new(2, 3);
    c.write_str("\n");
    c.set_attr(make_attr(3, 1, false));
    c.write(b'x', Some(make_attr(3, 1, false)));
    c.write_str("\n\n");
    assert_eq!(c.glyph_at(0, 0), b'x');
    assert_eq!(c.attr_at(0, 0), make_attr(3, 1, false));
    assert_eq!(c.glyph_at(2, 0), b' ');
    assert_eq!(c.attr_at(2, 0), 120);
}

#[test]
fn height_one_newline_scrolls_immediately() {
    let mut c = VgaConsole::new(4, 1);
    c.write_str("hi");
    c.write_str("\n");
    assert_eq!(c.row(), 0);
    assert_eq!(c.col(), 0);
    for col in 0..4 {
        assert_eq!(c.glyph_at(0, col), b' ');
    }
}

#[test]
fn wide_code_point_substituted() {
    let mut c = VgaConsole::new(4, 2);
    c.write_str("\u{0101}");
    assert_eq!(c.glyph_at(0, 0), b'?');
    assert_eq!(c.row(), 0);
    assert_eq!(c.col(), 1);
}

#[test]
fn single_byte_code_point_written_verbatim() {
    let mut c = VgaConsole::new(4, 2);
    c.write_str("\u{00e9}");
    assert_eq!(c.glyph_at(0, 0), 0xE9);
}

#[test]
fn carriage_return_resets_column() {
    let mut c = VgaConsole::new(8, 2);
    c.write_str("abc\rx");
    assert_eq!(c.glyph_at(0, 0), b'x');
    assert_eq!(c.glyph_at(0, 1), b'b');
    assert_eq!(c.row(), 0);
    assert_eq!(c.col(), 1);
}

#[test]
fn plain_write_keeps_cell_attribute() {
    let mut c = VgaConsole::new(4, 2);
    c.write(b'z', Some(make_attr(2, 5, true)));
    c.write_str("q");
    assert_eq!(c.glyph_at(0, 0), b'q');
    assert_eq!(c.attr_at(0, 0), make_attr(2, 5, true));
}

#[test]
fn make_attr_packs_fields() {
    assert_eq!(make_attr(15, 0, false), 120);
    assert_eq!(make_attr(1, 2, true), 1 * 8 + 2 + 128);
    assert_eq!(make_attr(0, 7, false), 7);
}

#[test]
fn dispatcher_feeds_both_sinks() {
    let mut con = Console::new(Some(VgaConsole::new(10, 2)), Some(SerialConsole::new(0)));
    con.println("hi");
    let out = con.take_serial_output().unwrap();
    assert_eq!(out, "hi\n");
    match &con.vga {
        Some(v) => {
            assert_eq!(v.glyph_at(0, 0), b'h');
            assert_eq!(v.glyph_at(0, 1), b'i');
            assert_eq!(v.row(), 1);
        }
        None => panic!("vga sink vanished"),
    }
}

#[test]
fn dispatcher_without_sinks_is_no_op() {
    let mut con = Console::new(None, None);
    con.print("anything");
    assert!(con.take_serial_output().is_none());
}

#[test]
fn serial_only_dispatcher_collects_text() {
    let mut con = Console::new(None, Some(SerialConsole::new(1)));
    con.print("one");
    con.print(" two");
    assert_eq!(con.take_serial_output().unwrap(), "one two");
    assert_eq!(con.take_serial_output().unwrap(), "");
}

#[test]
fn disable_serial_drops_the_sink_only() {
    let mut con = Console::new(Some(VgaConsole::new(4, 2)), Some(SerialConsole::new(0)));
    con.disable_serial();
    con.print("x");
    assert!(con.take_serial_output().is_none());
    match &con.vga {
        Some(v) => assert_eq!(v.glyph_at(0, 0), b'x'),
        None => panic!("vga sink vanished"),
    }
}

#[test]
fn fill_paints_every_cell_once_and_scrolls_once() {
    let mut c = VgaConsole::new(3, 2);
    neotron_os::fill::fill(&mut c);
    // The six pattern cells start at a space and walk the ASCII glyphs with
    // foregrounds one to six on background zero; the advance past the last
    // cell scrolls the pattern up one row.
    assert_eq!(c.glyph_at(0, 0), b'#');
    assert_eq!(c.glyph_at(0, 1), b'$');
    assert_eq!(c.glyph_at(0, 2), b'%');
    assert_eq!(c.attr_at(0, 0), 4 * 8);
    assert_eq!(c.attr_at(0, 1), 5 * 8);
    assert_eq!(c.attr_at(0, 2), 6 * 8);
    for col in 0..3 {
        assert_eq!(c.glyph_at(1, col), b' ');
        assert_eq!(c.attr_at(1, col), 120);
    }
    assert_eq!(c.row(), 1);
    assert_eq!(c.col(), 0);
}
