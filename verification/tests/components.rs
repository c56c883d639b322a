//! Tests of the individual engine components: cell arithmetic, formatting,
//! parsing, the stacks, the grid, and the fingerprint registry.

use funge98::bounds::Bounds;
use funge98::cell::{cell_add, cell_div, cell_mul, cell_rem, cell_sub};
use funge98::cursor::Cursor;
use funge98::delta::Delta;
use funge98::fingerprint::{FPManager, FpKind, BASE, NULL, ROMA};
use funge98::grid::Grid;
use funge98::numfmt::{dec_digits, encode_byte_char, format_int, parse_decimal, radix_digits, radix_text};
use funge98::sstack::SStack;
use funge98::vm::{split_source_lines, Program};

#[test]
fn test_cell_arithmetic_wraps_and_reports() {
    assert_eq!(cell_add(2, 3), (5, false));
    assert_eq!(cell_add(i32::MAX, 1), (i32::MIN, true));
    assert_eq!(cell_sub(3, 5), (-2, false));
    assert_eq!(cell_sub(i32::MIN, 1), (i32::MAX, true));
    assert_eq!(cell_mul(1000, 1000), (1000000, false));
    assert_eq!(cell_mul(65536, 65536), (0, true));
    assert_eq!(cell_div(7, -2), (-3, false));
    assert_eq!(cell_div(i32::MIN, -1), (i32::MIN, true));
    assert_eq!(cell_rem(7, -2), (1, false));
    assert_eq!(cell_rem(-7, 2), (-1, false));
    assert_eq!(cell_rem(i32::MIN, -1), (0, true));
}

#[test]
fn test_format_int() {
    assert_eq!(format_int(0), b"0".to_vec());
    assert_eq!(format_int(720), b"720".to_vec());
    assert_eq!(format_int(-1), b"-1".to_vec());
    assert_eq!(format_int(i32::MIN), b"-2147483648".to_vec());
    assert_eq!(dec_digits(305419896), b"305419896".to_vec());
}

#[test]
fn test_radix_digits() {
    assert_eq!(radix_digits(255, 16), b"ff".to_vec());
    assert_eq!(radix_digits(255, 2), b"11111111".to_vec());
    assert_eq!(radix_digits(8, 8), b"10".to_vec());
    assert_eq!(radix_digits(0, 36), b"0".to_vec());
    assert_eq!(radix_digits(35, 36), b"z".to_vec());
}

#[test]
fn test_radix_text_matches_digits() {
    // the outside formatter must agree with the verified one
    for &(n, b) in &[(255u32, 16u8), (7, 2), (123456, 36), (0, 8), (35, 36)] {
        assert_eq!(radix_text(n, b), radix_digits(n, b as u32));
    }
}

#[test]
fn test_encode_byte_char() {
    assert_eq!(encode_byte_char(65), vec![65]);
    assert_eq!(encode_byte_char(0xE9), vec![0xC3, 0xA9]);
}

#[test]
fn test_read_int_with_chars() {
    for line in ["12345", "abc12345", "12345def", "abc12345def"] {
        assert_eq!(parse_decimal(&line.as_bytes().to_vec()), 12345);
    }
    for line in ["-12345", "abc-12345", "-12345def", "abc-12345def"] {
        assert_eq!(parse_decimal(&line.as_bytes().to_vec()), -12345);
    }
    assert_eq!(parse_decimal(&b"".to_vec()), 0);
    assert_eq!(parse_decimal(&b"no digits here".to_vec()), 0);
}

#[test]
fn test_read_int_limits() {
    assert_eq!(parse_decimal(&b"2147483647".to_vec()), 2147483647);
    assert_eq!(parse_decimal(&b"2147483648".to_vec()), 214748364);
    assert_eq!(parse_decimal(&b"-2147483647".to_vec()), -2147483647);
    assert_eq!(parse_decimal(&b"-2147483648".to_vec()), -214748364);
}

#[test]
fn test_split_source_lines() {
    let split = |s: &str| -> Vec<Vec<u8>> { split_source_lines(&s.as_bytes().to_vec()) };
    assert_eq!(split("ab"), vec![b"ab".to_vec()]);
    assert_eq!(split("a\nb"), vec![b"a".to_vec(), b"b".to_vec()]);
    assert_eq!(split("a\r\nb"), vec![b"a".to_vec(), b"b".to_vec()]);
    assert_eq!(split("a\rb"), vec![b"a".to_vec(), b"b".to_vec()]);
    assert_eq!(split("a\n"), vec![b"a".to_vec(), b"".to_vec()]);
    assert_eq!(split(""), vec![b"".to_vec()]);
    assert_eq!(
        split("a\r\n\nb"),
        vec![b"a".to_vec(), b"".to_vec(), b"b".to_vec()]
    );
}

#[test]
fn test_delta_turns() {
    let mut c = Cursor::start();
    assert_eq!(c.delta(), Delta::east());
    c.turn_left();
    assert_eq!(c.delta(), Delta::north());
    c.turn_right();
    assert_eq!(c.delta(), Delta::east());
    c.reflect();
    assert_eq!(c.delta(), Delta::west());
    let mut d = Delta::south();
    d.reflect();
    assert_eq!(d, Delta::north());
    d.scale(3);
    assert_eq!((d.x, d.y), (0, -3));
}

#[test]
fn test_cursor_wraparound() {
    // a 3x1 box: stepping east off the edge re-enters from the west
    let b = Bounds::new(0, 0, 3, 1);
    let mut c = Cursor::start();
    c.advance(&b);
    c.advance(&b);
    assert_eq!(c.position(), (2, 0));
    c.advance(&b);
    assert_eq!(c.position(), (0, 0));
    assert!(!b.out_of_bounds((2, 0)));
    assert!(b.out_of_bounds((3, 0)));
}

#[test]
fn test_sstack_ops() {
    let mut s = SStack::new();
    assert_eq!(s.pop_from_toss(), 0);
    s.push_onto_toss(1);
    s.push_onto_toss(2);
    s.push_onto_toss(3);
    assert_eq!(s.get(0), 3);
    assert_eq!(s.get(2), 1);
    assert_eq!(s.get(9), 0);
    s.create_stack(2, (7, 8));
    assert_eq!(s.depth(), 2);
    // new TOSS holds the top two in order
    assert_eq!(s.get(0), 3);
    assert_eq!(s.get(1), 2);
    let so = s.destroy_stack(2).unwrap();
    assert_eq!(so, (7, 8));
    assert_eq!(s.depth(), 1);
    // the outer stack is back, untouched
    assert_eq!(s.pop_from_toss(), 3);
    assert_eq!(s.pop_from_toss(), 2);
    assert_eq!(s.pop_from_toss(), 1);
    assert!(s.destroy_stack(0).is_none());
}

#[test]
fn test_sstack_transfer_reverses() {
    let mut s = SStack::new();
    s.push_onto_toss(1);
    s.push_onto_toss(2);
    s.push_onto_toss(3);
    s.create_stack(0, (0, 0));
    // TOSS empty, SOSS = [1, 2, 3, 0, 0]; pulling four across reverses them
    assert!(s.transfer(4));
    assert_eq!(s.pop_from_toss(), 2);
    assert_eq!(s.pop_from_toss(), 3);
    assert_eq!(s.pop_from_toss(), 0);
    assert_eq!(s.pop_from_toss(), 0);
    let mut lone = SStack::new();
    assert!(!lone.transfer(1));
}

#[test]
fn test_grid_put_get_and_growth() {
    let lines = vec![b"ab".to_vec()];
    let mut g = Grid::from_source(&lines);
    assert_eq!(g.get_cell((0, 0)), 97);
    assert_eq!(g.get_cell((1, 0)), 98);
    // out of the box reads blank without growing
    assert_eq!(g.get_cell((5, 5)), 32);
    let b = g.get_bounds();
    assert_eq!((b.lower_x(), b.lower_y(), b.upper_x(), b.upper_y()), (0, 0, 2, 1));
    // a write outside grows the box to include the point
    g.put_cell((4, 2), 42);
    assert_eq!(g.get_cell((4, 2)), 42);
    let b2 = g.get_bounds();
    assert_eq!((b2.upper_x(), b2.upper_y()), (5, 3));
    // negative coordinates grow the lower side
    g.put_cell((-1, -1), 7);
    assert_eq!(g.get_cell((-1, -1)), 7);
    let b3 = g.get_bounds();
    assert_eq!((b3.lower_x(), b3.lower_y()), (-1, -1));
    assert_eq!(g.get_cell((4, 2)), 42);
    assert_eq!(g.get_cell((0, 0)), 97);
}

#[test]
fn test_grid_shrink_on_blanking() {
    let lines = vec![b"a".to_vec()];
    let mut g = Grid::from_source(&lines);
    g.put_cell((3, 0), 98);
    assert_eq!(g.get_bounds().upper_x(), 4);
    // blanking the boundary cell shrinks past the all-blank columns
    g.put_cell((3, 0), 32);
    assert_eq!(g.get_bounds().upper_x(), 1);
    assert_eq!(g.get_cell((0, 0)), 97);
}

#[test]
fn test_grid_least_greatest() {
    let lines = vec![b"  x".to_vec(), b"".to_vec(), b" y".to_vec()];
    let g = Grid::from_source(&lines);
    let least = g.get_least_point();
    assert_eq!(&least[..], &[1, 0]);
    // the greatest point is reported relative to the least point
    let greatest = g.get_greatest_point();
    assert_eq!(&greatest[..], &[1, 2]);
}

#[test]
fn test_fingerprint_ids_and_registry() {
    assert_eq!(FpKind::Roma.get_id(), 0x524F4D41);
    assert_eq!(FpKind::Null.get_id(), 0x4E554C4C);
    assert_eq!(ROMA.get_name(), "ROMA");
    assert_eq!(ROMA.get_instructions(), "CDILMVX");
    assert_eq!(NULL.get_instructions(), "ABCDEFGHIJKLMNOPQRSTUVWXYZ");
    assert_eq!(BASE.get_name(), "BASE");
    let mut fpm = FPManager::new();
    // an unknown id loads nothing
    assert!(!fpm.load(65));
    assert!(fpm.load(FpKind::Roma.get_id()));
    assert_eq!(
        fpm.active_handler(b'C').map(|(_, k)| k),
        Some(FpKind::Roma)
    );
    assert!(fpm.load(FpKind::Null.get_id()));
    // the later load shadows for every letter it implements
    assert_eq!(
        fpm.active_handler(b'C').map(|(_, k)| k),
        Some(FpKind::Null)
    );
    assert!(fpm.unload(FpKind::Null.get_id()));
    assert_eq!(
        fpm.active_handler(b'C').map(|(_, k)| k),
        Some(FpKind::Roma)
    );
    assert!(!fpm.unload(65));
    assert!(fpm.unload(FpKind::Roma.get_id()));
    assert_eq!(fpm.active_handler(b'C'), None);
}

#[test]
fn test_all_lines_same_width() {
    let lines = vec![
        b"123".to_vec(),
        b"12345678".to_vec(),
        vec![],
        b"12345".to_vec(),
    ];
    let program = Program::new(&lines, Vec::new(), Vec::new(), 47);
    let b = program.get_bounds();
    // every row was padded to the widest line
    assert_eq!(b.upper_x() - b.lower_x(), 8);
    assert_eq!(b.upper_y() - b.lower_y(), 4);
    for y in 0..4 {
        // the padding reads as blanks inside the box
        assert_eq!(program.get_cell((7, y)), if y == 1 { b'8' as i32 } else { 32 });
    }
}
