//! Whole-program tests: sources run through the engine with scripted input,
//! checking the exact output bytes, exit codes and warnings.

use funge98::fingerprint::FPManager;
use funge98::vm::{split_source_lines, Program, RunOutcome, Warning};

/// Runs a source text to completion, feeding the given input lines to `&`
/// and the given bytes to `~`, and returns the output, the exit code and
/// the warnings.
fn run_source(
    src: &str,
    mut input_lines: Vec<&str>,
    mut input_bytes: Vec<u8>,
) -> (Vec<u8>, Option<i32>, Vec<Warning>) {
    let lines = split_source_lines(&src.as_bytes().to_vec());
    let mut p = Program::new(&lines, Vec::new(), Vec::new(), 47);
    let mut fpm = FPManager::new();
    input_lines.reverse();
    input_bytes.reverse();
    let mut code = None;
    for _round in 0..1000 {
        match p.run(&mut fpm, 1_000_000) {
            RunOutcome::Done(c) => {
                code = Some(c);
                break;
            }
            RunOutcome::NeedLine => {
                let line = input_lines.pop().unwrap_or("");
                p.provide_line(line.as_bytes().to_vec());
            }
            RunOutcome::NeedByte => {
                p.provide_byte(input_bytes.pop());
            }
            RunOutcome::Failed => break,
            RunOutcome::OutOfFuel => panic!("program did not finish"),
        }
    }
    let out = p.take_output();
    let warns = p.take_warnings();
    (out, code, warns)
}

fn output_of(src: &str) -> String {
    let (out, code, _) = run_source(src, vec![], vec![]);
    assert_eq!(code, Some(0));
    String::from_utf8(out).unwrap()
}

#[test]
fn test_hello_world() {
    assert_eq!(output_of("\"!dlrow olleH\",,,,,,,,,,,,@"), "Hello world!");
}

#[test]
fn test_sanity() {
    assert_eq!(output_of("0123456789..........@"), "9 8 7 6 5 4 3 2 1 0 ");
}

#[test]
fn test_square_and_subtract() {
    assert_eq!(output_of("2:*5-.@"), "-1 ");
}

#[test]
fn test_quine() {
    let src = "01->1# +# :# 0# g# ,# :# 5# 8# *# 4# +# -# _@";
    assert_eq!(output_of(src), src);
}

#[test]
fn test_factorial() {
    let src = "&>:1-:v v *_$.@\n ^    _$>\\:^";
    for (query, answer) in [("4", "24 "), ("6", "720 "), ("10", "3628800 ")] {
        let (out, _, warns) = run_source(src, vec![query], vec![]);
        assert_eq!(String::from_utf8(out).unwrap(), answer);
        assert!(warns.is_empty());
    }
}

#[test]
fn test_factorial_overflow_warns() {
    let src = "&>:1-:v v *_$.@\n ^    _$>\\:^";
    let (_, _, warns) = run_source(src, vec!["13"], vec![]);
    assert!(warns.contains(&Warning::MulOverflow));
    assert!(Warning::MulOverflow
        .message()
        .contains("multiplication resulted in overflow"));
}

#[test]
fn test_div_by_zero() {
    let (out, code, warns) = run_source("00/.@", vec![], vec![]);
    assert_eq!(String::from_utf8(out).unwrap(), "0 ");
    assert_eq!(code, Some(0));
    assert_eq!(warns, vec![Warning::DivByZero]);
    assert_eq!(
        Warning::DivByZero.message(),
        "Division by 0 occured. Will return 0 as per the language specification."
    );
}

#[test]
fn test_quit_exit_code() {
    let (_, code, _) = run_source("5q", vec![], vec![]);
    assert_eq!(code, Some(5));
}

#[test]
fn test_read_negative_int() {
    let (out, _, _) = run_source("01-&.@", vec!["-7"], vec![]);
    assert_eq!(String::from_utf8(out).unwrap(), "-7 ");
}

#[test]
fn test_input_byte_and_echo() {
    let (out, code, _) = run_source("~,@", vec![], vec![b'Z']);
    assert_eq!(out, b"Z".to_vec());
    assert_eq!(code, Some(0));
}

#[test]
fn test_input_byte_eof_fails() {
    let (_, code, _) = run_source("~,@", vec![], vec![]);
    assert_eq!(code, None);
}

#[test]
fn test_k1() {
    // k runs the found `.` once at the k cell; the shared move then
    // re-enters the `.`, which prints once more on its own tick
    assert_eq!(output_of("1k.@"), "0 0 ");
}

#[test]
fn test_k2() {
    // iterate zero times skips the instruction entirely, like a bridge
    assert_eq!(output_of("0k.@"), "");
}

#[test]
fn test_k3() {
    // three iterated duplicates (plus the revisit) and three additions
    assert_eq!(output_of("13k:13k+.@"), "5 ");
}

#[test]
fn test_k_negative_count() {
    // a negative count looks ahead but executes nothing and moves one step
    assert_eq!(output_of("05-k.@"), "0 ");
}

#[test]
fn test_k_seeks_over_blanks() {
    // the `.` is found across blanks and a ;-block, runs twice at the k
    // cell, and once more when the cursor passes over it afterwards
    assert_eq!(output_of("52k ;xyz; .@"), "5 0 0 ");
}

#[test]
fn test_dup_then_swap_is_dup() {
    // after a duplicate the top two cells are equal, so a swap changes nothing
    assert_eq!(output_of("5:\\..@"), "5 5 ");
    assert_eq!(output_of("5:..@"), "5 5 ");
}

#[test]
fn test_compare_turns() {
    // w with a < b turns left: from east that is north, up into the exit
    let src = "12w.@\n  @  ";
    let (out, code, _) = run_source(src, vec![], vec![]);
    assert_eq!(out, b"".to_vec());
    assert_eq!(code, Some(0));
}

#[test]
fn test_semicolon_skips() {
    assert_eq!(output_of("1;23;.@"), "1 ");
}

#[test]
fn test_string_mode_blank_run() {
    // a run of blanks inside a string costs one cell
    let (out, _, _) = run_source("\"a   b\",,,@", vec![], vec![]);
    assert_eq!(String::from_utf8(out).unwrap(), "b a");
}

#[test]
fn test_bridge() {
    assert_eq!(output_of("#@1.@"), "1 ");
}

#[test]
fn test_directions_and_turns() {
    // v sends the cursor south, ^ brings it back to the exit
    let src = "v  @\n>1.^";
    let (out, _, _) = run_source(src, vec![], vec![]);
    assert_eq!(String::from_utf8(out).unwrap(), "1 ");
}

#[test]
fn test_jump_forward() {
    // j over one cell leaves the cell after it to execute
    assert_eq!(output_of("1j21.@"), "1 ");
}

#[test]
fn test_put_and_get() {
    // write 5 at (9,3), read it back
    assert_eq!(output_of("593p93g.@"), "5 ");
}

#[test]
fn test_fetch_and_store_character() {
    // ' fetches the next cell and skips it
    assert_eq!(output_of("'A,@"), "A");
}

#[test]
fn test_block_begin_end_restores() {
    // { moves the top two cells to a fresh TOSS, } gives them back
    let (out, _, _) = run_source("12 2{..}@", vec![], vec![]);
    assert_eq!(String::from_utf8(out).unwrap(), "2 1 ");
}

#[test]
fn test_block_end_underflow_reflects() {
    // } with a single stack reflects; the cursor comes back and exits
    assert_eq!(output_of("#@.1}"), "0 1 ");
}

#[test]
fn test_sysinfo_flags_on_top() {
    // the first report cell from the top is the env-flags cell
    assert_eq!(output_of("1y.@"), "16 ");
}

#[test]
fn test_sysinfo_cell_size() {
    assert_eq!(output_of("2y.@"), "4 ");
}

#[test]
fn test_diagonal_delta() {
    // x sets a non-cardinal delta; the cursor walks the diagonal
    let src = "11x  \n   . \n    @";
    let (out, code, _) = run_source(src, vec![], vec![]);
    assert_eq!(String::from_utf8(out).unwrap(), "0 ");
    assert_eq!(code, Some(0));
}

#[test]
fn test_sysinfo_handprint() {
    assert_eq!(output_of("3y.@"), "11111996 ");
}

#[test]
fn test_sysinfo_whole_report_top() {
    // a non-positive query pushes the whole report; the flags end on top
    assert_eq!(output_of("0y.@"), "16 ");
}

#[test]
fn test_load_unknown_fingerprint_reflects() {
    // no registered extension has id 65: ( reflects and the flow runs west
    let (out, code, _) = run_source("#@,\"A\"4(", vec![], vec![]);
    assert_eq!(out, vec![0u8, b'A']);
    assert_eq!(code, Some(0));
}

#[test]
fn test_load_roma_and_dispatch() {
    let (out, _, _) = run_source("\"ROMA\"4(MC+.@", vec![], vec![]);
    assert_eq!(String::from_utf8(out).unwrap(), "1100 ");
}

#[test]
fn test_unloaded_letter_reflects() {
    // M with nothing loaded reflects into the exit
    assert_eq!(output_of("#@.3M"), "0 3 ");
}

#[test]
fn test_modu_floor_mod() {
    // MODU's M: floored modulo of -7 and 3 is 2
    let (out, _, _) = run_source("\"MODU\"4(07-3M.@", vec![], vec![]);
    assert_eq!(String::from_utf8(out).unwrap(), "2 ");
}

#[test]
fn test_base_binary_output() {
    let (out, _, _) = run_source("\"BASE\"4(6B@", vec![], vec![]);
    assert_eq!(String::from_utf8(out).unwrap(), "0b110");
}

#[test]
fn test_base_radix_output() {
    // N prints 255 in base 16 through the outside radix formatter
    let (out, _, _) = run_source("\"BASE\"4(44*f*f+44*N@", vec![], vec![]);
    assert_eq!(String::from_utf8(out).unwrap(), "ff");
}

#[test]
fn test_evar_count_and_get() {
    let lines = split_source_lines(&b"\"EVAR\"4(N.@".to_vec());
    let envs = vec![(b"HOME".to_vec(), b"/tmp".to_vec())];
    let mut p = Program::new(&lines, Vec::new(), envs, 47);
    let mut fpm = FPManager::new();
    match p.run(&mut fpm, 1_000_000) {
        RunOutcome::Done(0) => {}
        other => panic!("unexpected outcome: {:?}", other),
    }
    assert_eq!(String::from_utf8(p.take_output()).unwrap(), "1 ");
}

#[test]
fn test_evar_put_value_stops_at_second_eq() {
    // the stored value is only the segment between the first and second `=`
    let (out, _, _) = run_source("\"EVAR\"4(0\"C=B=A\"P0\"A\"G,@", vec![], vec![]);
    assert_eq!(out, b"B".to_vec());
}

#[test]
fn test_transfer_between_stacks() {
    // u pulls cells across from the SOSS, reversing their order
    let (out, _, _) = run_source("123 0{3u...@", vec![], vec![]);
    assert_eq!(String::from_utf8(out).unwrap(), "3 0 0 ");
}

#[test]
fn test_runner_drives_engine() {
    let lines = split_source_lines(&b"3q".to_vec());
    let p = Program::new(&lines, Vec::new(), Vec::new(), 47);
    let mut runner = funge98::runner::Runner::new(p);
    let mut fpm = FPManager::new();
    match runner.run(&mut fpm, 1000) {
        RunOutcome::Done(code) => assert_eq!(code, 3),
        other => panic!("unexpected outcome: {:?}", other),
    }
}

#[test]
fn test_empty_source_is_one_blank_cell() {
    let lines = split_source_lines(&b"".to_vec());
    let p = Program::new(&lines, Vec::new(), Vec::new(), 47);
    let b = p.get_bounds();
    assert_eq!((b.lower_x(), b.lower_y(), b.upper_x(), b.upper_y()), (0, 0, 1, 1));
    assert_eq!(p.get_cell((0, 0)), 32);
}

#[test]
fn test_unknown_instruction_reflects() {
    // Z is unknown without a loaded extension; the flow bounces back
    assert_eq!(output_of("#@.7Z"), "0 7 ");
}
