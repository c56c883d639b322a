//! The `y` system-information report: a sequence of cells assembled from the
//! engine state, constants of this implementation, and the wall clock, laid
//! out in the order it is pushed (the environment rows first, the flags cell
//! last, so the flags end up on top).

use vstd::prelude::*;
use vstd::assert_seqs_equal;

use crate::cell::{count_cell, wrap32, wrap_to_i32};
use crate::grid::{first_nonblank_col, first_nonblank_row, last_nonblank_col, last_nonblank_row, GridView};
use crate::vm::{string_cells, ProgView};

verus! {

/// The handprint cell this implementation reports.
pub const HANDPRINT: i32 = 11111996;

/// The flattened version cell this implementation reports.
pub const VERSION_CELL: i32 = 10;

/// The cells of the command-line row before reversal: each argument's bytes
/// followed by one 0.
pub open spec fn args_cells(args: Seq<Seq<u8>>, i: int) -> Seq<i32>
    decreases args.len() - i,
{
    if i < 0 || i >= args.len() {
        Seq::empty()
    } else {
        string_cells(args[i]) + seq![0i32] + args_cells(args, i + 1)
    }
}

/// The cells of the environment row before reversal: `KEY=VALUE` followed by
/// one 0 for each entry.
pub open spec fn envs_cells(envs: Seq<(Seq<u8>, Seq<u8>)>, i: int) -> Seq<i32>
    decreases envs.len() - i,
{
    if i < 0 || i >= envs.len() {
        Seq::empty()
    } else {
        string_cells(envs[i].0) + seq![61i32] + string_cells(envs[i].1) + seq![0i32] + envs_cells(
            envs,
            i + 1,
        )
    }
}

/// The per-stack size cells, bottom stack first.
pub open spec fn size_cells(st: Seq<Seq<i32>>) -> Seq<i32> {
    Seq::new(st.len(), |i: int| count_cell(st[i].len() as int))
}

/// The two cells of the report's greatest point: the span from the least to
/// the greatest non-blank cell per axis, relative to the least point.
pub open spec fn greatest_point_cells(g: GridView) -> (i32, i32) {
    (
        count_cell(last_nonblank_col(g, g.width() - 1) - first_nonblank_col(g, 0)),
        count_cell(last_nonblank_row(g, g.height() - 1) - first_nonblank_row(g, 0)),
    )
}

/// The two cells of the report's least point: the first non-blank column
/// and row, as absolute coordinates.
pub open spec fn least_point_cells(g: GridView) -> (int, int) {
    (g.lx + first_nonblank_col(g, 0), g.ly + first_nonblank_row(g, 0))
}

/// `rep` is the report `y` pushes for the state `v` with the packed clock
/// cells `day` and `sec`: environment, command line, stack sizes, stack
/// count, clock, grid extent, cursor, and the constant cells, in push order.
pub open spec fn report_rel(v: ProgView, day: i32, sec: i32, rep: Seq<i32>) -> bool {
    rep =~= (envs_cells(v.envs, 0) + seq![0i32]).reverse() + (args_cells(v.args, 0) + seq![
        0i32,
        0i32,
    ]).reverse() + size_cells(v.sstack) + seq![
        count_cell(v.sstack.len() as int),
        sec,
        day,
        greatest_point_cells(v.grid).0,
        greatest_point_cells(v.grid).1,
        least_point_cells(v.grid).0 as i32,
        least_point_cells(v.grid).1 as i32,
        v.cursor.so_x,
        v.cursor.so_y,
        v.cursor.delta.x,
        v.cursor.delta.y,
        v.cursor.x,
        v.cursor.y,
        0i32,
        0i32,
        2i32,
        v.path_sep,
        0i32,
        VERSION_CELL,
        HANDPRINT,
        4i32,
        16i32,
    ]
}

/// Relies on chrono: `Utc::now` and the `Datelike`/`Timelike` accessors give
/// the current UTC instant with month in 1..=12, day in 1..=31, hour below
/// 24, minute and second below 60 (a leap second surfaces in the
/// nanoseconds, never as a second of 60).  `Utc::now` aborts on a system
/// clock set before the Unix epoch; no precondition can exclude that
/// environmental state.
#[verifier::external_body]
pub fn now_parts() -> (r: (i32, u32, u32, u32, u32, u32))
    ensures
        1 <= r.1 <= 12,
        1 <= r.2 <= 31,
        r.3 < 24,
        r.4 < 60,
        r.5 < 60,
{
    let t = chrono::Utc::now();
    (
        chrono::Datelike::year(&t),
        chrono::Datelike::month(&t),
        chrono::Datelike::day(&t),
        chrono::Timelike::hour(&t),
        chrono::Timelike::minute(&t),
        chrono::Timelike::second(&t),
    )
}

/// Packs a date as `(year - 1900) * 65536 + month * 256 + day`, wrapping as
/// every cell computation does.
pub fn pack_day(year: i32, month: u32, day: u32) -> (r: i32)
    requires
        month <= 12,
        day <= 31,
    ensures
        r as int == wrap32((year - 1900) * 65536 + month * 256 + day),
{
    let s: i64 = (year as i64 - 1900) * 65536 + month as i64 * 256 + day as i64;
    let (r, _) = wrap_to_i32(s);
    r
}

/// Packs a time of day as `hour * 65536 + minute * 256 + second`.
pub fn pack_sec(hour: u32, minute: u32, second: u32) -> (r: i32)
    requires
        hour < 24,
        minute < 60,
        second < 60,
    ensures
        r as int == hour * 65536 + minute * 256 + second,
{
    (hour * 65536 + minute * 256 + second) as i32
}

/// Reverses a row of cells.
pub fn reverse_cells(v: Vec<i32>) -> (r: Vec<i32>)
    ensures
        r@ == v@.reverse(),
{
    let ghost v0 = v@;
    let mut v = v;
    let mut r: Vec<i32> = Vec::new();
    while v.len() > 0
        invariant
            v@.len() <= v0.len(),
            v@ =~= v0.take(v@.len() as int),
            r@ =~= v0.skip(v@.len() as int).reverse(),
        decreases v@.len(),
    {
        let ghost l = v@.len() as int;
        let x = match v.pop() {
            Some(x) => x,
            None => 0,
        };
        proof {
            assert(x == v0.take(l)[l - 1]);
            assert(x == v0[l - 1]);
            assert_seqs_equal!(v@, v0.take(l - 1));
        }
        r.push(x);
        proof {
            assert_seqs_equal!(r@, v0.skip(l - 1).reverse());
        }
    }
    proof {
        assert(v0.skip(0) =~= v0);
    }
    r
}

} // verus!
