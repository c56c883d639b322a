//! The execution engine.  One call of `step` performs one bounded slice of
//! work: it executes the cell under the cursor, continues a blank-run or
//! `;`-block skip, walks one cell of a `k` lookahead, or runs one queued
//! `k` repetition.  Unbounded behaviour (a program that loops forever, input
//! that has not arrived) is surfaced to the caller, who keeps calling.

use vstd::prelude::*;
use vstd::assert_seqs_equal;

use crate::bounds::{spec_contains, Bounds};
use crate::cell::{cell_add, cell_div, cell_mul, cell_rem, cell_sub, count_cell, trunc_div, trunc_rem, wrap32, BLANK};
use crate::cursor::{on_back_ray, spec_start, spec_turn_left, spec_turn_right, Cursor};
use crate::delta::{is_cardinal, spec_reflect, Delta};
use crate::fingerprint::FPManager;
use crate::grid::{Grid, GridView};
use crate::numfmt::{byte_utf8, int_text, parse_decimal_spec};
use crate::sysinfo::{args_cells, envs_cells, greatest_point_cells, least_point_cells, now_parts, report_rel, reverse_cells, size_cells, HANDPRINT, VERSION_CELL};
use crate::sstack::{merge_for_destroy, popped_values, rest_after_pop, rest_after_pops, split_for_create, top_or_zero, SStack};

verus! {

/// What one call of `step` reports.
#[derive(Clone, Copy, PartialEq, Eq, Structural, Debug)]
pub enum StepResult {
    /// Work was done; call again.
    Ran,
    /// `&` (or an extension reading text) needs an input line first.
    NeedLine,
    /// `~` needs an input byte (or end-of-input) first.
    NeedByte,
    /// `@` or `q` ended the run with this exit code.
    Done(i32),
    /// `~` met end-of-input: the run fails.
    Failed,
}

/// A diagnostic the engine emits while continuing with the wrapped value.
#[derive(Clone, Copy, PartialEq, Eq, Structural, Debug)]
pub enum Warning {
    AddOverflow,
    SubOverflow,
    MulOverflow,
    DivOverflow,
    RemOverflow,
    DivByZero,
    RemByZero,
}

impl Warning {
    /// The diagnostic line the warning prints as.
    pub fn message(&self) -> (r: &'static str)
        ensures
            self is AddOverflow ==> r@ == "An addition resulted in overflow."@,
            self is SubOverflow ==> r@ == "A subtraction resulted in overflow."@,
            self is MulOverflow ==> r@ == "A multiplication resulted in overflow."@,
            self is DivOverflow ==> r@ == "A division resulted in overflow."@,
            self is RemOverflow ==> r@ == "A remainder operation resulted in overflow."@,
            self is DivByZero ==> r@
                == "Division by 0 occured. Will return 0 as per the language specification."@,
            self is RemByZero ==> r@
                == "Remainder by 0 occured. Will return 0 as per the language specification."@,
    {
        match self {
            Warning::AddOverflow => "An addition resulted in overflow.",
            Warning::SubOverflow => "A subtraction resulted in overflow.",
            Warning::MulOverflow => "A multiplication resulted in overflow.",
            Warning::DivOverflow => "A division resulted in overflow.",
            Warning::RemOverflow => "A remainder operation resulted in overflow.",
            Warning::DivByZero => "Division by 0 occured. Will return 0 as per the language specification.",
            Warning::RemByZero => "Remainder by 0 occured. Will return 0 as per the language specification.",
        }
    }
}

/// Which slice of a tick the next `step` call performs.
#[derive(Clone, Copy, PartialEq, Eq, Structural, Debug)]
pub enum Mode {
    /// Fetch and execute the cell under the cursor.
    Normal,
    /// Inside a `;`-block: walk until the closing `;`.
    Semicolon,
    /// Walking over a run of blanks.
    Blanks,
    /// Walking over a run of blanks in string mode, one 32 already pushed.
    StringBlanks,
    /// `k` with this count walks ahead to find the next useful cell; the
    /// flag is true inside a `;`-block of the walk, and the cursor is where
    /// the walk started, to be restored when the cell is found.
    Seek(i32, bool, Cursor),
}

/// The engine's mathematical content.
pub ghost struct ProgView {
    pub grid: GridView,
    pub cursor: Cursor,
    pub sstack: Seq<Seq<i32>>,
    pub string_mode: bool,
    pub mode: Mode,
    pub queue: Seq<(i32, i32)>,
    pub pending_line: Option<Seq<u8>>,
    pub pending_byte: Option<u8>,
    pub byte_ready: bool,
    pub out: Seq<u8>,
    pub warns: Seq<Warning>,
    pub args: Seq<Seq<u8>>,
    pub envs: Seq<(Seq<u8>, Seq<u8>)>,
    pub path_sep: i32,
}

pub struct Program {
    pub(crate) grid: Grid,
    pub(crate) cursor: Cursor,
    pub(crate) sstack: SStack,
    pub(crate) string_mode: bool,
    pub(crate) mode: Mode,
    pub(crate) queue: Vec<(i32, i32)>,
    pub(crate) pending_line: Option<Vec<u8>>,
    pub(crate) pending_byte: Option<u8>,
    pub(crate) byte_ready: bool,
    pub(crate) out: Vec<u8>,
    pub(crate) warns: Vec<Warning>,
    pub(crate) args: Vec<Vec<u8>>,
    pub(crate) envs: Vec<(Vec<u8>, Vec<u8>)>,
    pub(crate) path_sep: i32,
}

impl View for Program {
    type V = ProgView;

    closed spec fn view(&self) -> ProgView {
        ProgView {
            grid: self.grid@,
            cursor: self.cursor,
            sstack: self.sstack@,
            string_mode: self.string_mode,
            mode: self.mode,
            queue: self.queue@,
            pending_line: match self.pending_line {
                Some(l) => Some(l@),
                None => None,
            },
            pending_byte: self.pending_byte,
            byte_ready: self.byte_ready,
            out: self.out@,
            warns: self.warns@,
            args: self.args@.map_values(|a: Vec<u8>| a@),
            envs: self.envs@.map_values(|e: (Vec<u8>, Vec<u8>)| (e.0@, e.1@)),
            path_sep: self.path_sep,
        }
    }
}

/// The box of a grid view, as the cursor's wrap-around sees it.
pub open spec fn gbounds(g: GridView) -> Bounds {
    Bounds { lx: g.lx as i64, ly: g.ly as i64, ux: g.ux() as i64, uy: g.uy() as i64 }
}

/// The cell under a cursor.
pub open spec fn cell_under(v: ProgView) -> i32 {
    v.grid.at(v.cursor.x as int, v.cursor.y as int)
}

/// One wrap-around move: `c2` is where a step from `c` lands against the
/// box of `g`.
pub open spec fn advance_rel(c: Cursor, g: GridView, c2: Cursor) -> bool {
    let b = gbounds(g);
    &&& c2.delta == c.delta
    &&& c2.so_x == c.so_x
    &&& c2.so_y == c.so_y
    &&& (spec_contains(b, c.x + c.delta.x, c.y + c.delta.y) ==> c2.x == c.x + c.delta.x && c2.y
        == c.y + c.delta.y)
    &&& (!spec_contains(b, c.x + c.delta.x, c.y + c.delta.y) && spec_contains(
        b,
        c.x as int,
        c.y as int,
    ) ==> spec_contains(b, c2.x as int, c2.y as int) && !spec_contains(
        b,
        c2.x - c.delta.x,
        c2.y - c.delta.y,
    ) && on_back_ray(
        c2.x as int,
        c2.y as int,
        c.x as int,
        c.y as int,
        c.delta.x as int,
        c.delta.y as int,
    ))
    &&& (!spec_contains(b, c.x + c.delta.x, c.y + c.delta.y) && !spec_contains(
        b,
        c.x as int,
        c.y as int,
    ) ==> c2.x as int == wrap32(c.x + c.delta.x) && c2.y as int == wrap32(c.y + c.delta.y))
}

/// Popping the TOSS: the value and the stack of stacks left behind.
pub open spec fn s_pop(st: Seq<Seq<i32>>) -> (i32, Seq<Seq<i32>>) {
    (top_or_zero(st.last()), st.update(st.len() - 1, rest_after_pop(st.last())))
}

/// Pushing onto the TOSS.
pub open spec fn s_push(st: Seq<Seq<i32>>, x: i32) -> Seq<Seq<i32>> {
    st.update(st.len() - 1, st.last().push(x))
}


/// The values an instruction may draw from outside the engine: a random
/// direction for `?` and the packed date and time cells for `y`.
pub ghost struct Oracle {
    pub dir: Delta,
    pub day: i32,
    pub sec: i32,
}

pub open spec fn oracle_wf(o: Oracle) -> bool {
    is_cardinal(o.dir)
}

/// The low byte of a cell, as `,` selects it.
pub open spec fn low_byte(v: int) -> u8 {
    (v % 256) as u8
}

/// `c2` is `c` after `k` wrap-around moves.
pub open spec fn advance_n_rel(c: Cursor, g: GridView, k: int, c2: Cursor) -> bool
    decreases k,
{
    if k <= 0 {
        c2 == c
    } else {
        exists|cm: Cursor| advance_n_rel(c, g, k - 1, cm) && #[trigger] advance_rel(cm, g, c2)
    }
}

/// Writing `val` at `(x, y)` turns `g` into `g2`: the written point holds
/// `val` and every other point is untouched.  A non-blank write grows the
/// box to just include the point; a blank write leaves untouched sides in
/// place and, on each side the written point borders, shrinks past every
/// all-blank boundary line, so the surviving boundary line on that side
/// holds a non-blank cell unless the box is down to one line.
pub open spec fn put_rel(g: GridView, x: int, y: int, val: i32, g2: GridView) -> bool {
    &&& g2.at(x, y) == val
    &&& forall|i: int, j: int| !(i == x && j == y) ==> #[trigger] g2.at(i, j) == g.at(i, j)
    &&& (val != BLANK ==> g2.in_bounds(x, y))
    &&& (val != BLANK ==> g2.lx == crate::grid::spec_min(g.lx, x) && g2.ux()
        == crate::grid::spec_max(g.ux(), x + 1) && g2.ly == crate::grid::spec_min(g.ly, y)
        && g2.uy() == crate::grid::spec_max(g.uy(), y + 1))
    &&& (val == BLANK && x > g.lx ==> g2.lx == crate::grid::spec_min(g.lx, x))
    &&& (val == BLANK && x + 1 < g.ux() ==> g2.ux() == crate::grid::spec_max(g.ux(), x + 1))
    &&& (val == BLANK && y > g.ly ==> g2.ly == crate::grid::spec_min(g.ly, y))
    &&& (val == BLANK && y + 1 < g.uy() ==> g2.uy() == crate::grid::spec_max(g.uy(), y + 1))
    &&& (val == BLANK && x <= g.lx && g2.width() > 1 ==> !crate::grid::col_all_blank(g2, g2.lx))
    &&& (val == BLANK && x + 1 >= g.ux() && g2.width() > 1 ==> !crate::grid::col_all_blank(
        g2,
        g2.ux() - 1,
    ))
    &&& (val == BLANK && y <= g.ly && g2.height() > 1 ==> !crate::grid::row_all_blank(g2, g2.ly))
    &&& (val == BLANK && y + 1 >= g.uy() && g2.height() > 1 ==> !crate::grid::row_all_blank(
        g2,
        g2.uy() - 1,
    ))
}

/// The warning list extended by `w` when `cond` holds.
pub open spec fn warn_if(ws: Seq<Warning>, cond: bool, w: Warning) -> Seq<Warning> {
    if cond {
        ws.push(w)
    } else {
        ws
    }
}


/// The id `(` and `)` build: the `j`-th popped cell contributes
/// `c * 256^j`, with the same wrap-around as every cell computation.
pub open spec fn fold_id(cs: Seq<i32>, j: int) -> int
    decreases cs.len() - j,
{
    if j < 0 || j >= cs.len() {
        0
    } else {
        wrap32(cs[j] + 256 * fold_id(cs, j + 1))
    }
}


/// The cells of a text, as a Funge string stores them.
pub open spec fn string_cells(bytes: Seq<u8>) -> Seq<i32> {
    bytes.map_values(|b: u8| b as i32)
}

/// Pops a 0-terminated string off a value stack: the text read top-down and
/// what is left of the stack.  A stack that runs dry ends the string.
pub open spec fn toss_string(toss: Seq<i32>) -> (Seq<u8>, Seq<i32>)
    decreases toss.len(),
{
    if toss.len() == 0 {
        (Seq::empty(), toss)
    } else if toss.last() == 0 {
        (Seq::empty(), toss.drop_last())
    } else {
        let rest = toss_string(toss.drop_last());
        (seq![low_byte(toss.last() as int)] + rest.0, rest.1)
    }
}

/// The stack of stacks after a 0-terminated string was popped off the TOSS.
pub open spec fn pop_string_rest(st: Seq<Seq<i32>>) -> Seq<Seq<i32>> {
    st.update(st.len() - 1, toss_string(st.last()).1)
}

/// The string popped off the TOSS.
pub open spec fn pop_string_text(st: Seq<Seq<i32>>) -> Seq<u8> {
    toss_string(st.last()).0
}

/// Pushes a text as a Funge string: a terminating 0 below the characters,
/// the first character on top.
pub open spec fn push_string(st: Seq<Seq<i32>>, bytes: Seq<u8>) -> Seq<Seq<i32>> {
    st.update(st.len() - 1, st.last().push(0i32) + string_cells(bytes).reverse())
}

/// The first environment entry with this key, or the entry count.
pub open spec fn find_env(envs: Seq<(Seq<u8>, Seq<u8>)>, key: Seq<u8>, i: int) -> int
    decreases envs.len() - i,
{
    if i < 0 || i >= envs.len() {
        envs.len() as int
    } else if envs[i].0 == key {
        i
    } else {
        find_env(envs, key, i + 1)
    }
}

/// The bytes from `i` up to the next `=` (or the end).
pub open spec fn upto_eq(bytes: Seq<u8>, i: int) -> Seq<u8>
    decreases bytes.len() - i,
{
    if i < 0 || i >= bytes.len() || bytes[i] == 61 {
        Seq::empty()
    } else {
        seq![bytes[i]] + upto_eq(bytes, i + 1)
    }
}

/// Splits `K=V` at the first `=`: the key, and as the value only the
/// segment up to the second `=` (empty without a first `=`).
pub open spec fn split_eq(bytes: Seq<u8>, i: int) -> (Seq<u8>, Seq<u8>)
    decreases bytes.len() - i,
{
    if i < 0 || i >= bytes.len() {
        (bytes, Seq::empty())
    } else if bytes[i] == 61 {
        (bytes.take(i), upto_eq(bytes, i + 1))
    } else {
        split_eq(bytes, i + 1)
    }
}

/// The unsigned two's-complement reading of a cell.
pub open spec fn cell_u32(n: i32) -> nat {
    ((n as int) % 0x1_0000_0000) as nat
}

/// The value the ROMA extension pushes for a letter.
pub open spec fn roma_value(letter: int) -> i32 {
    if letter == 67 {
        100i32
    } else if letter == 68 {
        500i32
    } else if letter == 73 {
        1i32
    } else if letter == 76 {
        50i32
    } else if letter == 77 {
        1000i32
    } else if letter == 86 {
        5i32
    } else {
        10i32
    }
}

/// The engine state reflected off an unknown or unhandled instruction.
pub open spec fn reflected(v: ProgView) -> ProgView {
    ProgView { cursor: Cursor { delta: spec_reflect(v.cursor.delta), ..v.cursor }, ..v }
}

/// What a built-in extension does when it handles a letter; a letter the
/// extension does not implement reflects.
pub open spec fn fp_rel(
    kind: crate::fingerprint::FpKind,
    letter: int,
    v: ProgView,
    w: ProgView,
    r: StepResult,
) -> bool {
    match kind {
        crate::fingerprint::FpKind::Null => r == StepResult::Ran && w == reflected(v),
        crate::fingerprint::FpKind::Roma => r == StepResult::Ran && (
        if letter == 67 || letter == 68 || letter == 73 || letter == 76 || letter == 77 || letter
            == 86 || letter == 88 {
            w == (ProgView { sstack: s_push(v.sstack, roma_value(letter)), ..v })
        } else {
            w == reflected(v)
        }),
        crate::fingerprint::FpKind::Modu => r == StepResult::Ran && ({
            let (a, s1) = s_pop(v.sstack);
            let (b, s2) = s_pop(s1);
            if letter == 77 || letter == 85 || letter == 82 {
                if a == 0 {
                    w == (ProgView { sstack: s_push(s2, 0i32), ..v })
                } else if letter == 77 {
                    w == (ProgView {
                        sstack: s_push(
                            s2,
                            trunc_rem(trunc_rem(b as int, a as int) + a, a as int) as i32,
                        ),
                        ..v
                    })
                } else if letter == 85 {
                    let r0 = trunc_rem(b as int, a as int);
                    let m = if r0 < 0 {
                        if a > 0 {
                            r0 + a
                        } else {
                            r0 - a
                        }
                    } else {
                        r0
                    };
                    w == (ProgView { sstack: s_push(s2, m as i32), ..v })
                } else {
                    w == (ProgView {
                        sstack: s_push(s2, trunc_rem(b as int, a as int) as i32),
                        ..v
                    })
                }
            } else {
                w == reflected(v)
            }
        }),
        crate::fingerprint::FpKind::Cpli => r == StepResult::Ran && ({
            if letter == 65 || letter == 68 || letter == 77 || letter == 83 {
                let (bi, s1) = s_pop(v.sstack);
                let (br, s2) = s_pop(s1);
                let (ai, s3) = s_pop(s2);
                let (ar, s4) = s_pop(s3);
                if letter == 65 {
                    w == (ProgView {
                        sstack: s_push(
                            s_push(s4, wrap32(ar + br) as i32),
                            wrap32(ai + bi) as i32,
                        ),
                        ..v
                    })
                } else if letter == 83 {
                    w == (ProgView {
                        sstack: s_push(
                            s_push(s4, wrap32(ar - br) as i32),
                            wrap32(ai - bi) as i32,
                        ),
                        ..v
                    })
                } else if letter == 77 {
                    w == (ProgView {
                        sstack: s_push(
                            s_push(s4, wrap32(ar * br - ai * bi) as i32),
                            wrap32(ar * bi + ai * br) as i32,
                        ),
                        ..v
                    })
                } else {
                    let denom = br * br + bi * bi;
                    if denom == 0 {
                        w == (ProgView { sstack: s_push(s_push(s4, 0i32), 0i32), ..v })
                    } else {
                        w == (ProgView {
                            sstack: s_push(
                                s_push(s4, wrap32(trunc_div(ar * br + ai + bi, denom)) as i32),
                                wrap32(trunc_div(ai * br - ar * bi, denom)) as i32,
                            ),
                            ..v
                        })
                    }
                }
            } else if letter == 79 {
                let (ai, s1) = s_pop(v.sstack);
                let (ar, s2) = s_pop(s1);
                let mag: nat = if ai >= 0 {
                    ai as nat
                } else {
                    (-(ai as int)) as nat
                };
                w == (ProgView {
                    sstack: s2,
                    out: v.out + int_text(ar as int) + (if ai >= 0 {
                        seq![43u8]
                    } else {
                        seq![45u8]
                    }) + crate::numfmt::dec_rep(mag) + seq![105u8],
                    ..v
                })
            } else if letter == 86 {
                let (ai, s1) = s_pop(v.sstack);
                let (ar, s2) = s_pop(s1);
                let sum = ai * ai + ar * ar;
                exists|rt: int|
                    0 <= #[trigger] (rt * rt) <= sum && sum < (rt + 1) * (rt + 1) && w == (
                    ProgView { sstack: s_push(s2, wrap32(rt) as i32), ..v })
            } else {
                w == reflected(v)
            }
        }),
        crate::fingerprint::FpKind::Evar => r == StepResult::Ran && ({
            if letter == 71 {
                let key = pop_string_text(v.sstack);
                let s1 = pop_string_rest(v.sstack);
                let idx = find_env(v.envs, key, 0);
                let value = if idx < v.envs.len() {
                    v.envs[idx].1
                } else {
                    Seq::empty()
                };
                w == (ProgView { sstack: push_string(s1, value), ..v })
            } else if letter == 78 {
                w == (ProgView {
                    sstack: s_push(v.sstack, count_cell(v.envs.len() as int)),
                    ..v
                })
            } else if letter == 80 {
                let q = pop_string_text(v.sstack);
                let s1 = pop_string_rest(v.sstack);
                let kv = split_eq(q, 0);
                if kv.0.len() == 0 {
                    w == (ProgView { sstack: s1, ..v })
                } else {
                    let idx = find_env(v.envs, kv.0, 0);
                    let envs2 = if idx < v.envs.len() {
                        v.envs.update(idx, kv)
                    } else {
                        v.envs.push(kv)
                    };
                    w == (ProgView { sstack: s1, envs: envs2, ..v })
                }
            } else if letter == 86 {
                let (n, s1) = s_pop(v.sstack);
                let idx = if n >= 0 {
                    n as int
                } else {
                    0
                };
                if idx >= v.envs.len() {
                    w == (ProgView { sstack: s1, ..reflected(v) })
                } else {
                    w == (ProgView {
                        sstack: push_string(s1, v.envs[idx].0 + seq![61u8] + v.envs[idx].1),
                        ..v
                    })
                }
            } else {
                w == reflected(v)
            }
        }),
        crate::fingerprint::FpKind::Base => r == StepResult::Ran && ({
            if letter == 66 || letter == 72 || letter == 79 {
                let (n, s1) = s_pop(v.sstack);
                let base: nat = if letter == 66 {
                    2
                } else if letter == 79 {
                    8
                } else {
                    16
                };
                let prefix = if letter == 66 {
                    seq![48u8, 98u8]
                } else if letter == 79 {
                    seq![48u8, 111u8]
                } else {
                    seq![48u8, 120u8]
                };
                w == (ProgView {
                    sstack: s1,
                    out: v.out + prefix + crate::numfmt::radix_rep(cell_u32(n), base),
                    ..v
                })
            } else if letter == 78 {
                let (b0, s1) = s_pop(v.sstack);
                let b_eff: int = if 0 <= b0 <= 255 {
                    b0 as int
                } else {
                    10
                };
                if b_eff < 2 || b_eff > 36 {
                    w == (ProgView { sstack: s1, ..reflected(v) })
                } else {
                    let (n, s2) = s_pop(s1);
                    let n_u: nat = if n >= 0 {
                        n as nat
                    } else {
                        0
                    };
                    w == (ProgView {
                        sstack: s2,
                        out: v.out + crate::numfmt::radix_rep(n_u, b_eff as nat),
                        ..v
                    })
                }
            } else if letter == 73 {
                let (b0, s1) = s_pop(v.sstack);
                let b_eff: int = if b0 >= 0 {
                    b0 as int
                } else {
                    10
                };
                if b_eff > 36 {
                    w == (ProgView { sstack: s1, ..reflected(v) })
                } else {
                    v.pending_line is Some ==> ({
                        let n = parse_decimal_spec(v.pending_line->0);
                        let n_u: nat = if n >= 0 {
                            n as nat
                        } else {
                            0
                        };
                        let val: i32 = if b_eff == 0 {
                            0i32
                        } else if n_u < b_eff {
                            crate::numfmt::radix_digit(n_u) as i32
                        } else {
                            0i32
                        };
                        w == (ProgView {
                            sstack: s_push(s1, val),
                            pending_line: None,
                            ..v
                        })
                    })
                }
            } else {
                w == reflected(v)
            }
        }),
    }
}

/// What executing one instruction cell does to the engine, before the
/// shared end-of-tick move.  `i` is the cell value; string mode is off and
/// any input the instruction consumes has already been supplied.
pub open spec fn instr_rel(
    i: int,
    v: ProgView,
    f: crate::fingerprint::FpmView,
    o: Oracle,
    w: ProgView,
    fw: crate::fingerprint::FpmView,
    r: StepResult,
) -> bool {
    if 48 <= i <= 57 {
        // 0-9: push the digit
        r == StepResult::Ran && fw == f && w == (ProgView {
            sstack: s_push(v.sstack, (i - 48) as i32),
            ..v
        })
    } else if 97 <= i <= 102 {
        // a-f: push the hex digit
        r == StepResult::Ran && fw == f && w == (ProgView {
            sstack: s_push(v.sstack, (i - 87) as i32),
            ..v
        })
    } else if i == 43 {
        // +
        let (a, s1) = s_pop(v.sstack);
        let (b, s2) = s_pop(s1);
        r == StepResult::Ran && fw == f && w == (ProgView {
            sstack: s_push(s2, wrap32(a + b) as i32),
            warns: warn_if(v.warns, !(i32::MIN <= a + b <= i32::MAX), Warning::AddOverflow),
            ..v
        })
    } else if i == 45 {
        // -
        let (a, s1) = s_pop(v.sstack);
        let (b, s2) = s_pop(s1);
        r == StepResult::Ran && fw == f && w == (ProgView {
            sstack: s_push(s2, wrap32(b - a) as i32),
            warns: warn_if(v.warns, !(i32::MIN <= b - a <= i32::MAX), Warning::SubOverflow),
            ..v
        })
    } else if i == 42 {
        // *
        let (a, s1) = s_pop(v.sstack);
        let (b, s2) = s_pop(s1);
        r == StepResult::Ran && fw == f && w == (ProgView {
            sstack: s_push(s2, wrap32(a * b) as i32),
            warns: warn_if(v.warns, !(i32::MIN <= a * b <= i32::MAX), Warning::MulOverflow),
            ..v
        })
    } else if i == 47 {
        // /
        let (a, s1) = s_pop(v.sstack);
        let (b, s2) = s_pop(s1);
        r == StepResult::Ran && fw == f && (if a == 0 {
            w == (ProgView {
                sstack: s_push(s2, 0i32),
                warns: v.warns.push(Warning::DivByZero),
                ..v
            })
        } else if b == i32::MIN && a == -1 {
            w == (ProgView {
                sstack: s_push(s2, i32::MIN),
                warns: v.warns.push(Warning::DivOverflow),
                ..v
            })
        } else {
            w == (ProgView { sstack: s_push(s2, trunc_div(b as int, a as int) as i32), ..v })
        })
    } else if i == 37 {
        // %
        let (a, s1) = s_pop(v.sstack);
        let (b, s2) = s_pop(s1);
        r == StepResult::Ran && fw == f && (if a == 0 {
            w == (ProgView {
                sstack: s_push(s2, 0i32),
                warns: v.warns.push(Warning::RemByZero),
                ..v
            })
        } else if b == i32::MIN && a == -1 {
            w == (ProgView {
                sstack: s_push(s2, 0i32),
                warns: v.warns.push(Warning::RemOverflow),
                ..v
            })
        } else {
            w == (ProgView { sstack: s_push(s2, trunc_rem(b as int, a as int) as i32), ..v })
        })
    } else if i == 33 {
        // !
        let (a, s1) = s_pop(v.sstack);
        r == StepResult::Ran && fw == f && w == (ProgView {
            sstack: s_push(s1, if a == 0 { 1i32 } else { 0i32 }),
            ..v
        })
    } else if i == 96 {
        // `
        let (a, s1) = s_pop(v.sstack);
        let (b, s2) = s_pop(s1);
        r == StepResult::Ran && fw == f && w == (ProgView {
            sstack: s_push(s2, if b > a { 1i32 } else { 0i32 }),
            ..v
        })
    } else if i == 119 {
        // w: compare and turn
        let (b, s1) = s_pop(v.sstack);
        let (a, s2) = s_pop(s1);
        r == StepResult::Ran && fw == f && w == (ProgView {
            sstack: s2,
            cursor: if a < b {
                Cursor { delta: spec_turn_left(v.cursor.delta), ..v.cursor }
            } else if a > b {
                Cursor { delta: spec_turn_right(v.cursor.delta), ..v.cursor }
            } else {
                v.cursor
            },
            ..v
        })
    } else if i == 62 || i == 60 || i == 94 || i == 118 {
        // > < ^ v
        let d = if i == 62 {
            Delta { x: 1i32, y: 0i32 }
        } else if i == 60 {
            Delta { x: -1i32, y: 0i32 }
        } else if i == 94 {
            Delta { x: 0i32, y: -1i32 }
        } else {
            Delta { x: 0i32, y: 1i32 }
        };
        r == StepResult::Ran && fw == f && w == (ProgView {
            cursor: Cursor { delta: d, ..v.cursor },
            ..v
        })
    } else if i == 63 {
        // ?: a random cardinal direction
        r == StepResult::Ran && fw == f && w == (ProgView {
            cursor: Cursor { delta: o.dir, ..v.cursor },
            ..v
        })
    } else if i == 91 {
        // [
        r == StepResult::Ran && fw == f && w == (ProgView {
            cursor: Cursor { delta: spec_turn_left(v.cursor.delta), ..v.cursor },
            ..v
        })
    } else if i == 93 {
        // ]
        r == StepResult::Ran && fw == f && w == (ProgView {
            cursor: Cursor { delta: spec_turn_right(v.cursor.delta), ..v.cursor },
            ..v
        })
    } else if i == 120 {
        // x: absolute delta
        let (dy, s1) = s_pop(v.sstack);
        let (dx, s2) = s_pop(s1);
        r == StepResult::Ran && fw == f && w == (ProgView {
            sstack: s2,
            cursor: Cursor { delta: Delta { x: dx, y: dy }, ..v.cursor },
            ..v
        })
    } else if i == 95 {
        // _
        let (a, s1) = s_pop(v.sstack);
        r == StepResult::Ran && fw == f && w == (ProgView {
            sstack: s1,
            cursor: Cursor {
                delta: if a == 0 {
                    Delta { x: 1i32, y: 0i32 }
                } else {
                    Delta { x: -1i32, y: 0i32 }
                },
                ..v.cursor
            },
            ..v
        })
    } else if i == 124 {
        // |
        let (a, s1) = s_pop(v.sstack);
        r == StepResult::Ran && fw == f && w == (ProgView {
            sstack: s1,
            cursor: Cursor {
                delta: if a == 0 {
                    Delta { x: 0i32, y: 1i32 }
                } else {
                    Delta { x: 0i32, y: -1i32 }
                },
                ..v.cursor
            },
            ..v
        })
    } else if i == 34 {
        // ": string mode on (off is handled while in string mode)
        r == StepResult::Ran && fw == f && w == (ProgView { string_mode: true, ..v })
    } else if i == 58 {
        // :
        let (a, s1) = s_pop(v.sstack);
        r == StepResult::Ran && fw == f && w == (ProgView {
            sstack: s_push(s_push(s1, a), a),
            ..v
        })
    } else if i == 92 {
        // backslash: swap
        let (a, s1) = s_pop(v.sstack);
        let (b, s2) = s_pop(s1);
        r == StepResult::Ran && fw == f && w == (ProgView {
            sstack: s_push(s_push(s2, a), b),
            ..v
        })
    } else if i == 36 {
        // $
        let (a, s1) = s_pop(v.sstack);
        r == StepResult::Ran && fw == f && w == (ProgView { sstack: s1, ..v })
    } else if i == 110 {
        // n: clear the TOSS
        r == StepResult::Ran && fw == f && w == (ProgView {
            sstack: v.sstack.update(v.sstack.len() - 1, Seq::<i32>::empty()),
            ..v
        })
    } else if i == 46 {
        // .
        let (a, s1) = s_pop(v.sstack);
        r == StepResult::Ran && fw == f && w == (ProgView {
            sstack: s1,
            out: v.out + int_text(a as int) + seq![32u8],
            ..v
        })
    } else if i == 44 {
        // ,
        let (a, s1) = s_pop(v.sstack);
        r == StepResult::Ran && fw == f && w == (ProgView {
            sstack: s1,
            out: v.out + byte_utf8(low_byte(a as int)),
            ..v
        })
    } else if i == 35 {
        // #: bridge
        r == StepResult::Ran && fw == f && exists|c2: Cursor|
            #[trigger] advance_rel(v.cursor, v.grid, c2) && w == (ProgView { cursor: c2, ..v })
    } else if i == 64 {
        // @
        r == StepResult::Done(0) && fw == f && w == v
    } else if i == 113 {
        // q
        let (a, s1) = s_pop(v.sstack);
        r == StepResult::Done(a) && fw == f && w == (ProgView { sstack: s1, ..v })
    } else if i == 38 {
        // &: read a decimal cell from the supplied line
        v.pending_line is Some ==> (r == StepResult::Ran && fw == f && w == (ProgView {
            sstack: s_push(v.sstack, parse_decimal_spec(v.pending_line->0) as i32),
            pending_line: None,
            ..v
        }))
    } else if i == 126 {
        // ~: read one byte, failing at end of input
        v.byte_ready ==> (fw == f && (match v.pending_byte {
            Some(b) => r == StepResult::Ran && w == (ProgView {
                sstack: s_push(v.sstack, b as i32),
                pending_byte: None,
                byte_ready: false,
                ..v
            }),
            None => r == StepResult::Failed && w == v,
        }))
    } else if i == 103 {
        // g
        let (y, s1) = s_pop(v.sstack);
        let (x, s2) = s_pop(s1);
        let tx = wrap32(x + v.cursor.so_x);
        let ty = wrap32(y + v.cursor.so_y);
        r == StepResult::Ran && fw == f && w == (ProgView {
            sstack: s_push(s2, v.grid.at(tx, ty)),
            ..v
        })
    } else if i == 112 {
        // p
        let (y, s1) = s_pop(v.sstack);
        let (x, s2) = s_pop(s1);
        let (val, s3) = s_pop(s2);
        let tx = wrap32(x + v.cursor.so_x);
        let ty = wrap32(y + v.cursor.so_y);
        r == StepResult::Ran && fw == f && put_rel(v.grid, tx, ty, val, w.grid) && w == (ProgView {
            grid: w.grid,
            sstack: s3,
            ..v
        })
    } else if i == 39 {
        // ': fetch character
        exists|c2: Cursor|
            {
                &&& #[trigger] advance_rel(v.cursor, v.grid, c2)
                &&& r == StepResult::Ran
                &&& fw == f
                &&& w == (ProgView {
                    cursor: c2,
                    sstack: s_push(v.sstack, v.grid.at(c2.x as int, c2.y as int)),
                    ..v
                })
            }
    } else if i == 115 {
        // s: store character
        let (val, s1) = s_pop(v.sstack);
        exists|c2: Cursor|
            {
                &&& #[trigger] advance_rel(v.cursor, v.grid, c2)
                &&& r == StepResult::Ran
                &&& fw == f
                &&& put_rel(v.grid, c2.x as int, c2.y as int, val, w.grid)
                &&& w == (ProgView { cursor: c2, sstack: s1, grid: w.grid, ..v })
            }
    } else if i == 106 {
        // j: jump forward (backward after a reflect when negative)
        let (n, s1) = s_pop(v.sstack);
        let start = if n >= 0 {
            v.cursor
        } else {
            Cursor { delta: spec_reflect(v.cursor.delta), ..v.cursor }
        };
        let k = if n >= 0 {
            n as int
        } else {
            -(n as int)
        };
        r == StepResult::Ran && fw == f && advance_n_rel(
            start,
            v.grid,
            k,
            Cursor { delta: start.delta, ..w.cursor },
        ) && w == (ProgView {
            cursor: Cursor { delta: v.cursor.delta, ..w.cursor },
            sstack: s1,
            ..v
        })
    } else if i == 122 {
        // z: true no-op
        r == StepResult::Ran && fw == f && w == v
    } else if i == 107 {
        // k: iterate
        let (n, s1) = s_pop(v.sstack);
        fw == f && (if n == 0 {
            r == StepResult::Ran && exists|c2: Cursor|
                #[trigger] advance_rel(v.cursor, v.grid, c2) && w == (ProgView {
                    cursor: c2,
                    sstack: s1,
                    ..v
                })
        } else {
            r == StepResult::Ran && w == (ProgView {
                sstack: s1,
                mode: Mode::Seek(n, false, v.cursor),
                ..v
            })
        })
    } else if i == 123 {
        // {: begin a block
        let (n, s1) = s_pop(v.sstack);
        let pair = split_for_create(s1.last(), n as int);
        let s2 = s1.update(s1.len() - 1, pair.1.push(v.cursor.so_x).push(v.cursor.so_y)).push(
            pair.0,
        );
        r == StepResult::Ran && fw == f && w == (ProgView {
            sstack: s2,
            cursor: Cursor {
                so_x: wrap32(v.cursor.x + v.cursor.delta.x) as i32,
                so_y: wrap32(v.cursor.y + v.cursor.delta.y) as i32,
                ..v.cursor
            },
            ..v
        })
    } else if i == 125 {
        // }: end a block; with nothing beneath, reflect
        let (n, s1) = s_pop(v.sstack);
        r == StepResult::Ran && fw == f && (if s1.len() < 2 {
            w == (ProgView {
                sstack: s1,
                cursor: Cursor { delta: spec_reflect(v.cursor.delta), ..v.cursor },
                ..v
            })
        } else {
            let toss = s1.last();
            let soss0 = s1[s1.len() - 2];
            let ry = top_or_zero(soss0);
            let rx = top_or_zero(rest_after_pop(soss0));
            let soss1 = rest_after_pop(rest_after_pop(soss0));
            let s2 = s1.take(s1.len() - 2).push(merge_for_destroy(soss1, toss, n as int));
            w == (ProgView {
                sstack: s2,
                cursor: Cursor { so_x: rx, so_y: ry, ..v.cursor },
                ..v
            })
        })
    } else if i == 117 {
        // u: transfer between SOSS and TOSS; with nothing beneath, reflect
        let (n, s1) = s_pop(v.sstack);
        r == StepResult::Ran && fw == f && (if s1.len() < 2 {
            w == (ProgView {
                sstack: s1,
                cursor: Cursor { delta: spec_reflect(v.cursor.delta), ..v.cursor },
                ..v
            })
        } else {
            let toss = s1.last();
            let soss = s1[s1.len() - 2];
            let s2 = if n >= 0 {
                s1.take(s1.len() - 2).push(rest_after_pops(soss, n as nat)).push(
                    toss + popped_values(soss, n as nat),
                )
            } else {
                s1.take(s1.len() - 2).push(soss + popped_values(toss, (-(n as int)) as nat)).push(
                    rest_after_pops(toss, (-(n as int)) as nat),
                )
            };
            w == (ProgView { sstack: s2, ..v })
        })
    } else if i == 40 {
        // (: load a fingerprint, reflecting when the id is unknown
        let (cnt, s1) = s_pop(v.sstack);
        let k = if cnt > 0 {
            cnt as int
        } else {
            0
        };
        let cs = popped_values(s1.last(), k as nat);
        let id = fold_id(cs, 0);
        let s2 = s1.update(s1.len() - 1, rest_after_pops(s1.last(), k as nat));
        r == StepResult::Ran && (if crate::fingerprint::find_fp(f.available, id, 0)
            < f.available.len() {
            let idx = crate::fingerprint::find_fp(f.available, id, 0);
            &&& fw.available == f.available
            &&& fw.loaded =~= f.loaded.push(idx)
            &&& fw.istacks.len() == 26
            &&& forall|l: int|
                0 <= l < 26 ==> #[trigger] fw.istacks[l] == (if crate::fingerprint::fp_has_letter(
                    f.available[idx],
                    l,
                ) {
                    f.istacks[l].push(idx)
                } else {
                    f.istacks[l]
                })
            &&& w == (ProgView {
                sstack: s_push(s_push(s2, id as i32), cnt),
                ..v
            })
        } else {
            fw == f && w == (ProgView {
                sstack: s2,
                cursor: Cursor { delta: spec_reflect(v.cursor.delta), ..v.cursor },
                ..v
            })
        })
    } else if i == 41 {
        // ): unload a fingerprint, reflecting when none is loaded
        let (cnt, s1) = s_pop(v.sstack);
        let k = if cnt > 0 {
            cnt as int
        } else {
            0
        };
        let cs = popped_values(s1.last(), k as nat);
        let id = fold_id(cs, 0);
        let s2 = s1.update(s1.len() - 1, rest_after_pops(s1.last(), k as nat));
        r == StepResult::Ran && (if crate::fingerprint::find_loaded(f.loaded, f.available, id)
            >= 0 {
            let p = crate::fingerprint::find_loaded(f.loaded, f.available, id);
            let idx = f.loaded[p];
            &&& fw.available == f.available
            &&& fw.loaded =~= f.loaded.remove(p)
            &&& fw.istacks.len() == 26
            &&& forall|l: int|
                0 <= l < 26 ==> #[trigger] fw.istacks[l] == (if crate::fingerprint::fp_has_letter(
                    f.available[idx],
                    l,
                ) {
                    crate::fingerprint::istack_pop(f.istacks[l])
                } else {
                    f.istacks[l]
                })
            &&& w == (ProgView { sstack: s2, ..v })
        } else {
            fw == f && w == (ProgView {
                sstack: s2,
                cursor: Cursor { delta: spec_reflect(v.cursor.delta), ..v.cursor },
                ..v
            })
        })
    } else if 65 <= i <= 90 {
        // A-Z: dispatch to the active handler, reflecting when there is none
        fw == f && (if f.istacks[i - 65].len() == 0 {
            r == StepResult::Ran && w == (ProgView {
                cursor: Cursor { delta: spec_reflect(v.cursor.delta), ..v.cursor },
                ..v
            })
        } else {
            fp_rel(f.available[f.istacks[i - 65].last()], i, v, w, r)
        })
    } else if i == 121 {
        // y: the system report
        let (q, s1) = s_pop(v.sstack);
        let v1 = ProgView { sstack: s1, ..v };
        fw == f && exists|rep: Seq<i32>|
            {
                &&& #[trigger] crate::sysinfo::report_rel(v1, o.day, o.sec, rep)
                &&& r == StepResult::Ran
                &&& (if q as int > rep.len() {
                    let depth = q - rep.len() - 1;
                    let toss = s1.last();
                    let val = if 0 <= depth < toss.len() {
                        toss[toss.len() - 1 - depth]
                    } else {
                        0i32
                    };
                    w == (ProgView { sstack: s_push(s1, val), ..v })
                } else if q > 0 {
                    w == (ProgView { sstack: s_push(s1, rep[rep.len() - q]), ..v })
                } else {
                    w == (ProgView {
                        sstack: s1.update(s1.len() - 1, s1.last() + rep),
                        ..v
                    })
                })
            }
    } else {
        // every other cell reflects
        r == StepResult::Ran && fw == f && w == (ProgView {
            cursor: Cursor { delta: spec_reflect(v.cursor.delta), ..v.cursor },
            ..v
        })
    }
}


/// The low byte of a cell, computed.
fn low_byte_exec(v: i32) -> (r: u8)
    ensures
        r == low_byte(v as int),
{
    let m: i64 = (v as i64) % 256;
    let m2: i64 = if m < 0 {
        m + 256
    } else {
        m
    };
    proof {
        crate::cell::lemma_trunc_to_euclid(v as int, 256);
    }
    m2 as u8
}

/// Deep equality of two byte rows.
fn bytes_eq(a: &Vec<u8>, b: &Vec<u8>) -> (r: bool)
    ensures
        r <==> a@ == b@,
{
    if a.len() != b.len() {
        proof {
            assert(a@.len() != b@.len());
        }
        return false;
    }
    let n = a.len();
    let mut i: usize = 0;
    while i < n
        invariant
            i <= n,
            n == a@.len(),
            n == b@.len(),
            forall|j: int| 0 <= j < i ==> a@[j] == b@[j],
        decreases n - i,
    {
        if a[i] != b[i] {
            return false;
        }
        i = i + 1;
    }
    proof {
        vstd::assert_seqs_equal!(a@, b@);
    }
    true
}

/// Truncated division on wide integers, for the complex-arithmetic
/// extension.
fn trunc_div_i128(a: i128, b: i128) -> (r: i128)
    requires
        b != 0,
        -0x8000_0000_0000_0000_0000_0000_0000_0000 < a,
        -0x8000_0000_0000_0000_0000_0000_0000_0000 < b,
    ensures
        r as int == trunc_div(a as int, b as int),
        r as int <= (if a >= 0 { a as int } else { (a as int) * -1 }),
        r as int >= -(if a >= 0 { a as int } else { (a as int) * -1 }),
{
    let au: u128 = if a >= 0 {
        a as u128
    } else {
        (-a) as u128
    };
    let bu: u128 = if b >= 0 {
        b as u128
    } else {
        (-b) as u128
    };
    let qu: u128 = au / bu;
    proof {
        assert(qu <= au) by (nonlinear_arith)
            requires
                bu >= 1,
                qu == au / bu,
        ;
    }
    if (a >= 0) == (b >= 0) {
        qu as i128
    } else {
        -(qu as i128)
    }
}

/// Truncated remainder on wide integers.
fn trunc_rem_i64(a: i64, b: i64) -> (r: i64)
    requires
        b != 0,
        -0x8000_0000_0000_0000 < a,
        -0x8000_0000_0000_0000 < b,
    ensures
        r as int == trunc_rem(a as int, b as int),
        b > 0 ==> (r as int) < (b as int),
        b > 0 ==> (r as int) > -(b as int),
        b < 0 ==> (r as int) > (b as int),
        b < 0 ==> (r as int) < -(b as int),
{
    let au: u64 = if a >= 0 {
        a as u64
    } else {
        (-a) as u64
    };
    let bu: u64 = if b >= 0 {
        b as u64
    } else {
        (-b) as u64
    };
    let ru: u64 = au % bu;
    proof {
        assert(ru < bu) by (nonlinear_arith)
            requires
                bu >= 1,
                ru == au % bu,
        ;
        assert(au as int == if a >= 0 {
            a as int
        } else {
            (a as int) * -1
        });
        assert(bu as int == if b >= 0 {
            b as int
        } else {
            (b as int) * -1
        });
        let ai = a as int;
        let bi = b as int;
        if a == 0 {
            assert(au == 0);
            assert(0u64 % bu == 0) by (nonlinear_arith)
                requires
                    bu >= 1,
            ;
        } else if a > 0 && b > 0 {
            assert(ru as int == ai % bi);
        } else if a < 0 && b < 0 {
            assert(ru as int == (ai * -1) % (bi * -1));
        } else if a < 0 {
            assert(ru as int == (ai * -1) % bi);
        } else {
            assert(ru as int == ai % (bi * -1));
        }
    }
    if a >= 0 {
        ru as i64
    } else {
        -(ru as i64)
    }
}

/// Wraps a wide value into a cell.
fn wrap_i128(s: i128) -> (r: i32)
    requires
        -0x4000_0000_0000_0000_0000_0000_0000_0000 < s
            < 0x4000_0000_0000_0000_0000_0000_0000_0000,
    ensures
        r as int == wrap32(s as int),
{
    let range: i128 = 0x1_0000_0000;
    let m: i128 = s % range;
    let m2: i128 = if m < 0 {
        m + range
    } else {
        m
    };
    proof {
        crate::cell::lemma_i128_trunc_rem(s as int);
    }
    let w: i128 = if m2 >= 0x8000_0000 {
        m2 - range
    } else {
        m2
    };
    w as i32
}

/// The floor square root.
fn isqrt_u64(n: u64) -> (r: u64)
    ensures
        r * r <= n < (r + 1) * (r + 1),
        r <= 0x1_0000_0000,
{
    if n == 0 {
        return 0;
    }
    let mut lo: u64 = 0;
    let mut hi: u64 = 0x1_0000_0000;
    proof {
        assert((0x1_0000_0000int) * 0x1_0000_0000 > n) by (nonlinear_arith)
            requires
                n <= 0xFFFF_FFFF_FFFF_FFFFu64,
        ;
    }
    while lo + 1 < hi
        invariant
            lo < hi,
            hi <= 0x1_0000_0000,
            lo * lo <= n,
            (hi as int) * (hi as int) > n,
        decreases hi - lo,
    {
        let mid: u64 = lo + (hi - lo) / 2;
        proof {
            assert((mid as int) * (mid as int) <= 0x1_0000_0000_0000_0000) by (nonlinear_arith)
                requires
                    mid <= 0x1_0000_0000u64,
            ;
        }
        let sq: u128 = (mid as u128) * (mid as u128);
        if sq <= n as u128 {
            lo = mid;
        } else {
            hi = mid;
        }
    }
    proof {
        assert(hi == lo + 1);
    }
    lo
}


/// True when the text-reading letter of the number-base extension will
/// consume an input line: the base preview on the stack is acceptable.
pub open spec fn base_i_wants_line(v: ProgView) -> bool {
    let b0 = top_or_zero(v.sstack.last());
    let b_eff: int = if b0 >= 0 {
        b0 as int
    } else {
        10
    };
    b_eff <= 36
}

/// Products of cells fit comfortably in a wide integer.
proof fn lemma_cell_product_bounds(a: int, b: int, c: int, d: int)
    requires
        i32::MIN <= a <= i32::MAX,
        i32::MIN <= b <= i32::MAX,
        i32::MIN <= c <= i32::MAX,
        i32::MIN <= d <= i32::MAX,
    ensures
        -0x4000_0000_0000_0000 <= a * c <= 0x4000_0000_0000_0000,
        -0x4000_0000_0000_0000 <= a * d <= 0x4000_0000_0000_0000,
        -0x4000_0000_0000_0000 <= b * c <= 0x4000_0000_0000_0000,
        -0x4000_0000_0000_0000 <= b * d <= 0x4000_0000_0000_0000,
{
    assert(-0x4000_0000_0000_0000 <= a * c <= 0x4000_0000_0000_0000 && -0x4000_0000_0000_0000 <= a
        * d <= 0x4000_0000_0000_0000 && -0x4000_0000_0000_0000 <= b * c <= 0x4000_0000_0000_0000
        && -0x4000_0000_0000_0000 <= b * d <= 0x4000_0000_0000_0000) by (nonlinear_arith)
        requires
            i32::MIN <= a <= i32::MAX,
            i32::MIN <= b <= i32::MAX,
            i32::MIN <= c <= i32::MAX,
            i32::MIN <= d <= i32::MAX,
    ;
}

/// True when executing this cell first needs an input line supplied: the
/// decimal reader, or a dispatched text-reading extension letter.
pub open spec fn wants_line(ins: int, v: ProgView, f: crate::fingerprint::FpmView) -> bool {
    ||| ins == 38
    ||| (65 <= ins <= 90 && f.istacks[ins - 65].len() > 0 && f.available[f.istacks[ins
        - 65].last()] == crate::fingerprint::FpKind::Base && ins == 73 && base_i_wants_line(v))
}

/// A copy of a byte row.
fn copy_bytes(a: &Vec<u8>) -> (r: Vec<u8>)
    ensures
        r@ == a@,
{
    let n = a.len();
    let mut r: Vec<u8> = Vec::new();
    let mut i: usize = 0;
    while i < n
        invariant
            i <= n,
            n == a@.len(),
            r@ =~= a@.take(i as int),
        decreases n - i,
    {
        r.push(a[i]);
        proof {
            vstd::assert_seqs_equal!(r@, a@.take(i + 1));
        }
        i = i + 1;
    }
    proof {
        assert(a@.take(n as int) =~= a@);
    }
    r
}

/// Splits `K=V` at the first `=`.
#[verifier::loop_isolation(false)]
fn split_eq_exec(q: &Vec<u8>) -> (r: (Vec<u8>, Vec<u8>))
    ensures
        (r.0@, r.1@) == split_eq(q@, 0),
{
    let n = q.len();
    let mut i: usize = 0;
    while i < n
        invariant
            i <= n,
            n == q@.len(),
            split_eq(q@, 0) == split_eq(q@, i as int),
        decreases n - i,
    {
        if q[i] == 61 {
            let mut key: Vec<u8> = Vec::new();
            let mut j: usize = 0;
            while j < i
                invariant
                    j <= i,
                    i < n,
                    n == q@.len(),
                    key@ =~= q@.take(i as int).take(j as int),
                decreases i - j,
            {
                key.push(q[j]);
                proof {
                    vstd::assert_seqs_equal!(key@, q@.take(i as int).take(j + 1));
                }
                j = j + 1;
            }
            let mut value: Vec<u8> = Vec::new();
            let mut j2: usize = i + 1;
            while j2 < n
                invariant
                    i + 1 <= j2 <= n,
                    i < n,
                    n == q@.len(),
                    forall|c: int| i + 1 <= c < j2 ==> q@[c] != 61,
                    value@ + upto_eq(q@, j2 as int) =~= upto_eq(q@, i + 1),
                decreases n - j2,
            {
                if q[j2] == 61 {
                    proof {
                        assert(upto_eq(q@, j2 as int) =~= Seq::<u8>::empty());
                        assert(value@ =~= upto_eq(q@, i + 1));
                    }
                    proof {
                        assert(q@.take(i as int).take(i as int) =~= q@.take(i as int));
                    }
                    return (key, value);
                }
                value.push(q[j2]);
                proof {
                    assert(value@ + upto_eq(q@, j2 + 1) =~= upto_eq(q@, i + 1));
                }
                j2 = j2 + 1;
            }
            proof {
                assert(upto_eq(q@, n as int) =~= Seq::<u8>::empty());
                assert(value@ =~= upto_eq(q@, i + 1));
                assert(q@.take(i as int).take(i as int) =~= q@.take(i as int));
            }
            return (key, value);
        }
        i = i + 1;
    }
    let key = copy_bytes(q);
    (key, Vec::new())
}


/// What one `step` call does: continue the current skip or seek by one
/// wrap-around move, run one queued `k` repetition, or fetch and execute the
/// cell under the cursor — with the end-of-tick move folded in where the
/// tick completes.
pub open spec fn step_rel(
    v: ProgView,
    f: crate::fingerprint::FpmView,
    w: ProgView,
    fw: crate::fingerprint::FpmView,
    r: StepResult,
) -> bool {
    match v.mode {
        Mode::Semicolon => fw == f && r == StepResult::Ran && exists|c1: Cursor|
            #[trigger] advance_rel(v.cursor, v.grid, c1) && ({
                let v1 = ProgView { cursor: c1, ..v };
                if cell_under(v1) == 59 {
                    exists|c2: Cursor|
                        #[trigger] advance_rel(c1, v.grid, c2) && w == (ProgView {
                            cursor: c2,
                            mode: Mode::Normal,
                            ..v
                        })
                } else {
                    w == v1
                }
            }),
        Mode::Blanks => fw == f && r == StepResult::Ran && exists|c1: Cursor|
            #[trigger] advance_rel(v.cursor, v.grid, c1) && ({
                let v1 = ProgView { cursor: c1, ..v };
                if cell_under(v1) != BLANK {
                    w == (ProgView { cursor: c1, mode: Mode::Normal, ..v })
                } else {
                    w == v1
                }
            }),
        Mode::StringBlanks => fw == f && r == StepResult::Ran && exists|c1: Cursor|
            #[trigger] advance_rel(v.cursor, v.grid, c1) && ({
                let v1 = ProgView { cursor: c1, ..v };
                if cell_under(v1) != BLANK {
                    w == (ProgView { cursor: c1, mode: Mode::Normal, ..v })
                } else {
                    w == v1
                }
            }),
        Mode::Seek(n, insemi, home) => fw == f && r == StepResult::Ran && exists|c1: Cursor|
            #[trigger] advance_rel(v.cursor, v.grid, c1) && ({
                let v1 = ProgView { cursor: c1, ..v };
                let c = cell_under(v1);
                if insemi {
                    if c == 59 {
                        w == (ProgView { mode: Mode::Seek(n, false, home), ..v1 })
                    } else {
                        w == v1
                    }
                } else if c == 59 {
                    w == (ProgView { mode: Mode::Seek(n, true, home), ..v1 })
                } else if c == BLANK {
                    w == v1
                } else {
                    w == (ProgView {
                        cursor: home,
                        mode: Mode::Normal,
                        queue: v.queue.push((c, n)),
                        ..v
                    })
                }
            }),
        Mode::Normal => {
            if v.queue.len() > 0 {
                let entry = v.queue.last();
                if entry.1 <= 0 {
                    fw == f && r == StepResult::Ran && ({
                        let v1 = ProgView { queue: v.queue.drop_last(), ..v };
                        if v1.queue.len() == 0 {
                            exists|c2: Cursor|
                                #[trigger] advance_rel(v.cursor, v.grid, c2) && w == (ProgView {
                                    cursor: c2,
                                    ..v1
                                })
                        } else {
                            w == v1
                        }
                    })
                } else if wants_line(entry.0 as int, v, f) && v.pending_line is None {
                    r == StepResult::NeedLine && w == v && fw == f
                } else if entry.0 == 126 && !v.byte_ready {
                    r == StepResult::NeedByte && w == v && fw == f
                } else {
                    let vq = ProgView {
                        queue: v.queue.update(
                            v.queue.len() - 1,
                            (entry.0, (entry.1 - 1) as i32),
                        ),
                        ..v
                    };
                    exists|o: Oracle|
                        oracle_wf(o) && #[trigger] instr_rel(entry.0 as int, vq, f, o, w, fw, r)
                }
            } else {
                let c = cell_under(v);
                if v.string_mode {
                    fw == f && r == StepResult::Ran && (if c == 34 {
                        exists|c2: Cursor|
                            #[trigger] advance_rel(v.cursor, v.grid, c2) && w == (ProgView {
                                string_mode: false,
                                cursor: c2,
                                ..v
                            })
                    } else if c == BLANK {
                        w == (ProgView {
                            sstack: s_push(v.sstack, BLANK),
                            mode: Mode::StringBlanks,
                            ..v
                        })
                    } else {
                        exists|c2: Cursor|
                            #[trigger] advance_rel(v.cursor, v.grid, c2) && w == (ProgView {
                                sstack: s_push(v.sstack, c),
                                cursor: c2,
                                ..v
                            })
                    })
                } else if c == BLANK {
                    fw == f && r == StepResult::Ran && w == (ProgView { mode: Mode::Blanks, ..v })
                } else if c == 59 {
                    fw == f && r == StepResult::Ran && w == (ProgView {
                        mode: Mode::Semicolon,
                        ..v
                    })
                } else if wants_line(c as int, v, f) && v.pending_line is None {
                    r == StepResult::NeedLine && w == v && fw == f
                } else if c == 126 && !v.byte_ready {
                    r == StepResult::NeedByte && w == v && fw == f
                } else {
                    exists|o: Oracle, v2: ProgView|
                        {
                            &&& oracle_wf(o)
                            &&& #[trigger] instr_rel(c as int, v, f, o, v2, fw, r)
                            &&& (if r == StepResult::Ran && v2.mode == Mode::Normal
                                && v2.queue.len() == 0 {
                                exists|c2: Cursor|
                                    #[trigger] advance_rel(v2.cursor, v2.grid, c2) && w == (
                                    ProgView { cursor: c2, ..v2 })
                            } else {
                                w == v2
                            })
                        }
                }
            }
        },
    }
}

/// `w` is reachable from `v` by `k` working steps.
pub open spec fn reaches(
    v: ProgView,
    f: crate::fingerprint::FpmView,
    w: ProgView,
    fw: crate::fingerprint::FpmView,
    k: int,
) -> bool
    decreases k,
{
    if k <= 0 {
        w == v && fw == f
    } else {
        exists|vm: ProgView, fm: crate::fingerprint::FpmView|
            reaches(v, f, vm, fm, k - 1) && #[trigger] step_rel(vm, fm, w, fw, StepResult::Ran)
    }
}

/// The step outcome a finished `run` reports.
pub open spec fn run_step_result(r: RunOutcome) -> StepResult {
    match r {
        RunOutcome::Done(code) => StepResult::Done(code),
        RunOutcome::NeedLine => StepResult::NeedLine,
        RunOutcome::NeedByte => StepResult::NeedByte,
        _ => StepResult::Failed,
    }
}

/// What a bounded slice of running reports.
#[derive(Clone, Copy, PartialEq, Eq, Structural, Debug)]
pub enum RunOutcome {
    /// `@` or `q` ended the run with this exit code.
    Done(i32),
    /// An input line is needed; supply one and run again.
    NeedLine,
    /// An input byte (or end-of-input) is needed; supply it and run again.
    NeedByte,
    /// `~` met end-of-input: the run fails.
    Failed,
    /// The fuel ran out with the program still going; run again to continue.
    OutOfFuel,
}

impl Program {
    /// The structural invariant: the grid is a rectangle matching its box
    /// and at least one value stack exists.
    pub closed spec fn inv(self) -> bool {
        &&& self.grid.inv()
        &&& self@.sstack.len() >= 1
    }

    /// A fresh engine over the given source text, command line and
    /// environment: cursor at the origin moving east, one empty stack,
    /// string mode off.
    pub fn new(
        lines: &Vec<Vec<u8>>,
        args: Vec<Vec<u8>>,
        envs: Vec<(Vec<u8>, Vec<u8>)>,
        path_sep: i32,
    ) -> (r: Program)
        requires
            lines@.len() <= 0x8000_0000,
            forall|i: int|
                0 <= i < lines@.len() ==> (#[trigger] lines@[i])@.len() <= 0x8000_0000,
        ensures
            r.inv(),
            r@.cursor == spec_start(),
            r@.string_mode == false,
            r@.mode == Mode::Normal,
            r@.queue.len() == 0,
            r@.sstack =~= seq![Seq::<i32>::empty()],
            r@.out.len() == 0,
            r@.warns.len() == 0,
            r@.pending_line is None,
            r@.byte_ready == false,
            r@.grid.lx == 0 && r@.grid.ly == 0,
            forall|x: int, y: int| #[trigger] r@.grid.at(x, y) == crate::grid::source_cell(
                lines@,
                x,
                y,
            ),
            r@.grid.height() == crate::grid::spec_max(1, lines@.len() as int),
            forall|i: int|
                0 <= i < lines@.len() ==> (#[trigger] lines@[i])@.len() <= r@.grid.width(),
            r@.grid.width() == 1 || exists|i: int|
                0 <= i < lines@.len() && (#[trigger] lines@[i])@.len() == r@.grid.width(),
            r@.args == args@.map_values(|a: Vec<u8>| a@),
            r@.envs == envs@.map_values(|e: (Vec<u8>, Vec<u8>)| (e.0@, e.1@)),
            r@.path_sep == path_sep,
    {
        Program {
            grid: Grid::from_source(lines),
            cursor: Cursor::start(),
            sstack: SStack::new(),
            string_mode: false,
            mode: Mode::Normal,
            queue: Vec::new(),
            pending_line: None,
            pending_byte: None,
            byte_ready: false,
            out: Vec::new(),
            warns: Vec::new(),
            args,
            envs,
            path_sep,
        }
    }

    /// Hands the engine the input line that `&` (or a text-reading
    /// extension) asked for.
    pub fn provide_line(&mut self, line: Vec<u8>)
        requires
            old(self).inv(),
        ensures
            final(self).inv(),
            final(self)@ == (ProgView { pending_line: Some(line@), ..old(self)@ }),
    {
        self.pending_line = Some(line);
    }

    /// Hands the engine the input byte that `~` asked for; `None` means the
    /// input has ended.
    pub fn provide_byte(&mut self, byte: Option<u8>)
        requires
            old(self).inv(),
        ensures
            final(self).inv(),
            final(self)@ == (ProgView {
                pending_byte: byte,
                byte_ready: true,
                ..old(self)@
            }),
    {
        self.pending_byte = byte;
        self.byte_ready = true;
    }

    /// Drains the output produced so far.
    pub fn take_output(&mut self) -> (r: Vec<u8>)
        requires
            old(self).inv(),
        ensures
            final(self).inv(),
            r@ == old(self)@.out,
            final(self)@ == (ProgView { out: Seq::empty(), ..old(self)@ }),
    {
        let mut out: Vec<u8> = Vec::new();
        core::mem::swap(&mut out, &mut self.out);
        out
    }

    /// Drains the warnings produced so far.
    pub fn take_warnings(&mut self) -> (r: Vec<Warning>)
        requires
            old(self).inv(),
        ensures
            final(self).inv(),
            r@ == old(self)@.warns,
            final(self)@ == (ProgView { warns: Seq::empty(), ..old(self)@ }),
    {
        let mut warns: Vec<Warning> = Vec::new();
        core::mem::swap(&mut warns, &mut self.warns);
        warns
    }

    /// Pushes `x` onto the TOSS.
    pub fn push(&mut self, x: i32)
        requires
            old(self).inv(),
        ensures
            final(self).inv(),
            final(self)@ == (ProgView { sstack: s_push(old(self)@.sstack, x), ..old(self)@ }),
    {
        self.sstack.push_onto_toss(x);
    }

    /// Pops from the TOSS; an empty stack yields 0.
    pub fn pop(&mut self) -> (r: i32)
        requires
            old(self).inv(),
        ensures
            final(self).inv(),
            r == s_pop(old(self)@.sstack).0,
            final(self)@ == (ProgView { sstack: s_pop(old(self)@.sstack).1, ..old(self)@ }),
    {
        self.sstack.pop_from_toss()
    }

    /// The box currently enclosing the grid.
    pub fn get_bounds(&self) -> (r: crate::bounds::Bounds)
        requires
            self.inv(),
        ensures
            r == (crate::bounds::Bounds {
                lx: self@.grid.lx as i64,
                ly: self@.grid.ly as i64,
                ux: self@.grid.ux() as i64,
                uy: self@.grid.uy() as i64,
            }),
    {
        self.grid.get_bounds()
    }

    /// The cell under the cursor.
    pub fn get_cell(&self, position: (i32, i32)) -> (r: i32)
        requires
            self.inv(),
        ensures
            r == self@.grid.at(position.0 as int, position.1 as int),
    {
        self.grid.get_cell(position)
    }

    /// Writes a cell, growing the box for an outside write and shrinking
    /// all-blank boundary lines away after a blank write on a boundary.
    pub fn put_cell(&mut self, position: (i32, i32), v: i32)
        requires
            old(self).inv(),
        ensures
            final(self).inv(),
            put_rel(old(self)@.grid, position.0 as int, position.1 as int, v, final(self)@.grid),
            final(self)@ == (ProgView { grid: final(self)@.grid, ..old(self)@ }),
    {
        self.grid.put_cell(position, v);
    }

    /// Toggles string mode.
    pub fn toggle_string_mode(&mut self)
        requires
            old(self).inv(),
        ensures
            final(self).inv(),
            final(self)@ == (ProgView {
                string_mode: !old(self)@.string_mode,
                ..old(self)@
            }),
    {
        self.string_mode = !self.string_mode;
    }

    /// Moves the cursor one wrap-around step.
    pub fn move_cursor(&mut self)
        requires
            old(self).inv(),
        ensures
            final(self).inv(),
            advance_rel(old(self)@.cursor, old(self)@.grid, final(self)@.cursor),
            final(self)@ == (ProgView { cursor: final(self)@.cursor, ..old(self)@ }),
    {
        let b = self.grid.get_bounds();
        self.cursor.advance(&b);
    }
}

impl Program {

    /// Pops a 0-terminated string off the TOSS.
    fn pop_string_exec(&mut self) -> (r: Vec<u8>)
        requires
            old(self).inv(),
        ensures
            final(self).inv(),
            r@ == pop_string_text(old(self)@.sstack),
            final(self)@ == (ProgView {
                sstack: pop_string_rest(old(self)@.sstack),
                ..old(self)@
            }),
    {
        let mut acc: Vec<u8> = Vec::new();
        let ghost t0 = self@.sstack.last();
        loop
            invariant_except_break
                toss_string(t0).0 =~= acc@ + toss_string(self@.sstack.last()).0,
                toss_string(t0).1 =~= toss_string(self@.sstack.last()).1,
            invariant
                self.inv(),
                self@ == (ProgView { sstack: self@.sstack, ..old(self)@ }),
                self@.sstack.len() == old(self)@.sstack.len(),
                self@.sstack =~= old(self)@.sstack.update(
                    old(self)@.sstack.len() - 1,
                    self@.sstack.last(),
                ),
            ensures
                toss_string(t0).0 =~= acc@,
                self@.sstack.last() =~= toss_string(t0).1,
            decreases self@.sstack.last().len(),
        {
            if self.sstack.get_toss_len() == 0 {
                proof {
                    assert(toss_string(self@.sstack.last()).0 =~= Seq::<u8>::empty());
                    assert(toss_string(t0).0 =~= acc@);
                }
                break ;
            }
            let ghost cur = self@.sstack.last();
            let c = self.pop();
            if c == 0 {
                proof {
                    assert(toss_string(cur).0 =~= Seq::<u8>::empty());
                    assert(toss_string(cur).1 =~= cur.drop_last());
                    assert(toss_string(t0).0 =~= acc@);
                    assert(self@.sstack.last() =~= toss_string(t0).1);
                }
                break ;
            }
            let b = low_byte_exec(c);
            acc.push(b);
            proof {
                assert(toss_string(cur).0 =~= seq![low_byte(c as int)] + toss_string(
                    cur.drop_last(),
                ).0);
                assert(toss_string(t0).0 =~= acc@ + toss_string(self@.sstack.last()).0);
                assert(self@.sstack =~= old(self)@.sstack.update(
                    old(self)@.sstack.len() - 1,
                    self@.sstack.last(),
                ));
            }
        }
        proof {
            assert(pop_string_rest(old(self)@.sstack) =~= old(self)@.sstack.update(
                old(self)@.sstack.len() - 1,
                toss_string(t0).1,
            ));
        }
        acc
    }

    /// Pushes a text as a 0-terminated string, first character on top.
    fn push_string_exec(&mut self, bytes: &Vec<u8>)
        requires
            old(self).inv(),
        ensures
            final(self).inv(),
            final(self)@ == (ProgView {
                sstack: push_string(old(self)@.sstack, bytes@),
                ..old(self)@
            }),
    {
        self.push(0);
        let n = bytes.len();
        let mut j: usize = n;
        while j > 0
            invariant
                j <= n,
                n == bytes@.len(),
                self.inv(),
                self@ == (ProgView { sstack: self@.sstack, ..old(self)@ }),
                self@.sstack.len() == old(self)@.sstack.len(),
                forall|i: int|
                    0 <= i < self@.sstack.len() - 1 ==> #[trigger] self@.sstack[i] == old(
                        self,
                    )@.sstack[i],
                self@.sstack.last() =~= old(self)@.sstack.last().push(0i32) + string_cells(
                    bytes@.skip(j as int),
                ).reverse(),
            decreases j,
        {
            let ghost cur = self@.sstack;
            self.push(bytes[j - 1] as i32);
            proof {
                assert(self@.sstack =~= cur.update(cur.len() - 1, cur.last().push(
                    bytes@[j - 1] as i32,
                )));
                assert(string_cells(bytes@.skip(j - 1)).reverse() =~= string_cells(
                    bytes@.skip(j as int),
                ).reverse().push(bytes@[j - 1] as i32));
                assert(self@.sstack.last() =~= old(self)@.sstack.last().push(0i32)
                    + string_cells(bytes@.skip(j - 1)).reverse());
            }
            j = j - 1;
        }
        proof {
            assert(bytes@.skip(0) =~= bytes@);
            assert(self@.sstack =~= push_string(old(self)@.sstack, bytes@));
        }
    }

    /// Runs one letter of a built-in extension; a letter the extension does
    /// not implement reflects the cursor.
    fn exec_fingerprint(&mut self, kind: crate::fingerprint::FpKind, letter: i32) -> (r:
        StepResult)
        requires
            old(self).inv(),
            65 <= letter <= 90,
            kind == crate::fingerprint::FpKind::Base && letter == 73 && base_i_wants_line(
                old(self)@,
            ) ==> old(self)@.pending_line is Some,
        ensures
            final(self).inv(),
            fp_rel(kind, letter as int, old(self)@, final(self)@, r),
    {
        match kind {
            crate::fingerprint::FpKind::Null => self.exec_fp_null(letter),
            crate::fingerprint::FpKind::Roma => self.exec_fp_roma(letter),
            crate::fingerprint::FpKind::Modu => self.exec_fp_modu(letter),
            crate::fingerprint::FpKind::Cpli => self.exec_fp_cpli(letter),
            crate::fingerprint::FpKind::Evar => self.exec_fp_evar(letter),
            crate::fingerprint::FpKind::Base => self.exec_fp_base(letter),
        }
    }

    /// The reflecting extension.
    fn exec_fp_null(&mut self, letter: i32) -> (r: StepResult)
        requires
            old(self).inv(),
        ensures
            final(self).inv(),
            fp_rel(crate::fingerprint::FpKind::Null, letter as int, old(self)@, final(self)@, r),
    {
        self.cursor.reflect();
        StepResult::Ran
}

    /// Roman-numeral constants.
    fn exec_fp_roma(&mut self, letter: i32) -> (r: StepResult)
        requires
            old(self).inv(),
        ensures
            final(self).inv(),
            fp_rel(crate::fingerprint::FpKind::Roma, letter as int, old(self)@, final(self)@, r),
    {
        if letter == 67 {
            self.push(100);
        } else if letter == 68 {
            self.push(500);
        } else if letter == 73 {
            self.push(1);
        } else if letter == 76 {
            self.push(50);
        } else if letter == 77 {
            self.push(1000);
        } else if letter == 86 {
            self.push(5);
        } else if letter == 88 {
            self.push(10);
        } else {
            self.cursor.reflect();
        }
        StepResult::Ran
}

    /// Modulo variants.
    fn exec_fp_modu(&mut self, letter: i32) -> (r: StepResult)
        requires
            old(self).inv(),
        ensures
            final(self).inv(),
            fp_rel(crate::fingerprint::FpKind::Modu, letter as int, old(self)@, final(self)@, r),
    {
        if letter == 77 || letter == 85 || letter == 82 {
            let a = self.pop();
            let b = self.pop();
            if a == 0 {
                self.push(0);
            } else if letter == 77 {
                let m0 = trunc_rem_i64(b as i64, a as i64);
                let m1 = trunc_rem_i64(m0 + a as i64, a as i64);
                self.push(m1 as i32);
            } else if letter == 85 {
                let r0 = trunc_rem_i64(b as i64, a as i64);
                let m = if r0 < 0 {
                    if a > 0 {
                        r0 + a as i64
                    } else {
                        r0 - a as i64
                    }
                } else {
                    r0
                };
                self.push(m as i32);
            } else {
                let r0 = trunc_rem_i64(b as i64, a as i64);
                self.push(r0 as i32);
            }
        } else {
            self.cursor.reflect();
        }
        StepResult::Ran
}

    /// Complex-integer arithmetic.
    #[verifier::rlimit(100)]
    fn exec_fp_cpli(&mut self, letter: i32) -> (r: StepResult)
        requires
            old(self).inv(),
        ensures
            final(self).inv(),
            fp_rel(crate::fingerprint::FpKind::Cpli, letter as int, old(self)@, final(self)@, r),
    {
        if letter == 65 || letter == 68 || letter == 77 || letter == 83 {
            let bi = self.pop();
            let br = self.pop();
            let ai = self.pop();
            let ar = self.pop();
            if letter == 65 {
                let (x, _) = cell_add(ar, br);
                self.push(x);
                let (y, _) = cell_add(ai, bi);
                self.push(y);
            } else if letter == 83 {
                let (x, _) = cell_sub(ar, br);
                self.push(x);
                let (y, _) = cell_sub(ai, bi);
                self.push(y);
            } else if letter == 77 {
                proof {
                    lemma_cell_product_bounds(ar as int, ai as int, br as int, bi as int);
                }
                let v1: i128 = ar as i128 * br as i128 - ai as i128 * bi as i128;
                let v2: i128 = ar as i128 * bi as i128 + ai as i128 * br as i128;
                let x = wrap_i128(v1);
                self.push(x);
                let y = wrap_i128(v2);
                self.push(y);
            } else {
                proof {
                    lemma_cell_product_bounds(ar as int, ai as int, br as int, bi as int);
                    lemma_cell_product_bounds(br as int, bi as int, br as int, bi as int);
                }
                let denom: i128 = br as i128 * br as i128 + bi as i128 * bi as i128;
                if denom == 0 {
                    self.push(0);
                    self.push(0);
                } else {
                    let n1: i128 = ar as i128 * br as i128 + ai as i128 + bi as i128;
                    let n2: i128 = ai as i128 * br as i128 - ar as i128 * bi as i128;
                    let q1 = trunc_div_i128(n1, denom);
                    let q2 = trunc_div_i128(n2, denom);
                    let x = wrap_i128(q1);
                    self.push(x);
                    let y = wrap_i128(q2);
                    self.push(y);
                }
            }
            StepResult::Ran
        } else if letter == 79 {
            let ai = self.pop();
            let ar = self.pop();
            let mut t = crate::numfmt::format_int(ar);
            self.out.append(&mut t);
            self.out.push(if ai >= 0 {
                43
            } else {
                45
            });
            let mag: u64 = if ai >= 0 {
                ai as u64
            } else {
                (-(ai as i64)) as u64
            };
            let mut d = crate::numfmt::dec_digits(mag);
            self.out.append(&mut d);
            self.out.push(105);
            proof {
                assert(self@.out =~= old(self)@.out + int_text(ar as int) + (if ai >= 0 {
                    seq![43u8]
                } else {
                    seq![45u8]
                }) + crate::numfmt::dec_rep(mag as nat) + seq![105u8]);
            }
            StepResult::Ran
        } else if letter == 86 {
            let ai = self.pop();
            let ar = self.pop();
            proof {
                assert(0 <= (ai as int) * (ai as int)
                    && (ai as int) * (ai as int) <= 0x4000_0000_0000_0000 && 0 <= (
                ar as int) * (ar as int) && (ar as int) * (ar as int)
                    <= 0x4000_0000_0000_0000) by (nonlinear_arith)
                    requires
                        i32::MIN <= ai <= i32::MAX,
                        i32::MIN <= ar <= i32::MAX,
                ;
            }
            let sum: i128 = ai as i128 * ai as i128 + ar as i128 * ar as i128;
            let rt = isqrt_u64(sum as u64);
            let (x, _) = crate::cell::wrap_to_i32(rt as i64);
            self.push(x);
            StepResult::Ran
        } else {
            self.cursor.reflect();
            StepResult::Ran
        }
}

    /// Environment access.
    #[verifier::rlimit(100)]
    #[verifier::loop_isolation(false)]
    fn exec_fp_evar(&mut self, letter: i32) -> (r: StepResult)
        requires
            old(self).inv(),
        ensures
            final(self).inv(),
            fp_rel(crate::fingerprint::FpKind::Evar, letter as int, old(self)@, final(self)@, r),
    {
        if letter == 71 {
            let key = self.pop_string_exec();
            let idx = self.find_env_exec(&key);
            let n_env = self.envs.len();
            if idx < n_env {
                let value = self.copy_env_value(idx);
                self.push_string_exec(&value);
            } else {
                let empty: Vec<u8> = Vec::new();
                self.push_string_exec(&empty);
            }
            StepResult::Ran
        } else if letter == 78 {
            let n_env = self.envs.len();
            let cell: i32 = if n_env <= 0x7FFF_FFFF {
                n_env as i32
            } else {
                0
            };
            self.push(cell);
            StepResult::Ran
        } else if letter == 80 {
            let q = self.pop_string_exec();
            let (key, value) = split_eq_exec(&q);
            if key.len() == 0 {
                StepResult::Ran
            } else {
                let idx = self.find_env_exec(&key);
                let n_env = self.envs.len();
                let ghost kb = key@;
                let ghost vb = value@;
                if idx < n_env {
                    let ghost prevvec = self.envs@;
                    let ghost prev = self@.envs;
                    self.envs.remove(idx);
                    self.envs.insert(idx, (key, value));
                    proof {
                        assert(self.envs@ =~= prevvec.update(
                            idx as int,
                            self.envs@[idx as int],
                        ));
                        assert(self.envs@[idx as int].0@ == kb);
                        assert(self.envs@[idx as int].1@ == vb);
                        assert(self@.envs =~= prev.update(idx as int, (kb, vb)));
                    }
                } else {
                    let ghost prev = self@.envs;
                    self.envs.push((key, value));
                    proof {
                        assert(self@.envs =~= prev.push((kb, vb)));
                    }
                }
                StepResult::Ran
            }
        } else if letter == 86 {
            let n = self.pop();
            let n_env = self.envs.len();
            let idx: usize = if n >= 0 && (n as u64) < n_env as u64 {
                n as usize
            } else if n >= 0 {
                n_env
            } else {
                0
            };
            if idx >= n_env {
                self.cursor.reflect();
            } else {
                let mut row = self.copy_env_key(idx);
                row.push(61);
                let mut value = self.copy_env_value(idx);
                row.append(&mut value);
                proof {
                    assert(row@ =~= self@.envs[idx as int].0 + seq![61u8]
                        + self@.envs[idx as int].1);
                }
                self.push_string_exec(&row);
            }
            StepResult::Ran
        } else {
            self.cursor.reflect();
            StepResult::Ran
        }
}

    /// Numbers in other bases.
    #[verifier::rlimit(100)]
    fn exec_fp_base(&mut self, letter: i32) -> (r: StepResult)
        requires
            old(self).inv(),
            letter == 73 && base_i_wants_line(old(self)@) ==> old(self)@.pending_line is Some,
        ensures
            final(self).inv(),
            fp_rel(crate::fingerprint::FpKind::Base, letter as int, old(self)@, final(self)@, r),
    {
        if letter == 66 || letter == 72 || letter == 79 {
            let n = self.pop();
            let u: u32 = if n >= 0 {
                n as u32
            } else {
                proof {
                    crate::cell::lemma_trunc_to_euclid(n as int, 0x1_0000_0000);
                }
                ((n as i64) + 0x1_0000_0000) as u32
            };
            proof {
                if n >= 0 {
                    assert((n as int) % 0x1_0000_0000 == n as int) by (nonlinear_arith)
                        requires
                            0 <= n as int,
                            (n as int) < 0x1_0000_0000,
                    ;
                } else {
                    assert((n as int) % 0x1_0000_0000 == n as int
                        + 0x1_0000_0000) by (nonlinear_arith)
                        requires
                            -0x1_0000_0000 <= n as int,
                            (n as int) < 0,
                    ;
                }
            }
            let base: u32 = if letter == 66 {
                2
            } else if letter == 79 {
                8
            } else {
                16
            };
            self.out.push(48);
            self.out.push(if letter == 66 {
                98
            } else if letter == 79 {
                111
            } else {
                120
            });
            let mut d = crate::numfmt::radix_digits(u, base);
            self.out.append(&mut d);
            proof {
                let prefix = if letter == 66 {
                    seq![48u8, 98u8]
                } else if letter == 79 {
                    seq![48u8, 111u8]
                } else {
                    seq![48u8, 120u8]
                };
                assert(self@.out =~= old(self)@.out + prefix + crate::numfmt::radix_rep(
                    cell_u32(n),
                    base as nat,
                ));
            }
            StepResult::Ran
        } else if letter == 78 {
            let b0 = self.pop();
            let b_eff: i32 = if 0 <= b0 && b0 <= 255 {
                b0
            } else {
                10
            };
            if b_eff < 2 || b_eff > 36 {
                self.cursor.reflect();
            } else {
                let n = self.pop();
                let n_u: u32 = if n >= 0 {
                    n as u32
                } else {
                    0
                };
                let mut t = crate::numfmt::radix_text(n_u, b_eff as u8);
                self.out.append(&mut t);
            }
            StepResult::Ran
        } else if letter == 73 {
            let b0 = self.pop();
            let b_eff: i32 = if b0 >= 0 {
                b0
            } else {
                10
            };
            if b_eff > 36 {
                self.cursor.reflect();
            } else {
                let n: i32 = match &self.pending_line {
                    Some(line) => crate::numfmt::parse_decimal(line),
                    None => 0,
                };
                self.pending_line = None;
                let n_u: u32 = if n >= 0 {
                    n as u32
                } else {
                    0
                };
                let val: i32 = if b_eff == 0 {
                    0
                } else if n_u < b_eff as u32 {
                    crate::numfmt::radix_digit_exec(n_u) as i32
                } else {
                    0
                };
                self.push(val);
            }
            StepResult::Ran
        } else {
            self.cursor.reflect();
            StepResult::Ran
        }
}

    /// The first environment entry with this key, or the entry count.
    fn find_env_exec(&self, key: &Vec<u8>) -> (r: usize)
        requires
            self.inv(),
        ensures
            r as int == find_env(self@.envs, key@, 0),
    {
        let n = self.envs.len();
        let mut i: usize = 0;
        while i < n
            invariant
                i <= n,
                self.inv(),
                n == self@.envs.len(),
                find_env(self@.envs, key@, 0) == find_env(self@.envs, key@, i as int),
            decreases n - i,
        {
            if bytes_eq(&self.envs[i].0, key) {
                return i;
            }
            i = i + 1;
        }
        n
    }

    /// A copy of an environment key.
    fn copy_env_key(&self, i: usize) -> (r: Vec<u8>)
        requires
            self.inv(),
            i < self@.envs.len(),
        ensures
            r@ == self@.envs[i as int].0,
    {
        copy_bytes(&self.envs[i].0)
    }

    /// A copy of an environment value.
    fn copy_env_value(&self, i: usize) -> (r: Vec<u8>)
        requires
            self.inv(),
            i < self@.envs.len(),
        ensures
            r@ == self@.envs[i as int].1,
    {
        copy_bytes(&self.envs[i].1)
    }


    /// The arithmetic and comparison instructions.
    #[verifier::rlimit(60)]
    fn exec_arith(&mut self, fpm: &FPManager, ins: i32) -> (r: StepResult)
        requires
            old(self).inv(),
            ins == 43 || ins == 45 || ins == 42 || ins == 47 || ins == 37 || ins == 33 || ins
                == 96,
        ensures
            final(self).inv(),
            forall|o: Oracle|
                #[trigger] instr_rel(ins as int, old(self)@, fpm@, o, final(self)@, fpm@, r),
    {
        if ins == 33 {
            let a = self.pop();
            self.push(if a == 0 {
                1
            } else {
                0
            });
        } else if ins == 96 {
            let a = self.pop();
            let b = self.pop();
            self.push(if b > a {
                1
            } else {
                0
            });
        } else {
            let a = self.pop();
            let b = self.pop();
            if ins == 43 {
                let (res, ov) = cell_add(a, b);
                if ov {
                    self.warns.push(Warning::AddOverflow);
                }
                self.push(res);
            } else if ins == 45 {
                let (res, ov) = cell_sub(b, a);
                if ov {
                    self.warns.push(Warning::SubOverflow);
                }
                self.push(res);
            } else if ins == 42 {
                let (res, ov) = cell_mul(a, b);
                if ov {
                    self.warns.push(Warning::MulOverflow);
                }
                self.push(res);
            } else if ins == 47 {
                if a == 0 {
                    self.warns.push(Warning::DivByZero);
                    self.push(0);
                } else {
                    let (res, ov) = cell_div(b, a);
                    if ov {
                        self.warns.push(Warning::DivOverflow);
                    }
                    self.push(res);
                }
            } else {
                if a == 0 {
                    self.warns.push(Warning::RemByZero);
                    self.push(0);
                } else {
                    let (res, ov) = cell_rem(b, a);
                    if ov {
                        self.warns.push(Warning::RemOverflow);
                    }
                    self.push(res);
                }
            }
        }
        StepResult::Ran
    }

    /// The direction-setting instructions.
    #[verifier::rlimit(60)]
    fn exec_motion(&mut self, fpm: &FPManager, ins: i32) -> (r: StepResult)
        requires
            old(self).inv(),
            ins == 62 || ins == 60 || ins == 94 || ins == 118 || ins == 91 || ins == 93 || ins
                == 114 || ins == 120 || ins == 95 || ins == 124 || ins == 119,
        ensures
            final(self).inv(),
            forall|o: Oracle|
                #[trigger] instr_rel(ins as int, old(self)@, fpm@, o, final(self)@, fpm@, r),
    {
        if ins == 62 {
            self.cursor.set_delta(Delta::east());
        } else if ins == 60 {
            self.cursor.set_delta(Delta::west());
        } else if ins == 94 {
            self.cursor.set_delta(Delta::north());
        } else if ins == 118 {
            self.cursor.set_delta(Delta::south());
        } else if ins == 91 {
            self.cursor.turn_left();
        } else if ins == 93 {
            self.cursor.turn_right();
        } else if ins == 114 {
            self.cursor.reflect();
        } else if ins == 120 {
            let dy = self.pop();
            let dx = self.pop();
            self.cursor.set_delta_members((dx, dy));
        } else if ins == 95 {
            let a = self.pop();
            self.cursor.set_delta(if a == 0 {
                Delta::east()
            } else {
                Delta::west()
            });
        } else if ins == 124 {
            let a = self.pop();
            self.cursor.set_delta(if a == 0 {
                Delta::south()
            } else {
                Delta::north()
            });
        } else {
            let b = self.pop();
            let a = self.pop();
            if a < b {
                self.cursor.turn_left();
            } else if a > b {
                self.cursor.turn_right();
            }
        }
        StepResult::Ran
    }

    /// The stack-manipulation instructions and digit pushes.
    #[verifier::rlimit(60)]
    fn exec_stackops(&mut self, fpm: &FPManager, ins: i32) -> (r: StepResult)
        requires
            old(self).inv(),
            (48 <= ins <= 57) || (97 <= ins <= 102) || ins == 34 || ins == 58 || ins == 92 || ins
                == 36 || ins == 110,
        ensures
            final(self).inv(),
            forall|o: Oracle|
                #[trigger] instr_rel(ins as int, old(self)@, fpm@, o, final(self)@, fpm@, r),
    {
        if 48 <= ins && ins <= 57 {
            self.push(ins - 48);
        } else if 97 <= ins && ins <= 102 {
            self.push(ins - 87);
        } else if ins == 34 {
            self.string_mode = true;
        } else if ins == 58 {
            let a = self.pop();
            self.push(a);
            self.push(a);
        } else if ins == 92 {
            let a = self.pop();
            let b = self.pop();
            self.push(a);
            self.push(b);
        } else if ins == 36 {
            let _discarded = self.pop();
        } else {
            self.sstack.clear_toss();
        }
        StepResult::Ran
    }

    /// The buffered input and output instructions.
    #[verifier::rlimit(100)]
    fn exec_io(&mut self, fpm: &FPManager, ins: i32) -> (r: StepResult)
        requires
            old(self).inv(),
            ins == 46 || ins == 44 || ins == 38 || ins == 126,
            ins == 38 ==> old(self)@.pending_line is Some,
            ins == 126 ==> old(self)@.byte_ready,
        ensures
            final(self).inv(),
            forall|o: Oracle|
                #[trigger] instr_rel(ins as int, old(self)@, fpm@, o, final(self)@, fpm@, r),
    {
        if ins == 46 {
            let a = self.pop();
            let mut t = crate::numfmt::format_int(a);
            self.out.append(&mut t);
            self.out.push(32);
            proof {
                assert(self@.out =~= old(self)@.out + int_text(a as int) + seq![32u8]);
            }
            StepResult::Ran
        } else if ins == 44 {
            let a = self.pop();
            let b = low_byte_exec(a);
            let mut t = crate::numfmt::encode_byte_char(b);
            self.out.append(&mut t);
            proof {
                assert(self@.out =~= old(self)@.out + byte_utf8(low_byte(a as int)));
            }
            StepResult::Ran
        } else if ins == 38 {
            let mut tmp: Option<Vec<u8>> = None;
            core::mem::swap(&mut tmp, &mut self.pending_line);
            match tmp {
                Some(line) => {
                    let n = crate::numfmt::parse_decimal(&line);
                    self.push(n);
                },
                None => {
                    proof {
                        assert(false);
                    }
                },
            }
            StepResult::Ran
        } else {
            match self.pending_byte {
                Some(b) => {
                    self.pending_byte = None;
                    self.byte_ready = false;
                    self.push(b as i32);
                    StepResult::Ran
                },
                None => StepResult::Failed,
            }
        }
    }

    /// The instructions that read or write cells relative to the cursor or
    /// move it within the tick.
    #[verifier::rlimit(100)]
    #[verifier::loop_isolation(false)]
    fn exec_spatial(&mut self, fpm: &FPManager, ins: i32) -> (r: StepResult)
        requires
            old(self).inv(),
            ins == 35 || ins == 39 || ins == 115 || ins == 103 || ins == 112 || ins == 106 || ins
                == 122 || ins == 107,
        ensures
            final(self).inv(),
            forall|o: Oracle|
                #[trigger] instr_rel(ins as int, old(self)@, fpm@, o, final(self)@, fpm@, r),
    {
        if ins == 35 {
            self.move_cursor();
        } else if ins == 39 {
            self.move_cursor();
            let c = self.grid.get_cell(self.cursor.position());
            self.push(c);
        } else if ins == 115 {
            let val = self.pop();
            self.move_cursor();
            let pos = self.cursor.position();
            self.grid.put_cell(pos, val);
        } else if ins == 103 {
            let y = self.pop();
            let x = self.pop();
            let t = self.cursor.translate_to_storage_position((x, y));
            let c = self.grid.get_cell(t);
            self.push(c);
        } else if ins == 112 {
            let y = self.pop();
            let x = self.pop();
            let val = self.pop();
            let t = self.cursor.translate_to_storage_position((x, y));
            self.grid.put_cell(t, val);
        } else if ins == 106 {
            let d_orig = self.cursor.delta();
            let n = self.pop();
            if n < 0 {
                self.cursor.reflect();
            }
            let ghost start = self@.cursor;
            let ghost v1 = self@;
            let k: u64 = if n >= 0 {
                n as u64
            } else {
                (-(n as i64)) as u64
            };
            let mut j: u64 = 0;
            while j < k
                invariant
                    j <= k,
                    self.inv(),
                    self@ == (ProgView { cursor: self@.cursor, ..v1 }),
                    self@.cursor.delta == start.delta,
                    advance_n_rel(start, v1.grid, j as int, self@.cursor),
                decreases k - j,
            {
                let ghost mid = self@.cursor;
                self.move_cursor();
                proof {
                    assert(advance_n_rel(start, v1.grid, (j + 1) - 1, mid));
                    assert(advance_rel(mid, v1.grid, self@.cursor));
                    assert(advance_n_rel(start, v1.grid, j + 1, self@.cursor));
                }
                j = j + 1;
            }
            let ghost c2v = self@.cursor;
            self.cursor.set_delta(d_orig);
            proof {
                let vv = old(self)@;
                let kspec: int = if n >= 0 {
                    n as int
                } else {
                    -(n as int)
                };
                let startspec = if n >= 0 {
                    vv.cursor
                } else {
                    Cursor { delta: spec_reflect(vv.cursor.delta), ..vv.cursor }
                };
                assert(startspec == start);
                assert(kspec == j as int);
                assert(c2v == (Cursor { delta: startspec.delta, ..self@.cursor }));
                assert(advance_n_rel(
                    startspec,
                    vv.grid,
                    kspec,
                    Cursor { delta: startspec.delta, ..self@.cursor },
                ));
            }
        } else if ins == 122 {
        } else {
            let home = self.cursor;
            let n = self.pop();
            if n == 0 {
                self.move_cursor();
            } else {
                self.mode = Mode::Seek(n, false, home);
            }
        }
        StepResult::Ran
    }

    /// The block instructions of the stack of stacks.
    #[verifier::rlimit(100)]
    fn exec_sos(&mut self, fpm: &FPManager, ins: i32) -> (r: StepResult)
        requires
            old(self).inv(),
            ins == 123 || ins == 125 || ins == 117,
        ensures
            final(self).inv(),
            forall|o: Oracle|
                #[trigger] instr_rel(ins as int, old(self)@, fpm@, o, final(self)@, fpm@, r),
    {
        let n = self.pop();
        if ins == 123 {
            let so = self.cursor.storage_offset();
            self.sstack.create_stack(n, so);
            let pos = self.cursor.position();
            let d = self.cursor.delta();
            let (sx, _) = cell_add(pos.0, d.x);
            let (sy, _) = cell_add(pos.1, d.y);
            self.cursor.set_storage_offset((sx, sy));
        } else if ins == 125 {
            match self.sstack.destroy_stack(n) {
                None => {
                    self.cursor.reflect();
                },
                Some(so) => {
                    self.cursor.set_storage_offset(so);
                },
            }
        } else {
            let ok = self.sstack.transfer(n);
            if !ok {
                self.cursor.reflect();
            }
        }
        StepResult::Ran
    }


    /// `?`: a random cardinal direction.
    fn exec_random(&mut self, fpm: &FPManager) -> (r: StepResult)
        requires
            old(self).inv(),
        ensures
            final(self).inv(),
            exists|o: Oracle|
                oracle_wf(o) && #[trigger] instr_rel(
                    63,
                    old(self)@,
                    fpm@,
                    o,
                    final(self)@,
                    fpm@,
                    r,
                ),
    {
        let d = Delta::random();
        self.cursor.set_delta(d);
        proof {
            let o = Oracle { dir: d, day: 0i32, sec: 0i32 };
            assert(oracle_wf(o));
            assert(instr_rel(63, old(self)@, fpm@, o, self@, fpm@, StepResult::Ran));
        }
        StepResult::Ran
    }

    /// `y`: pop the query cell and push the requested slice of the system
    /// report.
    #[verifier::rlimit(100)]
    #[verifier::loop_isolation(false)]
    fn exec_y(&mut self, fpm: &FPManager) -> (r: StepResult)
        requires
            old(self).inv(),
        ensures
            final(self).inv(),
            exists|o: Oracle|
                oracle_wf(o) && #[trigger] instr_rel(
                    121,
                    old(self)@,
                    fpm@,
                    o,
                    final(self)@,
                    fpm@,
                    r,
                ),
    {
        let q = self.pop();
        let parts = now_parts();
        let day = crate::sysinfo::pack_day(parts.0, parts.1, parts.2);
        let sec = crate::sysinfo::pack_sec(parts.3, parts.4, parts.5);
        let rep = self.get_full_report(day, sec);
        let ghost v1 = self@;
        let len = rep.len();
        let ghost o = Oracle { dir: Delta { x: 1i32, y: 0i32 }, day: day, sec: sec };
        proof {
            let vv = old(self)@;
            let v1spec = ProgView { sstack: s_pop(vv.sstack).1, ..vv };
            assert(v1spec == v1);
            assert(report_rel(v1spec, o.day, o.sec, rep@));
        }
        if q > 0 && (q as u64) <= len as u64 {
            let idx = len - (q as usize);
            self.push(rep[idx]);
            proof {
                let vv = old(self)@;
                assert(rep@[rep@.len() - q] == rep@[idx as int]);
                assert(self@ == (ProgView {
                    sstack: s_push(s_pop(vv.sstack).1, rep@[rep@.len() - q]),
                    ..vv
                }));
                assert(oracle_wf(o));
                assert(instr_rel(121, old(self)@, fpm@, o, self@, fpm@, StepResult::Ran));
            }
        } else if q > 0 {
            let depth: u64 = (q as u64) - (len as u64) - 1;
            let val = self.sstack.get(depth);
            self.push(val);
            proof {
                let vv = old(self)@;
                assert(oracle_wf(o));
                assert(instr_rel(121, old(self)@, fpm@, o, self@, fpm@, StepResult::Ran));
            }
        } else {
            let mut i: usize = 0;
            while i < len
                invariant
                    i <= len,
                    self.inv(),
                    len == rep@.len(),
                    self@ == (ProgView { sstack: self@.sstack, ..v1 }),
                    self@.sstack =~= v1.sstack.update(
                        v1.sstack.len() - 1,
                        v1.sstack.last() + rep@.take(i as int),
                    ),
                decreases len - i,
            {
                let ghost cur = self@.sstack;
                self.push(rep[i]);
                proof {
                    assert(self@.sstack =~= cur.update(cur.len() - 1, cur.last().push(
                        rep@[i as int],
                    )));
                    assert(v1.sstack.last() + rep@.take(i + 1) =~= (v1.sstack.last()
                        + rep@.take(i as int)).push(rep@[i as int]));
                    assert(self@.sstack =~= v1.sstack.update(
                        v1.sstack.len() - 1,
                        v1.sstack.last() + rep@.take(i + 1),
                    ));
                }
                i = i + 1;
            }
            proof {
                assert(rep@.take(len as int) =~= rep@);
                assert(self@.sstack =~= v1.sstack.update(
                    v1.sstack.len() - 1,
                    v1.sstack.last() + rep@,
                ));
                assert(oracle_wf(o));
                assert(instr_rel(121, old(self)@, fpm@, o, self@, fpm@, StepResult::Ran));
            }
        }
        StepResult::Ran
    }

    /// `(` and `)`: pop the name cells, fold them into an id, and load or
    /// unload the matching extension, reflecting when there is none.
    #[verifier::rlimit(100)]
    #[verifier::loop_isolation(false)]
    fn exec_fp_stack(&mut self, fpm: &mut FPManager, ins: i32) -> (r: StepResult)
        requires
            old(self).inv(),
            old(fpm).wf(),
            ins == 40 || ins == 41,
        ensures
            final(self).inv(),
            final(fpm).wf(),
            forall|o: Oracle|
                #[trigger] instr_rel(
                    ins as int,
                    old(self)@,
                    old(fpm)@,
                    o,
                    final(self)@,
                    final(fpm)@,
                    r,
                ),
    {
        let cnt = self.pop();
        let ghost v1 = self@;
        let ghost t0 = v1.sstack.last();
        let k: usize = if cnt > 0 {
            cnt as usize
        } else {
            0
        };
        let mut cs: Vec<i32> = Vec::new();
        proof {
            assert(crate::sstack::rest_after_pops(t0, 0) =~= t0);
            assert(v1.sstack.update(
                v1.sstack.len() - 1,
                crate::sstack::rest_after_pops(t0, 0),
            ) =~= v1.sstack);
            vstd::assert_seqs_equal!(cs@, crate::sstack::popped_values(t0, 0));
        }
        let mut j: usize = 0;
        while j < k
            invariant
                j <= k,
                self.inv(),
                self@ == (ProgView { sstack: self@.sstack, ..v1 }),
                cs@.len() == j,
                cs@ =~= crate::sstack::popped_values(t0, j as nat),
                self@.sstack =~= v1.sstack.update(
                    v1.sstack.len() - 1,
                    crate::sstack::rest_after_pops(t0, j as nat),
                ),
            decreases k - j,
        {
            let ghost cur = self@.sstack.last();
            let c = self.pop();
            cs.push(c);
            proof {
                assert(cur =~= crate::sstack::rest_after_pops(t0, j as nat));
                if j < t0.len() {
                    assert(cur =~= t0.take(t0.len() - j));
                    assert(top_or_zero(cur) == t0[t0.len() - 1 - j]);
                    assert(rest_after_pop(cur) =~= crate::sstack::rest_after_pops(
                        t0,
                        (j + 1) as nat,
                    ));
                } else {
                    assert(cur.len() == 0);
                    assert(rest_after_pop(cur) =~= crate::sstack::rest_after_pops(
                        t0,
                        (j + 1) as nat,
                    ));
                }
                vstd::assert_seqs_equal!(cs@, crate::sstack::popped_values(t0, (j + 1) as nat));
                assert(self@.sstack =~= v1.sstack.update(
                    v1.sstack.len() - 1,
                    crate::sstack::rest_after_pops(t0, (j + 1) as nat),
                ));
            }
            j = j + 1;
        }
        let mut id: i32 = 0;
        let mut m: usize = k;
        while m > 0
            invariant
                m <= k,
                k == cs@.len(),
                id as int == fold_id(cs@, m as int),
            decreases m,
        {
            let s64: i64 = cs[m - 1] as i64 + 256 * (id as i64);
            let (idn, _) = crate::cell::wrap_to_i32(s64);
            id = idn;
            m = m - 1;
        }
        if ins == 40 {
            if fpm.load(id) {
                self.push(id);
                self.push(cnt);
            } else {
                self.cursor.reflect();
            }
        } else {
            if !fpm.unload(id) {
                self.cursor.reflect();
            }
        }
        StepResult::Ran
    }

    /// `A`-`Z`: dispatch to the active handler of the letter.
    fn exec_letter(&mut self, fpm: &FPManager, ins: i32) -> (r: StepResult)
        requires
            old(self).inv(),
            fpm.wf(),
            65 <= ins <= 90,
            wants_line(ins as int, old(self)@, fpm@) ==> old(self)@.pending_line is Some,
        ensures
            final(self).inv(),
            forall|o: Oracle|
                #[trigger] instr_rel(ins as int, old(self)@, fpm@, o, final(self)@, fpm@, r),
    {
        match fpm.active_handler(ins as u8) {
            None => {
                self.cursor.reflect();
                StepResult::Ran
            },
            Some((idx, kind)) => { self.exec_fingerprint(kind, ins) },
        }
    }


    /// True when executing this cell must wait for an input line.
    fn wants_line_exec(&self, fpm: &FPManager, ins: i32) -> (r: bool)
        requires
            self.inv(),
            fpm.wf(),
        ensures
            r == wants_line(ins as int, self@, fpm@),
    {
        if ins == 38 {
            return true;
        }
        if 65 <= ins && ins <= 90 {
            match fpm.active_handler(ins as u8) {
                None => false,
                Some((_idx, kind)) => {
                    if ins == 73 && matches!(kind, crate::fingerprint::FpKind::Base) {
                        let b0 = self.sstack.get(0);
                        let b_eff: i32 = if b0 >= 0 {
                            b0
                        } else {
                            10
                        };
                        b_eff <= 36
                    } else {
                        false
                    }
                },
            }
        } else {
            false
        }
    }

    /// Executes one instruction cell, before the shared end-of-tick move.
    #[verifier::rlimit(100)]
    pub fn exec_instr(&mut self, fpm: &mut FPManager, ins: i32) -> (r: StepResult)
        requires
            old(self).inv(),
            old(fpm).wf(),
            wants_line(ins as int, old(self)@, old(fpm)@) ==> old(self)@.pending_line is Some,
            ins == 126 ==> old(self)@.byte_ready,
        ensures
            final(self).inv(),
            final(fpm).wf(),
            exists|o: Oracle|
                oracle_wf(o) && #[trigger] instr_rel(
                    ins as int,
                    old(self)@,
                    old(fpm)@,
                    o,
                    final(self)@,
                    final(fpm)@,
                    r,
                ),
    {
        let r: StepResult;
        if ins == 43 || ins == 45 || ins == 42 || ins == 47 || ins == 37 || ins == 33 || ins
            == 96 {
            r = self.exec_arith(fpm, ins);
        } else if ins == 62 || ins == 60 || ins == 94 || ins == 118 || ins == 91 || ins == 93
            || ins == 114 || ins == 120 || ins == 95 || ins == 124 || ins == 119 {
            r = self.exec_motion(fpm, ins);
        } else if (48 <= ins && ins <= 57) || (97 <= ins && ins <= 102) || ins == 34 || ins == 58
            || ins == 92 || ins == 36 || ins == 110 {
            r = self.exec_stackops(fpm, ins);
        } else if ins == 46 || ins == 44 || ins == 38 || ins == 126 {
            r = self.exec_io(fpm, ins);
        } else if ins == 35 || ins == 39 || ins == 115 || ins == 103 || ins == 112 || ins == 106
            || ins == 122 || ins == 107 {
            r = self.exec_spatial(fpm, ins);
        } else if ins == 123 || ins == 125 || ins == 117 {
            r = self.exec_sos(fpm, ins);
        } else if ins == 63 {
            r = self.exec_random(fpm);
            return r;
        } else if ins == 121 {
            r = self.exec_y(fpm);
            return r;
        } else if ins == 40 || ins == 41 {
            r = self.exec_fp_stack(fpm, ins);
            proof {
                let o = Oracle { dir: Delta { x: 1i32, y: 0i32 }, day: 0i32, sec: 0i32 };
                assert(oracle_wf(o));
                assert(instr_rel(ins as int, old(self)@, old(fpm)@, o, self@, fpm@, r));
            }
            return r;
        } else if 65 <= ins && ins <= 90 {
            r = self.exec_letter(fpm, ins);
        } else if ins == 64 {
            r = StepResult::Done(0);
        } else if ins == 113 {
            let a = self.pop();
            r = StepResult::Done(a);
        } else {
            self.cursor.reflect();
            r = StepResult::Ran;
        }
        proof {
            let o = Oracle { dir: Delta { x: 1i32, y: 0i32 }, day: 0i32, sec: 0i32 };
            assert(oracle_wf(o));
            assert(instr_rel(ins as int, old(self)@, old(fpm)@, o, self@, fpm@, r));
        }
        r
    }

    /// Performs one bounded slice of work: one skip or seek move, one queued
    /// repetition, or one fetched instruction with its end-of-tick move.
    #[verifier::rlimit(100)]
    pub fn step(&mut self, fpm: &mut FPManager) -> (r: StepResult)
        requires
            old(self).inv(),
            old(fpm).wf(),
        ensures
            final(self).inv(),
            final(fpm).wf(),
            step_rel(old(self)@, old(fpm)@, final(self)@, final(fpm)@, r),
    {
        match self.mode {
            Mode::Semicolon => {
                self.move_cursor();
                let c = self.grid.get_cell(self.cursor.position());
                if c == 59 {
                    self.mode = Mode::Normal;
                    self.move_cursor();
                }
                StepResult::Ran
            },
            Mode::Blanks => {
                self.move_cursor();
                let c = self.grid.get_cell(self.cursor.position());
                if c != BLANK {
                    self.mode = Mode::Normal;
                }
                StepResult::Ran
            },
            Mode::StringBlanks => {
                self.move_cursor();
                let c = self.grid.get_cell(self.cursor.position());
                if c != BLANK {
                    self.mode = Mode::Normal;
                }
                StepResult::Ran
            },
            Mode::Seek(n, insemi, home) => {
                self.move_cursor();
                let c = self.grid.get_cell(self.cursor.position());
                if insemi {
                    if c == 59 {
                        self.mode = Mode::Seek(n, false, home);
                    }
                } else if c == 59 {
                    self.mode = Mode::Seek(n, true, home);
                } else if c == BLANK {
                } else {
                    self.queue.push((c, n));
                    self.mode = Mode::Normal;
                    self.cursor = home;
                }
                StepResult::Ran
            },
            Mode::Normal => {
                if self.queue.len() > 0 {
                    let entry = self.queue[self.queue.len() - 1];
                    if entry.1 <= 0 {
                        self.queue.pop();
                        if self.queue.len() == 0 {
                            self.move_cursor();
                        }
                        StepResult::Ran
                    } else if self.wants_line_exec(fpm, entry.0) && self.pending_line.is_none() {
                        StepResult::NeedLine
                    } else if entry.0 == 126 && !self.byte_ready {
                        StepResult::NeedByte
                    } else {
                        self.queue.pop();
                        self.queue.push((entry.0, entry.1 - 1));
                        proof {
                            assert(self@.queue =~= old(self)@.queue.update(
                                old(self)@.queue.len() - 1,
                                (entry.0, (entry.1 - 1) as i32),
                            ));
                        }
                        let r = self.exec_instr(fpm, entry.0);
                        r
                    }
                } else {
                    let pos = self.cursor.position();
                    let c = self.grid.get_cell(pos);
                    if self.string_mode {
                        if c == 34 {
                            self.string_mode = false;
                            self.move_cursor();
                        } else if c == BLANK {
                            self.push(BLANK);
                            self.mode = Mode::StringBlanks;
                        } else {
                            self.push(c);
                            self.move_cursor();
                        }
                        StepResult::Ran
                    } else if c == BLANK {
                        self.mode = Mode::Blanks;
                        StepResult::Ran
                    } else if c == 59 {
                        self.mode = Mode::Semicolon;
                        StepResult::Ran
                    } else if self.wants_line_exec(fpm, c) && self.pending_line.is_none() {
                        StepResult::NeedLine
                    } else if c == 126 && !self.byte_ready {
                        StepResult::NeedByte
                    } else {
                        let r = self.exec_instr(fpm, c);
                        let ghost o = choose|o: Oracle|
                            oracle_wf(o) && instr_rel(
                                c as int,
                                old(self)@,
                                old(fpm)@,
                                o,
                                self@,
                                fpm@,
                                r,
                            );
                        let ghost v2 = self@;
                        let ghost fw2 = fpm@;
                        let mut moved = false;
                        if matches!(r, StepResult::Ran) && matches!(self.mode, Mode::Normal)
                            && self.queue.len() == 0 {
                            self.move_cursor();
                            moved = true;
                        }
                        proof {
                            assert(oracle_wf(o) && instr_rel(
                                c as int,
                                old(self)@,
                                old(fpm)@,
                                o,
                                v2,
                                fw2,
                                r,
                            ));
                            if moved {
                                assert(advance_rel(v2.cursor, v2.grid, self@.cursor));
                                assert(self@ == (ProgView { cursor: self@.cursor, ..v2 }));
                            } else {
                                assert(self@ == v2);
                            }
                        }
                        r
                    }
                }
            },
        }
    }

    /// Runs up to `fuel` slices of work, stopping early when the program
    /// ends, fails, or needs input.
    #[verifier::rlimit(100)]
    #[verifier::spinoff_prover]
    pub fn run(&mut self, fpm: &mut FPManager, fuel: u64) -> (r: RunOutcome)
        requires
            old(self).inv(),
            old(fpm).wf(),
        ensures
            final(self).inv(),
            final(fpm).wf(),
            r == RunOutcome::OutOfFuel ==> reaches(
                old(self)@,
                old(fpm)@,
                final(self)@,
                final(fpm)@,
                fuel as int,
            ),
            r != RunOutcome::OutOfFuel ==> exists|
                k: int,
                vm: ProgView,
                fm: crate::fingerprint::FpmView,
            |
                {
                    &&& 0 <= k <= fuel
                    &&& #[trigger] reaches(old(self)@, old(fpm)@, vm, fm, k)
                    &&& #[trigger] step_rel(vm, fm, final(self)@, final(fpm)@, run_step_result(r))
                },
    {
        let mut remaining = fuel;
        let ghost mut steps: int = 0;
        loop
            invariant
                self.inv(),
                fpm.wf(),
                steps >= 0,
                steps == fuel - remaining,
                remaining <= fuel,
                reaches(old(self)@, old(fpm)@, self@, fpm@, steps),
            decreases remaining,
        {
            if remaining == 0 {
                return RunOutcome::OutOfFuel;
            }
            let ghost vm = self@;
            let ghost fm = fpm@;
            let r = self.step(fpm);
            match r {
                StepResult::Ran => {
                    proof {
                        assert(reaches(old(self)@, old(fpm)@, vm, fm, steps));
                        assert(step_rel(vm, fm, self@, fpm@, StepResult::Ran));
                        steps = steps + 1;
                        assert(reaches(old(self)@, old(fpm)@, self@, fpm@, steps));
                    }
                    remaining = remaining - 1;
                },
                StepResult::NeedLine => {
                    return RunOutcome::NeedLine;
                },
                StepResult::NeedByte => {
                    return RunOutcome::NeedByte;
                },
                StepResult::Done(code) => {
                    return RunOutcome::Done(code);
                },
                StepResult::Failed => {
                    return RunOutcome::Failed;
                },
            }
        }
    }

    /// The full `y` report for the current state, given the packed clock
    /// cells.
    #[verifier::rlimit(80)]
    pub fn get_full_report(&self, day: i32, sec: i32) -> (r: Vec<i32>)
        requires
            self.inv(),
        ensures
            report_rel(self@, day, sec, r@),
    {
        let mut fwd: Vec<i32> = Vec::new();
        // environment row, built forward then reversed
        let n_env = self.envs.len();
        let mut i: usize = 0;
        while i < n_env
            invariant
                i <= n_env,
                self.inv(),
                n_env == self@.envs.len(),
                fwd@ + envs_cells(self@.envs, i as int) =~= envs_cells(self@.envs, 0),
            decreases n_env - i,
        {
            let ghost pre = fwd@;
            let entry_k_len = self.envs[i].0.len();
            let mut j: usize = 0;
            while j < entry_k_len
                invariant
                    j <= entry_k_len,
                    i < n_env,
                    self.inv(),
                    n_env == self@.envs.len(),
                    entry_k_len == self@.envs[i as int].0.len(),
                    fwd@ =~= pre + string_cells(self@.envs[i as int].0.take(j as int)),
                decreases entry_k_len - j,
            {
                let b = self.envs[i].0[j];
                fwd.push(b as i32);
                proof {
                    assert_seqs_equal!(fwd@, pre + string_cells(self@.envs[i as int].0.take(j + 1)));
                }
                j = j + 1;
            }
            fwd.push(61);
            let ghost pre2 = fwd@;
            let entry_v_len = self.envs[i].1.len();
            let mut j2: usize = 0;
            while j2 < entry_v_len
                invariant
                    j2 <= entry_v_len,
                    i < n_env,
                    self.inv(),
                    n_env == self@.envs.len(),
                    entry_v_len == self@.envs[i as int].1.len(),
                    fwd@ =~= pre2 + string_cells(self@.envs[i as int].1.take(j2 as int)),
                decreases entry_v_len - j2,
            {
                let b = self.envs[i].1[j2];
                fwd.push(b as i32);
                proof {
                    assert_seqs_equal!(fwd@, pre2 + string_cells(self@.envs[i as int].1.take(j2 + 1)));
                }
                j2 = j2 + 1;
            }
            fwd.push(0);
            proof {
                assert(self@.envs[i as int].0.take(self@.envs[i as int].0.len() as int)
                    =~= self@.envs[i as int].0);
                assert(self@.envs[i as int].1.take(self@.envs[i as int].1.len() as int)
                    =~= self@.envs[i as int].1);
                assert(fwd@ =~= pre + string_cells(self@.envs[i as int].0) + seq![61i32]
                    + string_cells(self@.envs[i as int].1) + seq![0i32]);
                assert_seqs_equal!(fwd@ + envs_cells(self@.envs, i + 1), envs_cells(self@.envs, 0));
            }
            i = i + 1;
        }
        fwd.push(0);
        proof {
            assert(envs_cells(self@.envs, n_env as int) =~= Seq::<i32>::empty());
            assert_seqs_equal!(fwd@, envs_cells(self@.envs, 0) + seq![0i32]);
        }
        let mut rep = reverse_cells(fwd);
        // command-line row, built forward then reversed
        let mut fwd2: Vec<i32> = Vec::new();
        let n_args = self.args.len();
        let mut a: usize = 0;
        while a < n_args
            invariant
                a <= n_args,
                self.inv(),
                n_args == self@.args.len(),
                fwd2@ + args_cells(self@.args, a as int) =~= args_cells(self@.args, 0),
            decreases n_args - a,
        {
            let ghost pre = fwd2@;
            let arg_len = self.args[a].len();
            let mut j: usize = 0;
            while j < arg_len
                invariant
                    j <= arg_len,
                    a < n_args,
                    self.inv(),
                    n_args == self@.args.len(),
                    arg_len == self@.args[a as int].len(),
                    fwd2@ =~= pre + string_cells(self@.args[a as int].take(j as int)),
                decreases arg_len - j,
            {
                let b = self.args[a][j];
                fwd2.push(b as i32);
                proof {
                    assert_seqs_equal!(fwd2@, pre + string_cells(self@.args[a as int].take(j + 1)));
                }
                j = j + 1;
            }
            fwd2.push(0);
            proof {
                assert(self@.args[a as int].take(self@.args[a as int].len() as int)
                    =~= self@.args[a as int]);
                assert(fwd2@ =~= pre + string_cells(self@.args[a as int]) + seq![0i32]);
                assert_seqs_equal!(fwd2@ + args_cells(self@.args, a + 1), args_cells(self@.args, 0));
            }
            a = a + 1;
        }
        fwd2.push(0);
        fwd2.push(0);
        proof {
            assert(args_cells(self@.args, n_args as int) =~= Seq::<i32>::empty());
            assert_seqs_equal!(fwd2@, args_cells(self@.args, 0) + seq![0i32, 0i32]);
        }
        let mut args_row = reverse_cells(fwd2);
        rep.append(&mut args_row);
        // stack sizes, bottom first
        let stacks = self.sstack.get_stacks();
        let depth = stacks.len();
        let mut sz: usize = 0;
        let ghost before_sizes = rep@;
        while sz < depth
            invariant
                sz <= depth,
                self.inv(),
                depth == self@.sstack.len(),
                forall|k: int| 0 <= k < depth ==> #[trigger] stacks@[k]@ == self@.sstack[k],
                stacks@.len() == depth,
                rep@ =~= before_sizes + size_cells(self@.sstack).take(sz as int),
            decreases depth - sz,
        {
            let l = stacks[sz].len();
            let cell: i32 = if l <= 0x7FFF_FFFF {
                l as i32
            } else {
                0
            };
            rep.push(cell);
            proof {
                assert_seqs_equal!(rep@, before_sizes + size_cells(self@.sstack).take(sz + 1));
            }
            sz = sz + 1;
        }
        proof {
            assert(size_cells(self@.sstack).take(depth as int) =~= size_cells(self@.sstack));
        }
        // stack count, clock, grid extent, cursor, constants
        let dcell: i32 = if depth <= 0x7FFF_FFFF {
            depth as i32
        } else {
            0
        };
        rep.push(dcell);
        rep.push(sec);
        rep.push(day);
        let gp = self.grid.get_greatest_point();
        rep.push(gp[0]);
        rep.push(gp[1]);
        let lp = self.grid.get_least_point();
        rep.push(lp[0]);
        rep.push(lp[1]);
        let so = self.cursor.storage_offset();
        rep.push(so.0);
        rep.push(so.1);
        let d = self.cursor.delta();
        rep.push(d.x);
        rep.push(d.y);
        let pos = self.cursor.position();
        rep.push(pos.0);
        rep.push(pos.1);
        rep.push(0);
        rep.push(0);
        rep.push(2);
        rep.push(self.path_sep);
        rep.push(0);
        rep.push(VERSION_CELL);
        rep.push(HANDPRINT);
        rep.push(4);
        rep.push(16);
        proof {
            assert(gp@[0] == greatest_point_cells(self@.grid).0);
            assert(gp@[1] == greatest_point_cells(self@.grid).1);
            assert(lp@[0] as int == least_point_cells(self@.grid).0);
            assert(lp@[1] as int == least_point_cells(self@.grid).1);
            assert(rep@ =~= (envs_cells(self@.envs, 0) + seq![0i32]).reverse() + (args_cells(
                self@.args,
                0,
            ) + seq![0i32, 0i32]).reverse() + size_cells(self@.sstack) + seq![
                count_cell(self@.sstack.len() as int),
                sec,
                day,
                greatest_point_cells(self@.grid).0,
                greatest_point_cells(self@.grid).1,
                least_point_cells(self@.grid).0 as i32,
                least_point_cells(self@.grid).1 as i32,
                self@.cursor.so_x,
                self@.cursor.so_y,
                self@.cursor.delta.x,
                self@.cursor.delta.y,
                self@.cursor.x,
                self@.cursor.y,
                0i32,
                0i32,
                2i32,
                self@.path_sep,
                0i32,
                VERSION_CELL,
                HANDPRINT,
                4i32,
                16i32,
            ]);
        }
        rep
    }
}



/// From any position inside the box, a wrap-around move lands inside the box
/// again, on the straight line through the old position along the delta.
pub proof fn lemma_move_stays_inside(c: Cursor, g: GridView, c2: Cursor)
    requires
        advance_rel(c, g, c2),
        spec_contains(gbounds(g), c.x as int, c.y as int),
    ensures
        spec_contains(gbounds(g), c2.x as int, c2.y as int),
        exists|m: int| c2.x == c.x + #[trigger] (m * c.delta.x) && c2.y == c.y + m * c.delta.y,
{
    let bb = gbounds(g);
    let dx = c.delta.x as int;
    let dy = c.delta.y as int;
    if spec_contains(bb, c.x + dx, c.y + dy) {
        assert(c2.x == c.x + 1 * dx && c2.y == c.y + 1 * dy) by (nonlinear_arith)
            requires
                c2.x == c.x + dx,
                c2.y == c.y + dy,
        ;
    } else {
        let mm = choose|m: int|
            0 <= m && c2.x == c.x - #[trigger] (m * dx) && c2.y == c.y - m * dy;
        assert(c2.x == c.x + (-mm) * dx && c2.y == c.y + (-mm) * dy) by (nonlinear_arith)
            requires
                c2.x == c.x - mm * dx,
                c2.y == c.y - mm * dy,
        ;
    }
}

/// Writing a cell and reading it back yields the written value, at every
/// coordinate and for every grid the write can produce.
pub proof fn lemma_put_then_get(g: GridView, x: int, y: int, v: i32, g2: GridView)
    requires
        put_rel(g, x, y, v, g2),
    ensures
        g2.at(x, y) == v,
{
}

/// The wrap-around move relation is a function: from one cursor against one
/// box there is only one landing point.
pub proof fn lemma_advance_deterministic(c: Cursor, g: GridView, a: Cursor, b: Cursor)
    requires
        advance_rel(c, g, a),
        advance_rel(c, g, b),
    ensures
        a == b,
{
    let bb = gbounds(g);
    let dx = c.delta.x as int;
    let dy = c.delta.y as int;
    if !spec_contains(bb, c.x + dx, c.y + dy) && spec_contains(bb, c.x as int, c.y as int) {
        let ma = choose|m: int| 0 <= m && a.x == c.x - #[trigger] (m * dx) && a.y == c.y - m * dy;
        let mb = choose|m: int| 0 <= m && b.x == c.x - #[trigger] (m * dx) && b.y == c.y - m * dy;
        if ma < mb {
            lemma_ray_interval(c, bb, ma, mb);
            proof_step_expand(ma, dx, dy);
            assert(false);
        } else if mb < ma {
            lemma_ray_interval(c, bb, mb, ma);
            proof_step_expand(mb, dx, dy);
            assert(false);
        } else {
            assert(a.x == b.x && a.y == b.y);
        }
    }
}

/// One more backward step shifts each coordinate by one more delta.
proof fn proof_step_expand(m: int, dx: int, dy: int)
    ensures
        (m + 1) * dx == m * dx + dx,
        (m + 1) * dy == m * dy + dy,
{
    assert((m + 1) * dx == m * dx + dx && (m + 1) * dy == m * dy + dy) by (nonlinear_arith);
}

/// Along the backward ray, the in-box steps form one contiguous interval:
/// between two in-box steps, the successor of the earlier one is in the box
/// as well.
proof fn lemma_ray_interval(c: Cursor, bb: Bounds, ma: int, mb: int)
    requires
        0 <= ma < mb,
        spec_contains(bb, c.x - ma * c.delta.x, c.y - ma * c.delta.y),
        spec_contains(bb, c.x - mb * c.delta.x, c.y - mb * c.delta.y),
        spec_contains(bb, c.x as int, c.y as int),
    ensures
        spec_contains(bb, c.x - (ma + 1) * c.delta.x, c.y - (ma + 1) * c.delta.y),
{
    let dx = c.delta.x as int;
    let dy = c.delta.y as int;
    assert(spec_contains(bb, c.x - (ma + 1) * dx, c.y - (ma + 1) * dy)) by (nonlinear_arith)
        requires
            0 <= ma < mb,
            bb.lx <= c.x - ma * dx < bb.ux,
            bb.ly <= c.y - ma * dy < bb.uy,
            bb.lx <= c.x - mb * dx < bb.ux,
            bb.ly <= c.y - mb * dy < bb.uy,
            bb.lx <= c.x < bb.ux,
            bb.ly <= c.y < bb.uy,
            spec_contains(bb, c.x - ma * dx, c.y - ma * dy) == (bb.lx <= c.x - ma * dx < bb.ux
                && bb.ly <= c.y - ma * dy < bb.uy),
            spec_contains(bb, c.x - (ma + 1) * dx, c.y - (ma + 1) * dy) == (bb.lx <= c.x - (ma + 1)
                * dx < bb.ux && bb.ly <= c.y - (ma + 1) * dy < bb.uy),
    ;
}

/// `k` over a count of 0 behaves like `#`: the following cell is skipped
/// entirely — popped count aside, the engine state changes only by the
/// cursor stepping twice, and the skipped cell is never executed.
pub proof fn lemma_iterate_zero_skips(
    v: ProgView,
    f: crate::fingerprint::FpmView,
    w: ProgView,
    fw: crate::fingerprint::FpmView,
    r: StepResult,
)
    requires
        v.mode == Mode::Normal,
        v.queue.len() == 0,
        !v.string_mode,
        cell_under(v) == 107,
        top_or_zero(v.sstack.last()) == 0,
        step_rel(v, f, w, fw, r),
    ensures
        r == StepResult::Ran,
        fw == f,
        w == (ProgView { sstack: s_pop(v.sstack).1, cursor: w.cursor, ..v }),
        exists|c1: Cursor|
            #[trigger] advance_rel(v.cursor, v.grid, c1) && advance_rel(c1, v.grid, w.cursor),
{
    let (o, v2) = choose|o: Oracle, v2: ProgView|
        {
            &&& oracle_wf(o)
            &&& #[trigger] instr_rel(107, v, f, o, v2, fw, r)
            &&& (if r == StepResult::Ran && v2.mode == Mode::Normal && v2.queue.len() == 0 {
                exists|c2: Cursor|
                    #[trigger] advance_rel(v2.cursor, v2.grid, c2) && w == (ProgView {
                        cursor: c2,
                        ..v2
                    })
            } else {
                w == v2
            })
        };
    let c1 = choose|c2: Cursor|
        #[trigger] advance_rel(v.cursor, v.grid, c2) && v2 == (ProgView {
            cursor: c2,
            sstack: s_pop(v.sstack).1,
            ..v
        });
    assert(advance_rel(c1, v.grid, w.cursor));
    assert(advance_rel(v.cursor, v.grid, c1) && advance_rel(c1, v.grid, w.cursor));
}

/// The `k` lookahead is idempotent: the step of the walk that finds the
/// useful cell queues it with the saved count and puts the cursor back
/// where the walk started; nothing else of the engine changes.
pub proof fn lemma_seek_restores_cursor(
    v: ProgView,
    f: crate::fingerprint::FpmView,
    w: ProgView,
    fw: crate::fingerprint::FpmView,
    r: StepResult,
    n: i32,
    insemi: bool,
    home: Cursor,
)
    requires
        v.mode == Mode::Seek(n, insemi, home),
        step_rel(v, f, w, fw, r),
        w.mode == Mode::Normal,
    ensures
        r == StepResult::Ran,
        fw == f,
        w.cursor == home,
        w.queue.drop_last() =~= v.queue,
        w.queue.last().1 == n,
        w == (ProgView { cursor: home, mode: Mode::Normal, queue: w.queue, ..v }),
{
    let c1 = choose|c1: Cursor|
        #[trigger] advance_rel(v.cursor, v.grid, c1) && ({
            let v1 = ProgView { cursor: c1, ..v };
            let c = cell_under(v1);
            if insemi {
                if c == 59 {
                    w == (ProgView { mode: Mode::Seek(n, false, home), ..v1 })
                } else {
                    w == v1
                }
            } else if c == 59 {
                w == (ProgView { mode: Mode::Seek(n, true, home), ..v1 })
            } else if c == BLANK {
                w == v1
            } else {
                w == (ProgView {
                    cursor: home,
                    mode: Mode::Normal,
                    queue: v.queue.push((c, n)),
                    ..v
                })
            }
        });
}

/// One queued `k` repetition performs exactly the instruction's own
/// semantics, and spending the queue afterwards performs exactly the one
/// shared end-of-tick move: `k` over a count of 1 does what the found
/// instruction does, at the `k` cell, once.  (The unrestricted reading of
/// "like the instruction alone" fails when the found cell directly follows
/// `k`: the shared move then re-enters it, as in `1k.@`.)
#[verifier::rlimit(100)]
#[verifier::spinoff_prover]
pub proof fn lemma_iterate_once_runs_instruction(
    v: ProgView,
    f: crate::fingerprint::FpmView,
    x: i32,
    v1: ProgView,
    f1: crate::fingerprint::FpmView,
    r1: StepResult,
    v2: ProgView,
    f2: crate::fingerprint::FpmView,
    r2: StepResult,
)
    requires
        v.mode == Mode::Normal,
        v.queue =~= seq![(x, 1i32)],
        step_rel(v, f, v1, f1, r1),
        r1 == StepResult::Ran,
        v1.mode == Mode::Normal,
        step_rel(v1, f1, v2, f2, r2),
    ensures
        r2 == StepResult::Ran,
        f2 == f1,
        v1.queue =~= seq![(x, 0i32)],
        exists|o: Oracle|
            oracle_wf(o) && #[trigger] instr_rel(
                x as int,
                ProgView { queue: seq![(x, 0i32)], ..v },
                f,
                o,
                v1,
                f1,
                r1,
            ),
        v2 == (ProgView { cursor: v2.cursor, queue: Seq::<(i32, i32)>::empty(), ..v1 }),
        advance_rel(v1.cursor, v1.grid, v2.cursor),
{
    let entry = v.queue.last();
    assert(entry == (x, 1i32));
    let vq = ProgView { queue: v.queue.update(v.queue.len() - 1, (entry.0, (entry.1 - 1) as i32)), ..v };
    assert(vq.queue =~= seq![(x, 0i32)]);
    assert(vq == (ProgView { queue: seq![(x, 0i32)], ..v }));
    let o = choose|o: Oracle|
        oracle_wf(o) && #[trigger] instr_rel(entry.0 as int, vq, f, o, v1, f1, r1);
    assert(oracle_wf(o) && instr_rel(
        x as int,
        ProgView { queue: seq![(x, 0i32)], ..v },
        f,
        o,
        v1,
        f1,
        r1,
    ));
    assert(v1.queue == vq.queue);
    assert(v1.queue =~= seq![(x, 0i32)]);
    assert(v1.queue.last().1 <= 0);
    assert(v1.queue.drop_last() =~= Seq::<(i32, i32)>::empty());
    let c2 = choose|c2: Cursor|
        #[trigger] advance_rel(v1.cursor, v1.grid, c2) && v2 == (ProgView {
            cursor: c2,
            ..(ProgView { queue: v1.queue.drop_last(), ..v1 })
        });
    assert(v2 == (ProgView { cursor: v2.cursor, queue: Seq::<(i32, i32)>::empty(), ..v1 }));
}

/// How source bytes fall into lines/// How source bytes fall into lines: `\r\n`, lone `\r` and lone `\n` all
/// end a line, and the text after the last break is a line of its own (so a
/// text ending in a break ends with an empty line).
pub open spec fn split_lines_spec(b: Seq<u8>, i: int, cur: Seq<u8>, acc: Seq<Seq<u8>>) -> Seq<
    Seq<u8>,
>
    decreases b.len() - i,
{
    if i < 0 || i >= b.len() {
        acc.push(cur)
    } else if b[i] == 13 {
        if i + 1 < b.len() && b[i + 1] == 10 {
            split_lines_spec(b, i + 2, Seq::empty(), acc.push(cur))
        } else {
            split_lines_spec(b, i + 1, Seq::empty(), acc.push(cur))
        }
    } else if b[i] == 10 {
        split_lines_spec(b, i + 1, Seq::empty(), acc.push(cur))
    } else {
        split_lines_spec(b, i + 1, cur.push(b[i]), acc)
    }
}

/// The lines of a source text.
pub open spec fn source_lines(b: Seq<u8>) -> Seq<Seq<u8>> {
    split_lines_spec(b, 0, Seq::empty(), Seq::empty())
}

/// Splits raw source bytes into lines.
#[verifier::loop_isolation(false)]
pub fn split_source_lines(bytes: &Vec<u8>) -> (r: Vec<Vec<u8>>)
    ensures
        r@.map_values(|l: Vec<u8>| l@) == source_lines(bytes@),
{
    let n = bytes.len();
    let mut acc: Vec<Vec<u8>> = Vec::new();
    let mut cur: Vec<u8> = Vec::new();
    let mut i: usize = 0;
    proof {
        assert(acc@.map_values(|l: Vec<u8>| l@) =~= Seq::<Seq<u8>>::empty());
        assert(cur@ =~= Seq::<u8>::empty());
    }
    while i < n
        invariant
            i <= n,
            n == bytes@.len(),
            split_lines_spec(bytes@, i as int, cur@, acc@.map_values(|l: Vec<u8>| l@))
                == source_lines(bytes@),
        decreases n - i,
    {
        let b = bytes[i];
        if b == 13 {
            let ghost pa = acc@.map_values(|l: Vec<u8>| l@);
            let ghost pc = cur@;
            acc.push(cur);
            cur = Vec::new();
            proof {
                assert(acc@.map_values(|l: Vec<u8>| l@) =~= pa.push(pc));
            }
            if i + 1 < n && bytes[i + 1] == 10 {
                i = i + 2;
            } else {
                i = i + 1;
            }
        } else if b == 10 {
            let ghost pa = acc@.map_values(|l: Vec<u8>| l@);
            let ghost pc = cur@;
            acc.push(cur);
            cur = Vec::new();
            proof {
                assert(acc@.map_values(|l: Vec<u8>| l@) =~= pa.push(pc));
            }
            i = i + 1;
        } else {
            cur.push(b);
            i = i + 1;
        }
    }
    let ghost pa = acc@.map_values(|l: Vec<u8>| l@);
    let ghost pc = cur@;
    acc.push(cur);
    proof {
        assert(acc@.map_values(|l: Vec<u8>| l@) =~= pa.push(pc));
    }
    acc
}

} // verus!
