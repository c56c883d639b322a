//! Fingerprints: runtime-loadable sets of uppercase-letter instructions.
//! The manager keeps the closed registry of built-in extensions, the stack
//! of loaded ones, and one dispatch stack per letter `A`-`Z` whose top names
//! the active handler.

use vstd::prelude::*;
use vstd::assert_seqs_equal;

use crate::cell::wrap32;

verus! {

/// The built-in extensions, in registry order.
#[derive(Clone, Copy, PartialEq, Eq, Structural, Debug)]
pub enum FpKind {
    Base,
    Cpli,
    Evar,
    Modu,
    Null,
    Roma,
}

pub struct BASE;

pub struct CPLI;

pub struct EVAR;

pub struct MODU;

pub struct NULL;

pub struct ROMA;

/// The name of an extension, as bytes.
pub open spec fn fp_name(k: FpKind) -> Seq<u8> {
    match k {
        FpKind::Base => seq![66u8, 65u8, 83u8, 69u8],
        FpKind::Cpli => seq![67u8, 80u8, 76u8, 73u8],
        FpKind::Evar => seq![69u8, 86u8, 65u8, 82u8],
        FpKind::Modu => seq![77u8, 79u8, 68u8, 85u8],
        FpKind::Null => seq![78u8, 85u8, 76u8, 76u8],
        FpKind::Roma => seq![82u8, 79u8, 77u8, 65u8],
    }
}

/// The uppercase letters an extension implements.
pub open spec fn fp_instructions(k: FpKind) -> Seq<u8> {
    match k {
        FpKind::Base => seq![66u8, 72u8, 73u8, 78u8, 79u8],
        FpKind::Cpli => seq![65u8, 68u8, 77u8, 79u8, 83u8, 86u8],
        FpKind::Evar => seq![71u8, 78u8, 80u8, 86u8],
        FpKind::Modu => seq![77u8, 85u8, 82u8],
        FpKind::Null => Seq::new(26, |i: int| (65 + i) as u8),
        FpKind::Roma => seq![67u8, 68u8, 73u8, 76u8, 77u8, 86u8, 88u8],
    }
}

/// The id a name packs into one cell: each character shifts the sum up by a
/// byte, wrapping as every cell computation does.
pub open spec fn name_id(s: Seq<u8>) -> int
    decreases s.len(),
{
    if s.len() == 0 {
        0
    } else {
        wrap32(name_id(s.drop_last()) * 256 + s.last())
    }
}

/// The id of an extension.
pub open spec fn fp_id(k: FpKind) -> int {
    name_id(fp_name(k))
}

/// True when the extension implements the letter with code `l + 65`.
pub open spec fn fp_has_letter(k: FpKind, l: int) -> bool {
    fp_instructions(k).contains((65 + l) as u8)
}

/// Folds a name into its id cell.
pub fn fold_name_id(bytes: &Vec<u8>) -> (r: i32)
    ensures
        r as int == name_id(bytes@),
{
    let mut r: i32 = 0;
    let mut i: usize = 0;
    while i < bytes.len()
        invariant
            i <= bytes@.len(),
            r as int == name_id(bytes@.take(i as int)),
        decreases bytes@.len() - i,
    {
        let (m, _) = crate::cell::cell_mul(r, 256);
        let (a, _) = crate::cell::cell_add(m, bytes[i] as i32);
        proof {
            let pre = bytes@.take(i as int);
            let post = bytes@.take(i + 1);
            assert(post.drop_last() =~= pre);
            assert(post.last() == bytes@[i as int]);
            lemma_wrap_fold(r as int, bytes@[i as int] as int);
        }
        r = a;
        i = i + 1;
    }
    proof {
        assert(bytes@.take(bytes@.len() as int) =~= bytes@);
    }
    r
}

/// Wrapping the product before adding the next byte lands on the same cell
/// as wrapping the whole sum.
proof fn lemma_wrap_fold(r: int, b: int)
    requires
        i32::MIN <= r <= i32::MAX,
        0 <= b <= 255,
    ensures
        wrap32(wrap32(r * 256) + b) == wrap32(r * 256 + b),
{
    let range = 0x1_0000_0000;
    assert((r * 256) % range + b < range && ((r * 256) % range + b) % range == (r * 256 + b)
        % range) by (nonlinear_arith)
        requires
            -0x8000_0000 * 256 <= r * 256 <= 0x7FFF_FFFF * 256,
            0 <= b <= 255,
            range == 0x1_0000_0000,
    ;
    let m = (r * 256) % range;
    if m >= 0x8000_0000 {
        assert((m - range + b) % range == (m + b) % range) by (nonlinear_arith)
            requires
                range == 0x1_0000_0000,
                0 <= m < range,
                0 <= b <= 255,
        ;
    } else {
        assert((m + b) % range == (m + b) % range);
    }
}

impl BASE {
    pub fn get_name(&self) -> (r: &'static str)
        ensures
            r@ == fp_name(FpKind::Base).map_values(|b: u8| b as char),
    {
        proof {
            reveal_strlit("BASE");
            assert_seqs_equal!("BASE"@, fp_name(FpKind::Base).map_values(|b: u8| b as char));
        }
        "BASE"
    }

    pub fn get_instructions(&self) -> (r: &'static str)
        ensures
            r@ == fp_instructions(FpKind::Base).map_values(|b: u8| b as char),
    {
        proof {
            reveal_strlit("BHINO");
            assert_seqs_equal!("BHINO"@, fp_instructions(FpKind::Base).map_values(|b: u8| b as char));
        }
        "BHINO"
    }
}

impl CPLI {
    pub fn get_name(&self) -> (r: &'static str)
        ensures
            r@ == fp_name(FpKind::Cpli).map_values(|b: u8| b as char),
    {
        proof {
            reveal_strlit("CPLI");
            assert_seqs_equal!("CPLI"@, fp_name(FpKind::Cpli).map_values(|b: u8| b as char));
        }
        "CPLI"
    }

    pub fn get_instructions(&self) -> (r: &'static str)
        ensures
            r@ == fp_instructions(FpKind::Cpli).map_values(|b: u8| b as char),
    {
        proof {
            reveal_strlit("ADMOSV");
            assert_seqs_equal!("ADMOSV"@, fp_instructions(FpKind::Cpli).map_values(|b: u8| b as char));
        }
        "ADMOSV"
    }
}

impl EVAR {
    pub fn get_name(&self) -> (r: &'static str)
        ensures
            r@ == fp_name(FpKind::Evar).map_values(|b: u8| b as char),
    {
        proof {
            reveal_strlit("EVAR");
            assert_seqs_equal!("EVAR"@, fp_name(FpKind::Evar).map_values(|b: u8| b as char));
        }
        "EVAR"
    }

    pub fn get_instructions(&self) -> (r: &'static str)
        ensures
            r@ == fp_instructions(FpKind::Evar).map_values(|b: u8| b as char),
    {
        proof {
            reveal_strlit("GNPV");
            assert_seqs_equal!("GNPV"@, fp_instructions(FpKind::Evar).map_values(|b: u8| b as char));
        }
        "GNPV"
    }
}

impl MODU {
    pub fn get_name(&self) -> (r: &'static str)
        ensures
            r@ == fp_name(FpKind::Modu).map_values(|b: u8| b as char),
    {
        proof {
            reveal_strlit("MODU");
            assert_seqs_equal!("MODU"@, fp_name(FpKind::Modu).map_values(|b: u8| b as char));
        }
        "MODU"
    }

    pub fn get_instructions(&self) -> (r: &'static str)
        ensures
            r@ == fp_instructions(FpKind::Modu).map_values(|b: u8| b as char),
    {
        proof {
            reveal_strlit("MUR");
            assert_seqs_equal!("MUR"@, fp_instructions(FpKind::Modu).map_values(|b: u8| b as char));
        }
        "MUR"
    }
}

impl NULL {
    pub fn get_name(&self) -> (r: &'static str)
        ensures
            r@ == fp_name(FpKind::Null).map_values(|b: u8| b as char),
    {
        proof {
            reveal_strlit("NULL");
            assert_seqs_equal!("NULL"@, fp_name(FpKind::Null).map_values(|b: u8| b as char));
        }
        "NULL"
    }

    pub fn get_instructions(&self) -> (r: &'static str)
        ensures
            r@ == fp_instructions(FpKind::Null).map_values(|b: u8| b as char),
    {
        proof {
            reveal_strlit("ABCDEFGHIJKLMNOPQRSTUVWXYZ");
            assert_seqs_equal!("ABCDEFGHIJKLMNOPQRSTUVWXYZ"@, fp_instructions(FpKind::Null).map_values(|b: u8| b as char));
        }
        "ABCDEFGHIJKLMNOPQRSTUVWXYZ"
    }
}

impl ROMA {
    pub fn get_name(&self) -> (r: &'static str)
        ensures
            r@ == fp_name(FpKind::Roma).map_values(|b: u8| b as char),
    {
        proof {
            reveal_strlit("ROMA");
            assert_seqs_equal!("ROMA"@, fp_name(FpKind::Roma).map_values(|b: u8| b as char));
        }
        "ROMA"
    }

    pub fn get_instructions(&self) -> (r: &'static str)
        ensures
            r@ == fp_instructions(FpKind::Roma).map_values(|b: u8| b as char),
    {
        proof {
            reveal_strlit("CDILMVX");
            assert_seqs_equal!("CDILMVX"@, fp_instructions(FpKind::Roma).map_values(|b: u8| b as char));
        }
        "CDILMVX"
    }
}

impl FpKind {
    /// The implemented letters, as bytes.
    pub fn instruction_bytes(&self) -> (r: Vec<u8>)
        ensures
            r@ == fp_instructions(*self),
    {
        let mut r: Vec<u8> = Vec::new();
        match self {
            FpKind::Base => {
                r.push(66);
                r.push(72);
                r.push(73);
                r.push(78);
                r.push(79);
            },
            FpKind::Cpli => {
                r.push(65);
                r.push(68);
                r.push(77);
                r.push(79);
                r.push(83);
                r.push(86);
            },
            FpKind::Evar => {
                r.push(71);
                r.push(78);
                r.push(80);
                r.push(86);
            },
            FpKind::Modu => {
                r.push(77);
                r.push(85);
                r.push(82);
            },
            FpKind::Null => {
                let mut b: u8 = 65;
                while b <= 90
                    invariant
                        65 <= b <= 91,
                        r@.len() == b - 65,
                        forall|i: int| 0 <= i < r@.len() ==> r@[i] == (65 + i) as u8,
                    decreases 91 - b,
                {
                    r.push(b);
                    b = b + 1;
                }
            },
            FpKind::Roma => {
                r.push(67);
                r.push(68);
                r.push(73);
                r.push(76);
                r.push(77);
                r.push(86);
                r.push(88);
            },
        }
        proof {
            assert_seqs_equal!(r@, fp_instructions(*self));
        }
        r
    }

    /// The name, as bytes.
    pub fn name_bytes(&self) -> (r: Vec<u8>)
        ensures
            r@ == fp_name(*self),
    {
        let mut r: Vec<u8> = Vec::new();
        match self {
            FpKind::Base => {
                r.push(66);
                r.push(65);
                r.push(83);
                r.push(69);
            },
            FpKind::Cpli => {
                r.push(67);
                r.push(80);
                r.push(76);
                r.push(73);
            },
            FpKind::Evar => {
                r.push(69);
                r.push(86);
                r.push(65);
                r.push(82);
            },
            FpKind::Modu => {
                r.push(77);
                r.push(79);
                r.push(68);
                r.push(85);
            },
            FpKind::Null => {
                r.push(78);
                r.push(85);
                r.push(76);
                r.push(76);
            },
            FpKind::Roma => {
                r.push(82);
                r.push(79);
                r.push(77);
                r.push(65);
            },
        }
        proof {
            assert_seqs_equal!(r@, fp_name(*self));
        }
        r
    }

    /// The id cell that `(` and `)` match against.
    pub fn get_id(&self) -> (r: i32)
        ensures
            r as int == fp_id(*self),
    {
        let name = self.name_bytes();
        fold_name_id(&name)
    }
}

/// The first registry index holding an extension with the given id, or the
/// registry length when there is none.
pub open spec fn find_fp(avail: Seq<FpKind>, id: int, i: int) -> int
    decreases avail.len() - i,
{
    if i < 0 || i >= avail.len() {
        avail.len() as int
    } else if fp_id(avail[i]) == id {
        i
    } else {
        find_fp(avail, id, i + 1)
    }
}

/// The topmost position in the load stack holding an extension with the
/// given id, or -1 when there is none.
pub open spec fn find_loaded(loaded: Seq<int>, avail: Seq<FpKind>, id: int) -> int
    decreases loaded.len(),
{
    if loaded.len() == 0 {
        -1
    } else if 0 <= loaded.last() < avail.len() && fp_id(avail[loaded.last()]) == id {
        loaded.len() - 1
    } else {
        find_loaded(loaded.drop_last(), avail, id)
    }
}

/// What popping one index off a dispatch stack leaves; an empty stack stays
/// empty.
pub open spec fn istack_pop(s: Seq<int>) -> Seq<int> {
    if s.len() == 0 {
        s
    } else {
        s.drop_last()
    }
}

/// The manager's mathematical content.
pub ghost struct FpmView {
    pub available: Seq<FpKind>,
    pub loaded: Seq<int>,
    pub istacks: Seq<Seq<int>>,
}

pub struct FPManager {
    available: Vec<FpKind>,
    loaded: Vec<usize>,
    istacks: Vec<Vec<usize>>,
}

impl View for FPManager {
    type V = FpmView;

    closed spec fn view(&self) -> FpmView {
        FpmView {
            available: self.available@,
            loaded: self.loaded@.map_values(|v: usize| v as int),
            istacks: self.istacks@.map_values(|v: Vec<usize>| v@.map_values(|u: usize| u as int)),
        }
    }
}

impl FPManager {
    /// One dispatch stack per letter; every stored index names a registry
    /// entry.
    pub open spec fn wf(self) -> bool {
        &&& self@.istacks.len() == 26
        &&& forall|l: int, j: int|
            0 <= l < 26 && 0 <= j < self@.istacks[l].len() ==> 0 <= #[trigger] self@.istacks[l][j]
                < self@.available.len()
        &&& forall|j: int|
            0 <= j < self@.loaded.len() ==> 0 <= #[trigger] self@.loaded[j]
                < self@.available.len()
    }

    /// The full registry, nothing loaded.
    pub fn new() -> (r: Self)
        ensures
            r.wf(),
            r@.available =~= seq![
                FpKind::Base,
                FpKind::Cpli,
                FpKind::Evar,
                FpKind::Modu,
                FpKind::Null,
                FpKind::Roma,
            ],
            r@.loaded =~= Seq::<int>::empty(),
            forall|l: int| 0 <= l < 26 ==> #[trigger] r@.istacks[l] == Seq::<int>::empty(),
    {
        let mut available: Vec<FpKind> = Vec::new();
        available.push(FpKind::Base);
        available.push(FpKind::Cpli);
        available.push(FpKind::Evar);
        available.push(FpKind::Modu);
        available.push(FpKind::Null);
        available.push(FpKind::Roma);
        let mut istacks: Vec<Vec<usize>> = Vec::new();
        let mut i: usize = 0;
        while i < 26
            invariant
                i <= 26,
                istacks@.len() == i,
                forall|l: int| 0 <= l < i ==> (#[trigger] istacks@[l])@.len() == 0,
            decreases 26 - i,
        {
            istacks.push(Vec::new());
            i = i + 1;
        }
        let r = FPManager { available, loaded: Vec::new(), istacks };
        proof {
            assert_seqs_equal!(r@.available, seq![
                FpKind::Base,
                FpKind::Cpli,
                FpKind::Evar,
                FpKind::Modu,
                FpKind::Null,
                FpKind::Roma,
            ]);
            assert_seqs_equal!(r@.loaded, Seq::<int>::empty());
        }
        r
    }

    /// `(`: finds the extension with the given id and, when it exists,
    /// pushes its registry index onto the load stack and onto the dispatch
    /// stack of every letter it implements.
    #[verifier::rlimit(60)]
    #[verifier::loop_isolation(false)]
    pub fn load(&mut self, id: i32) -> (r: bool)
        requires
            old(self).wf(),
        ensures
            final(self).wf(),
            final(self)@.available == old(self)@.available,
            r <==> find_fp(old(self)@.available, id as int, 0) < old(self)@.available.len(),
            !r ==> final(self)@ == old(self)@,
            r ==> ({
                let idx = find_fp(old(self)@.available, id as int, 0);
                &&& final(self)@.loaded =~= old(self)@.loaded.push(idx)
                &&& final(self)@.istacks.len() == 26
                &&& forall|l: int|
                    0 <= l < 26 ==> #[trigger] final(self)@.istacks[l] == (if fp_has_letter(
                        old(self)@.available[idx],
                        l,
                    ) {
                        old(self)@.istacks[l].push(idx)
                    } else {
                        old(self)@.istacks[l]
                    })
            }),
    {
        let n = self.available.len();
        let mut fp_idx: usize = 0;
        while fp_idx < n
            invariant
                fp_idx <= n,
                *self == *old(self),
                n == self@.available.len(),
                find_fp(self@.available, id as int, 0) == find_fp(
                    self@.available,
                    id as int,
                    fp_idx as int,
                ),
            decreases n - fp_idx,
        {
            let fp = self.available[fp_idx];
            if fp.get_id() == id {
                let instructions = fp.instruction_bytes();
                proof {
                    lemma_letters_in_range(fp);
                    assert(instructions@.take(0) =~= Seq::<u8>::empty());
                }
                let mut j: usize = 0;
                while j < instructions.len()
                    invariant
                        j <= instructions@.len(),
                        instructions@ == fp_instructions(fp),
                        fp_idx < self@.available.len(),
                        self@.available == old(self)@.available,
                        self@.loaded == old(self)@.loaded,
                        fp == self@.available[fp_idx as int],
                        self.wf(),
                        forall|b: int|
                            0 <= b < instructions@.len() ==> 65 <= #[trigger] instructions@[b]
                                <= 90,
                        self@.istacks.len() == 26,
                        forall|l: int|
                            0 <= l < 26 ==> #[trigger] self@.istacks[l] == (if instructions@.take(
                                j as int,
                            ).contains((65 + l) as u8) {
                                old(self)@.istacks[l].push(fp_idx as int)
                            } else {
                                old(self)@.istacks[l]
                            }),
                        forall|a: int, b: int|
                            0 <= a < b < instructions@.len() ==> #[trigger] instructions@[a]
                                != #[trigger] instructions@[b],
                    decreases instructions@.len() - j,
                {
                    let li = (instructions[j] - 65) as usize;
                    let ghost prev = self@.istacks;
                    let ghost prevvec = self.istacks@;
                    let mut st = self.istacks.remove(li);
                    let ghost st0 = st@;
                    st.push(fp_idx);
                    let ghost stv = st@;
                    self.istacks.insert(li, st);
                    proof {
                        assert(self.istacks@ =~= prevvec.update(li as int, self.istacks@[li as int]));
                        assert(self.istacks@[li as int]@ == stv);
                        assert(st0 == prevvec[li as int]@);
                        assert(stv.map_values(|u: usize| u as int) =~= prev[li as int].push(
                            fp_idx as int,
                        ));
                        assert(self@.istacks =~= prev.update(
                            li as int,
                            prev[li as int].push(fp_idx as int),
                        ));
                        let tj = instructions@.take(j as int);
                        let tj1 = instructions@.take(j + 1);
                        assert(tj1.drop_last() =~= tj);
                        assert(tj1.last() == instructions@[j as int]);
                        assert forall|l: int| 0 <= l < 26 implies #[trigger] self@.istacks[l]
                            == (if tj1.contains((65 + l) as u8) {
                            old(self)@.istacks[l].push(fp_idx as int)
                        } else {
                            old(self)@.istacks[l]
                        }) by {
                            if l == li {
                                assert(tj1.contains(instructions@[j as int]));
                                if tj.contains((65 + l) as u8) {
                                    let w = choose|w: int|
                                        0 <= w < tj.len() && tj[w] == (65 + l) as u8;
                                    assert(instructions@[w] == instructions@[j as int]);
                                    assert(false);
                                }
                            } else {
                                if tj1.contains((65 + l) as u8) {
                                    let w = choose|w: int|
                                        0 <= w < tj1.len() && tj1[w] == (65 + l) as u8;
                                    if w == j {
                                        assert(false);
                                    } else {
                                        assert(tj.contains((65 + l) as u8));
                                    }
                                } else {
                                    if tj.contains((65 + l) as u8) {
                                        let w = choose|w: int|
                                            0 <= w < tj.len() && tj[w] == (65 + l) as u8;
                                        assert(tj1[w] == (65 + l) as u8);
                                        assert(false);
                                    }
                                }
                            }
                        }
                    }
                    j = j + 1;
                }
                self.loaded.push(fp_idx);
                proof {
                    assert(instructions@.take(instructions@.len() as int) =~= instructions@);
                    assert forall|l: int| 0 <= l < 26 implies #[trigger] self@.istacks[l] == (
                    if fp_has_letter(old(self)@.available[fp_idx as int], l) {
                        old(self)@.istacks[l].push(fp_idx as int)
                    } else {
                        old(self)@.istacks[l]
                    }) by {}
                    assert_seqs_equal!(self@.loaded, old(self)@.loaded.push(fp_idx as int));
                }
                return true;
            }
            fp_idx = fp_idx + 1;
        }
        false
    }

    /// `)`: finds the topmost load of the extension with the given id and,
    /// when it exists, removes it from the load stack and pops the dispatch
    /// stack of every letter it implements.
    #[verifier::rlimit(60)]
    #[verifier::loop_isolation(false)]
    pub fn unload(&mut self, id: i32) -> (r: bool)
        requires
            old(self).wf(),
        ensures
            final(self).wf(),
            final(self)@.available == old(self)@.available,
            r <==> find_loaded(old(self)@.loaded, old(self)@.available, id as int) >= 0,
            !r ==> final(self)@ == old(self)@,
            r ==> ({
                let p = find_loaded(old(self)@.loaded, old(self)@.available, id as int);
                let idx = old(self)@.loaded[p];
                &&& final(self)@.loaded =~= old(self)@.loaded.remove(p)
                &&& final(self)@.istacks.len() == 26
                &&& forall|l: int|
                    0 <= l < 26 ==> #[trigger] final(self)@.istacks[l] == (if fp_has_letter(
                        old(self)@.available[idx],
                        l,
                    ) {
                        istack_pop(old(self)@.istacks[l])
                    } else {
                        old(self)@.istacks[l]
                    })
            }),
    {
        let n = self.loaded.len();
        proof {
            assert(self@.loaded.take(n as int) =~= self@.loaded);
        }
        let mut p: usize = n;
        while p > 0
            invariant
                p <= n,
                *self == *old(self),
                n == self@.loaded.len(),
                find_loaded(self@.loaded, self@.available, id as int) == find_loaded(
                    self@.loaded.take(p as int),
                    self@.available,
                    id as int,
                ),
            decreases p,
        {
            proof {
                assert(0 <= self@.loaded[p - 1] < self@.available.len());
            }
            let fp_idx = self.loaded[p - 1];
            proof {
                assert(fp_idx as int == self@.loaded[p - 1]);
                assert(self@.loaded.take(p as int).last() == self@.loaded[p - 1]);
                assert(self@.loaded.take(p as int).drop_last() =~= self@.loaded.take(p - 1));
            }
            if self.available[fp_idx].get_id() == id {
                let fp = self.available[fp_idx];
                self.loaded.remove(p - 1);
                proof {
                    assert_seqs_equal!(self@.loaded, old(self)@.loaded.remove(p - 1));
                    lemma_letters_in_range(fp);
                }
                let instructions = fp.instruction_bytes();
                let mut j: usize = 0;
                while j < instructions.len()
                    invariant
                        j <= instructions@.len(),
                        instructions@ == fp_instructions(fp),
                        self@.available == old(self)@.available,
                        self@.loaded == old(self)@.loaded.remove(p - 1),
                        self.wf(),
                        forall|b: int|
                            0 <= b < instructions@.len() ==> 65 <= #[trigger] instructions@[b]
                                <= 90,
                        self@.istacks.len() == 26,
                        forall|l: int|
                            0 <= l < 26 ==> #[trigger] self@.istacks[l] == (if instructions@.take(
                                j as int,
                            ).contains((65 + l) as u8) {
                                istack_pop(old(self)@.istacks[l])
                            } else {
                                old(self)@.istacks[l]
                            }),
                        forall|a: int, b: int|
                            0 <= a < b < instructions@.len() ==> #[trigger] instructions@[a]
                                != #[trigger] instructions@[b],
                    decreases instructions@.len() - j,
                {
                    let li = (instructions[j] - 65) as usize;
                    let ghost prev = self@.istacks;
                    let ghost prevvec = self.istacks@;
                    let mut st = self.istacks.remove(li);
                    let ghost st0 = st@;
                    st.pop();
                    let ghost stv = st@;
                    self.istacks.insert(li, st);
                    proof {
                        assert(self.istacks@ =~= prevvec.update(li as int, self.istacks@[li as int]));
                        assert(self.istacks@[li as int]@ == stv);
                        assert(st0 == prevvec[li as int]@);
                        assert(stv.map_values(|u: usize| u as int) =~= istack_pop(
                            prev[li as int],
                        ));
                        assert(self@.istacks =~= prev.update(
                            li as int,
                            istack_pop(prev[li as int]),
                        ));
                        let tj = instructions@.take(j as int);
                        let tj1 = instructions@.take(j + 1);
                        assert(tj1.drop_last() =~= tj);
                        assert(tj1.last() == instructions@[j as int]);
                        assert forall|l: int| 0 <= l < 26 implies #[trigger] self@.istacks[l]
                            == (if tj1.contains((65 + l) as u8) {
                            istack_pop(old(self)@.istacks[l])
                        } else {
                            old(self)@.istacks[l]
                        }) by {
                            if l == li {
                                assert(tj1.contains(instructions@[j as int]));
                                if tj.contains((65 + l) as u8) {
                                    let w = choose|w: int|
                                        0 <= w < tj.len() && tj[w] == (65 + l) as u8;
                                    assert(instructions@[w] == instructions@[j as int]);
                                    assert(false);
                                }
                            } else {
                                if tj1.contains((65 + l) as u8) {
                                    let w = choose|w: int|
                                        0 <= w < tj1.len() && tj1[w] == (65 + l) as u8;
                                    if w == j {
                                        assert(false);
                                    } else {
                                        assert(tj.contains((65 + l) as u8));
                                    }
                                } else {
                                    if tj.contains((65 + l) as u8) {
                                        let w = choose|w: int|
                                            0 <= w < tj.len() && tj[w] == (65 + l) as u8;
                                        assert(tj1[w] == (65 + l) as u8);
                                        assert(false);
                                    }
                                }
                            }
                        }
                    }
                    j = j + 1;
                }
                proof {
                    assert(instructions@.take(instructions@.len() as int) =~= instructions@);
                }
                return true;
            }
            p = p - 1;
        }
        proof {
            assert(self@.loaded.take(0) =~= Seq::<int>::empty());
        }
        false
    }

    /// The registry index of the active handler for the letter with code
    /// `letter`, if any letter stack is non-empty.
    pub fn active_handler(&self, letter: u8) -> (r: Option<(usize, FpKind)>)
        requires
            self.wf(),
            65 <= letter <= 90,
        ensures
            self@.istacks[letter - 65].len() == 0 <==> r is None,
            self@.istacks[letter - 65].len() > 0 ==> r == Some(
                (
                    self@.istacks[letter - 65].last() as usize,
                    self@.available[self@.istacks[letter - 65].last()],
                ),
            ),
    {
        let li = (letter - 65) as usize;
        proof {
            assert(self@.istacks[li as int] == self.istacks@[li as int]@.map_values(
                |u: usize| u as int,
            ));
        }
        let st = &self.istacks[li];
        if st.len() == 0 {
            None
        } else {
            let idx = st[st.len() - 1];
            proof {
                assert(self@.istacks[li as int][st@.len() - 1] == idx as int);
                assert(0 <= self@.istacks[li as int][st@.len() - 1] < self@.available.len());
            }
            Some((idx, self.available[idx]))
        }
    }
}

/// Every letter of every extension is an uppercase letter, and none repeats.
proof fn lemma_letters_in_range(k: FpKind)
    ensures
        forall|b: int|
            0 <= b < fp_instructions(k).len() ==> 65 <= #[trigger] fp_instructions(k)[b] <= 90,
        forall|a: int, b: int|
            0 <= a < b < fp_instructions(k).len() ==> #[trigger] fp_instructions(k)[a]
                != #[trigger] fp_instructions(k)[b],
{
}

} // verus!
