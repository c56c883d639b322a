//! A thin holder that owns an engine and drives it.

use vstd::prelude::*;

use crate::fingerprint::FPManager;
use crate::vm::{reaches, run_step_result, step_rel, ProgView, Program, RunOutcome, StepResult};

verus! {

pub struct Runner {
    program: Program,
}

impl View for Runner {
    type V = ProgView;

    closed spec fn view(&self) -> ProgView {
        self.program@
    }
}

impl Runner {
    pub closed spec fn inv(self) -> bool {
        self.program.inv()
    }

    pub fn new(program: Program) -> (r: Runner)
        requires
            program.inv(),
        ensures
            r.inv(),
            r@ == program@,
    {
        Runner { program }
    }

    /// Runs the held engine for up to `fuel` slices of work.
    #[verifier::rlimit(100)]
    #[verifier::spinoff_prover]
    pub fn run(&mut self, fpm: &mut FPManager, fuel: u64) -> (r: RunOutcome)
        requires
            old(self).inv(),
            old(fpm).wf(),
        ensures
            final(self).inv(),
            final(fpm).wf(),
            r == RunOutcome::OutOfFuel ==> reaches(
                old(self)@,
                old(fpm)@,
                final(self)@,
                final(fpm)@,
                fuel as int,
            ),
            r != RunOutcome::OutOfFuel ==> exists|
                k: int,
                vm: ProgView,
                fm: crate::fingerprint::FpmView,
            |
                {
                    &&& 0 <= k <= fuel
                    &&& #[trigger] reaches(old(self)@, old(fpm)@, vm, fm, k)
                    &&& #[trigger] step_rel(vm, fm, final(self)@, final(fpm)@, run_step_result(r))
                },
    {
        let r = self.program.run(fpm, fuel);
        proof {
            if r == RunOutcome::OutOfFuel {
                assert(reaches(old(self)@, old(fpm)@, self@, fpm@, fuel as int));
            } else {
                let (k, vm, fm) = choose|
                    k: int,
                    vm: ProgView,
                    fm: crate::fingerprint::FpmView,
                |
                    0 <= k <= fuel && #[trigger] reaches(old(self).program@, old(fpm)@, vm, fm, k)
                        && #[trigger] step_rel(vm, fm, self.program@, fpm@, run_step_result(r));
                assert(0 <= k <= fuel && reaches(old(self)@, old(fpm)@, vm, fm, k) && step_rel(
                    vm,
                    fm,
                    self@,
                    fpm@,
                    run_step_result(r),
                ));
            }
        }
        r
    }
}

} // verus!
