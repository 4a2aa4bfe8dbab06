//! The rounds of whole-program return inference, as decisions: which files a
//! round walks, when the rounds stop, and how what a round found goes into
//! the program. Walking a file is the caller's part; it hands each file's
//! results back here.

use vstd::prelude::*;

use crate::program::{is_wanted, spec_returns_to_walk, sub_view, sub_views, with_returns, FileEntry, Program, Wanted};
use crate::shape::Returns;

verus! {

/// How many rounds the inference runs at most.
pub const PROGRAM_ROUNDS: usize = 6;

/// Whether a file has a sub whose return nothing is yet known about.
pub open spec fn is_pending(files: Seq<FileEntry>, file: usize) -> bool {
    spec_returns_to_walk(files, file, Wanted::Unresolved).len() > 0
}

/// The files of `wanted` that still have something to resolve, in order.
pub open spec fn pending_of(files: Seq<FileEntry>, wanted: Seq<usize>) -> Seq<usize>
    decreases wanted.len(),
{
    if wanted.len() == 0 {
        Seq::empty()
    } else if is_pending(files, wanted.last()) {
        pending_of(files, wanted.drop_last()).push(wanted.last())
    } else {
        pending_of(files, wanted.drop_last())
    }
}

/// What the next round does.
pub enum RoundAction {
    /// Nothing is left to walk, or the rounds are used up.
    Done,
    /// Walk these files.
    Walk(Vec<usize>),
}

/// Whether a sub has been given a return: the walk never sets one again.
pub open spec fn resolved(files: Seq<FileEntry>, f: int, i: int) -> bool {
    !is_wanted(Wanted::Unresolved, files[f].decls.subs@[i].returns)
}

/// What a round may do to a program: the same files with the same subs in
/// them, every one already resolved left as it was, and every other either
/// left or given one of the values found for it.
pub open spec fn round_step(
    before: Seq<FileEntry>,
    after: Seq<FileEntry>,
    found: Seq<(usize, Seq<(usize, Returns)>)>,
) -> bool {
    &&& after.len() == before.len()
    &&& forall|f: int|
        0 <= f < before.len() ==> (#[trigger] after[f]).decls.subs@.len() == before[f].decls.subs@.len()
    &&& forall|f: int, i: int|
        0 <= f < before.len() && 0 <= i < before[f].decls.subs@.len() && resolved(before, f, i) ==> sub_view(
            #[trigger] after[f].decls.subs@[i],
        ) == sub_view(before[f].decls.subs@[i])
    &&& forall|f: int, i: int|
        0 <= f < before.len() && 0 <= i < before[f].decls.subs@.len() ==> sub_view(#[trigger] after[f].decls.subs@[i])
            == sub_view(before[f].decls.subs@[i]) || exists|k: int, m: int|
            0 <= k < found.len() && 0 <= m < found[k].1.len() && found[k].0 == f && found[k].1[m].0 == i
                && sub_view(after[f].decls.subs@[i]) == with_returns(sub_view(before[f].decls.subs@[i]), found[k].1[m].1)
}

proof fn lemma_round_step_refl(files: Seq<FileEntry>, found: Seq<(usize, Seq<(usize, Returns)>)>)
    ensures
        round_step(files, files, found),
{
}

impl Program {
    /// The files of `wanted` that still have a return left to infer.
    pub fn pending_files(&self, wanted: &Vec<usize>) -> (r: Vec<usize>)
        ensures
            r@ == pending_of(self.files_view(), wanted@),
    {
        let mut out: Vec<usize> = Vec::new();
        let mut i: usize = 0;
        while i < wanted.len()
            invariant
                i <= wanted@.len(),
                out@ == pending_of(self.files_view(), wanted@.subrange(0, i as int)),
            decreases wanted@.len() - i,
        {
            proof {
                assert(wanted@.subrange(0, i + 1).drop_last() =~= wanted@.subrange(0, i as int));
            }
            let left = self.unresolved_returns(wanted[i]);
            if left.len() > 0 {
                out.push(wanted[i]);
            }
            i += 1;
        }
        proof {
            assert(wanted@.subrange(0, wanted@.len() as int) =~= wanted@);
        }
        out
    }

    /// What round `round` (counted from zero) does: nothing once the rounds
    /// are used up or no file of `wanted` has anything left to resolve, and
    /// otherwise walk the files that have.
    pub fn next_round(&self, wanted: &Vec<usize>, round: usize) -> (r: RoundAction)
        ensures
            match r {
                RoundAction::Done => round >= PROGRAM_ROUNDS || pending_of(self.files_view(), wanted@).len() == 0,
                RoundAction::Walk(files) => round < PROGRAM_ROUNDS && files@ == pending_of(self.files_view(), wanted@)
                    && files@.len() > 0,
            },
    {
        if round >= PROGRAM_ROUNDS {
            return RoundAction::Done;
        }
        let pending = self.pending_files(wanted);
        if pending.len() == 0 {
            RoundAction::Done
        } else {
            RoundAction::Walk(pending)
        }
    }

    /// Install one file's results: each into a sub that is still
    /// unresolved, and none into a sub that already has a return. Says
    /// whether anything was installed.
    #[verifier::loop_isolation(false)]
    fn install_file(&mut self, file: usize, results: &Vec<(usize, Returns)>, Ghost(found): Ghost<Seq<(usize, Seq<(usize, Returns)>)>>, Ghost(k): Ghost<int>) -> (installed: bool)
        requires
            0 <= k < found.len(),
            found[k].0 == file,
            found[k].1 == results@,
        ensures
            round_step(old(self).files_view(), final(self).files_view(), found),
            !installed ==> final(self).files_view() == old(self).files_view(),
    {
        let ghost start = self.files_view();
        let mut installed = false;
        let mut m: usize = 0;
        while m < results.len()
            invariant
                m <= results@.len(),
                round_step(start, self.files_view(), found),
                !installed ==> self.files_view() == start,
            decreases results@.len() - m,
        {
            let index = results[m].0;
            let held = self.returns_at(file, index);
            let valid = match self.file(file) {
                Some(entry) => index < entry.decls.subs.len(),
                None => false,
            };
            if valid {
                if held.is_unresolved() {
                    let ghost mid = self.files_view();
                    self.set_returns(file, index, results[m].1.clone());
                    proof {
                        let now = self.files_view();
                        let v = results@[m as int].1;
                        assert forall|f: int| 0 <= f < start.len() implies (#[trigger] now[f]).decls.subs@.len()
                            == start[f].decls.subs@.len() by {
                            if f == file {
                                assert(sub_views(now[f].decls.subs@).len() == now[f].decls.subs@.len());
                                assert(sub_views(mid[f].decls.subs@).len() == mid[f].decls.subs@.len());
                            }
                        }
                        assert forall|f: int, i: int|
                            0 <= f < start.len() && 0 <= i < start[f].decls.subs@.len() && resolved(start, f, i) implies sub_view(
                            #[trigger] now[f].decls.subs@[i],
                        ) == sub_view(start[f].decls.subs@[i]) by {
                            if f == file {
                                assert(sub_views(now[f].decls.subs@)[i] == sub_view(now[f].decls.subs@[i]));
                                assert(sub_views(mid[f].decls.subs@)[i] == sub_view(mid[f].decls.subs@[i]));
                                if i == index {
                                    assert(sub_view(mid[f].decls.subs@[i]) == sub_view(start[f].decls.subs@[i]));
                                }
                            }
                        }
                        assert forall|f: int, i: int|
                            0 <= f < start.len() && 0 <= i < start[f].decls.subs@.len() implies sub_view(
                            #[trigger] now[f].decls.subs@[i],
                        ) == sub_view(start[f].decls.subs@[i]) || exists|kk: int, mm: int|
                            0 <= kk < found.len() && 0 <= mm < found[kk].1.len() && found[kk].0 == f && found[kk].1[mm].0
                                == i && sub_view(now[f].decls.subs@[i]) == with_returns(
                                sub_view(start[f].decls.subs@[i]),
                                found[kk].1[mm].1,
                            ) by {
                            if f == file {
                                assert(sub_views(now[f].decls.subs@)[i] == sub_view(now[f].decls.subs@[i]));
                                assert(sub_views(mid[f].decls.subs@)[i] == sub_view(mid[f].decls.subs@[i]));
                                if i == index {
                                    assert(found[k].1[m as int].0 == i);
                                    assert(sub_view(now[f].decls.subs@[i]) == with_returns(
                                        sub_view(start[f].decls.subs@[i]),
                                        found[k].1[m as int].1,
                                    ));
                                }
                            }
                        }
                    }
                    installed = true;
                }
            }
            m += 1;
        }
        installed
    }

    /// Install what a round found, file by file: a result goes only into a
    /// sub that is still unresolved, so a return once known is never set
    /// again. Says whether anything was installed; when nothing was, the
    /// rounds are over.
    pub fn install_round(&mut self, found: &Vec<(usize, Vec<(usize, Returns)>)>) -> (installed: bool)
        ensures
            round_step(old(self).files_view(), final(self).files_view(), found_view(found@)),
            !installed ==> final(self).files_view() == old(self).files_view(),
    {
        let ghost start = self.files_view();
        let ghost all = found_view(found@);
        let mut installed = false;
        let mut k: usize = 0;
        proof {
            lemma_round_step_refl(start, all);
        }
        while k < found.len()
            invariant
                k <= found@.len(),
                all == found_view(found@),
                round_step(start, self.files_view(), all),
                !installed ==> self.files_view() == start,
            decreases found@.len() - k,
        {
            let ghost mid = self.files_view();
            let one = self.install_file(found[k].0, &found[k].1, Ghost(all), Ghost(k as int));
            proof {
                law_rounds_compose(start, mid, self.files_view(), all);
            }
            installed = installed || one;
            k += 1;
        }
        installed
    }
}

/// What a round found, as values.
pub open spec fn found_view(found: Seq<(usize, Vec<(usize, Returns)>)>) -> Seq<(usize, Seq<(usize, Returns)>)> {
    found.map_values(|one: (usize, Vec<(usize, Returns)>)| (one.0, one.1@))
}

proof fn lemma_with_returns_twice(v: crate::program::SubV, a: Returns, b: Returns)
    ensures
        with_returns(with_returns(v, a), b) == with_returns(v, b),
{
}

/// Two rounds in a row do what one round may do: a return known before the
/// first is still the same after the second, and every other return is one
/// the rounds found for it.
pub proof fn law_rounds_compose(
    a: Seq<FileEntry>,
    b: Seq<FileEntry>,
    c: Seq<FileEntry>,
    found: Seq<(usize, Seq<(usize, Returns)>)>,
)
    requires
        round_step(a, b, found),
        round_step(b, c, found),
    ensures
        round_step(a, c, found),
{
    assert forall|f: int, i: int|
        0 <= f < a.len() && 0 <= i < a[f].decls.subs@.len() && resolved(a, f, i) implies sub_view(
        #[trigger] c[f].decls.subs@[i],
    ) == sub_view(a[f].decls.subs@[i]) by {
        assert(sub_view(b[f].decls.subs@[i]) == sub_view(a[f].decls.subs@[i]));
        assert(resolved(b, f, i));
    }
    assert forall|f: int, i: int|
        0 <= f < a.len() && 0 <= i < a[f].decls.subs@.len() implies sub_view(#[trigger] c[f].decls.subs@[i]) == sub_view(
        a[f].decls.subs@[i],
    ) || exists|k: int, m: int|
        0 <= k < found.len() && 0 <= m < found[k].1.len() && found[k].0 == f && found[k].1[m].0 == i && sub_view(
            c[f].decls.subs@[i],
        ) == with_returns(sub_view(a[f].decls.subs@[i]), found[k].1[m].1) by {
        let x = sub_view(a[f].decls.subs@[i]);
        let y = sub_view(b[f].decls.subs@[i]);
        let z = sub_view(c[f].decls.subs@[i]);
        assert(y == x || exists|k: int, m: int|
            0 <= k < found.len() && 0 <= m < found[k].1.len() && found[k].0 == f && found[k].1[m].0 == i && y
                == with_returns(x, found[k].1[m].1));
        assert(z == y || exists|k: int, m: int|
            0 <= k < found.len() && 0 <= m < found[k].1.len() && found[k].0 == f && found[k].1[m].0 == i && z
                == with_returns(y, found[k].1[m].1));
        if z != y && y != x {
            let (k1, m1) = choose|k: int, m: int|
                0 <= k < found.len() && 0 <= m < found[k].1.len() && found[k].0 == f && found[k].1[m].0 == i && y
                    == with_returns(x, found[k].1[m].1);
            let (k2, m2) = choose|k: int, m: int|
                0 <= k < found.len() && 0 <= m < found[k].1.len() && found[k].0 == f && found[k].1[m].0 == i && z
                    == with_returns(y, found[k].1[m].1);
            lemma_with_returns_twice(x, found[k1].1[m1].1, found[k2].1[m2].1);
        }
    }
}

} // verus!
