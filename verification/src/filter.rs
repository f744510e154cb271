use crate::commit::{models, Commit, CommitModel};
use crate::error::ReleaseError;
use vstd::prelude::*;

verus! {

/// The cherry-pick equivalence rule: a release-side commit is a duplicate
/// of a base-side commit exactly when both author emails are present and
/// byte-equal and the full commit messages are equal. No normalization is
/// applied. A commit without an author email is never a duplicate.
pub open spec fn is_duplicate(rel: CommitModel, base: CommitModel) -> bool {
    &&& rel.author_email is Some
    &&& base.author_email is Some
    &&& rel.author_email == base.author_email
    &&& rel.message == base.message
}

/// Some base-side commit makes `rel` a duplicate.
pub open spec fn has_duplicate(base: Seq<CommitModel>, rel: CommitModel) -> bool {
    exists|i: int| 0 <= i < base.len() && is_duplicate(rel, #[trigger] base[i])
}

/// The release-side commits that are duplicates of no base-side commit,
/// kept in their original order.
pub open spec fn filter_dups(base: Seq<CommitModel>, rel: Seq<CommitModel>) -> Seq<CommitModel>
    decreases rel.len(),
{
    if rel.len() == 0 {
        Seq::empty()
    } else {
        (if has_duplicate(base, rel[0]) {
            Seq::empty()
        } else {
            seq![rel[0]]
        }) + filter_dups(base, rel.drop_first())
    }
}

/// A release commit that shares a present author email and an identical
/// message with some base-side commit never survives the duplicate filter:
/// the pair cannot end up on both sides of the final report.
pub proof fn lemma_cherry_pick_excluded(
    base: Seq<CommitModel>,
    rel: Seq<CommitModel>,
    r: CommitModel,
    b: CommitModel,
)
    requires
        base.contains(b),
        r.author_email is Some,
        b.author_email is Some,
        r.author_email == b.author_email,
        r.message == b.message,
    ensures
        !filter_dups(base, rel).contains(r),
    decreases rel.len(),
{
    let i = choose|i: int| 0 <= i < base.len() && base[i] == b;
    assert(is_duplicate(r, #[trigger] base[i]));
    assert(has_duplicate(base, r));
    if rel.len() > 0 {
        lemma_cherry_pick_excluded(base, rel.drop_first(), r, b);
        let out = filter_dups(base, rel);
        let rest = filter_dups(base, rel.drop_first());
        if out.contains(r) {
            let k = choose|k: int| 0 <= k < out.len() && out[k] == r;
            if has_duplicate(base, rel[0]) {
                assert(out[k] == rest[k]);
                assert(rest.contains(r));
            } else {
                if k == 0 {
                    assert(r == rel[0]);
                } else {
                    assert(out[k] == rest[k - 1]);
                    assert(rest.contains(r));
                }
            }
        }
    }
}

/// Whether the messages of two commits are equal; two absent messages are
/// equal.
fn opt_string_eq(a: &Option<String>, b: &Option<String>) -> (r: bool)
    ensures
        r == (a.deep_view() == b.deep_view()),
{
    match (a, b) {
        (None, None) => true,
        (Some(x), Some(y)) => *x == *y,
        _ => false,
    }
}

/// Whether some base-side commit makes `rel` a duplicate under the
/// cherry-pick rule.
fn commit_has_duplicate(base: &Vec<Commit>, rel: &Commit) -> (r: bool)
    ensures
        r == has_duplicate(models(base@), rel@),
{
    let mut i: usize = 0;
    while i < base.len()
        invariant
            i <= base.len(),
            forall|j: int| 0 <= j < i ==> !is_duplicate(rel@, #[trigger] models(base@)[j]),
        decreases base.len() - i,
    {
        assert(models(base@)[i as int] == base@[i as int]@);
        let dup = match (&base[i].author_email, &rel.author_email) {
            (Some(be), Some(re)) => {
                if *be == *re {
                    opt_string_eq(&base[i].message, &rel.message)
                } else {
                    false
                }
            },
            _ => false,
        };
        if dup {
            assert(is_duplicate(rel@, models(base@)[i as int]));
            return true;
        }
        assert(!is_duplicate(rel@, models(base@)[i as int]));
        i = i + 1;
    }
    false
}

/// Remove the release-side commits that are duplicates of a base-side
/// commit under the cherry-pick rule. Fails with `BranchesReversed` when
/// nothing survives although base-only commits exist: that pattern strongly
/// suggests the two branches were passed in swapped order.
pub fn filter_duplicates(base_only: &Vec<Commit>, release_only: &Vec<Commit>) -> (r: Result<
    Vec<Commit>,
    ReleaseError,
>)
    ensures
        match r {
            Ok(v) => {
                &&& models(v@) == filter_dups(models(base_only@), models(release_only@))
                &&& !(v@.len() == 0 && base_only@.len() > 0)
            },
            Err(e) => {
                &&& e == ReleaseError::BranchesReversed
                &&& filter_dups(models(base_only@), models(release_only@)).len() == 0
                &&& base_only@.len() > 0
            },
        },
{
    let ghost bm = models(base_only@);
    let ghost rm = models(release_only@);
    let mut out: Vec<Commit> = Vec::new();
    let mut i: usize = 0;
    assert(rm.skip(0) =~= rm);
    assert(models(out@) + filter_dups(bm, rm) =~= filter_dups(bm, rm));
    while i < release_only.len()
        invariant
            i <= release_only.len(),
            bm == models(base_only@),
            rm == models(release_only@),
            filter_dups(bm, rm) == models(out@) + filter_dups(bm, rm.skip(i as int)),
        decreases release_only.len() - i,
    {
        let ghost tail = rm.skip(i as int);
        assert(tail[0] == rm[i as int]);
        assert(tail.drop_first() =~= rm.skip(i as int + 1));
        let ghost prev = models(out@);
        if !commit_has_duplicate(base_only, &release_only[i]) {
            out.push(release_only[i].duplicate());
            assert(models(out@) =~= prev.push(rm[i as int]));
            assert(prev + (seq![tail[0]] + filter_dups(bm, tail.drop_first())) =~= models(out@)
                + filter_dups(bm, rm.skip(i as int + 1)));
        } else {
            assert(prev + (Seq::<CommitModel>::empty() + filter_dups(bm, tail.drop_first()))
                =~= models(out@) + filter_dups(bm, rm.skip(i as int + 1)));
        }
        i = i + 1;
    }
    assert(rm.skip(i as int) =~= Seq::<CommitModel>::empty());
    assert(models(out@) + Seq::<CommitModel>::empty() =~= models(out@));
    if out.len() == 0 && base_only.len() > 0 {
        return Err(ReleaseError::BranchesReversed);
    }
    Ok(out)
}

} // verus!
