use crate::commit::{find_commit, models, Commit, CommitModel, CommitStore};
use crate::error::ReleaseError;
use vstd::prelude::*;

verus! {

/// Some commit in the store carries this id.
pub open spec fn store_has_id(store: Seq<CommitModel>, id: u64) -> bool {
    exists|j: int| 0 <= j < store.len() && (#[trigger] store[j]).id == id
}

/// Outcome of advancing one walk front by exactly one commit.
pub ghost enum StepOutcome {
    /// The front's current commit was already visited by either front: its
    /// id is the common ancestor.
    Matched { ancestor: u64 },
    /// The front advanced, or was dormant; `front`, `seen` and `list` are
    /// the front cursor, the shared visited list and the front's private
    /// output list as they stand afterwards.
    Advanced { front: Option<CommitModel>, seen: Seq<u64>, list: Seq<CommitModel> },
    /// The walk must abort with this error.
    Failed { err: ReleaseError },
}

/// One step of a single walk front. A dormant front (no candidate) steps to
/// itself. Otherwise: a commit already on the visited list is the common
/// ancestor; a fresh commit is marked visited and appended to the front's
/// list, and the front moves to its single parent, goes dormant on a root
/// commit, fails on a merge commit (two or more parents) and fails when the
/// claimed parent cannot be resolved in the store.
pub open spec fn step_front(
    store: Seq<CommitModel>,
    front: Option<CommitModel>,
    seen: Seq<u64>,
    list: Seq<CommitModel>,
) -> StepOutcome {
    match front {
        None => StepOutcome::Advanced { front: None, seen, list },
        Some(c) => {
            if seen.contains(c.id) {
                StepOutcome::Matched { ancestor: c.id }
            } else if c.parents.len() == 0 {
                StepOutcome::Advanced { front: None, seen: seen.push(c.id), list: list.push(c) }
            } else if c.parents.len() == 1 {
                match find_commit(store, c.parents[0]) {
                    Some(p) => StepOutcome::Advanced {
                        front: Some(p),
                        seen: seen.push(c.id),
                        list: list.push(c),
                    },
                    None => StepOutcome::Failed { err: ReleaseError::MissingParent(c.parents[0]) },
                }
            } else {
                StepOutcome::Failed {
                    err: ReleaseError::UnsupportedMergeCommit(c.id, c.parents.len() as u64),
                }
            }
        },
    }
}

/// The full state of the alternating dual walk between two iterations.
#[verifier::ext_equal]
pub ghost struct WalkState {
    pub next_base: Option<CommitModel>,
    pub next_release: Option<CommitModel>,
    pub seen: Seq<u64>,
    pub base_list: Seq<CommitModel>,
    pub release_list: Seq<CommitModel>,
}

/// Final outcome of the dual walk.
pub ghost enum WalkResult {
    /// The fronts met: the ancestor id, and each front's private list as
    /// collected so far (child before parent, possibly walking past the
    /// ancestor; truncation to the ancestor happens afterwards).
    Found { ancestor: u64, base_list: Seq<CommitModel>, release_list: Seq<CommitModel> },
    /// Both fronts went dormant without meeting: no common ancestor.
    Exhausted,
    /// A step failed.
    Failed { err: ReleaseError },
}

/// Well-formedness of a walk state over a store: the visited list holds
/// each id at most once and only ids of store commits, and each front
/// cursor holds a commit of the store.
pub open spec fn wf_walk_state(store: Seq<CommitModel>, st: WalkState) -> bool {
    &&& st.seen.no_duplicates()
    &&& forall|i: int| 0 <= i < st.seen.len() ==> store_has_id(store, #[trigger] st.seen[i])
    &&& (st.next_base matches Some(c) ==> store.contains(c))
    &&& (st.next_release matches Some(c) ==> store.contains(c))
}

/// A duplicate-free list of ids drawn from the store's commits is no longer
/// than the store itself.
proof fn lemma_seen_bound(store: Seq<CommitModel>, seen: Seq<u64>)
    requires
        seen.no_duplicates(),
        forall|i: int| 0 <= i < seen.len() ==> store_has_id(store, #[trigger] seen[i]),
    ensures
        seen.len() <= store.len(),
{
    broadcast use vstd::seq_lib::seq_to_set_is_finite;

    let ids = store.map_values(|c: CommitModel| c.id);
    seen.unique_seq_to_set();
    ids.lemma_cardinality_of_set();
    assert forall|x: u64| seen.to_set().contains(x) implies ids.to_set().contains(x) by {
        let i = choose|i: int| 0 <= i < seen.len() && seen[i] == x;
        assert(store_has_id(store, seen[i]));
        let j = choose|j: int| 0 <= j < store.len() && (#[trigger] store[j]).id == x;
        assert(ids[j] == x);
        assert(ids.contains(x));
    }
    vstd::set_lib::lemma_len_subset(seen.to_set(), ids.to_set());
}

/// What one step preserves: the visited list stays duplicate-free and drawn
/// from the store, the new front cursor is a store commit, and the visited
/// list grows by one exactly when the front held a commit.
proof fn lemma_step_front_wf(
    store: Seq<CommitModel>,
    front: Option<CommitModel>,
    seen: Seq<u64>,
    list: Seq<CommitModel>,
)
    requires
        seen.no_duplicates(),
        forall|i: int| 0 <= i < seen.len() ==> store_has_id(store, #[trigger] seen[i]),
        front matches Some(c) ==> store.contains(c),
    ensures
        match step_front(store, front, seen, list) {
            StepOutcome::Advanced { front: f2, seen: s2, list: l2 } => {
                &&& s2.no_duplicates()
                &&& forall|i: int| 0 <= i < s2.len() ==> store_has_id(store, #[trigger] s2[i])
                &&& (f2 matches Some(c) ==> store.contains(c))
                &&& (front is Some ==> s2.len() == seen.len() + 1)
                &&& (front is None ==> s2 == seen && f2 is None)
            },
            _ => true,
        },
{
    match front {
        None => {},
        Some(c) => {
            if !seen.contains(c.id) && c.parents.len() <= 1 {
                let s2 = seen.push(c.id);
                assert(s2.no_duplicates()) by {
                    assert(forall|i: int| 0 <= i < seen.len() ==> seen[i] == s2[i]);
                    assert(s2[seen.len() as int] == c.id);
                }
                assert forall|i: int| 0 <= i < s2.len() implies store_has_id(
                    store,
                    #[trigger] s2[i],
                ) by {
                    if i < seen.len() {
                        assert(store_has_id(store, seen[i]));
                    } else {
                        let j = choose|j: int| 0 <= j < store.len() && store[j] == c;
                        assert((#[trigger] store[j]).id == c.id);
                    }
                }
                if c.parents.len() == 1 {
                    if find_commit(store, c.parents[0]) is Some {
                        crate::commit::lemma_find_commit_found(store, c.parents[0]);
                    }
                }
            }
        },
    }
}

/// The alternating dual walk itself: advance the base front by one commit,
/// check for a match, then advance the release front by one commit, check
/// for a match; stop when a front meets an already-visited commit, when
/// both fronts are dormant, or when a step fails. Each continuing iteration
/// visits at least one fresh store commit, which bounds the walk by the
/// store's size.
pub open spec fn walk(store: Seq<CommitModel>, st: WalkState) -> WalkResult
    decreases store.len() - st.seen.len()
        when wf_walk_state(store, st)
        via walk_decreases
{
    match step_front(store, st.next_base, st.seen, st.base_list) {
        StepOutcome::Matched { ancestor } => WalkResult::Found {
            ancestor,
            base_list: st.base_list,
            release_list: st.release_list,
        },
        StepOutcome::Failed { err } => WalkResult::Failed { err },
        StepOutcome::Advanced { front: nb, seen: s1, list: bl } => {
            match step_front(store, st.next_release, s1, st.release_list) {
                StepOutcome::Matched { ancestor } => WalkResult::Found {
                    ancestor,
                    base_list: bl,
                    release_list: st.release_list,
                },
                StepOutcome::Failed { err } => WalkResult::Failed { err },
                StepOutcome::Advanced { front: nr, seen: s2, list: rl } => {
                    if nb is None && nr is None {
                        WalkResult::Exhausted
                    } else {
                        walk(
                            store,
                            WalkState {
                                next_base: nb,
                                next_release: nr,
                                seen: s2,
                                base_list: bl,
                                release_list: rl,
                            },
                        )
                    }
                },
            }
        },
    }
}

#[via_fn]
proof fn walk_decreases(store: Seq<CommitModel>, st: WalkState) {
    lemma_step_front_wf(store, st.next_base, st.seen, st.base_list);
    match step_front(store, st.next_base, st.seen, st.base_list) {
        StepOutcome::Advanced { front: nb, seen: s1, list: bl } => {
            lemma_step_front_wf(store, st.next_release, s1, st.release_list);
            match step_front(store, st.next_release, s1, st.release_list) {
                StepOutcome::Advanced { front: nr, seen: s2, list: rl } => {
                    if !(nb is None && nr is None) {
                        lemma_seen_bound(store, s2);
                    }
                },
                _ => {},
            }
        },
        _ => {},
    }
}

/// Whether the visited list already holds this id.
fn contains_id(seen: &Vec<u64>, id: u64) -> (b: bool)
    ensures
        b == seen@.contains(id),
{
    let mut i: usize = 0;
    while i < seen.len()
        invariant
            i <= seen.len(),
            forall|j: int| 0 <= j < i ==> seen@[j] != id,
        decreases seen.len() - i,
    {
        if seen[i] == id {
            return true;
        }
        i = i + 1;
    }
    false
}

/// Advance one walk front by exactly one commit, exactly as [`step_front`]
/// says: report the common ancestor if the front's commit was already
/// visited, otherwise mark it visited, append it to the front's private
/// list and move the front to its single parent.
fn check_next_parent(
    store: &CommitStore,
    front: Option<Commit>,
    commits: &mut Vec<Commit>,
    seen_commits: &mut Vec<u64>,
) -> (r: Result<(Option<Commit>, Option<u64>), ReleaseError>)
    ensures
        match step_front(store@, front.deep_view(), old(seen_commits)@, models(old(commits)@)) {
            StepOutcome::Matched { ancestor } => {
                &&& r is Ok
                &&& (r->Ok_0).0 is None
                &&& (r->Ok_0).1 == Some(ancestor)
                &&& final(seen_commits)@ == old(seen_commits)@
                &&& models(final(commits)@) == models(old(commits)@)
            },
            StepOutcome::Advanced { front: f2, seen: s2, list: l2 } => {
                &&& r is Ok
                &&& (r->Ok_0).0.deep_view() == f2
                &&& (r->Ok_0).1 is None
                &&& final(seen_commits)@ == s2
                &&& models(final(commits)@) == l2
            },
            StepOutcome::Failed { err } => {
                &&& r is Err
                &&& r->Err_0 == err
            },
        },
{
    match front {
        None => Ok((None, None)),
        Some(c) => {
            if contains_id(seen_commits, c.id) {
                Ok((None, Some(c.id)))
            } else {
                seen_commits.push(c.id);
                if c.parents.len() == 0 {
                    let ghost prev = models(commits@);
                    let ghost cm = c@;
                    commits.push(c);
                    assert(models(commits@) =~= prev.push(cm));
                    Ok((None, None))
                } else if c.parents.len() == 1 {
                    let pid = c.parents[0];
                    match store.find(pid) {
                        Some(p) => {
                            let next = p.duplicate();
                            let ghost prev = models(commits@);
                            let ghost cm = c@;
                            commits.push(c);
                            assert(models(commits@) =~= prev.push(cm));
                            Ok((Some(next), None))
                        },
                        None => Err(ReleaseError::MissingParent(pid)),
                    }
                } else {
                    Err(ReleaseError::UnsupportedMergeCommit(c.id, c.parents.len() as u64))
                }
            }
        },
    }
}

/// The prefix of `l` that comes strictly before the first commit carrying
/// id `a`; all of `l` if no commit carries it.
pub open spec fn take_until(l: Seq<CommitModel>, a: u64) -> Seq<CommitModel>
    decreases l.len(),
{
    if l.len() == 0 {
        Seq::empty()
    } else if l[0].id == a {
        Seq::empty()
    } else {
        seq![l[0]] + take_until(l.drop_first(), a)
    }
}

/// The id cut at never appears in the truncated list.
pub proof fn lemma_take_until_excludes(l: Seq<CommitModel>, a: u64)
    ensures
        forall|i: int|
            0 <= i < take_until(l, a).len() ==> (#[trigger] take_until(l, a)[i]).id != a,
    decreases l.len(),
{
    if l.len() == 0 || l[0].id == a {
    } else {
        lemma_take_until_excludes(l.drop_first(), a);
        let t = take_until(l, a);
        let rest = take_until(l.drop_first(), a);
        assert forall|i: int| 0 <= i < t.len() implies (#[trigger] t[i]).id != a by {
            if i > 0 {
                assert(t[i] == rest[i - 1]);
            }
        }
    }
}

/// Truncate a walked list at the common ancestor, exclusively: keep the
/// commits that come strictly before the first carrying id `ancestor`.
fn take_until_id(list: &Vec<Commit>, ancestor: u64) -> (r: Vec<Commit>)
    ensures
        models(r@) == take_until(models(list@), ancestor),
{
    let ghost full = models(list@);
    let mut r: Vec<Commit> = Vec::new();
    let mut i: usize = 0;
    assert(full.skip(0) =~= full);
    assert(models(r@) + take_until(full, ancestor) =~= take_until(full, ancestor));
    while i < list.len()
        invariant_except_break
            i <= list.len(),
            full == models(list@),
            take_until(full, ancestor) == models(r@) + take_until(full.skip(i as int), ancestor),
        ensures
            take_until(full, ancestor) == models(r@),
        decreases list.len() - i,
    {
        let ghost tail = full.skip(i as int);
        assert(tail[0] == full[i as int]);
        if list[i].id == ancestor {
            assert(take_until(tail, ancestor) =~= Seq::<CommitModel>::empty());
            assert(models(r@) + Seq::<CommitModel>::empty() =~= models(r@));
            break ;
        }
        let ghost prev = models(r@);
        r.push(list[i].duplicate());
        assert(models(r@) =~= prev.push(full[i as int]));
        assert(tail.drop_first() =~= full.skip(i as int + 1));
        assert(prev + (seq![tail[0]] + take_until(tail.drop_first(), ancestor)) =~= models(r@)
            + take_until(full.skip(i as int + 1), ancestor));
        i = i + 1;
        if i == list.len() {
            assert(full.skip(i as int).len() == 0);
        }
    }
    if i == list.len() {
        assert(full.skip(i as int) =~= Seq::<CommitModel>::empty());
        assert(models(r@) + Seq::<CommitModel>::empty() =~= models(r@));
    }
    r
}

/// What the Ancestor Walker returns on success: the common ancestor id and
/// each branch's private commits, in child-before-parent (newest first)
/// order, both lists cut exclusively at the ancestor.
pub struct Diverged {
    pub ancestor: u64,
    pub base_only: Vec<Commit>,
    pub release_only: Vec<Commit>,
}

/// The initial walk state: both fronts at their branch heads, nothing
/// visited, both private lists empty.
pub open spec fn init_state(base: CommitModel, release: CommitModel) -> WalkState {
    WalkState {
        next_base: Some(base),
        next_release: Some(release),
        seen: Seq::empty(),
        base_list: Seq::empty(),
        release_list: Seq::empty(),
    }
}

/// The full Ancestor Walker, as a function of the store and the two head
/// ids: resolve both heads, reject identical heads, run the alternating
/// dual walk, and cut both collected lists at the ancestor, exclusively.
pub open spec fn diverge_spec(store: Seq<CommitModel>, base_head: u64, release_head: u64) -> Result<
    (u64, Seq<CommitModel>, Seq<CommitModel>),
    ReleaseError,
> {
    match find_commit(store, base_head) {
        None => Err(ReleaseError::BranchNotFound(base_head)),
        Some(b) => match find_commit(store, release_head) {
            None => Err(ReleaseError::BranchNotFound(release_head)),
            Some(r) => {
                if b.id == r.id {
                    Err(ReleaseError::IdenticalBranches)
                } else {
                    match walk(store, init_state(b, r)) {
                        WalkResult::Failed { err } => Err(err),
                        WalkResult::Exhausted => Err(ReleaseError::NoCommonAncestor),
                        WalkResult::Found { ancestor, base_list, release_list } => Ok(
                            (
                                ancestor,
                                take_until(base_list, ancestor),
                                take_until(release_list, ancestor),
                            ),
                        ),
                    }
                }
            },
        },
    }
}

/// Find the common ancestor of the two branch heads and the commits private
/// to each branch.
///
/// The walk advances the two fronts in strict alternation, base first, over
/// a single shared visited set, so the ancestor choice is deterministic.
/// On success the ancestor id appears in neither returned list.
pub fn diverge(store: &CommitStore, base_head: u64, release_head: u64) -> (r: Result<
    Diverged,
    ReleaseError,
>)
    ensures
        match r {
            Ok(d) => {
                &&& diverge_spec(store@, base_head, release_head) matches Ok(s)
                &&& d.ancestor == s.0
                &&& models(d.base_only@) == s.1
                &&& models(d.release_only@) == s.2
                &&& forall|i: int|
                    0 <= i < d.base_only@.len() ==> (#[trigger] models(d.base_only@)[i]).id
                        != d.ancestor
                &&& forall|i: int|
                    0 <= i < d.release_only@.len() ==> (#[trigger] models(d.release_only@)[i]).id
                        != d.ancestor
            },
            Err(e) => diverge_spec(store@, base_head, release_head) == Err::<
                (u64, Seq<CommitModel>, Seq<CommitModel>),
                ReleaseError,
            >(e),
        },
{
    let base = match store.find(base_head) {
        Some(c) => c.duplicate(),
        None => {
            return Err(ReleaseError::BranchNotFound(base_head));
        },
    };
    let release = match store.find(release_head) {
        Some(c) => c.duplicate(),
        None => {
            return Err(ReleaseError::BranchNotFound(release_head));
        },
    };
    proof {
        crate::commit::lemma_find_commit_found(store@, base_head);
        crate::commit::lemma_find_commit_found(store@, release_head);
    }
    if base.id == release.id {
        return Err(ReleaseError::IdenticalBranches);
    }
    let ghost st0 = init_state(base@, release@);
    let mut base_commits: Vec<Commit> = Vec::new();
    let mut release_commits: Vec<Commit> = Vec::new();
    let mut seen_commits: Vec<u64> = Vec::new();
    let mut next_base: Option<Commit> = Some(base);
    let mut next_release: Option<Commit> = Some(release);
    let mut ancestor: Option<u64> = None;
    proof {
        assert(st0 =~= WalkState {
            next_base: next_base.deep_view(),
            next_release: next_release.deep_view(),
            seen: seen_commits@,
            base_list: models(base_commits@),
            release_list: models(release_commits@),
        });
        assert(models(Seq::<Commit>::empty()) =~= Seq::<CommitModel>::empty());
        assert(wf_walk_state(store@, st0));
    }
    loop
        invariant_except_break
            find_commit(store@, base_head) is Some,
            find_commit(store@, release_head) is Some,
            (find_commit(store@, base_head)->Some_0).id != (find_commit(
                store@,
                release_head,
            )->Some_0).id,
            st0 == init_state(
                find_commit(store@, base_head)->Some_0,
                find_commit(store@, release_head)->Some_0,
            ),
            wf_walk_state(store@, st0),
            ancestor is None,
            wf_walk_state(
                store@,
                (WalkState {
                    next_base: next_base.deep_view(),
                    next_release: next_release.deep_view(),
                    seen: seen_commits@,
                    base_list: models(base_commits@),
                    release_list: models(release_commits@),
                }),
            ),
            walk(store@, st0) == walk(
                store@,
                (WalkState {
                    next_base: next_base.deep_view(),
                    next_release: next_release.deep_view(),
                    seen: seen_commits@,
                    base_list: models(base_commits@),
                    release_list: models(release_commits@),
                }),
            ),
            seen_commits@.len() <= store@.len(),
        ensures
            match ancestor {
                Some(a) => walk(store@, st0) == (WalkResult::Found {
                    ancestor: a,
                    base_list: models(base_commits@),
                    release_list: models(release_commits@),
                }),
                None => walk(store@, st0) == WalkResult::Exhausted,
            },
        decreases store@.len() - seen_commits@.len(),
    {
        let ghost st_pre = WalkState {
            next_base: next_base.deep_view(),
            next_release: next_release.deep_view(),
            seen: seen_commits@,
            base_list: models(base_commits@),
            release_list: models(release_commits@),
        };
        proof {
            lemma_step_front_wf(store@, st_pre.next_base, st_pre.seen, st_pre.base_list);
        }
        let cur_base = next_base;
        next_base = None;
        match check_next_parent(store, cur_base, &mut base_commits, &mut seen_commits) {
            Err(e) => {
                proof {
                    assert(walk(store@, st_pre) == (WalkResult::Failed { err: e }));
                }
                return Err(e);
            },
            Ok((nf, matched)) => {
                next_base = nf;
                if let Some(a) = matched {
                    proof {
                        assert(walk(store@, st_pre) == (WalkResult::Found {
                            ancestor: a,
                            base_list: models(base_commits@),
                            release_list: models(release_commits@),
                        }));
                    }
                    ancestor = Some(a);
                    break ;
                }
            },
        }
        proof {
            lemma_step_front_wf(
                store@,
                st_pre.next_release,
                seen_commits@,
                models(release_commits@),
            );
        }
        let cur_release = next_release;
        next_release = None;
        match check_next_parent(store, cur_release, &mut release_commits, &mut seen_commits) {
            Err(e) => {
                proof {
                    assert(walk(store@, st_pre) == (WalkResult::Failed { err: e }));
                }
                return Err(e);
            },
            Ok((nf, matched)) => {
                next_release = nf;
                if let Some(a) = matched {
                    proof {
                        assert(walk(store@, st_pre) == (WalkResult::Found {
                            ancestor: a,
                            base_list: models(base_commits@),
                            release_list: models(release_commits@),
                        }));
                    }
                    ancestor = Some(a);
                    break ;
                }
            },
        }
        proof {
            lemma_seen_bound(store@, seen_commits@);
        }
        if next_base.is_none() && next_release.is_none() {
            break ;
        }
    }
    match ancestor {
        None => Err(ReleaseError::NoCommonAncestor),
        Some(a) => {
            let base_only = take_until_id(&base_commits, a);
            let release_only = take_until_id(&release_commits, a);
            proof {
                lemma_take_until_excludes(models(base_commits@), a);
                lemma_take_until_excludes(models(release_commits@), a);
            }
            Ok(Diverged { ancestor: a, base_only, release_only })
        },
    }
}

/// The Ancestor Walker is deterministic: two runs over the same store and
/// the same two heads yield the very same outcome, lists and order
/// included.
pub proof fn lemma_diverge_deterministic(
    store: Seq<CommitModel>,
    base_head: u64,
    release_head: u64,
    r1: Result<(u64, Seq<CommitModel>, Seq<CommitModel>), ReleaseError>,
    r2: Result<(u64, Seq<CommitModel>, Seq<CommitModel>), ReleaseError>,
)
    requires
        r1 == diverge_spec(store, base_head, release_head),
        r2 == diverge_spec(store, base_head, release_head),
    ensures
        r1 == r2,
{
}

} // verus!
