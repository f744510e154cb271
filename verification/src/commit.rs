use vstd::prelude::*;

verus! {

/// One commit, reduced to the fields the core reads: the content-addressed
/// id, the ids of its parents, the author email (absent on some commits) and
/// the full, possibly multi-line message (absent on some commits).
///
/// Commits are immutable; the core only ever copies them.
#[derive(Debug)]
pub struct Commit {
    pub id: u64,
    pub parents: Vec<u64>,
    pub author_email: Option<String>,
    pub message: Option<String>,
}

/// The mathematical value of a [`Commit`].
#[verifier::ext_equal]
pub ghost struct CommitModel {
    pub id: u64,
    pub parents: Seq<u64>,
    pub author_email: Option<Seq<char>>,
    pub message: Option<Seq<char>>,
}

impl View for Commit {
    type V = CommitModel;

    open spec fn view(&self) -> CommitModel {
        CommitModel {
            id: self.id,
            parents: self.parents@,
            author_email: self.author_email.deep_view(),
            message: self.message.deep_view(),
        }
    }
}

impl DeepView for Commit {
    type V = CommitModel;

    open spec fn deep_view(&self) -> CommitModel {
        self.view()
    }
}

/// The models of a sequence of commits, in order.
pub open spec fn models(s: Seq<Commit>) -> Seq<CommitModel> {
    s.map_values(|c: Commit| c@)
}

impl Commit {
    /// An owned copy carrying the same commit data.
    pub fn duplicate(&self) -> (r: Commit)
        ensures
            r@ == self@,
    {
        let mut parents: Vec<u64> = Vec::new();
        let mut i: usize = 0;
        while i < self.parents.len()
            invariant
                i <= self.parents.len(),
                parents@ == self.parents@.take(i as int),
            decreases self.parents.len() - i,
        {
            parents.push(self.parents[i]);
            assert(parents@ =~= self.parents@.take(i as int + 1));
            i = i + 1;
        }
        assert(parents@ =~= self.parents@);
        let author_email = match &self.author_email {
            Some(s) => Some(s.clone()),
            None => None,
        };
        let message = match &self.message {
            Some(s) => Some(s.clone()),
            None => None,
        };
        let r = Commit { id: self.id, parents, author_email, message };
        assert(r@ =~= self@);
        r
    }
}

/// An in-memory arena of already-resolved commits. The caller extracts the
/// few needed fields of each commit right after reading it from the
/// underlying repository and deposits them here; the walk then runs over
/// plain values only.
pub struct CommitStore {
    pub commits: Vec<Commit>,
}

impl View for CommitStore {
    type V = Seq<CommitModel>;

    open spec fn view(&self) -> Seq<CommitModel> {
        models(self.commits@)
    }
}

/// The first commit in `store` carrying the given id, if any.
pub open spec fn find_commit(store: Seq<CommitModel>, id: u64) -> Option<CommitModel>
    decreases store.len(),
{
    if store.len() == 0 {
        None
    } else if store[0].id == id {
        Some(store[0])
    } else {
        find_commit(store.drop_first(), id)
    }
}

/// A found commit is a member of the store and carries the id it was
/// looked up under.
pub proof fn lemma_find_commit_found(store: Seq<CommitModel>, id: u64)
    requires
        find_commit(store, id) is Some,
    ensures
        store.contains(find_commit(store, id)->Some_0),
        (find_commit(store, id)->Some_0).id == id,
    decreases store.len(),
{
    if store.len() > 0 && store[0].id != id {
        lemma_find_commit_found(store.drop_first(), id);
        assert(store.drop_first().contains(find_commit(store, id)->Some_0));
        let i = choose|i: int|
            0 <= i < store.drop_first().len() && store.drop_first()[i] == find_commit(
                store,
                id,
            )->Some_0;
        assert(store[i + 1] == find_commit(store, id)->Some_0);
    }
}

impl CommitStore {
    /// An empty store.
    pub fn new() -> (r: CommitStore)
        ensures
            r@ == Seq::<CommitModel>::empty(),
    {
        let r = CommitStore { commits: Vec::new() };
        assert(r@ =~= Seq::<CommitModel>::empty());
        r
    }

    /// Deposit one commit.
    pub fn add(&mut self, c: Commit)
        ensures
            final(self)@ == old(self)@.push(c@),
    {
        let ghost prev = self@;
        let ghost cm = c@;
        self.commits.push(c);
        assert(self@ =~= prev.push(cm));
    }

    /// Look a commit up by id: the first commit in deposit order that
    /// carries it.
    pub fn find(&self, id: u64) -> (r: Option<&Commit>)
        ensures
            match r {
                Some(c) => find_commit(self@, id) == Some(c@),
                None => find_commit(self@, id) is None,
            },
    {
        let mut i: usize = 0;
        assert(self@.skip(0) =~= self@);
        while i < self.commits.len()
            invariant
                i <= self.commits.len(),
                find_commit(self@, id) == find_commit(self@.skip(i as int), id),
            decreases self.commits.len() - i,
        {
            if self.commits[i].id == id {
                assert(self@.skip(i as int)[0] == self@[i as int]);
                return Some(&self.commits[i]);
            }
            assert(self@.skip(i as int).drop_first() =~= self@.skip(i as int + 1));
            i = i + 1;
        }
        assert(self@.skip(i as int).len() == 0);
        None
    }
}

} // verus!
