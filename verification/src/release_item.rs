use crate::commit::{models, Commit, CommitModel};
use crate::error::ReleaseError;
use crate::extract::{extract, extract_spec, ReleaseIdentifier};
use crate::target_process::{Assignable, AssignableModel};
use vstd::prelude::*;
use vstd::string::StrSliceExecFns;

verus! {

/// One entry of the release report: the source commit id, the first line
/// of the commit message, the ticket identifiers found in that line, and
/// the tracker records fetched later by the enrichment step (absent until
/// then).
#[derive(Debug)]
pub struct ReleaseItem {
    pub sha1: u64,
    pub commit_summary: String,
    pub ids: Vec<ReleaseIdentifier>,
    pub assignables: Option<Vec<Assignable>>,
}

/// The mathematical value of a [`ReleaseItem`].
#[verifier::ext_equal]
pub ghost struct ReleaseItemModel {
    pub sha1: u64,
    pub commit_summary: Seq<char>,
    pub ids: Seq<ReleaseIdentifier>,
    pub assignables: Option<Seq<AssignableModel>>,
}

impl View for ReleaseItem {
    type V = ReleaseItemModel;

    open spec fn view(&self) -> ReleaseItemModel {
        ReleaseItemModel {
            sha1: self.sha1,
            commit_summary: self.commit_summary@,
            ids: self.ids@,
            assignables: self.assignables.deep_view(),
        }
    }
}

impl DeepView for ReleaseItem {
    type V = ReleaseItemModel;

    open spec fn deep_view(&self) -> ReleaseItemModel {
        self.view()
    }
}

/// The position of the first line break at or after `i`, or the end of the
/// text.
pub open spec fn line_break(s: Seq<char>, i: int) -> int
    decreases s.len() - i
        when 0 <= i <= s.len()
{
    if i == s.len() {
        i
    } else if s[i] == '\n' {
        i
    } else {
        line_break(s, i + 1)
    }
}

/// The first line of a message: everything before the first line break,
/// with one trailing carriage return stripped. Empty when the message is
/// empty or starts with a line break.
pub open spec fn first_line(s: Seq<char>) -> Seq<char> {
    let e = line_break(s, 0);
    if e > 0 && s[e - 1] == '\r' {
        s.subrange(0, e - 1)
    } else {
        s.subrange(0, e)
    }
}

/// A commit can be summarized: it has a message whose first line is
/// non-empty.
pub open spec fn item_ok(c: CommitModel) -> bool {
    &&& c.message is Some
    &&& first_line(c.message->Some_0).len() > 0
}

/// The report entry derived from one commit: its id, the first line of its
/// message, and the identifiers extracted from that line; enrichment starts
/// out absent.
pub open spec fn item_spec(c: CommitModel) -> ReleaseItemModel {
    ReleaseItemModel {
        sha1: c.id,
        commit_summary: first_line(c.message->Some_0),
        ids: extract_spec(first_line(c.message->Some_0)),
        assignables: None,
    }
}

impl ReleaseItem {
    /// Derive the report entry for one commit. Fails with
    /// `EmptyCommitMessage` exactly when the commit has no message or the
    /// message's first line is empty.
    pub fn new(commit: &Commit) -> (r: Result<ReleaseItem, ReleaseError>)
        ensures
            match r {
                Ok(item) => item_ok(commit@) && item@ == item_spec(commit@),
                Err(e) => !item_ok(commit@) && e == ReleaseError::EmptyCommitMessage(commit.id),
            },
    {
        match &commit.message {
            None => Err(ReleaseError::EmptyCommitMessage(commit.id)),
            Some(m) => {
                let ms = m.as_str();
                let n = ms.unicode_len();
                let mut i: usize = 0;
                while i < n && ms.get_char(i) != '\n'
                    invariant
                        n == ms@.len(),
                        i <= n,
                        line_break(ms@, 0) == line_break(ms@, i as int),
                    decreases n - i,
                {
                    i = i + 1;
                }
                assert(line_break(ms@, i as int) == i as int);
                let end = if i > 0 && ms.get_char(i - 1) == '\r' {
                    i - 1
                } else {
                    i
                };
                assert(end as int == first_line(ms@).len());
                if end == 0 {
                    assert(!item_ok(commit@));
                    return Err(ReleaseError::EmptyCommitMessage(commit.id));
                }
                let summary_str = ms.substring_char(0, end);
                assert(summary_str@ =~= first_line(ms@));
                let ids = extract(summary_str);
                let item = ReleaseItem {
                    sha1: commit.id,
                    commit_summary: summary_str.to_owned(),
                    ids,
                    assignables: None,
                };
                assert(item@ =~= item_spec(commit@));
                Ok(item)
            },
        }
    }
}

/// The whole assembly step as a function of the surviving release commits:
/// one report entry per commit, in the same newest-first order, stopping
/// at the first commit that cannot be summarized.
pub open spec fn assemble_spec(commits: Seq<CommitModel>) -> Result<
    Seq<ReleaseItemModel>,
    ReleaseError,
>
    decreases commits.len(),
{
    if commits.len() == 0 {
        Ok(Seq::empty())
    } else if !item_ok(commits[0]) {
        Err(ReleaseError::EmptyCommitMessage(commits[0].id))
    } else {
        match assemble_spec(commits.drop_first()) {
            Ok(rest) => Ok(seq![item_spec(commits[0])] + rest),
            Err(e) => Err(e),
        }
    }
}

/// Turn the surviving release commits into report entries, one per commit,
/// preserving order; a pure per-element transform with no reordering,
/// deduplication or truncation.
pub fn assemble(commits: &Vec<Commit>) -> (r: Result<Vec<ReleaseItem>, ReleaseError>)
    ensures
        match r {
            Ok(v) => {
                &&& assemble_spec(models(commits@)) matches Ok(s)
                &&& v.deep_view() == s
            },
            Err(e) => assemble_spec(models(commits@)) == Err::<Seq<ReleaseItemModel>, ReleaseError>(
                e,
            ),
        },
{
    let ghost full = models(commits@);
    let mut out: Vec<ReleaseItem> = Vec::new();
    let mut i: usize = 0;
    assert(full.skip(0) =~= full);
    while i < commits.len()
        invariant
            i <= commits.len(),
            full == models(commits@),
            assemble_spec(full.skip(i as int)) matches Ok(rest) ==> assemble_spec(full) == Ok::<
                Seq<ReleaseItemModel>,
                ReleaseError,
            >(out.deep_view() + rest),
            assemble_spec(full.skip(i as int)) is Err ==> assemble_spec(full) == assemble_spec(
                full.skip(i as int),
            ),
        decreases commits.len() - i,
    {
        let ghost tail = full.skip(i as int);
        assert(tail[0] == full[i as int]);
        assert(tail.drop_first() =~= full.skip(i as int + 1));
        match ReleaseItem::new(&commits[i]) {
            Err(e) => {
                assert(assemble_spec(tail) == Err::<Seq<ReleaseItemModel>, ReleaseError>(e));
                return Err(e);
            },
            Ok(item) => {
                let ghost prev = out.deep_view();
                out.push(item);
                assert(out.deep_view() =~= prev.push(item_spec(full[i as int])));
                proof {
                    let after = assemble_spec(full.skip(i as int + 1));
                    if after is Ok {
                        let rest = after->Ok_0;
                        assert(assemble_spec(tail) == Ok::<Seq<ReleaseItemModel>, ReleaseError>(
                            seq![item_spec(tail[0])] + rest,
                        ));
                        assert(prev + (seq![item_spec(tail[0])] + rest) =~= out.deep_view() + rest);
                    }
                }
            },
        }
        i = i + 1;
    }
    assert(full.skip(i as int) =~= Seq::<CommitModel>::empty());
    assert(out.deep_view() + Seq::<ReleaseItemModel>::empty() =~= out.deep_view());
    Ok(out)
}

} // verus!
