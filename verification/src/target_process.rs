use crate::release_item::ReleaseItem;
use vstd::prelude::*;
use vstd::string::StringExecFns;
use vstd::string::StrSliceExecFns;

verus! {

/// The kind of tracker entity a fetched record belongs to.
#[derive(Clone, Copy, Debug, PartialEq, Eq, Structural)]
pub struct EntityType {
    pub id: u32,
}

/// One record fetched from the issue tracker for a ticket identifier.
#[derive(Debug)]
pub struct Assignable {
    pub id: u32,
    pub name: String,
    pub description: String,
    pub entity_type: EntityType,
}

/// The mathematical value of an [`Assignable`].
#[verifier::ext_equal]
pub ghost struct AssignableModel {
    pub id: u32,
    pub name: Seq<char>,
    pub description: Seq<char>,
    pub entity_type: EntityType,
}

impl View for Assignable {
    type V = AssignableModel;

    open spec fn view(&self) -> AssignableModel {
        AssignableModel {
            id: self.id,
            name: self.name@,
            description: self.description@,
            entity_type: self.entity_type,
        }
    }
}

impl DeepView for Assignable {
    type V = AssignableModel;

    open spec fn deep_view(&self) -> AssignableModel {
        self.view()
    }
}

/// Where the issue tracker lives and how to authenticate against it.
pub struct TargetProcessSettings {
    pub url: String,
    pub access_token: String,
}

/// What `str::trim` returns on the given text.
pub uninterp spec fn trim_of(s: Seq<char>) -> Seq<char>;

/// Relies on `str::trim`: removes leading and trailing whitespace; the
/// result is a function of the input characters alone.
#[verifier::external_body]
fn trim_str(s: &str) -> (r: &str)
    ensures
        r@ == trim_of(s@),
{
    s.trim()
}

/// The text fragments kept for display: each fragment trimmed, fragments
/// that trim to nothing dropped, order preserved.
pub open spec fn clean_frags(frags: Seq<Seq<char>>) -> Seq<Seq<char>>
    decreases frags.len(),
{
    if frags.len() == 0 {
        Seq::empty()
    } else {
        (if trim_of(frags[0]).len() > 0 {
            seq![trim_of(frags[0])]
        } else {
            Seq::empty()
        }) + clean_frags(frags.drop_first())
    }
}

/// The fragments joined by a line break plus tab indent.
pub open spec fn join_tabbed(frags: Seq<Seq<char>>) -> Seq<char>
    decreases frags.len(),
{
    if frags.len() == 0 {
        Seq::empty()
    } else if frags.len() == 1 {
        frags[0]
    } else {
        frags[0] + seq!['\n', '\t'] + join_tabbed(frags.drop_first())
    }
}

/// What a cleaned-up description looks like, as a function of the text
/// fragments of its markup: each fragment trimmed, empty ones dropped, the
/// rest joined by a line break plus tab indent.
pub open spec fn nice_description_spec(frags: Seq<Seq<char>>) -> Seq<char> {
    join_tabbed(clean_frags(frags))
}

/// Tidy the text fragments of a record's description for display: trim
/// each fragment, drop the ones that trim to nothing, and join the rest
/// with a line break plus tab indent.
pub fn clean_description(fragments: &Vec<String>) -> (r: String)
    ensures
        r@ == nice_description_spec(fragments.deep_view()),
{
    let ghost dv = fragments.deep_view();
    let mut kept: Vec<String> = Vec::new();
    let mut i: usize = 0;
    assert(dv.skip(0) =~= dv);
    assert(kept.deep_view() + clean_frags(dv) =~= clean_frags(dv));
    while i < fragments.len()
        invariant
            i <= fragments.len(),
            dv == fragments.deep_view(),
            clean_frags(dv) == kept.deep_view() + clean_frags(dv.skip(i as int)),
        decreases fragments.len() - i,
    {
        let ghost tail = dv.skip(i as int);
        assert(tail[0] == dv[i as int]);
        assert(tail.drop_first() =~= dv.skip(i as int + 1));
        assert(dv[i as int] == fragments@[i as int]@);
        let ghost prev = kept.deep_view();
        let t = trim_str(fragments[i].as_str());
        if !t.is_empty() {
            kept.push(t.to_owned());
            assert(kept.deep_view() =~= prev.push(trim_of(dv[i as int])));
            assert(prev + (seq![trim_of(tail[0])] + clean_frags(tail.drop_first())) =~= kept.deep_view()
                + clean_frags(dv.skip(i as int + 1)));
        } else {
            assert(prev + (Seq::<Seq<char>>::empty() + clean_frags(tail.drop_first())) =~= kept.deep_view()
                + clean_frags(dv.skip(i as int + 1)));
        }
        i = i + 1;
    }
    assert(dv.skip(i as int) =~= Seq::<Seq<char>>::empty());
    assert(kept.deep_view() + Seq::<Seq<char>>::empty() =~= kept.deep_view());
    let ghost cf = clean_frags(dv);
    let mut out = String::new();
    let mut j: usize = 0;
    while j < kept.len()
        invariant
            j <= kept.len(),
            cf == kept.deep_view(),
            j == 0 ==> out@ == Seq::<char>::empty(),
            0 < j < kept.len() ==> join_tabbed(cf) == out@ + seq!['\n', '\t'] + join_tabbed(
                cf.skip(j as int),
            ),
            j == kept.len() && j > 0 ==> out@ == join_tabbed(cf),
        decreases kept.len() - j,
    {
        let ghost before = out@;
        if j > 0 {
            let sep = "\n\t";
            proof {
                reveal_strlit("\n\t");
                assert(sep@ =~= seq!['\n', '\t']);
            }
            out.append(sep);
        }
        assert(kept.deep_view()[j as int] == kept@[j as int]@);
        out.append(kept[j].as_str());
        proof {
            let ghost tail = cf.skip(j as int);
            assert(tail[0] == cf[j as int]);
            assert(tail.drop_first() =~= cf.skip(j as int + 1));
            if j == 0 {
                if kept.len() == 1 {
                    assert(out@ =~= join_tabbed(cf));
                } else {
                    assert(cf.skip(0) =~= cf);
                    assert(join_tabbed(cf) =~= out@ + seq!['\n', '\t'] + join_tabbed(
                        cf.skip(1),
                    ));
                }
            } else {
                if j + 1 == kept.len() {
                    assert(tail.len() == 1);
                    assert(join_tabbed(tail) == tail[0]);
                    assert(out@ =~= join_tabbed(cf));
                } else {
                    assert(join_tabbed(tail) == tail[0] + seq!['\n', '\t'] + join_tabbed(
                        tail.drop_first(),
                    ));
                    assert(join_tabbed(cf) =~= out@ + seq!['\n', '\t'] + join_tabbed(
                        cf.skip(j as int + 1),
                    ));
                }
            }
        }
        j = j + 1;
    }
    if kept.len() == 0 {
        assert(out@ =~= join_tabbed(cf));
    }
    out
}

/// The character of one decimal digit.
pub open spec fn digit_char(d: nat) -> char {
    if d == 0 {
        '0'
    } else if d == 1 {
        '1'
    } else if d == 2 {
        '2'
    } else if d == 3 {
        '3'
    } else if d == 4 {
        '4'
    } else if d == 5 {
        '5'
    } else if d == 6 {
        '6'
    } else if d == 7 {
        '7'
    } else if d == 8 {
        '8'
    } else {
        '9'
    }
}

/// The decimal spelling of a number, most significant digit first, no
/// leading zeros (a single zero for zero).
pub open spec fn dec_digits(n: nat) -> Seq<char>
    decreases n,
{
    if n < 10 {
        seq![digit_char(n)]
    } else {
        dec_digits(n / 10).push(digit_char(n % 10))
    }
}

/// The one-character text of one decimal digit.
fn digit_str(d: u32) -> (r: &'static str)
    requires
        d < 10,
    ensures
        r@ == seq![digit_char(d as nat)],
{
    if d == 0 {
        let s = "0";
        proof {
            reveal_strlit("0");
            assert(s@ =~= seq![digit_char(0)]);
        }
        s
    } else if d == 1 {
        let s = "1";
        proof {
            reveal_strlit("1");
            assert(s@ =~= seq![digit_char(1)]);
        }
        s
    } else if d == 2 {
        let s = "2";
        proof {
            reveal_strlit("2");
            assert(s@ =~= seq![digit_char(2)]);
        }
        s
    } else if d == 3 {
        let s = "3";
        proof {
            reveal_strlit("3");
            assert(s@ =~= seq![digit_char(3)]);
        }
        s
    } else if d == 4 {
        let s = "4";
        proof {
            reveal_strlit("4");
            assert(s@ =~= seq![digit_char(4)]);
        }
        s
    } else if d == 5 {
        let s = "5";
        proof {
            reveal_strlit("5");
            assert(s@ =~= seq![digit_char(5)]);
        }
        s
    } else if d == 6 {
        let s = "6";
        proof {
            reveal_strlit("6");
            assert(s@ =~= seq![digit_char(6)]);
        }
        s
    } else if d == 7 {
        let s = "7";
        proof {
            reveal_strlit("7");
            assert(s@ =~= seq![digit_char(7)]);
        }
        s
    } else if d == 8 {
        let s = "8";
        proof {
            reveal_strlit("8");
            assert(s@ =~= seq![digit_char(8)]);
        }
        s
    } else {
        let s = "9";
        proof {
            reveal_strlit("9");
            assert(s@ =~= seq![digit_char(9)]);
        }
        s
    }
}

/// Append the decimal spelling of `n`.
fn push_decimal(out: &mut String, n: u32)
    ensures
        final(out)@ == old(out)@ + dec_digits(n as nat),
    decreases n,
{
    if n < 10 {
        out.append(digit_str(n));
        assert(final(out)@ =~= old(out)@ + dec_digits(n as nat));
    } else {
        push_decimal(out, n / 10);
        out.append(digit_str(n % 10));
        assert(final(out)@ =~= old(out)@ + dec_digits(n as nat));
    }
}

/// The tracker query filter for one ticket identifier: match a request by
/// its `RRQ:<n>` name, a tracker item by its numeric id.
pub open spec fn filter_query(id: crate::extract::ReleaseIdentifier) -> Seq<char> {
    match id {
        crate::extract::ReleaseIdentifier::RequestId(n) => "Name contains 'RRQ:"@ + dec_digits(
            n as nat,
        ) + "'"@,
        crate::extract::ReleaseIdentifier::TrackerId(n) => "id eq "@ + dec_digits(n as nat),
    }
}

/// Build the tracker query filter for one ticket identifier.
pub fn filter_for(id: &crate::extract::ReleaseIdentifier) -> (r: String)
    ensures
        r@ == filter_query(*id),
{
    match id {
        crate::extract::ReleaseIdentifier::RequestId(n) => {
            let mut out = String::new();
            out.append("Name contains 'RRQ:");
            push_decimal(&mut out, *n);
            out.append("'");
            assert(out@ =~= filter_query(crate::extract::ReleaseIdentifier::RequestId(*n)));
            out
        },
        crate::extract::ReleaseIdentifier::TrackerId(n) => {
            let mut out = String::new();
            out.append("id eq ");
            push_decimal(&mut out, *n);
            assert(out@ =~= filter_query(crate::extract::ReleaseIdentifier::TrackerId(*n)));
            out
        },
    }
}

/// Whether an item has any ticket identifier and so takes part in
/// enrichment.
pub fn needs_enrichment(item: &ReleaseItem) -> (b: bool)
    ensures
        b == (item@.ids.len() > 0),
{
    item.ids.len() > 0
}

/// Write the records fetched for one item back into that item, and only
/// there: an empty fetch leaves the item untouched, so a failed or empty
/// lookup never erases anything.
pub fn apply_enrichment(item: &mut ReleaseItem, found: Vec<Assignable>)
    ensures
        final(item)@.sha1 == old(item)@.sha1,
        final(item)@.commit_summary == old(item)@.commit_summary,
        final(item)@.ids == old(item)@.ids,
        found.len() > 0 ==> final(item)@.assignables == Some(found.deep_view()),
        found.len() == 0 ==> final(item)@.assignables == old(item)@.assignables,
{
    if found.len() > 0 {
        item.assignables = Some(found);
    }
}

} // verus!
