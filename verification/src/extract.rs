use vstd::prelude::*;
use vstd::string::StrSliceExecFns;

verus! {

/// A ticket identifier extracted from a commit summary: a tracker item id
/// written `id:<digits>` (or `ID:`), or a release request id written
/// `rrq:<digits>` (or `RRQ:`). Equality is by variant and numeric value.
#[derive(Clone, Copy, Debug, PartialEq, Eq, Structural)]
pub enum ReleaseIdentifier {
    TrackerId(u32),
    RequestId(u32),
}

/// Which of the two patterns a scan looks for.
#[derive(Clone, Copy, Debug, PartialEq, Eq, Structural)]
pub enum IdKind {
    Tracker,
    Request,
}

/// A decimal digit.
pub open spec fn is_digit(c: char) -> bool {
    '0' as u32 <= c as u32 && c as u32 <= '9' as u32
}

/// The numeric value of one decimal digit.
pub open spec fn digit_val(c: char) -> nat {
    (c as int - '0' as int) as nat
}

/// The key `id:` or `ID:` starts at position `i`. Mixed case is not
/// accepted.
pub open spec fn tracker_key_at(s: Seq<char>, i: int) -> bool {
    &&& 0 <= i
    &&& i + 3 <= s.len()
    &&& ((s[i] == 'i' && s[i + 1] == 'd') || (s[i] == 'I' && s[i + 1] == 'D'))
    &&& s[i + 2] == ':'
}

/// The key `rrq:` or `RRQ:` starts at position `i`. Mixed case is not
/// accepted.
pub open spec fn request_key_at(s: Seq<char>, i: int) -> bool {
    &&& 0 <= i
    &&& i + 4 <= s.len()
    &&& ((s[i] == 'r' && s[i + 1] == 'r' && s[i + 2] == 'q') || (s[i] == 'R' && s[i + 1] == 'R'
        && s[i + 2] == 'Q'))
    &&& s[i + 3] == ':'
}

/// The key of the given kind starts at position `i`.
pub open spec fn key_at(k: IdKind, s: Seq<char>, i: int) -> bool {
    match k {
        IdKind::Tracker => tracker_key_at(s, i),
        IdKind::Request => request_key_at(s, i),
    }
}

/// Length of the key of the given kind, colon included.
pub open spec fn key_len(k: IdKind) -> int {
    match k {
        IdKind::Tracker => 3,
        IdKind::Request => 4,
    }
}

/// The end of the run of decimal digits starting at `i`: the first
/// position at or after `i` that is past the end or holds a non-digit.
pub open spec fn digits_end(s: Seq<char>, i: int) -> int
    decreases s.len() - i
        when 0 <= i <= s.len()
{
    if i == s.len() {
        i
    } else if !is_digit(s[i]) {
        i
    } else {
        digits_end(s, i + 1)
    }
}

/// The digit-run end lies between its start and the end of the text.
pub proof fn lemma_digits_end_bounds(s: Seq<char>, i: int)
    requires
        0 <= i <= s.len(),
    ensures
        i <= digits_end(s, i) <= s.len(),
    decreases s.len() - i,
{
    if i < s.len() && is_digit(s[i]) {
        lemma_digits_end_bounds(s, i + 1);
    }
}

/// The number denoted by the digits of `s` at positions `i` (inclusive) to
/// `j` (exclusive), most significant first.
pub open spec fn digits_value(s: Seq<char>, i: int, j: int) -> nat
    decreases j - i
        when i <= j
{
    if j <= i {
        0
    } else {
        digits_value(s, i, j - 1) * 10 + digit_val(s[j - 1])
    }
}

/// All numbers written `<key><digits>` in `s` from position `i` on, found
/// left to right, non-overlapping, each digit run taken as long as
/// possible; a number too large for `u32` is skipped. This mirrors how a
/// non-overlapping regular-expression scan for `<key>(\d+)` with a numeric
/// parse finds matches.
pub open spec fn scan(k: IdKind, s: Seq<char>, i: int) -> Seq<u32>
    decreases s.len() - i
        when 0 <= i
        via scan_decreases
{
    if i >= s.len() {
        Seq::empty()
    } else if key_at(k, s, i) && i + key_len(k) < s.len() && is_digit(s[i + key_len(k)]) {
        let j = digits_end(s, i + key_len(k));
        let v = digits_value(s, i + key_len(k), j);
        (if v <= u32::MAX {
            seq![v as u32]
        } else {
            Seq::empty()
        }) + scan(k, s, j)
    } else {
        scan(k, s, i + 1)
    }
}

#[via_fn]
proof fn scan_decreases(k: IdKind, s: Seq<char>, i: int) {
    if i < s.len() && key_at(k, s, i) && i + key_len(k) < s.len() && is_digit(s[i + key_len(k)]) {
        assert(digits_end(s, i + key_len(k)) == digits_end(s, i + key_len(k) + 1));
        lemma_digits_end_bounds(s, i + key_len(k) + 1);
    }
}

/// Everything `extract` finds: all tracker ids in order of appearance,
/// then all request ids in order of appearance — two independent passes,
/// concatenated, never interleaved.
pub open spec fn extract_spec(s: Seq<char>) -> Seq<ReleaseIdentifier> {
    scan(IdKind::Tracker, s, 0).map_values(|v: u32| ReleaseIdentifier::TrackerId(v)) + scan(
        IdKind::Request,
        s,
        0,
    ).map_values(|v: u32| ReleaseIdentifier::RequestId(v))
}

/// Whether `c` is a decimal digit.
fn is_digit_char(c: char) -> (b: bool)
    ensures
        b == is_digit(c),
{
    let u = c as u32;
    '0' as u32 <= u && u <= '9' as u32
}

/// Whether the key of kind `k` starts at position `i` of `s`.
fn key_matches(s: &str, n: usize, i: usize, k: IdKind) -> (b: bool)
    requires
        n == s@.len(),
        i <= n,
    ensures
        b == key_at(k, s@, i as int),
{
    match k {
        IdKind::Tracker => {
            if n - i >= 3 {
                let c0 = s.get_char(i);
                let c1 = s.get_char(i + 1);
                let c2 = s.get_char(i + 2);
                ((c0 == 'i' && c1 == 'd') || (c0 == 'I' && c1 == 'D')) && c2 == ':'
            } else {
                false
            }
        },
        IdKind::Request => {
            if n - i >= 4 {
                let c0 = s.get_char(i);
                let c1 = s.get_char(i + 1);
                let c2 = s.get_char(i + 2);
                let c3 = s.get_char(i + 3);
                ((c0 == 'r' && c1 == 'r' && c2 == 'q') || (c0 == 'R' && c1 == 'R' && c2 == 'Q'))
                    && c3 == ':'
            } else {
                false
            }
        },
    }
}

/// One scanning pass: all numbers written `<key><digits>` in `s`, left to
/// right.
fn scan_keys(s: &str, k: IdKind) -> (r: Vec<u32>)
    ensures
        r@ == scan(k, s@, 0),
{
    let n = s.unicode_len();
    let mut r: Vec<u32> = Vec::new();
    let mut i: usize = 0;
    assert(r@ + scan(k, s@, 0) =~= scan(k, s@, 0));
    while i < n
        invariant
            n == s@.len(),
            i <= n,
            scan(k, s@, 0) == r@ + scan(k, s@, i as int),
        decreases n - i,
    {
        let kl: usize = match k {
            IdKind::Tracker => 3,
            IdKind::Request => 4,
        };
        if key_matches(s, n, i, k) && n - (i + kl) >= 1 && is_digit_char(s.get_char(i + kl)) {
            let start = i + kl;
            let mut j = start;
            let mut val: u64 = 0;
            let mut overflow = false;
            proof {
                lemma_digits_end_bounds(s@, start as int);
            }
            while j < n && is_digit_char(s.get_char(j))
                invariant
                    n == s@.len(),
                    start <= j <= n,
                    digits_end(s@, start as int) == digits_end(s@, j as int),
                    !overflow ==> val == digits_value(s@, start as int, j as int) && val
                        <= u32::MAX,
                    overflow ==> digits_value(s@, start as int, j as int) > u32::MAX,
                decreases n - j,
            {
                let d = (s.get_char(j) as u32) - ('0' as u32);
                proof {
                    assert(digits_value(s@, start as int, j as int + 1) == digits_value(
                        s@,
                        start as int,
                        j as int,
                    ) * 10 + digit_val(s@[j as int]));
                }
                if !overflow {
                    let next = val * 10 + (d as u64);
                    if next > u32::MAX as u64 {
                        overflow = true;
                    } else {
                        val = next;
                    }
                }
                j = j + 1;
            }
            proof {
                assert(digits_end(s@, j as int) == j as int);
            }
            if !overflow {
                r.push(val as u32);
            }
            proof {
                let ghost tail = scan(k, s@, j as int);
                assert(scan(k, s@, i as int) == (if digits_value(
                    s@,
                    start as int,
                    digits_end(s@, start as int),
                ) <= u32::MAX {
                    seq![digits_value(s@, start as int, digits_end(s@, start as int)) as u32]
                } else {
                    Seq::<u32>::empty()
                }) + tail);
                if !overflow {
                    assert(r@ + tail =~= r@.drop_last() + (seq![val as u32] + tail));
                } else {
                    assert(r@ + tail =~= r@ + (Seq::<u32>::empty() + tail));
                }
            }
            i = j;
        } else {
            proof {
                assert(scan(k, s@, i as int) == scan(k, s@, i as int + 1));
            }
            i = i + 1;
        }
    }
    assert(scan(k, s@, i as int) =~= Seq::<u32>::empty());
    assert(r@ + Seq::<u32>::empty() =~= r@);
    r
}

/// Extract every ticket identifier from a commit summary: all tracker ids
/// (`id:`/`ID:`) in order of appearance, then all request ids
/// (`rrq:`/`RRQ:`) in order of appearance. Absence of matches yields an
/// empty list; this never fails.
pub fn extract(summary: &str) -> (r: Vec<ReleaseIdentifier>)
    ensures
        r@ == extract_spec(summary@),
{
    let trackers = scan_keys(summary, IdKind::Tracker);
    let requests = scan_keys(summary, IdKind::Request);
    let ghost tm = scan(IdKind::Tracker, summary@, 0).map_values(
        |v: u32| ReleaseIdentifier::TrackerId(v),
    );
    let ghost rm = scan(IdKind::Request, summary@, 0).map_values(
        |v: u32| ReleaseIdentifier::RequestId(v),
    );
    let mut r: Vec<ReleaseIdentifier> = Vec::new();
    let mut i: usize = 0;
    assert(r@ =~= tm.take(0));
    while i < trackers.len()
        invariant
            i <= trackers.len(),
            trackers@ == scan(IdKind::Tracker, summary@, 0),
            tm == trackers@.map_values(|v: u32| ReleaseIdentifier::TrackerId(v)),
            r@ == tm.take(i as int),
        decreases trackers.len() - i,
    {
        r.push(ReleaseIdentifier::TrackerId(trackers[i]));
        assert(r@ =~= tm.take(i as int + 1));
        i = i + 1;
    }
    assert(r@ =~= tm);
    let mut q: usize = 0;
    while q < requests.len()
        invariant
            q <= requests.len(),
            requests@ == scan(IdKind::Request, summary@, 0),
            rm == requests@.map_values(|v: u32| ReleaseIdentifier::RequestId(v)),
            tm == scan(IdKind::Tracker, summary@, 0).map_values(
                |v: u32| ReleaseIdentifier::TrackerId(v),
            ),
            r@ == tm + rm.take(q as int),
        decreases requests.len() - q,
    {
        r.push(ReleaseIdentifier::RequestId(requests[q]));
        assert(r@ =~= tm + rm.take(q as int + 1));
        q = q + 1;
    }
    assert(r@ =~= tm + rm);
    r
}

} // verus!
