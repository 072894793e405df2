//! Character-level string operations with exact specifications: the
//! substring test and the replacement that link rewriting relies on.

use vstd::prelude::*;

verus! {

broadcast use vstd::string::group_string_axioms;

/// `p` occurs in `s` starting at position `i`.
pub open spec fn occurs_at(s: Seq<char>, p: Seq<char>, i: int) -> bool {
    0 <= i && i + p.len() <= s.len() && s.subrange(i, i + p.len()) == p
}

/// `p` occurs somewhere in `s` (the empty sequence occurs in every sequence).
pub open spec fn contains_seq(s: Seq<char>, p: Seq<char>) -> bool {
    exists|i: int| occurs_at(s, p, i)
}

/// `s` with every non-overlapping occurrence of `p`, taken from left to right,
/// replaced by `r`. An empty `p` matches before every character and at the end.
pub open spec fn replace_seq(s: Seq<char>, p: Seq<char>, r: Seq<char>) -> Seq<char>
    decreases s.len(),
{
    if s.len() == 0 {
        if p.len() == 0 {
            r
        } else {
            s
        }
    } else if p.len() == 0 {
        r + seq![s[0]] + replace_seq(s.drop_first(), p, r)
    } else if p.len() <= s.len() && s.subrange(0, p.len() as int) == p {
        r + replace_seq(s.skip(p.len() as int), p, r)
    } else {
        seq![s[0]] + replace_seq(s.drop_first(), p, r)
    }
}

/// The characters of `s`, in order.
pub fn chars_of(s: &str) -> (v: Vec<char>)
    ensures
        v@ == s@,
{
    let mut v: Vec<char> = Vec::new();
    for c in it: s.chars()
        invariant
            v@ == it.seq().take(it.index() as int),
            it.seq() == s@,
    {
        v.push(c);
    }
    v
}

/// Builds a `String` from its characters (std's `FromIterator<char>` for
/// `String`). Claimed: the string holds exactly `chars`, in order.
#[verifier::external_body]
pub(crate) fn string_from_chars(chars: &[char]) -> (s: String)
    ensures
        s@ == chars@,
{
    chars.iter().collect()
}

/// Whether `p` occurs in `s` at position `i`, for a position where it fits.
pub fn matches_at(s: &[char], p: &[char], i: usize) -> (b: bool)
    requires
        i + p@.len() <= s@.len(),
    ensures
        b == occurs_at(s@, p@, i as int),
{
    let n = s.len();
    let mut k: usize = 0;
    while k < p.len()
        invariant
            k <= p@.len(),
            n == s@.len(),
            i + p@.len() <= s@.len(),
            forall|j: int| 0 <= j < k ==> s@[i + j] == p@[j],
        decreases p@.len() - k,
    {
        if s[i + k] != p[k] {
            assert(s@.subrange(i as int, i + p@.len())[k as int] != p@[k as int]);
            return false;
        }
        k = k + 1;
    }
    assert(s@.subrange(i as int, i + p@.len()) =~= p@);
    true
}

/// Whether `p` occurs in `s`, as `str::contains` answers for a string pattern.
pub fn str_contains(s: &str, p: &str) -> (b: bool)
    ensures
        b == contains_seq(s@, p@),
{
    let sv = chars_of(s);
    let pv = chars_of(p);
    if pv.len() > sv.len() {
        assert forall|i: int| !occurs_at(s@, p@, i) by {}
        return false;
    }
    let last = sv.len() - pv.len();
    let mut i: usize = 0;
    loop
        invariant
            sv@ == s@,
            pv@ == p@,
            last + pv@.len() == sv@.len(),
            i <= last,
            forall|j: int| 0 <= j < i ==> !occurs_at(s@, p@, j),
        ensures
            forall|j: int| 0 <= j <= last ==> !occurs_at(s@, p@, j),
        decreases last - i,
    {
        if matches_at(sv.as_slice(), pv.as_slice(), i) {
            return true;
        }
        if i == last {
            break;
        }
        i = i + 1;
    }
    assert forall|j: int| !occurs_at(s@, p@, j) by {
        if occurs_at(s@, p@, j) {
            assert(j <= last);
        }
    }
    false
}

/// One step of `replace_seq` on the suffix of `s` that starts at `i`.
proof fn lemma_replace_step(s: Seq<char>, p: Seq<char>, r: Seq<char>, i: int)
    requires
        0 <= i < s.len(),
        p.len() > 0,
    ensures
        (i + p.len() <= s.len() && s.subrange(i, i + p.len()) == p) ==>
            replace_seq(s.skip(i), p, r) == r + replace_seq(s.skip(i + p.len()), p, r),
        !(i + p.len() <= s.len() && s.subrange(i, i + p.len()) == p) ==>
            replace_seq(s.skip(i), p, r) == seq![s[i]] + replace_seq(s.skip(i + 1), p, r),
{
    let t = s.skip(i);
    assert(t.drop_first() =~= s.skip(i + 1));
    if i + p.len() <= s.len() {
        assert(t.subrange(0, p.len() as int) =~= s.subrange(i, i + p.len()));
        assert(t.skip(p.len() as int) =~= s.skip(i + p.len()));
    }
}

/// `s` with every occurrence of `p` replaced by `r`, as `str::replace` does.
pub fn str_replace(s: &str, p: &str, r: &str) -> (out: String)
    ensures
        out@ == replace_seq(s@, p@, r@),
{
    let sv = chars_of(s);
    let pv = chars_of(p);
    let rv = chars_of(r);
    let n = sv.len();
    let plen = pv.len();
    let mut out: Vec<char> = Vec::new();
    let mut i: usize = 0;
    assert(s@.skip(0) =~= s@);
    if plen == 0 {
        while i < n
            invariant
                sv@ == s@,
                pv@ == p@,
                rv@ == r@,
                n == sv@.len(),
                plen == pv@.len(),
                plen == 0,
                i <= n,
                out@ + replace_seq(s@.skip(i as int), p@, r@) == replace_seq(s@, p@, r@),
            decreases n - i,
        {
            proof {
                let t = s@.skip(i as int);
                assert(t.len() > 0);
                assert(p@.len() == 0);
                assert(t[0] == s@[i as int]);
                assert(t.drop_first() =~= s@.skip(i + 1));
                assert(replace_seq(t, p@, r@) == r@ + seq![t[0]] + replace_seq(
                    t.drop_first(),
                    p@,
                    r@,
                ));
            }
            let ghost before = out@;
            out.extend_from_slice(rv.as_slice());
            out.push(sv[i]);
            assert(out@ =~= before + r@ + seq![s@[i as int]]);
            i = i + 1;
        }
        proof {
            assert(s@.skip(i as int).len() == 0);
        }
        let ghost before = out@;
        out.extend_from_slice(rv.as_slice());
        assert(out@ =~= before + r@);
    } else {
        while i < n
            invariant
                sv@ == s@,
                pv@ == p@,
                rv@ == r@,
                n == sv@.len(),
                plen == pv@.len(),
                plen > 0,
                i <= n,
                out@ + replace_seq(s@.skip(i as int), p@, r@) == replace_seq(s@, p@, r@),
            decreases n - i,
        {
            proof {
                lemma_replace_step(s@, p@, r@, i as int);
            }
            let ghost before = out@;
            if plen <= n - i && matches_at(sv.as_slice(), pv.as_slice(), i) {
                out.extend_from_slice(rv.as_slice());
                assert(out@ =~= before + r@);
                i = i + plen;
            } else {
                out.push(sv[i]);
                assert(out@ =~= before + seq![s@[i as int]]);
                i = i + 1;
            }
        }
        proof {
            assert(s@.skip(i as int).len() == 0);
        }
    }
    string_from_chars(out.as_slice())
}

} // verus!

verus! {

/// Whether `a` and `b` hold the same characters.
pub fn str_eq(a: &str, b: &str) -> (r: bool)
    ensures
        r == (a@ == b@),
{
    let av = chars_of(a);
    let bv = chars_of(b);
    if av.len() != bv.len() {
        return false;
    }
    let n = av.len();
    let mut i: usize = 0;
    while i < n
        invariant
            av@ == a@,
            bv@ == b@,
            n == av@.len(),
            n == bv@.len(),
            i <= n,
            forall|j: int| 0 <= j < i ==> av@[j] == bv@[j],
        decreases n - i,
    {
        if av[i] != bv[i] {
            return false;
        }
        i = i + 1;
    }
    assert(av@ =~= bv@);
    true
}

} // verus!
