//! Normalization of raw flag values: surrounding ASCII whitespace is dropped
//! and ASCII letters are folded as the case policy says.

use vstd::prelude::*;

verus! {

/// How the case of ASCII letters in a flag value is treated.
#[derive(Clone, Copy, Debug, PartialEq, Eq, Structural)]
pub enum CasePolicy {
    /// Values are kept as they were captured.
    Preserve,
    /// ASCII letters are folded to upper case.
    Upper,
    /// ASCII letters are folded to lower case.
    Lower,
}

/// ASCII whitespace: space, tab, line feed, vertical tab, form feed, carriage return.
pub open spec fn is_space(b: u8) -> bool {
    b == 32 || (9 <= b && b <= 13)
}

/// One byte under the case policy.
pub open spec fn folded(b: u8, policy: CasePolicy) -> u8 {
    match policy {
        CasePolicy::Preserve => b,
        CasePolicy::Upper => if 97 <= b && b <= 122 {
            (b - 32) as u8
        } else {
            b
        },
        CasePolicy::Lower => if 65 <= b && b <= 90 {
            (b + 32) as u8
        } else {
            b
        },
    }
}

/// `s` without its leading whitespace.
pub open spec fn skip_leading(s: Seq<u8>) -> Seq<u8>
    decreases s.len(),
{
    if s.len() > 0 && is_space(s[0]) {
        skip_leading(s.subrange(1, s.len() as int))
    } else {
        s
    }
}

/// `s` without its trailing whitespace.
pub open spec fn skip_trailing(s: Seq<u8>) -> Seq<u8>
    decreases s.len(),
{
    if s.len() > 0 && is_space(s.last()) {
        skip_trailing(s.drop_last())
    } else {
        s
    }
}

/// The identity of a flag value: trimmed, then folded byte by byte.
pub open spec fn normalized(s: Seq<u8>, policy: CasePolicy) -> Seq<u8> {
    skip_trailing(skip_leading(s)).map_values(|b: u8| folded(b, policy))
}

/// What is left of `s` starts with no whitespace and is the end of `s`.
pub proof fn lemma_skip_leading(s: Seq<u8>)
    ensures
        skip_leading(s).len() <= s.len(),
        skip_leading(s).len() > 0 ==> !is_space(skip_leading(s)[0]),
        skip_leading(s) == s.subrange(s.len() - skip_leading(s).len(), s.len() as int),
    decreases s.len(),
{
    if s.len() > 0 && is_space(s[0]) {
        let rest = s.subrange(1, s.len() as int);
        lemma_skip_leading(rest);
        let r = skip_leading(rest);
        assert(rest.subrange(rest.len() - r.len(), rest.len() as int) =~= s.subrange(
            s.len() - r.len(),
            s.len() as int,
        ));
    } else {
        assert(s.subrange(0, s.len() as int) =~= s);
    }
}

/// What is left of `s` ends with no whitespace and is the start of `s`.
pub proof fn lemma_skip_trailing(s: Seq<u8>)
    ensures
        skip_trailing(s).len() <= s.len(),
        skip_trailing(s).len() > 0 ==> !is_space(skip_trailing(s).last()),
        skip_trailing(s) == s.take(skip_trailing(s).len() as int),
    decreases s.len(),
{
    if s.len() > 0 && is_space(s.last()) {
        let rest = s.drop_last();
        lemma_skip_trailing(rest);
        let r = skip_trailing(rest);
        assert(rest.take(r.len() as int) =~= s.take(r.len() as int));
    } else {
        assert(s.take(s.len() as int) =~= s);
    }
}

/// A normalized value is its own normal form: it starts and ends with no
/// whitespace, and normalizing it again under the same policy changes
/// nothing.
pub proof fn law_normalized_is_stable(s: Seq<u8>, policy: CasePolicy)
    ensures
        normalized(s, policy).len() > 0 ==> !is_space(normalized(s, policy)[0]) && !is_space(
            normalized(s, policy).last(),
        ),
        normalized(normalized(s, policy), policy) == normalized(s, policy),
{
    let lead = skip_leading(s);
    let kept = skip_trailing(lead);
    let out = normalized(s, policy);
    lemma_skip_leading(s);
    lemma_skip_trailing(lead);
    if kept.len() > 0 {
        assert(kept[0] == lead[0]);
        assert(out[0] == folded(kept[0], policy));
        assert(out.last() == folded(kept.last(), policy));
    }
    assert(skip_leading(out) == out);
    assert(skip_trailing(out) == out);
    assert(out.map_values(|b: u8| folded(b, policy)) =~= out);
}

fn is_space_byte(b: u8) -> (r: bool)
    ensures
        r == is_space(b),
{
    b == 32 || (9 <= b && b <= 13)
}

fn fold_byte(b: u8, policy: CasePolicy) -> (r: u8)
    ensures
        r == folded(b, policy),
{
    match policy {
        CasePolicy::Preserve => b,
        CasePolicy::Upper => if 97 <= b && b <= 122 {
            b - 32
        } else {
            b
        },
        CasePolicy::Lower => if 65 <= b && b <= 90 {
            b + 32
        } else {
            b
        },
    }
}

/// Normalizes a raw flag value.
pub fn normalize(raw: &[u8], policy: CasePolicy) -> (out: Vec<u8>)
    ensures
        out@ == normalized(raw@, policy),
{
    let n: usize = raw.len();
    let mut start: usize = 0;
    proof {
        assert(raw@.subrange(0, n as int) =~= raw@);
    }
    while start < n && is_space_byte(raw[start])
        invariant
            start <= n,
            n == raw@.len(),
            skip_leading(raw@) == skip_leading(raw@.subrange(start as int, n as int)),
        decreases n - start,
    {
        proof {
            let cur = raw@.subrange(start as int, n as int);
            assert(cur.subrange(1, cur.len() as int) =~= raw@.subrange(start + 1, n as int));
        }
        start += 1;
    }
    let mut end: usize = n;
    while end > start && is_space_byte(raw[end - 1])
        invariant
            start <= end <= n,
            n == raw@.len(),
            skip_leading(raw@) == raw@.subrange(start as int, n as int),
            skip_trailing(skip_leading(raw@)) == skip_trailing(
                raw@.subrange(start as int, end as int),
            ),
        decreases end - start,
    {
        proof {
            let cur = raw@.subrange(start as int, end as int);
            assert(cur.drop_last() =~= raw@.subrange(start as int, end - 1));
        }
        end -= 1;
    }
    let ghost kept = raw@.subrange(start as int, end as int);
    let mut out: Vec<u8> = Vec::new();
    let mut i: usize = start;
    while i < end
        invariant
            start <= i <= end <= n,
            n == raw@.len(),
            kept == raw@.subrange(start as int, end as int),
            out@ == kept.subrange(0, i - start).map_values(|b: u8| folded(b, policy)),
        decreases end - i,
    {
        out.push(fold_byte(raw[i], policy));
        proof {
            assert(out@ =~= kept.subrange(0, i + 1 - start).map_values(
                |b: u8| folded(b, policy),
            ));
        }
        i += 1;
    }
    proof {
        assert(kept.subrange(0, end - start) =~= kept);
    }
    out
}

/// Are two byte strings the same?
pub fn same_bytes(a: &[u8], b: &[u8]) -> (r: bool)
    ensures
        r == (a@ == b@),
{
    if a.len() != b.len() {
        return false;
    }
    let mut i: usize = 0;
    while i < a.len()
        invariant
            i <= a@.len(),
            a@.len() == b@.len(),
            forall|k: int| 0 <= k < i ==> a@[k] == b@[k],
        decreases a@.len() - i,
    {
        if a[i] != b[i] {
            return false;
        }
        i += 1;
    }
    proof {
        assert(a@ =~= b@);
    }
    true
}

/// A copy of a byte string.
pub fn copy_bytes(a: &[u8]) -> (out: Vec<u8>)
    ensures
        out@ == a@,
{
    let mut out: Vec<u8> = Vec::new();
    let mut i: usize = 0;
    while i < a.len()
        invariant
            i <= a@.len(),
            out@ == a@.subrange(0, i as int),
        decreases a@.len() - i,
    {
        out.push(a[i]);
        proof {
            assert(out@ =~= a@.subrange(0, i + 1));
        }
        i += 1;
    }
    proof {
        assert(a@.subrange(0, a@.len() as int) =~= a@);
    }
    out
}

} // verus!
