//! Text as a sequence of characters: reading a string's characters, comparing
//! strings, and finding one text inside another.

use vstd::prelude::*;

verus! {

/// Whether `part` stands in `text` at index `at`.
pub open spec fn occurs_at(text: Seq<char>, at: int, part: Seq<char>) -> bool {
    &&& 0 <= at
    &&& at + part.len() <= text.len()
    &&& text.subrange(at, at + part.len()) == part
}

/// The characters of `s`, in order.
pub fn chars_of(s: &str) -> (r: Vec<char>)
    ensures
        r@ == s@,
{
    broadcast use vstd::string::axiom_spec_iter;

    let mut out: Vec<char> = Vec::new();
    let chars = s.chars();
    for c in it: chars
        invariant
            it.seq() == s@,
            out@ == s@.take(it.index()),
    {
        out.push(c);
        assert(s@.take(it.index() + 1) == s@.take(it.index()).push(s@[it.index()]));
    }
    assert(s@.take(s@.len() as int) == s@);
    out
}

/// Where `part` stands in `text` at `at`, the two agree index by index.
pub proof fn lemma_occurs_index(text: Seq<char>, at: int, part: Seq<char>, k: int)
    requires
        occurs_at(text, at, part),
        0 <= k < part.len(),
    ensures
        text[at + k] == part[k],
{
    assert(text.subrange(at, at + part.len())[k] == text[at + k]);
}

/// Whether `a` and `b` hold the same characters.
pub fn same_text(a: &str, b: &str) -> (r: bool)
    ensures
        r == (a@ == b@),
{
    a.to_owned() == b.to_owned()
}

/// Looks for the characters of `part` in `text` at index `at`, and gives the
/// index just behind them where they stand there.
pub fn expect_text(text: &Vec<char>, at: usize, part: &str) -> (r: Option<usize>)
    ensures
        match r {
            Some(end) => occurs_at(text@, at as int, part@) && end == at + part@.len(),
            None => !occurs_at(text@, at as int, part@),
        },
{
    let wanted: Vec<char> = chars_of(part);
    let n: usize = text.len();
    let m: usize = wanted.len();
    if at > n || m > n - at {
        return None;
    }
    let mut k: usize = 0;
    while k < m
        invariant
            n == text.len(),
            m == wanted.len(),
            wanted@ == part@,
            at + m <= n,
            k <= m,
            forall|j: int| 0 <= j < k ==> text[at + j] == wanted[j],
        decreases m - k,
    {
        if text[at + k] != wanted[k] {
            proof {
                if occurs_at(text@, at as int, part@) {
                    lemma_occurs_index(text@, at as int, part@, k as int);
                }
            }
            return None;
        }
        k = k + 1;
    }
    assert(text@.subrange(at as int, at + m) =~= part@);
    Some(at + m)
}

} // verus!
