//! The daemon's self-integrity pre-check: compare the digest recorded in
//! a side file with the digest of the daemon's own binary. Reading the
//! two files happens outside the library; the trimming and the comparison
//! are decided here.

use vstd::prelude::*;
use crate::digest::{digest_of, calculate_checksum};
use crate::text::{str_to_chars, chars_to_string};

verus! {

/// ASCII whitespace, as trimmed off the recorded digest.
pub open spec fn is_space(c: char) -> bool {
    c == ' ' || c == '\n' || c == '\t' || c == '\r'
}

pub open spec fn trim_front(s: Seq<char>) -> Seq<char>
    decreases s.len(),
{
    if s.len() > 0 && is_space(s[0]) {
        trim_front(s.drop_first())
    } else {
        s
    }
}

pub open spec fn trim_back(s: Seq<char>) -> Seq<char>
    decreases s.len(),
{
    if s.len() > 0 && is_space(s.last()) {
        trim_back(s.drop_last())
    } else {
        s
    }
}

/// A string with ASCII whitespace removed from both ends.
pub open spec fn trimmed(s: Seq<char>) -> Seq<char> {
    trim_back(trim_front(s))
}

fn space(c: char) -> (r: bool)
    ensures
        r == is_space(c),
{
    c == ' ' || c == '\n' || c == '\t' || c == '\r'
}

/// Remove ASCII whitespace from both ends.
pub fn trim_chars(v: &Vec<char>) -> (out: Vec<char>)
    ensures
        out@ == trimmed(v@),
{
    let mut lo: usize = 0;
    proof {
        assert(v@.skip(0) =~= v@);
    }
    while lo < v.len() && space(v[lo])
        invariant
            lo <= v@.len(),
            trim_front(v@) == trim_front(v@.skip(lo as int)),
        decreases v@.len() - lo,
    {
        proof {
            assert(v@.skip(lo as int).drop_first() =~= v@.skip(lo + 1 as int));
        }
        lo = lo + 1;
    }
    let ghost t = v@.skip(lo as int);
    proof {
        if lo < v@.len() {
            assert(!is_space(t[0]));
        }
        assert(trim_front(v@) == t);
    }
    let mut hi: usize = v.len();
    while hi > lo && space(v[hi - 1])
        invariant
            lo <= hi <= v@.len(),
            t == v@.skip(lo as int),
            trim_back(t) == trim_back(v@.subrange(lo as int, hi as int)),
        decreases hi,
    {
        proof {
            let sub = v@.subrange(lo as int, hi as int);
            assert(sub.last() == v@[hi - 1]);
            assert(sub.drop_last() =~= v@.subrange(lo as int, hi - 1));
        }
        hi = hi - 1;
    }
    proof {
        let sub = v@.subrange(lo as int, hi as int);
        if hi > lo {
            assert(sub.last() == v@[hi - 1]);
            assert(!is_space(sub.last()));
        }
        assert(trim_back(sub) == sub);
    }
    let mut out: Vec<char> = Vec::new();
    let mut k: usize = lo;
    while k < hi
        invariant
            lo <= k <= hi <= v@.len(),
            out@ == v@.subrange(lo as int, k as int),
        decreases hi - k,
    {
        out.push(v[k]);
        proof {
            assert(v@.subrange(lo as int, k + 1 as int) =~= v@.subrange(lo as int, k as int).push(
                v@[k as int],
            ));
        }
        k = k + 1;
    }
    proof {
        assert(trim_front(v@).subrange(0, trim_front(v@).len() as int) =~= trim_front(v@));
        assert(v@.subrange(lo as int, hi as int) == trimmed(v@));
    }
    out
}

/// The self-integrity check did not pass: what was recorded against what
/// the binary hashes to.
pub struct SelfCheckError {
    pub expected: String,
    pub actual: String,
}

impl SelfCheckError {
    /// The failure, in words.
    pub fn message(&self) -> (r: String)
        ensures
            r@ == "self-integrity failure: expected "@ + self.expected@ + " but got "@
                + self.actual@,
    {
        let mut m = String::from_str("self-integrity failure: expected ");
        m.append(self.expected.as_str());
        m.append(" but got ");
        m.append(self.actual.as_str());
        m
    }
}

/// Decide the self-integrity check: `expected_file` is the content of the
/// recorded-digest file (surrounding whitespace ignored), `exe` the bytes
/// of the binary itself. Passes exactly when the recorded digest is the
/// binary's.
pub fn verify(expected_file: &String, exe: &Vec<u8>) -> (r: Result<(), SelfCheckError>)
    ensures
        r is Ok <==> trimmed(expected_file@) == digest_of(exe@),
        r matches Err(e) ==> e.expected@ == trimmed(expected_file@) && e.actual@ == digest_of(
            exe@,
        ),
{
    let cs = str_to_chars(expected_file.as_str());
    let t = trim_chars(&cs);
    let expected = chars_to_string(&t);
    let actual = calculate_checksum(exe);
    if expected.eq(&actual) {
        Ok(())
    } else {
        Err(SelfCheckError { expected, actual })
    }
}

} // verus!
