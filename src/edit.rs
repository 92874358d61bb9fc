//! Decisions of the edit-a-guest-file workflow: which inputs it accepts and
//! whether an edited file has to be written back.

use sha2::Digest;
use vstd::prelude::*;

verus! {

/// SHA-256 digest of a byte sequence.
pub uninterp spec fn sha256_of(b: Seq<u8>) -> Seq<u8>;

/// Relies on sha2's `Sha256::digest`: the 32-byte SHA-256 digest of the data.
#[verifier::external_body]
fn sha256(b: &[u8]) -> (r: Vec<u8>)
    ensures
        r@ == sha256_of(b@),
        r@.len() == 32,
{
    sha2::Sha256::digest(b).to_vec()
}

/// Whether two digests differ.
pub fn digests_differ(a: &Vec<u8>, b: &Vec<u8>) -> (r: bool)
    ensures
        r == (a@ != b@),
{
    if a.len() != b.len() {
        return true;
    }
    let mut i: usize = 0;
    while i < a.len()
        invariant
            a@.len() == b@.len(),
            i <= a@.len(),
            a@.subrange(0, i as int) == b@.subrange(0, i as int),
        decreases a.len() - i,
    {
        if a[i] != b[i] {
            assert(a@[i as int] != b@[i as int]);
            return true;
        }
        assert(a@.subrange(0, i + 1) =~= a@.subrange(0, i as int).push(a@[i as int]));
        assert(b@.subrange(0, i + 1) =~= b@.subrange(0, i as int).push(b@[i as int]));
        i = i + 1;
    }
    assert(a@.subrange(0, a@.len() as int) =~= a@);
    assert(b@.subrange(0, b@.len() as int) =~= b@);
    false
}

/// Whether an edited file differs from what was read, judged by SHA-256
/// digests as the workflow compares them.
pub fn content_changed(before: &[u8], after: &[u8]) -> (r: bool)
    ensures
        r == (sha256_of(before@) != sha256_of(after@)),
{
    let a = sha256(before);
    let b = sha256(after);
    digests_differ(&a, &b)
}

/// Whether `s` holds `p` somewhere.
pub open spec fn contains_text(s: Seq<char>, p: Seq<char>) -> bool {
    exists|i: int| 0 <= i <= s.len() - p.len() && #[trigger] s.subrange(i, i + p.len()) == p
}

/// Whether a path holds `:\`, the mark of a Windows drive path, which the
/// workflow refuses as a local path.
pub fn is_windows_path(s: &str) -> (r: bool)
    ensures
        r == contains_text(s@, ":\\"@),
{
    proof {
        reveal_strlit(":\\");
    }
    let n = s.unicode_len();
    if n < 2 {
        return false;
    }
    let mut i: usize = 0;
    while i + 1 < n
        invariant
            n == s@.len(),
            n >= 2,
            i + 1 <= n,
            forall|j: int| 0 <= j < i ==> #[trigger] s@.subrange(j, j + 2) != ":\\"@,
        decreases n - i,
    {
        proof {
            reveal_strlit(":\\");
        }
        if s.get_char(i) == ':' && s.get_char(i + 1) == '\\' {
            assert(s@.subrange(i as int, i + 2) =~= ":\\"@);
            return true;
        }
        assert(s@.subrange(i as int, i + 2)[0] == s@[i as int]);
        assert(s@.subrange(i as int, i + 2)[1] == s@[i + 1]);
        i = i + 1;
    }
    proof {
        reveal_strlit(":\\");
    }
    false
}

/// Whether `name` is one of `names`.
pub fn is_listed(names: &Vec<String>, name: &str) -> (r: bool)
    ensures
        r == exists|i: int| 0 <= i < names@.len() && #[trigger] names@[i]@ == name@,
{
    let k = name.to_string();
    let mut i: usize = 0;
    while i < names.len()
        invariant
            i <= names@.len(),
            k@ == name@,
            forall|j: int| 0 <= j < i ==> #[trigger] names@[j]@ != name@,
        decreases names.len() - i,
    {
        if names[i] == k {
            return true;
        }
        i = i + 1;
    }
    false
}

} // verus!
