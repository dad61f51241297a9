//! The idempotent-writer decision: output goes to disk only when its
//! content fingerprint differs from what is already there. The
//! fingerprint comparison lives here; the file reads and writes stay
//! with the caller.

use vstd::prelude::*;
use vstd::string::*;

verus! {

/// The content fingerprint of a text, a function of its bytes alone.
pub uninterp spec fn digest_of(s: Seq<char>) -> Seq<u8>;

/// Relies on `blake3::hash` and `blake3::Hash::as_bytes`: the digest is
/// deterministic in the input bytes.
#[verifier::external_body]
fn fingerprint(s: &str) -> (r: Vec<u8>)
    ensures
        r@ == digest_of(s@),
{
    blake3::hash(s.as_bytes()).as_bytes().to_vec()
}

fn bytes_eq(a: &Vec<u8>, b: &Vec<u8>) -> (r: bool)
    ensures
        r == (a@ == b@),
{
    let n: usize = a.len();
    if b.len() != n {
        proof {
            assert(a@ != b@);
        }
        return false;
    }
    let mut i: usize = 0;
    while i < n
        invariant
            i <= n,
            n == a@.len() == b@.len(),
            forall|k: int| 0 <= k < i ==> a@[k] == b@[k],
        decreases n - i,
    {
        if a[i] != b[i] {
            return false;
        }
        i = i + 1;
    }
    proof {
        assert(a@ =~= b@);
    }
    true
}

/// When a candidate output must be written: the path holds nothing yet,
/// or its current content's fingerprint differs from the candidate's.
pub open spec fn should_write_spec(new: Seq<char>, existing: Option<Seq<char>>) -> bool {
    match existing {
        None => true,
        Some(e) => digest_of(e) != digest_of(new),
    }
}

/// Decides whether `new` must be written over `existing` (the current
/// content of the output path, `None` if the path holds nothing).
pub fn should_write(new: &str, existing: &Option<String>) -> (r: bool)
    ensures
        r == should_write_spec(
            new@,
            match *existing {
                Some(e) => Some(e@),
                None => None,
            },
        ),
{
    match existing {
        None => true,
        Some(e) => {
            let de = fingerprint(e.as_str());
            let dn = fingerprint(new);
            !bytes_eq(&de, &dn)
        },
    }
}

/// Law (idempotent output): a rebuild that produces the very content
/// already on disk performs no write.
pub proof fn lemma_unchanged_content_not_written(s: Seq<char>)
    ensures
        !should_write_spec(s, Some(s)),
{
}

} // verus!
