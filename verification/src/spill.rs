//! Naming of the private files that hold the complete output of a unified
//! exec call: `<codex home>/tool-output/<session id>/<sha256 of call id>.log`.
use vstd::prelude::*;
use vstd::utf8::encode_utf8;
use sha2::Digest;
use crate::text::{chars_of, extend_str, has_str_prefix_at, hex_digits, push_hex_digits, string_of};

verus! {

broadcast use vstd::string::group_string_axioms;

/// The directory under the Codex home that holds spilled output.
pub const OUTPUT_ROOT: &'static str = "tool-output";

/// The suffix of the file that marks a session's output as being written.
pub const ACTIVE_MARKER_SUFFIX: &'static str = ".active";

/// The SHA-256 digest of a byte string (FIPS 180-4).
pub uninterp spec fn sha256_digest(data: Seq<u8>) -> Seq<u8>;

/// `sha2::Sha256::digest`: the SHA-256 digest of `data`, 32 bytes long.
#[verifier::external_body]
fn sha256(data: &[u8]) -> (digest: Vec<u8>)
    ensures
        digest@ == sha256_digest(data@),
        digest@.len() == 32,
{
    sha2::Sha256::digest(data).to_vec()
}

/// Lower-case hexadecimal rendering of a byte string, two digits per byte.
pub open spec fn hex_bytes(bytes: Seq<u8>) -> Seq<char>
    decreases bytes.len(),
{
    if bytes.len() == 0 {
        seq![]
    } else {
        hex_digits(bytes[0] as nat, 2) + hex_bytes(bytes.drop_first())
    }
}

/// Appends the lower-case hexadecimal rendering of `bytes` to `dst`.
pub fn push_hex_bytes(dst: &mut Vec<char>, bytes: &[u8])
    ensures
        final(dst)@ == old(dst)@ + hex_bytes(bytes@),
{
    let n = bytes.len();
    let ghost start = dst@;
    assert(bytes@.skip(0) =~= bytes@);
    for i in 0..n
        invariant
            n == bytes@.len(),
            dst@ + hex_bytes(bytes@.skip(i as int)) == start + hex_bytes(bytes@),
    {
        let ghost rest = bytes@.skip(i as int);
        assert(rest[0] == bytes@[i as int]);
        assert(rest.drop_first() =~= bytes@.skip(i + 1));
        let ghost before = dst@;
        push_hex_digits(dst, bytes[i] as u64, 2);
        assert(before + hex_bytes(rest) =~= dst@ + hex_bytes(bytes@.skip(i + 1)));
    }
    assert(bytes@.skip(n as int) =~= Seq::<u8>::empty());
    assert(dst@ + Seq::<char>::empty() =~= dst@);
}

/// The name of the file that holds the output of call `call_id`: the
/// lower-case hexadecimal SHA-256 digest of the call id, then `.log`.
pub open spec fn spill_file_name_of(call_id: Seq<char>) -> Seq<char> {
    hex_bytes(sha256_digest(encode_utf8(call_id))) + ".log"@
}

/// The name of the file that holds the output of call `call_id`.
pub fn spill_file_name(call_id: &str) -> (name: String)
    ensures
        name@ == spill_file_name_of(call_id@),
        name@.len() == 68,
{
    let digest = sha256(call_id.as_bytes());
    let mut out: Vec<char> = Vec::new();
    push_hex_bytes(&mut out, digest.as_slice());
    proof {
        lemma_hex_bytes_len(digest@);
    }
    extend_str(&mut out, ".log");
    proof {
        reveal_strlit(".log");
    }
    string_of(&out)
}

/// Each byte takes two hexadecimal digits.
pub proof fn lemma_hex_bytes_len(bytes: Seq<u8>)
    ensures
        hex_bytes(bytes).len() == 2 * bytes.len(),
    decreases bytes.len(),
{
    if bytes.len() > 0 {
        lemma_hex_bytes_len(bytes.drop_first());
        assert(hex_digits(bytes[0] as nat, 2).len() == 2) by {
            reveal_with_fuel(hex_digits, 3);
        }
    }
}

/// Whether a file name is that of an output log (`.log` extension).
pub open spec fn is_log_name(name: Seq<char>) -> bool {
    ".log"@.is_suffix_of(name) && name.len() > 4
}

/// Whether a file name has the extension `log` (`Path::extension`): it ends
/// with `.log` and the dot does not start the name.
pub fn is_log_file_name(name: &str) -> (r: bool)
    ensures
        r == is_log_name(name@),
{
    proof {
        reveal_strlit(".log");
    }
    let cs = chars_of(name);
    let n = cs.len();
    if n <= 4 {
        return false;
    }
    let r = has_str_prefix_at(&cs, n - 4, ".log");
    assert(cs@.skip(n - 4) =~= cs@.subrange(n - 4, n as int));
    r
}

} // verus!
