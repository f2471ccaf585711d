use vstd::prelude::*;

verus! {

/// Whether `c` is an ASCII letter or digit.
pub open spec fn is_ascii_alphanumeric(c: char) -> bool {
    ('a' <= c && c <= 'z') || ('A' <= c && c <= 'Z') || ('0' <= c && c <= '9')
}

/// Letters and digits take one byte each in UTF-8.
pub proof fn lemma_alphanumeric_byte_len(s: Seq<char>)
    requires
        forall|i: int| 0 <= i < s.len() ==> is_ascii_alphanumeric(#[trigger] s[i]),
    ensures
        vstd::utf8::encode_utf8(s).len() == s.len(),
{
    assert(vstd::utf8::is_ascii_chars(s));
    vstd::utf8::is_ascii_chars_encode_utf8(s);
}

/// Relies on `rand::random`: a value drawn from the thread's generator;
/// nothing is known of it.
#[verifier::external_body]
pub(crate) fn random_u64() -> u64 {
    rand::random::<u64>()
}

/// Relies on `rand::distributions::Alphanumeric` sampled from
/// `rand::thread_rng`: `n` characters, each an ASCII letter or digit.
#[verifier::external_body]
pub(crate) fn random_alphanumeric(n: usize) -> (r: String)
    ensures
        r@.len() == n,
        forall|i: int| 0 <= i < n ==> is_ascii_alphanumeric(#[trigger] r@[i]),
{
    rand::Rng::sample_iter(rand::thread_rng(), &rand::distributions::Alphanumeric).take(n).map(
        char::from,
    ).collect()
}

/// Relies on `stun::agent::TransactionId::new`: twelve bytes from the
/// thread's random generator; nothing is known of them.
#[verifier::external_body]
pub(crate) fn random_transaction_id() -> [u8; 12] {
    stun::agent::TransactionId::new().0
}

/// Length of a generated username fragment.
pub const LEN_UFRAG: usize = 16;

/// Length of a generated password.
pub const LEN_PWD: usize = 32;

/// A random username fragment of 16 letters and digits.
pub fn generate_ufrag() -> (r: String)
    ensures
        r@.len() == LEN_UFRAG,
        forall|i: int| 0 <= i < r@.len() ==> is_ascii_alphanumeric(#[trigger] r@[i]),
{
    random_alphanumeric(LEN_UFRAG)
}

/// A random password of 32 letters and digits.
pub fn generate_pwd() -> (r: String)
    ensures
        r@.len() == LEN_PWD,
        forall|i: int| 0 <= i < r@.len() ==> is_ascii_alphanumeric(#[trigger] r@[i]),
{
    random_alphanumeric(LEN_PWD)
}

/// A random candidate id: `candidate:` and 32 letters and digits.
pub fn generate_cand_id() -> (r: String)
    ensures
        r@.len() == 42,
        r@.take(10) == "candidate:"@,
{
    let prefix = String::from_str("candidate:");
    let tail = random_alphanumeric(32);
    let r = prefix.concat(tail.as_str());
    proof {
        reveal_strlit("candidate:");
        assert(r@.take(10) =~= "candidate:"@);
    }
    r
}

} // verus!
