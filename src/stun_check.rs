use vstd::prelude::*;

verus! {

/// Whether `raw` decodes as a STUN message whose MESSAGE-INTEGRITY is the
/// HMAC-SHA1 of the message under `key`.
pub uninterp spec fn integrity_valid(raw: Seq<u8>, key: Seq<u8>) -> bool;

/// Relies on `stun::message::Message::write`, which decodes the bytes, and
/// `stun::integrity::MessageIntegrity::check`: the verdict depends on the
/// bytes and the key alone.
#[verifier::external_body]
pub(crate) fn check_message_integrity(raw: &[u8], key: &[u8]) -> (r: bool)
    ensures
        r == integrity_valid(raw@, key@),
{
    let mut m = stun::message::Message::new();
    if m.write(raw).is_err() {
        return false;
    }
    stun::integrity::MessageIntegrity(key.to_vec()).check(&mut m).is_ok()
}

} // verus!
