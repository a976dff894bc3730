//! The bincode encoding of values (states for checksums, inputs for packets).
use vstd::prelude::*;

verus! {

/// `bincode::serialize`: the value's bincode encoding, `None` where serde reports an error.
/// Nothing is stated of the bytes: they depend on the value's `Serialize` impl.
#[verifier::external_body]
pub(crate) fn encode<T: serde::Serialize>(value: &T) -> Option<Vec<u8>> {
    bincode::serialize(value).ok()
}

/// `bincode::deserialize`: the value that `bytes` encode, `None` where they do not decode.
/// Nothing is stated of the value: it depends on the type's `Deserialize` impl.
#[verifier::external_body]
pub(crate) fn decode<T: serde::de::DeserializeOwned>(bytes: &Vec<u8>) -> Option<T> {
    bincode::deserialize(bytes).ok()
}

/// `enc` is what [`encode`] can return for `value`.
pub closed spec fn encodes_to<T: serde::Serialize>(value: T, enc: Option<Vec<u8>>) -> bool {
    call_ensures(encode::<T>, (&value,), enc)
}

/// `r` is what [`decode`] can return for bytes whose contents are `bytes`.
pub closed spec fn decodes_to<T: serde::de::DeserializeOwned>(bytes: Seq<u8>, r: Option<T>) -> bool {
    exists|b: Vec<u8>| #[trigger] call_ensures(decode::<T>, (&b,), r) && b@ == bytes
}

/// `inputs` are, in order, what decoding each of `encoded` gave.
pub open spec fn decoded_all<T: serde::de::DeserializeOwned>(encoded: Seq<Seq<u8>>, inputs: Seq<T>) -> bool {
    &&& inputs.len() == encoded.len()
    &&& forall|j: int| 0 <= j < encoded.len() ==> #[trigger] decodes_to(encoded[j], Some(inputs[j]))
}

/// Decoding one of `encoded` failed.
pub open spec fn decode_failed<T: serde::de::DeserializeOwned>(encoded: Seq<Seq<u8>>) -> bool {
    exists|j: int| 0 <= j < encoded.len() && #[trigger] decodes_to::<T>(encoded[j], None)
}

/// Encodes `value`; the result is stated through [`encodes_to`].
pub(crate) fn encode_value<T: serde::Serialize>(value: &T) -> (r: Option<Vec<u8>>)
    ensures
        encodes_to(*value, r),
{
    encode(value)
}

/// Decodes `bytes`; the result is stated through [`decodes_to`].
pub(crate) fn decode_value<T: serde::de::DeserializeOwned>(bytes: &Vec<u8>) -> (r: Option<T>)
    ensures
        decodes_to(bytes@, r),
{
    decode(bytes)
}

} // verus!
