//! Bytes as base64 text.
use base64::Engine;
use vstd::prelude::*;

verus! {

/// The digit for a value below 64.
pub open spec fn digit(n: int) -> char {
    "ABCDEFGHIJKLMNOPQRSTUVWXYZabcdefghijklmnopqrstuvwxyz0123456789+/"@[n]
}

/// The padded base64 text of `b`: four digits for every three bytes.
pub open spec fn base64_text(b: Seq<u8>) -> Seq<char>
    decreases b.len(),
{
    let x = b[0] as int;
    let y = b[1] as int;
    let z = b[2] as int;
    if b.len() == 0 {
        Seq::empty()
    } else if b.len() == 1 {
        seq![digit(x / 4), digit(x % 4 * 16), '=', '=']
    } else if b.len() == 2 {
        seq![digit(x / 4), digit(x % 4 * 16 + y / 16), digit(y % 16 * 4), '=']
    } else {
        seq![
            digit(x / 4),
            digit(x % 4 * 16 + y / 16),
            digit(y % 16 * 4 + z / 64),
            digit(z % 64),
        ] + base64_text(b.skip(3))
    }
}

/// `base64::Engine::encode` of the engine `general_purpose::STANDARD`: the bytes in the standard
/// alphabet, with padding. It panics where the length of the text does not fit in `usize`.
#[verifier::external_body]
pub(crate) fn encode(b: &[u8]) -> (r: String)
    requires
        b@.len() / 3 * 4 + 4 <= usize::MAX,
    ensures
        r@ == base64_text(b@),
{
    base64::engine::general_purpose::STANDARD.encode(b)
}

} // verus!
