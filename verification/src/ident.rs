//! The written forms of a 128-bit identifier.
use vstd::arithmetic::power::pow;
use vstd::prelude::*;

verus! {

/// The lower-case hexadecimal digit for a value from 0 to 15.
pub open spec fn hex_digit(n: int) -> char {
    seq!['0', '1', '2', '3', '4', '5', '6', '7', '8', '9', 'a', 'b', 'c', 'd', 'e', 'f'][n]
}

/// The value of hexadecimal digit `i` of `id`, counted from the most significant one.
pub open spec fn nibble(id: u128, i: int) -> int {
    (id as int / pow(16, (31 - i) as nat)) % 16
}

/// The 32 hexadecimal digits of `id`, most significant first.
pub open spec fn simple_text(id: u128) -> Seq<char> {
    Seq::new(32, |i: int| hex_digit(nibble(id, i)))
}

/// The digits of `id` in groups of 8, 4, 4, 4 and 12, with a hyphen between the groups.
pub open spec fn hyphenated_text(id: u128) -> Seq<char> {
    let s = simple_text(id);
    s.subrange(0, 8) + seq!['-'] + s.subrange(8, 12) + seq!['-'] + s.subrange(12, 16) + seq!['-']
        + s.subrange(16, 20) + seq!['-'] + s.subrange(20, 32)
}

/// Calls `Uuid::from_u128`, `Uuid::as_simple` and the `Display` of the result, of the
/// crate `uuid`, which writes the 16 bytes of the identifier, most significant first,
/// as two lower-case hexadecimal digits each.
#[verifier::external_body]
pub(crate) fn simple_form(id: u128) -> (s: String)
    ensures
        s@ == simple_text(id),
{
    uuid::Uuid::from_u128(id).as_simple().to_string()
}

/// Calls `Uuid::from_u128`, `Uuid::as_hyphenated` and the `Display` of the result, of
/// the crate `uuid`, which writes the simple form with a hyphen after the digits 8, 12,
/// 16 and 20.
#[verifier::external_body]
pub(crate) fn hyphenated_form(id: u128) -> (s: String)
    ensures
        s@ == hyphenated_text(id),
{
    uuid::Uuid::from_u128(id).as_hyphenated().to_string()
}

/// The simple form has 32 characters, and its last one is the digit of the identifier
/// modulo 16.
pub proof fn lemma_simple_shape(id: u128)
    ensures
        simple_text(id).len() == 32,
        simple_text(id)[31] == hex_digit(id as int % 16),
{
    vstd::arithmetic::power::lemma_pow0(16);
}

/// The hyphenated form has 36 characters: the 32 digits of the simple form in their
/// order, and hyphens in the places 8, 13, 18 and 23.
pub proof fn lemma_hyphenated_shape(id: u128)
    ensures
        hyphenated_text(id).len() == 36,
        hyphenated_text(id)[8] == '-',
        hyphenated_text(id)[13] == '-',
        hyphenated_text(id)[18] == '-',
        hyphenated_text(id)[23] == '-',
        forall|i: int| 0 <= i < 8 ==> hyphenated_text(id)[i] == simple_text(id)[i],
        forall|i: int| 8 <= i < 12 ==> hyphenated_text(id)[i + 1] == simple_text(id)[i],
        forall|i: int| 12 <= i < 16 ==> hyphenated_text(id)[i + 2] == simple_text(id)[i],
        forall|i: int| 16 <= i < 20 ==> hyphenated_text(id)[i + 3] == simple_text(id)[i],
        forall|i: int| 20 <= i < 32 ==> hyphenated_text(id)[i + 4] == simple_text(id)[i],
{
}

} // verus!
