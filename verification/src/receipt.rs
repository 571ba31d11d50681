//! Receipt ids: the public name of a sale.

use vstd::prelude::*;

use crate::source::taken;

verus! {

/// A digit of a number in lower-case hexadecimal.
pub open spec fn is_hex_digit(c: char) -> bool {
    '0' <= c <= '9' || 'a' <= c <= 'f'
}

/// The text of a random (version 4) UUID: 36 characters in five groups, with
/// the version and the variant in their places.
pub open spec fn is_uuid_v4(s: Seq<char>) -> bool {
    &&& s.len() == 36
    &&& forall|i: int| 0 <= i < 36 ==>
        if i == 8 || i == 13 || i == 18 || i == 23 {
            #[trigger] s[i] == '-'
        } else {
            is_hex_digit(s[i])
        }
    &&& s[14] == '4'
    &&& s[19] == '8' || s[19] == '9' || s[19] == 'a' || s[19] == 'b'
}

/// `uuid::Uuid::new_v4`, as its hyphenated lower-case text: random, so that all
/// that holds of every outcome is its form.
#[verifier::external_body]
pub(crate) fn new_receipt_id() -> (r: String)
    ensures
        is_uuid_v4(r@),
{
    uuid::Uuid::new_v4().to_string()
}

/// `id` is an id that was drawn at random.
pub closed spec fn is_drawn(id: Seq<char>) -> bool {
    exists|drawn: String| #[trigger] call_ensures(new_receipt_id, (), drawn) && drawn@ == id
}

/// A drawn id is what a call of the generator gave, and has the form of a random
/// UUID.
pub(crate) proof fn law_ids_come_from_the_generator(id: Seq<char>)
    requires
        is_drawn(id),
    ensures
        exists|drawn: String| #[trigger] call_ensures(new_receipt_id, (), drawn) && drawn@ == id,
        id.len() == 36,
        id[14] == '4',
        id[19] == '8' || id[19] == '9' || id[19] == 'a' || id[19] == 'b',
        forall|i: int|
            0 <= i < 36 ==> #[trigger] id[i] == '-' || '0' <= id[i] <= '9' || 'a' <= id[i] <= 'f',
        forall|i: int|
            0 <= i < 36 ==> (#[trigger] id[i] == '-' <==> i == 8 || i == 13 || i == 18 || i == 23),
{
    let drawn = choose|drawn: String| #[trigger]
        call_ensures(new_receipt_id, (), drawn) && drawn@ == id;
    assert(is_uuid_v4(drawn@));
}

/// A new receipt id, drawn at random.
pub(crate) fn draw_receipt_id() -> (r: String)
    ensures
        is_drawn(r@),
        is_uuid_v4(r@),
{
    taken(new_receipt_id)
}

} // verus!
