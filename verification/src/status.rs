//! The status of a reply of the memory service.
use crate::date::{law_padded, padded};
use crate::text::{all_digits, decimal_value};
use vstd::prelude::*;

verus! {

/// A number that can be the status of a reply.
pub open spec fn is_status(code: u16) -> bool {
    100 <= code <= 999
}

/// A status that says that the request was carried out.
pub open spec fn is_success(code: u16) -> bool {
    200 <= code < 300
}

/// The words that `reqwest::StatusCode` writes behind the number of a status.
pub uninterp spec fn status_reason(code: u16) -> Seq<char>;

/// A status as it is shown: its number and its words.
pub open spec fn shown_status(code: u16) -> Seq<char> {
    padded(code as nat, 3) + " "@ + status_reason(code)
}

/// `reqwest::StatusCode` as text: the three digits of the number, a space, and
/// the words for it, which are named.
#[verifier::external_body]
pub(crate) fn status_text(code: u16) -> (r: String)
    requires
        is_status(code),
    ensures
        r@ == padded(code as nat, 3) + " "@ + status_reason(code),
{
    reqwest::StatusCode::from_u16(code).unwrap().to_string()
}

/// Whether a status says that the request was carried out.
pub fn success(code: u16) -> (r: bool)
    ensures
        r == is_success(code),
{
    200 <= code && code < 300
}

/// The statuses that say that a request was carried out are 200 to 299.
pub proof fn law_success(code: u16, r: bool)
    requires
        call_ensures(success, (code,), r),
    ensures
        r <==> 200 <= code <= 299,
{
}

/// A status is shown with its number in three digits and its words, and a space
/// between them.
pub proof fn law_shown_status(code: u16)
    requires
        is_status(code),
    ensures
        ({
            let shown = shown_status(code);
            &&& shown.len() >= 4
            &&& all_digits(shown.take(3)) && decimal_value(shown.take(3)) == code
            &&& shown[3] == ' '
            &&& shown.skip(4) == status_reason(code)
        }),
{
    reveal_strlit(" ");
    law_padded(code as nat, 3);
    assert(shown_status(code).take(3) =~= padded(code as nat, 3));
    assert(shown_status(code).skip(4) =~= status_reason(code));
}

} // verus!
