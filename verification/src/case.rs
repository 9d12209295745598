//! The stable code of an identifier: its upper-snake-case form.

use heck::ToShoutySnakeCase;
use vstd::prelude::*;

verus! {

/// The upper-snake-case form that `heck` gives to `ident`: its words in upper
/// case, joined by underscores.
pub uninterp spec fn shouty_snake_case(ident: Seq<char>) -> Seq<char>;

/// Calls `heck::ToShoutySnakeCase::to_shouty_snake_case` on `ident`. The
/// transform reads nothing but its argument, so the result is named by
/// `shouty_snake_case`. Trusted: nothing more is claimed of the result.
#[verifier::external_body]
fn to_shouty_snake_case(ident: &str) -> (code: String)
    ensures
        code@ == shouty_snake_case(ident@),
{
    ident.to_shouty_snake_case()
}

/// The stable code of an identifier, such as `BAD_REQUEST` of `BadRequest`:
/// its upper-snake-case form.
pub fn code_of(ident: &str) -> (code: String)
    ensures
        code@ == shouty_snake_case(ident@),
{
    to_shouty_snake_case(ident)
}

} // verus!
