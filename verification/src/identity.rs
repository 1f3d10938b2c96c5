use crate::key::is_simple;
use crate::key::is_well_parted;
use crate::key::parted_at;
use crate::key::simple_at;
use vstd::prelude::*;

verus! {

/// Whether `c` is a decimal digit or one of the letters `a` to `f`.
pub open spec fn is_lower_hex(c: char) -> bool {
    ('0' <= c && c <= '9') || ('a' <= c && c <= 'f')
}

/// Whether `text` is written as a hyphenated UUID: 36 characters, of which
/// the ninth, the fourteenth, the nineteenth and the twenty-fourth are `-`
/// and the others lower-case hexadecimal digits.
pub open spec fn is_hyphenated_uuid(text: Seq<char>) -> bool {
    &&& text.len() == 36
    &&& forall|i: int|
        0 <= i < 36 ==> if i == 8 || i == 13 || i == 18 || i == 23 {
            #[trigger] text[i] == '-'
        } else {
            is_lower_hex(text[i])
        }
}

/// A new random identifier: `uuid::Uuid::new_v4`, written out by
/// `as_hyphenated`. Which identifier comes is left to chance; every one is
/// written in the hyphenated lower-case form. The call panics only where
/// the operating system gives no random bytes.
#[verifier::external_body]
pub(crate) fn fresh_uuid() -> (r: String)
    ensures
        is_hyphenated_uuid(r@),
{
    uuid::Uuid::new_v4().as_hyphenated().to_string()
}

/// A hyphenated UUID is a simple text of one chunk.
pub proof fn lemma_uuid_simply_parted(text: Seq<char>)
    requires
        is_hyphenated_uuid(text),
    ensures
        is_simple(text),
        is_well_parted(text),
{
    assert forall|i: int| 0 <= i < text.len() implies text[i] != '/' && text[i] != '*' && text[i]
        != '$' && text[i] != '#' && text[i] != '?' by {
        if i == 8 || i == 13 || i == 18 || i == 23 {
            assert(text[i] == '-');
        } else {
            assert(is_lower_hex(text[i]));
        }
    }
    assert forall|i: int| 0 <= i < text.len() implies #[trigger] simple_at(text, i) by {}
    assert forall|i: int| 0 <= i < text.len() - 1 implies #[trigger] parted_at(text, i) by {}
}

} // verus!
