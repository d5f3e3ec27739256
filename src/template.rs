//! Naming of saved scene templates.

use vstd::prelude::*;

verus! {

/// Whether `char::is_alphanumeric` holds of a character.
pub uninterp spec fn alphanumeric(c: char) -> bool;

/// Relies on `char::is_alphanumeric`: whether the character is alphabetic or
/// numeric in Unicode's sense, which depends on the character alone.
#[verifier::external_body]
fn is_alphanumeric(c: char) -> (r: bool)
    ensures
        r == alphanumeric(c),
{
    c.is_alphanumeric()
}

/// Characters that a template's file name keeps: letters, digits, `-`, `_`
/// and spaces.
pub open spec fn allowed_in_name(c: char) -> bool {
    alphanumeric(c) || c == '-' || c == '_' || c == ' '
}

/// The characters of a template name that its file name keeps, in order.
pub fn safe_template_name(name: &str) -> (r: Vec<char>)
    ensures
        r@ == name@.filter(|c: char| allowed_in_name(c)),
{
    let n = name.unicode_len();
    let mut kept: Vec<char> = Vec::new();
    let mut i: usize = 0;
    assert(name@.subrange(0, 0).filter(|c: char| allowed_in_name(c)) =~= Seq::<char>::empty()) by {
        reveal(Seq::filter);
    }
    while i < n
        invariant
            n == name@.len(),
            i <= n,
            kept@ == name@.subrange(0, i as int).filter(|c: char| allowed_in_name(c)),
        decreases n - i,
    {
        let c = name.get_char(i);
        let keep = is_alphanumeric(c) || c == '-' || c == '_' || c == ' ';
        proof {
            let next = name@.subrange(0, i + 1);
            assert(next.drop_last() =~= name@.subrange(0, i as int));
            assert(next.last() == c);
            reveal(Seq::filter);
        }
        if keep {
            kept.push(c);
        }
        i = i + 1;
    }
    assert(name@.subrange(0, n as int) =~= name@);
    kept
}

} // verus!
