//! Account registration: the shape of a user name, and its namespace.
use vstd::prelude::*;
use vstd::string::StringSliceAdditionalSpecFns;
use crate::text::{ends_with, first_index, find_char, lemma_first_index, starts_with, str_ends_with, str_starts_with};

verus! {

/// Whether `char::is_alphanumeric` holds of a character (Unicode alphabetic
/// or numeric).
pub uninterp spec fn alphanumeric(c: char) -> bool;

/// Relies on `char::is_alphanumeric`: whether the character is alphabetic
/// or numeric in Unicode; the result depends on the character alone.
#[verifier::external_body]
fn is_alphanumeric(c: char) -> (r: bool)
    ensures
        r == alphanumeric(c),
{
    c.is_alphanumeric()
}

/// Whether `c` may stand in a user name, given whether it is alphanumeric.
pub open spec fn email_char(c: char, alnum: bool) -> bool {
    alnum || c == '@' || c == '.' || c == '-' || c == '_'
}

/// The shape of a user name, given for each character whether it is
/// alphanumeric: it holds `@`, is longer than three bytes, neither starts
/// nor ends with `@`, and holds only alphanumerics and `@.-_`.
pub open spec fn email_shape(s: &str, alnum: Seq<bool>) -> bool {
    &&& first_index(s@, '@') >= 0
    &&& s.spec_bytes().len() > 3
    &&& !starts_with(s@, "@"@)
    &&& !ends_with(s@, "@"@)
    &&& forall|i: int| 0 <= i < s@.len() ==> #[trigger] email_char(s@[i], alnum[i])
}

/// Which characters of `s` are alphanumeric.
pub open spec fn alnum_flags(s: Seq<char>) -> Seq<bool> {
    Seq::new(s.len(), |i: int| alphanumeric(s[i]))
}

/// A user name must look like an email address.
pub open spec fn valid_email(s: &str) -> bool {
    email_shape(s, alnum_flags(s@))
}

/// Whether `email` has the shape of a user name, given for each of its
/// characters whether it is alphanumeric.
pub fn email_shape_ok(email: &str, alnum: &Vec<bool>) -> (r: bool)
    requires
        alnum@.len() == email@.len(),
    ensures
        r == email_shape(email, alnum@),
{
    if find_char(email, '@').is_none() || email.as_bytes().len() <= 3 || str_starts_with(email, "@")
        || str_ends_with(email, "@") {
        return false;
    }
    let n = email.unicode_len();
    let mut i: usize = 0;
    while i < n
        invariant
            n == email@.len(),
            alnum@.len() == n,
            i <= n,
            forall|j: int| 0 <= j < i ==> #[trigger] email_char(email@[j], alnum@[j]),
        decreases n - i,
    {
        let c = email.get_char(i);
        if !(alnum[i] || c == '@' || c == '.' || c == '-' || c == '_') {
            assert(!email_char(email@[i as int], alnum@[i as int]));
            return false;
        }
        i = i + 1;
    }
    true
}

/// Whether `email` has the shape of a user name.
pub fn is_valid_email(email: &str) -> (r: bool)
    ensures
        r == valid_email(email),
{
    let n = email.unicode_len();
    let mut flags: Vec<bool> = Vec::new();
    let mut i: usize = 0;
    while i < n
        invariant
            n == email@.len(),
            i <= n,
            flags@ == alnum_flags(email@).subrange(0, i as int),
        decreases n - i,
    {
        flags.push(is_alphanumeric(email.get_char(i)));
        assert(flags@ =~= alnum_flags(email@).subrange(0, i + 1));
        i = i + 1;
    }
    assert(flags@ =~= alnum_flags(email@));
    email_shape_ok(email, &flags)
}

/// The namespace of a user name: what precedes its first `@` (all of it
/// where there is none).
pub fn namespace_of(email: &str) -> (r: String)
    ensures
        first_index(email@, '@') >= 0 ==> r@ == email@.subrange(0, first_index(email@, '@')),
        first_index(email@, '@') < 0 ==> r@ == email@,
{
    proof {
        lemma_first_index(email@, '@');
    }
    match find_char(email, '@') {
        Some(i) => String::from_str(email.substring_char(0, i)),
        None => String::from_str(email),
    }
}

/// The registration endpoint of the administrative service on `host`.
pub fn admin_users_url(host: &str) -> (r: String)
    ensures
        r@ == "http://"@ + host@ + ":8081/admin/users"@,
{
    let mut r = String::from_str("http://");
    r.append(host);
    r.append(":8081/admin/users");
    r
}

} // verus!
