//! Text primitives: the standard library's case mapping and trimming, and
//! UUID parsing, each behind a contract, plus verified comparisons built on them.
use vstd::prelude::*;

verus! {

/// Result of `str::to_lowercase` on a character sequence.
pub uninterp spec fn lower_of(s: Seq<char>) -> Seq<char>;

/// Result of `str::to_uppercase` on a character sequence.
pub uninterp spec fn upper_of(s: Seq<char>) -> Seq<char>;

/// Result of `str::trim` on a character sequence.
pub uninterp spec fn trimmed(s: Seq<char>) -> Seq<char>;

/// Result of `char::is_alphanumeric`.
pub uninterp spec fn is_alnum(c: char) -> bool;

/// The 128-bit value of the UUID that `uuid::Uuid::parse_str` reads from a
/// text, or `None` where it reports an error.
pub uninterp spec fn uuid_of(s: Seq<char>) -> Option<u128>;

/// Relies on `str::to_lowercase`: the result depends on the characters alone.
#[verifier::external_body]
pub(crate) fn lowercase(s: &str) -> (r: String)
    ensures
        r@ == lower_of(s@),
{
    s.to_lowercase()
}

/// Relies on `str::to_uppercase`: the result depends on the characters alone.
#[verifier::external_body]
pub(crate) fn uppercase(s: &str) -> (r: String)
    ensures
        r@ == upper_of(s@),
{
    s.to_uppercase()
}

/// Relies on `str::trim`: the result depends on the characters alone.
#[verifier::external_body]
pub(crate) fn trim(s: &str) -> (r: &str)
    ensures
        r@ == trimmed(s@),
{
    s.trim()
}

/// Relies on `char::is_alphanumeric`: the answer depends on the character alone.
#[verifier::external_body]
pub(crate) fn alphanumeric(c: char) -> (r: bool)
    ensures
        r == is_alnum(c),
{
    c.is_alphanumeric()
}

/// Relies on `uuid::Uuid::parse_str` and `Uuid::as_u128`: the parse depends on
/// the text alone.
#[verifier::external_body]
pub(crate) fn parse_uuid(s: &str) -> (r: Option<u128>)
    ensures
        r == uuid_of(s@),
{
    match uuid::Uuid::parse_str(s) {
        Ok(u) => Some(u.as_u128()),
        Err(_) => None,
    }
}

/// Character-wise equality of two texts.
pub fn same_text(a: &str, b: &str) -> (r: bool)
    ensures
        r == (a@ == b@),
{
    let n = a.unicode_len();
    if n != b.unicode_len() {
        return false;
    }
    let mut i: usize = 0;
    while i < n
        invariant
            n == a@.len(),
            n == b@.len(),
            0 <= i <= n,
            a@.subrange(0, i as int) == b@.subrange(0, i as int),
        decreases n - i,
    {
        if a.get_char(i) != b.get_char(i) {
            assert(a@[i as int] != b@[i as int]);
            return false;
        }
        assert(a@.subrange(0, i + 1) =~= a@.subrange(0, i as int).push(a@[i as int]));
        assert(b@.subrange(0, i + 1) =~= b@.subrange(0, i as int).push(b@[i as int]));
        i = i + 1;
    }
    assert(a@ =~= a@.subrange(0, n as int));
    assert(b@ =~= b@.subrange(0, n as int));
    true
}

/// Whether a chat text names the word: both are trimmed and lower-cased, then
/// compared.
pub fn guess_matches(text: &str, word: &str) -> (r: bool)
    ensures
        r == (lower_of(trimmed(text@)) == lower_of(trimmed(word@))),
{
    let t = lowercase(trim(text));
    let w = lowercase(trim(word));
    t == w
}

/// Whether a text is a well-formed room code: exactly six characters, all
/// alphanumeric characters.
pub open spec fn is_room_code(s: Seq<char>) -> bool {
    &&& s.len() == 6
    &&& forall|i: int| 0 <= i < s.len() ==> #[trigger] is_alnum(s[i])
}

/// The room code a client text stands for: trimmed and upper-cased, then
/// accepted only where it is a well-formed room code.
pub open spec fn room_code_of(raw: Seq<char>) -> Option<Seq<char>> {
    let c = upper_of(trimmed(raw));
    if is_room_code(c) {
        Some(c)
    } else {
        None
    }
}

} // verus!
