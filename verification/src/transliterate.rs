//! Text normalisation by outside crates: ASCII transliteration (`unidecode`)
//! and title case (`titlecase`), and the 64-bit xxHash of a link (`twox-hash`).
use vstd::prelude::*;

use crate::text::chars_of;

verus! {

/// Every character of `s` is ASCII.
pub open spec fn is_ascii_text(s: Seq<char>) -> bool {
    forall|i: int| 0 <= i < s.len() ==> (#[trigger] s[i] as u32) < 128
}

/// What `unidecode::unidecode` makes of `s`.
pub uninterp spec fn transliterated(s: Seq<char>) -> Seq<char>;

/// The transliteration of `s` as the readers see it: an ASCII text stays as
/// it is, any other text is `transliterated(s)`.
pub open spec fn ascii_form(s: Seq<char>) -> Seq<char> {
    if is_ascii_text(s) {
        s
    } else {
        transliterated(s)
    }
}

/// What `titlecase::titlecase` makes of `s`.
pub uninterp spec fn title_cased(s: Seq<char>) -> Seq<char>;

/// The 64-bit xxHash (`twox_hash::XxHash`, seeded with `seed`) of the UTF-8
/// bytes of `s`.
pub uninterp spec fn xxhash64(seed: u64, s: Seq<char>) -> u64;

/// `unidecode::unidecode(s)`: named `transliterated(s)`. As the crate
/// documents and its per-character mapping shows, the result is ASCII, and an
/// ASCII text is its own transliteration. Nothing more is said of the table.
#[verifier::external_body]
pub(crate) fn unidecode(s: &str) -> (r: String)
    ensures
        r@ == transliterated(s@),
        is_ascii_text(r@),
        is_ascii_text(s@) ==> r@ == s@,
        r@ == ascii_form(s@),
{
    unidecode::unidecode(s)
}

/// The most `(` characters that a text handed to `titlecase` may hold.
/// `titlecase::titlecase` calls itself again for each word that opens with
/// `(` (and splits words at `/` and `-`, a bounded number of levels between
/// two brackets), so this bounds how deep it recurses.
pub const MAX_BRACKETS: usize = 32;

/// How many `(` characters `s` holds.
pub open spec fn bracket_count(s: Seq<char>) -> nat
    decreases s.len(),
{
    if s.len() == 0 {
        0
    } else {
        bracket_count(s.drop_last()) + if s.last() == '(' {
            1nat
        } else {
            0nat
        }
    }
}

/// Counts the `(` characters of `s`.
pub fn count_brackets(s: &str) -> (r: usize)
    ensures
        r == bracket_count(s@),
{
    let chars = chars_of(s);
    let mut n: usize = 0;
    let mut i: usize = 0;
    while i < chars.len()
        invariant
            i <= chars@.len(),
            chars@ == s@,
            n == bracket_count(chars@.take(i as int)),
            n <= i,
        decreases chars.len() - i,
    {
        assert(chars@.take(i + 1).drop_last() =~= chars@.take(i as int));
        if chars[i] == '(' {
            n = n + 1;
        }
        i = i + 1;
    }
    assert(chars@.take(chars@.len() as int) =~= chars@);
    n
}

/// `titlecase::titlecase(s)`: named `title_cased(s)`; the contract says
/// nothing of the casing rules. The crate recurses once per word that opens
/// with `(`, with no bound of its own, so a text with very many of them
/// exhausts the stack; the call is made only on texts with at most
/// `MAX_BRACKETS` of them.
#[verifier::external_body]
pub(crate) fn titlecase(s: &str) -> (r: String)
    requires
        bracket_count(s@) <= MAX_BRACKETS,
    ensures
        r@ == title_cased(s@),
{
    titlecase::titlecase(s)
}

/// `XxHash::with_seed(seed)`, `write` of the UTF-8 bytes of `s`, then
/// `finish`: named `xxhash64(seed, s)`.
#[verifier::external_body]
pub(crate) fn hash_text(seed: u64, s: &str) -> (r: u64)
    ensures
        r == xxhash64(seed, s@),
{
    let mut h = twox_hash::XxHash::with_seed(seed);
    std::hash::Hasher::write(&mut h, s.as_bytes());
    std::hash::Hasher::finish(&h)
}

} // verus!
