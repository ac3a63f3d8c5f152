//! The delimiter pattern and the token-scanning model. A compiled regex
//! is opaque: what the engine finds is named by `re_find` over the regex
//! value itself — two regexes with equal pattern text may still be built
//! with different flags — while `compiled_find` names what a regex that
//! `Regex::new` builds from given pattern text finds. The scan of a
//! buffer — skip leading delimiter runs, then cut the token at the next
//! match — is defined over `re_find`.

use vstd::prelude::*;
use crate::text::{bytes_of, utf8_ok};

verus! {

#[verifier::external_type_specification]
#[verifier::external_body]
pub struct ExRegex(regex::Regex);

/// The pattern text a compiled regex was built from, as `Regex::as_str`
/// hands it back.
pub uninterp spec fn regex_pattern(re: regex::Regex) -> Seq<char>;

/// Whether `Regex::new` accepts `pat` and compiles it.
pub uninterp spec fn regex_valid(pat: Seq<char>) -> bool;

/// The leftmost match `Regex::find` yields: `re` is the regex value
/// (which carries more than its pattern text: the flags it was built
/// with), `text` the haystack's UTF-8 bytes, and the result the match's
/// byte offsets, start inclusive to end exclusive.
pub uninterp spec fn re_find(re: regex::Regex, text: Seq<u8>) -> Option<(int, int)>;

/// What the regex that `Regex::new` — the default configuration, no
/// flags — builds from the pattern text `pat` finds in `text`. Keying by
/// the text alone is sound here because `Regex::new` is a function of it.
pub uninterp spec fn compiled_find(pat: Seq<char>, text: Seq<u8>) -> Option<(int, int)>;

/// What `regex::escape` returns for the text `lit`.
pub uninterp spec fn escape_of(lit: Seq<char>) -> Seq<char>;

/// The pattern the scanner starts with: one or more whitespace characters.
pub open spec fn default_pattern() -> Seq<char> {
    seq!['\\', 's', '+']
}

/// The regex finds exactly what a default-configuration compile of the
/// pattern text `pat` finds: true of every regex `Regex::new` returns.
pub open spec fn finds_as_compiled(re: regex::Regex, pat: Seq<char>) -> bool {
    forall|t: Seq<u8>| #[trigger] re_find(re, t) == compiled_find(pat, t)
}

/// Leftmost occurrence of `lit` in `text`, as byte offsets: where a
/// pattern matches `lit` verbatim, this is what its find yields.
pub open spec fn lit_find(lit: Seq<u8>, text: Seq<u8>) -> Option<(int, int)>
    decreases text.len(),
{
    if lit.len() <= text.len() && text.take(lit.len() as int) == lit {
        Some((0, lit.len() as int))
    } else if text.len() == 0 {
        None
    } else {
        match lit_find(lit, text.skip(1)) {
            Some(p) => Some((p.0 + 1, p.1 + 1)),
            None => None,
        }
    }
}

/// The regex finds a match exactly where the literal byte string occurs:
/// what a delimiter built from an escaped literal guarantees.
pub open spec fn matches_literal(re: regex::Regex, lit: Seq<u8>) -> bool {
    forall|t: Seq<u8>| #[trigger] re_find(re, t) == lit_find(lit, t)
}

/// Relies on regex::Regex::new: compiling succeeds exactly when the
/// engine accepts the pattern; the compiled regex keeps `pat` as its
/// pattern text (`Regex::as_str`), and, being a default-configuration
/// build, finds what `compiled_find` names.
#[verifier::external_body]
pub(crate) fn regex_new(pat: &str) -> (r: Option<regex::Regex>)
    ensures
        r is Some <==> regex_valid(pat@),
        r matches Some(re) ==> regex_pattern(re) == pat@,
        (r matches Some(re) ==> forall|t: Seq<u8>| #[trigger] re_find(re, t) == compiled_find(
            pat@,
            t,
        )),
{
    regex::Regex::new(pat).ok()
}

/// Relies on regex::Regex::new on the fixed whitespace pattern `\s+`:
/// the pattern is hard-coded and valid, so this default-configuration
/// compile cannot fail.
#[verifier::external_body]
pub(crate) fn default_delim() -> (r: regex::Regex)
    ensures
        regex_pattern(r) == default_pattern(),
        forall|t: Seq<u8>| #[trigger] re_find(r, t) == compiled_find(default_pattern(), t),
{
    regex::Regex::new("\\s+").unwrap()
}

/// Relies on regex::Regex::find: yields the leftmost match's byte
/// offsets in `text`. Start and end are in bounds, in order, and fall on
/// character boundaries, so the bytes before, inside, and after the
/// match each stay valid UTF-8.
#[verifier::external_body]
pub(crate) fn regex_find(re: &regex::Regex, text: &[u8]) -> (r: Option<(usize, usize)>)
    requires
        utf8_ok(text@),
    ensures
        r is Some <==> re_find(*re, text@) is Some,
        r matches Some(p) ==> re_find(*re, text@) == Some((p.0 as int, p.1 as int)) && p.0 <= p.1
            && p.1 <= text@.len() && utf8_ok(text@.subrange(0, p.0 as int)) && utf8_ok(
            text@.subrange(p.0 as int, p.1 as int),
        ) && utf8_ok(text@.subrange(p.1 as int, text@.len() as int)),
{
    let s = core::str::from_utf8(text).unwrap();
    re.find(s).map(|m| (m.start(), m.end()))
}

/// Relies on regex::escape, documented to escape every pattern
/// metacharacter so that the result "may be safely used as a literal":
/// where the escaped text compiles, the compiled pattern matches nothing
/// but `lit` verbatim, so its find is a leftmost literal-substring
/// search. Whether it compiles is not promised: the engine has a size
/// limit that a very large literal can exceed.
#[verifier::external_body]
pub(crate) fn regex_escape(lit: &str) -> (r: String)
    ensures
        r@ == escape_of(lit@),
        regex_valid(r@) ==> (forall|t: Seq<u8>| #[trigger] compiled_find(r@, t) == lit_find(
            bytes_of(lit@),
            t,
        )),
{
    regex::escape(lit)
}

/// How many leading bytes of `text` a scan discards: while the regex
/// matches at the very start of what is left, the match is skipped.
/// A match that starts later, an empty match, or no match at all stops
/// the skipping.
pub open spec fn skip_len(re: regex::Regex, text: Seq<u8>) -> int
    decreases text.len(),
{
    match re_find(re, text) {
        Some(p) => if p.0 == 0 && 0 < p.1 && p.1 <= text.len() {
            p.1 + skip_len(re, text.skip(p.1))
        } else {
            0
        },
        None => 0,
    }
}

/// What is left of `text` once the leading delimiter runs are skipped.
pub open spec fn token_window(re: regex::Regex, text: Seq<u8>) -> Seq<u8> {
    text.skip(skip_len(re, text))
}

/// The token a scan of `text` extracts: everything in the window before
/// the next match of the regex, or the whole window when the regex no
/// longer matches.
pub open spec fn token_of(re: regex::Regex, text: Seq<u8>) -> Seq<u8> {
    let w = token_window(re, text);
    match re_find(re, w) {
        Some(p) => if 0 <= p.0 && p.0 <= w.len() {
            w.take(p.0)
        } else {
            w
        },
        None => w,
    }
}

/// How many bytes a scan of `text` consumes: the skipped delimiters plus
/// the token, whether or not the token is empty.
pub open spec fn consumed_of(re: regex::Regex, text: Seq<u8>) -> int {
    skip_len(re, text) + token_of(re, text).len()
}

/// Skipping never passes the end of the text.
pub proof fn lemma_skip_len_bounds(re: regex::Regex, text: Seq<u8>)
    ensures
        0 <= skip_len(re, text) <= text.len(),
    decreases text.len(),
{
    match re_find(re, text) {
        Some(p) => {
            if p.0 == 0 && 0 < p.1 && p.1 <= text.len() {
                lemma_skip_len_bounds(re, text.skip(p.1));
            }
        },
        None => {},
    }
}

/// A scan stays within the text: the skipped bytes and the token together
/// never exceed what was there.
pub proof fn lemma_scan_bounds(re: regex::Regex, text: Seq<u8>)
    ensures
        0 <= skip_len(re, text) <= text.len(),
        token_of(re, text).len() <= text.len() - skip_len(re, text),
        0 <= consumed_of(re, text) <= text.len(),
{
    lemma_skip_len_bounds(re, text);
}

/// A text in which the delimiter finds no match is one whole token, and
/// scanning it consumes everything.
pub proof fn lemma_no_delimiter_whole_token(re: regex::Regex, text: Seq<u8>)
    requires
        re_find(re, text) is None,
    ensures
        token_of(re, text) == text,
        consumed_of(re, text) == text.len(),
{
    assert(text.skip(0) =~= text);
}

/// Scanning empty text yields an empty token and consumes nothing: after
/// a scan has consumed the whole input, the next scan returns nothing.
pub proof fn lemma_scan_empty(re: regex::Regex)
    ensures
        token_of(re, Seq::<u8>::empty()).len() == 0,
        consumed_of(re, Seq::<u8>::empty()) == 0,
{
    assert(Seq::<u8>::empty().skip(0) =~= Seq::<u8>::empty());
}

/// A delimiter match at the very start of the text is skipped whole: it
/// adds to what the scan consumes but leaves the extracted token exactly
/// as a scan of the rest would extract it.
pub proof fn lemma_leading_delimiter_skipped(re: regex::Regex, text: Seq<u8>)
    requires
        re_find(re, text) matches Some(p) && p.0 == 0 && 0 < p.1 <= text.len(),
    ensures
        token_of(re, text) == token_of(re, text.skip(re_find(re, text)->Some_0.1)),
        consumed_of(re, text) == re_find(re, text)->Some_0.1 + consumed_of(
            re,
            text.skip(re_find(re, text)->Some_0.1),
        ),
{
    let e = re_find(re, text)->Some_0.1;
    lemma_skip_len_bounds(re, text.skip(e));
    assert(text.skip(skip_len(re, text)) =~= text.skip(e).skip(skip_len(re, text.skip(e))));
}

/// A text the skipping swallows whole — nothing but delimiter matches —
/// yields an empty token while still consuming everything.
pub proof fn lemma_all_delimiter_empty_token(re: regex::Regex, text: Seq<u8>)
    requires
        skip_len(re, text) == text.len(),
    ensures
        token_of(re, text).len() == 0,
        consumed_of(re, text) == text.len(),
{
}

/// Leading skip under a literal-matching delimiter.
pub open spec fn lit_skip_len(lit: Seq<u8>, text: Seq<u8>) -> int
    decreases text.len(),
{
    match lit_find(lit, text) {
        Some(p) => if p.0 == 0 && 0 < p.1 && p.1 <= text.len() {
            p.1 + lit_skip_len(lit, text.skip(p.1))
        } else {
            0
        },
        None => 0,
    }
}

/// The token under a literal-matching delimiter: everything up to the
/// next occurrence of the literal.
pub open spec fn lit_token_of(lit: Seq<u8>, text: Seq<u8>) -> Seq<u8> {
    let w = text.skip(lit_skip_len(lit, text));
    match lit_find(lit, w) {
        Some(p) => if 0 <= p.0 && p.0 <= w.len() {
            w.take(p.0)
        } else {
            w
        },
        None => w,
    }
}

/// A delimiter that matches exactly the occurrences of a literal byte
/// string — as one built from an escaped literal does — splits the text
/// precisely at those occurrences, never reading the literal as pattern
/// syntax.
pub proof fn lemma_literal_scan(re: regex::Regex, lit: Seq<u8>, text: Seq<u8>)
    requires
        matches_literal(re, lit),
    ensures
        skip_len(re, text) == lit_skip_len(lit, text),
        token_of(re, text) == lit_token_of(lit, text),
        consumed_of(re, text) == lit_skip_len(lit, text) + lit_token_of(lit, text).len(),
    decreases text.len(),
{
    assert(re_find(re, text) == lit_find(lit, text));
    match re_find(re, text) {
        Some(p) => {
            if p.0 == 0 && 0 < p.1 && p.1 <= text.len() {
                lemma_literal_scan(re, lit, text.skip(p.1));
            }
        },
        None => {},
    }
    let w = text.skip(skip_len(re, text));
    assert(re_find(re, w) == lit_find(lit, w));
}

} // verus!
