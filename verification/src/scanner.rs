//! The scanner: token reads, line reads, and radix-aware integer reads
//! over one byte source. Every read is a peek-compute-consume
//! transaction against the source's single cursor.

use vstd::prelude::*;
use crate::delim::{
    compiled_find, consumed_of, default_delim, default_pattern, escape_of, finds_as_compiled,
    lit_find, matches_literal, re_find, regex_escape, regex_find, regex_new, regex_pattern,
    regex_valid, skip_len, token_of, token_window,
};
use crate::number::{i32_value, parse_i32, strip_commas, without_commas};
use crate::source::{line_advance, line_content, ByteSource};
use crate::text::{bytes_of, bytes_to_string, chars_of, utf8_check, utf8_ok};

verus! {

/// What an integer read yields from a buffer: nothing when the radix is
/// out of range or no token is there; otherwise the token, commas
/// stripped, read as a base-`radix` 32-bit integer.
pub open spec fn int_result(re: regex::Regex, rem: Seq<u8>, radix: u32) -> Option<int> {
    if !(2 <= radix && radix <= 36) || token_of(re, rem).len() == 0 {
        None
    } else {
        i32_value(strip_commas(token_of(re, rem)), radix as int)
    }
}

/// An integer read with a radix outside [2, 36] yields no value, whatever
/// the buffer holds — while, as `next_int_radix` states, the token is
/// consumed all the same.
pub proof fn lemma_invalid_radix_no_value(re: regex::Regex, rem: Seq<u8>, radix: u32)
    requires
        !(2 <= radix && radix <= 36),
    ensures
        int_result(re, rem, radix) is None,
{
}

/// A scanner over a byte source: a compiled delimiter regex, a radix for
/// integer reads, and the source whose cursor is the only position state.
pub struct Scanner {
    source: ByteSource,
    delim: regex::Regex,
    radix: u32,
}

impl Scanner {
    /// The source is well formed and the radix stays in `[2, 36]`.
    pub closed spec fn wf(self) -> bool {
        self.source.wf() && 2 <= self.radix <= 36
    }

    /// The bytes not yet consumed.
    pub closed spec fn remaining(self) -> Seq<u8> {
        self.source.remaining()
    }

    /// The current delimiter regex, the value the scan model is keyed by.
    pub closed spec fn delimiter(self) -> regex::Regex {
        self.delim
    }

    /// The pattern text of the current delimiter.
    pub closed spec fn pattern(self) -> Seq<char> {
        regex_pattern(self.delim)
    }

    /// The current radix.
    pub closed spec fn radix(self) -> u32 {
        self.radix
    }

    /// A scanner over `source`, delimited by whitespace runs, radix 10.
    pub fn new(source: ByteSource) -> (r: Scanner)
        requires
            source.wf(),
        ensures
            r.wf(),
            r.remaining() == source.remaining(),
            r.pattern() == default_pattern(),
            finds_as_compiled(r.delimiter(), default_pattern()),
            r.radix() == 10,
    {
        Scanner { source, delim: default_delim(), radix: 10 }
    }

    /// Installs `delim` as the delimiter and returns it for confirmation.
    pub fn set_delim(&mut self, delim: regex::Regex) -> (r: &regex::Regex)
        ensures
            final(self).delimiter() == delim,
            final(self).pattern() == regex_pattern(delim),
            *r == final(self).delimiter(),
            regex_pattern(*r) == regex_pattern(delim),
            final(self).remaining() == old(self).remaining(),
            final(self).radix() == old(self).radix(),
            final(self).wf() == old(self).wf(),
    {
        self.delim = delim;
        &self.delim
    }

    /// Escapes every pattern metacharacter in `delim` and installs the
    /// result, so the delimiter matches `delim` verbatim and nothing
    /// else. Should the escaped text nevertheless not compile — the
    /// engine caps a pattern's compiled size, which an enormous literal
    /// can exceed — the previous delimiter is kept.
    pub fn set_delim_str(&mut self, delim: &str) -> (r: &regex::Regex)
        ensures
            regex_valid(escape_of(delim@)) ==> final(self).pattern() == escape_of(delim@)
                && finds_as_compiled(final(self).delimiter(), escape_of(delim@))
                && matches_literal(final(self).delimiter(), bytes_of(delim@)),
            !regex_valid(escape_of(delim@)) ==> final(self).delimiter() == old(self).delimiter()
                && final(self).pattern() == old(self).pattern(),
            *r == final(self).delimiter(),
            regex_pattern(*r) == final(self).pattern(),
            final(self).remaining() == old(self).remaining(),
            final(self).radix() == old(self).radix(),
            final(self).wf() == old(self).wf(),
    {
        let escaped = regex_escape(delim);
        match regex_new(escaped.as_str()) {
            Some(re) => {
                self.delim = re;
                proof {
                    assert forall|t: Seq<u8>| #[trigger] re_find(self.delim, t) == lit_find(
                        bytes_of(delim@),
                        t,
                    ) by {
                        assert(re_find(self.delim, t) == compiled_find(escape_of(delim@), t));
                    }
                }
            },
            None => {},
        }
        &self.delim
    }

    /// The current delimiter, read-only.
    pub fn get_delim(&self) -> (r: &regex::Regex)
        ensures
            *r == self.delimiter(),
            regex_pattern(*r) == self.pattern(),
    {
        &self.delim
    }

    /// Sets the radix for integer reads; a value outside `[2, 36]` is
    /// silently ignored and the previous radix kept.
    pub fn set_radix(&mut self, radix: u32)
        ensures
            final(self).radix() == if 2 <= radix && radix <= 36 {
                radix
            } else {
                old(self).radix()
            },
            final(self).remaining() == old(self).remaining(),
            final(self).delimiter() == old(self).delimiter(),
            final(self).pattern() == old(self).pattern(),
            old(self).wf() ==> final(self).wf(),
    {
        if 2 <= radix && radix <= 36 {
            self.radix = radix;
        }
    }

    /// The radix integer reads use when none is given.
    pub fn get_radix(&self) -> (r: u32)
        ensures
            r == self.radix(),
    {
        self.radix
    }

    /// The core scan: skip leading delimiter matches, cut the token at
    /// the next match, consume both, and hand the token's bytes back.
    fn next_token_bytes(&mut self) -> (r: Option<Vec<u8>>)
        requires
            old(self).wf(),
        ensures
            final(self).wf(),
            final(self).delimiter() == old(self).delimiter(),
            final(self).pattern() == old(self).pattern(),
            final(self).radix() == old(self).radix(),
            !utf8_ok(old(self).remaining()) ==> r is None && final(self).remaining() == old(
                self,
            ).remaining(),
            utf8_ok(old(self).remaining()) ==> {
                let rem = old(self).remaining();
                let dre = old(self).delimiter();
                &&& final(self).remaining() == rem.skip(consumed_of(dre, rem))
                &&& (r is None <==> token_of(dre, rem).len() == 0)
                &&& (r matches Some(v) ==> v@ == token_of(dre, rem) && utf8_ok(v@))
            },
    {
        let n = self.source.buffered_len();
        let valid = utf8_check(self.source.buffered());
        if !valid {
            return None;
        }
        let ghost rem = self.source.remaining();
        let ghost dre = self.delim;
        let ghost rdx = self.radix;
        proof {
            assert(rem.skip(0) =~= rem);
        }
        let mut k: usize = 0;
        let mut tlen: usize = 0;
        loop
            invariant
                k <= n,
                n as int == rem.len(),
                self.source.wf(),
                2 <= self.radix <= 36,
                self.source.remaining() == rem,
                self.delim == dre,
                self.radix == rdx,
                utf8_ok(rem.skip(k as int)),
                skip_len(dre, rem) == k + skip_len(dre, rem.skip(k as int)),
            ensures
                k <= n,
                tlen <= n - k,
                self.source.wf(),
                2 <= self.radix <= 36,
                self.source.remaining() == rem,
                self.delim == dre,
                self.radix == rdx,
                skip_len(dre, rem) == k,
                token_of(dre, rem) == rem.skip(k as int).take(tlen as int),
                tlen > 0 ==> utf8_ok(rem.skip(k as int).take(tlen as int)),
            decreases n - k,
        {
            let found = {
                let buf = self.source.buffered();
                let w = vstd::slice::slice_subrange(buf, k, n);
                regex_find(&self.delim, w)
            };
            let ghost w = rem.skip(k as int);
            match found {
                Some(p) => {
                    let (s, e) = p;
                    if s == 0 && e > 0 {
                        proof {
                            assert(w.skip(e as int) =~= rem.skip(k + e));
                            assert(w.subrange(e as int, w.len() as int) =~= rem.skip(k + e));
                        }
                        k = k + e;
                    } else {
                        proof {
                            assert(skip_len(dre, w) == 0);
                            assert(token_window(dre, rem) =~= w);
                            assert(token_of(dre, rem) == w.take(s as int));
                            assert(w.subrange(0, s as int) =~= w.take(s as int));
                        }
                        tlen = s;
                        break ;
                    }
                },
                None => {
                    proof {
                        assert(skip_len(dre, w) == 0);
                        assert(token_window(dre, rem) =~= w);
                        assert(token_of(dre, rem) == w);
                        assert(w.take(w.len() as int) =~= w);
                    }
                    tlen = n - k;
                    break ;
                },
            }
        }
        let total = k + tlen;
        let token: Vec<u8> = {
            let buf = self.source.buffered();
            vstd::slice::slice_to_vec(vstd::slice::slice_subrange(buf, k, total))
        };
        self.source.consume(total);
        proof {
            assert(token@ =~= rem.skip(k as int).take(tlen as int));
            assert(token_of(dre, rem).len() == tlen);
            assert(self.source.remaining() == rem.skip(consumed_of(dre, rem)));
        }
        if token.len() == 0 {
            None
        } else {
            Some(token)
        }
    }

    /// The next token delimited by the current regex: leading delimiter
    /// runs are skipped and consumed, the token is cut at the next match
    /// (or the end of the input) and consumed too. Nothing comes back —
    /// with nothing consumed — when the buffered bytes are not valid
    /// text; nothing comes back, with the leading delimiters still
    /// consumed, when no token is left. A token is never empty.
    pub fn next(&mut self) -> (r: Option<String>)
        requires
            old(self).wf(),
        ensures
            final(self).wf(),
            final(self).delimiter() == old(self).delimiter(),
            final(self).pattern() == old(self).pattern(),
            final(self).radix() == old(self).radix(),
            !utf8_ok(old(self).remaining()) ==> r is None && final(self).remaining() == old(
                self,
            ).remaining(),
            utf8_ok(old(self).remaining()) ==> {
                let rem = old(self).remaining();
                let dre = old(self).delimiter();
                &&& final(self).remaining() == rem.skip(consumed_of(dre, rem))
                &&& (r is None <==> token_of(dre, rem).len() == 0)
                &&& (r matches Some(t) ==> t@ == chars_of(token_of(dre, rem)) && t@.len() > 0)
            },
    {
        match self.next_token_bytes() {
            Some(v) => Some(bytes_to_string(v)),
            None => None,
        }
    }

    /// The next line: everything before the next newline, which is
    /// consumed but not returned. A final line without a newline is
    /// still returned whole; only an already-empty input yields nothing.
    /// Leading delimiter matches are kept, not skipped.
    pub fn next_line(&mut self) -> (r: Option<String>)
        requires
            old(self).wf(),
        ensures
            final(self).wf(),
            final(self).delimiter() == old(self).delimiter(),
            final(self).pattern() == old(self).pattern(),
            final(self).radix() == old(self).radix(),
            old(self).remaining().len() == 0 ==> r is None && final(self).remaining() == old(
                self,
            ).remaining(),
            old(self).remaining().len() > 0 ==> {
                let rem = old(self).remaining();
                &&& final(self).remaining() == rem.skip(line_advance(rem))
                &&& (utf8_ok(line_content(rem)) ==> (r matches Some(t) && t@ == chars_of(
                    line_content(rem),
                )))
                &&& (!utf8_ok(line_content(rem)) ==> r is None)
            },
    {
        match self.source.read_line() {
            Some(v) => {
                if utf8_check(v.as_slice()) {
                    Some(bytes_to_string(v))
                } else {
                    None
                }
            },
            None => None,
        }
    }

    /// Reads the next token as a base-`radix` 32-bit integer, commas
    /// stripped first. The token is consumed exactly as `next` would
    /// consume it, even when the radix is out of `[2, 36]` or the text
    /// does not parse — a failed numeric read is not retryable.
    pub fn next_int_radix(&mut self, radix: u32) -> (r: Option<i32>)
        requires
            old(self).wf(),
        ensures
            final(self).wf(),
            final(self).delimiter() == old(self).delimiter(),
            final(self).pattern() == old(self).pattern(),
            final(self).radix() == old(self).radix(),
            !utf8_ok(old(self).remaining()) ==> r is None && final(self).remaining() == old(
                self,
            ).remaining(),
            utf8_ok(old(self).remaining()) ==> {
                let rem = old(self).remaining();
                let dre = old(self).delimiter();
                &&& final(self).remaining() == rem.skip(consumed_of(dre, rem))
                &&& (r is None <==> int_result(dre, rem, radix) is None)
                &&& (r matches Some(v) ==> int_result(dre, rem, radix) == Some(v as int))
            },
    {
        let tok = self.next_token_bytes();
        if radix < 2 || radix > 36 {
            return None;
        }
        match tok {
            Some(v) => {
                let stripped = without_commas(v.as_slice());
                parse_i32(stripped.as_slice(), radix)
            },
            None => None,
        }
    }

    /// Reads the next token as a 32-bit integer in the scanner's
    /// configured radix, commas stripped; the token is consumed even
    /// when it does not parse.
    pub fn next_int(&mut self) -> (r: Option<i32>)
        requires
            old(self).wf(),
        ensures
            final(self).wf(),
            final(self).delimiter() == old(self).delimiter(),
            final(self).pattern() == old(self).pattern(),
            final(self).radix() == old(self).radix(),
            !utf8_ok(old(self).remaining()) ==> r is None && final(self).remaining() == old(
                self,
            ).remaining(),
            utf8_ok(old(self).remaining()) ==> {
                let rem = old(self).remaining();
                let dre = old(self).delimiter();
                &&& final(self).remaining() == rem.skip(consumed_of(dre, rem))
                &&& (r is None <==> int_result(dre, rem, old(self).radix()) is None)
                &&& (r matches Some(v) ==> int_result(dre, rem, old(self).radix()) == Some(
                    v as int,
                ))
            },
    {
        let radix = self.radix;
        self.next_int_radix(radix)
    }

    /// The configured-radix 32-bit integer read under its historical
    /// name; identical to `next_int`.
    pub fn next_i32(&mut self) -> (r: Option<i32>)
        requires
            old(self).wf(),
        ensures
            final(self).wf(),
            final(self).delimiter() == old(self).delimiter(),
            final(self).pattern() == old(self).pattern(),
            final(self).radix() == old(self).radix(),
            !utf8_ok(old(self).remaining()) ==> r is None && final(self).remaining() == old(
                self,
            ).remaining(),
            utf8_ok(old(self).remaining()) ==> {
                let rem = old(self).remaining();
                let dre = old(self).delimiter();
                &&& final(self).remaining() == rem.skip(consumed_of(dre, rem))
                &&& (r is None <==> int_result(dre, rem, old(self).radix()) is None)
                &&& (r matches Some(v) ==> int_result(dre, rem, old(self).radix()) == Some(
                    v as int,
                ))
            },
    {
        self.next_int()
    }
}

} // verus!
