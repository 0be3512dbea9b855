//! Scanner primitives: character-class based cursor operations over a string
//! view. Every other parser is built from these.
//!
//! Each operation consumes a prefix of its input and returns the remainder;
//! parsing never mutates input, only narrows the view. The spec functions
//! here describe exactly which prefix is consumed.

use vstd::prelude::*;
use vstd::string::StrSliceExecFns;

use crate::chars::{is_ascii_alphabetic_char, CharClass};
use crate::error::{Error, SpecError};

verus! {

/// The length of the longest prefix of `s` whose characters all belong to
/// `cls`.
pub open spec fn take_len(cls: CharClass, s: Seq<char>) -> nat
    decreases s.len(),
{
    if s.len() == 0 || !cls.accepts_spec(s[0]) {
        0
    } else {
        1 + take_len(cls, s.drop_first())
    }
}

/// `take_len` is the unique cut: everything before it is accepted, and the
/// character at it (if any) is not.
pub proof fn lemma_take_len(cls: CharClass, s: Seq<char>)
    ensures
        take_len(cls, s) <= s.len(),
        forall|j: int| 0 <= j < take_len(cls, s) ==> cls.accepts_spec(#[trigger] s[j]),
        take_len(cls, s) < s.len() ==> !cls.accepts_spec(s[take_len(cls, s) as int]),
    decreases s.len(),
{
    if s.len() > 0 && cls.accepts_spec(s[0]) {
        lemma_take_len(cls, s.drop_first());
        assert forall|j: int| 0 <= j < take_len(cls, s) implies cls.accepts_spec(
            #[trigger] s[j],
        ) by {
            if j > 0 {
                assert(s.drop_first()[j - 1] == s[j]);
            }
        }
        if take_len(cls, s) < s.len() {
            assert(s.drop_first()[take_len(cls, s) - 1] == s[take_len(cls, s) as int]);
        }
    }
}

/// Any cut with the same shape equals `take_len`.
pub proof fn lemma_take_len_unique(cls: CharClass, s: Seq<char>, n: nat)
    requires
        n <= s.len(),
        forall|j: int| 0 <= j < n ==> cls.accepts_spec(#[trigger] s[j]),
        n < s.len() ==> !cls.accepts_spec(s[n as int]),
    ensures
        take_len(cls, s) == n,
    decreases s.len(),
{
    if n == 0 {
    } else {
        assert(cls.accepts_spec(s[0]));
        assert forall|j: int| 0 <= j < n - 1 implies cls.accepts_spec(
            #[trigger] s.drop_first()[j],
        ) by {
            assert(s.drop_first()[j] == s[j + 1]);
        }
        if n - 1 < s.drop_first().len() {
            assert(s.drop_first()[n - 1] == s[n as int]);
        }
        lemma_take_len_unique(cls, s.drop_first(), (n - 1) as nat);
    }
}

/// Splits `s` after its longest prefix of characters in `accept`, returning
/// `(remainder, matched_prefix)`. Never fails; the prefix may be empty.
pub fn take_while(accept: CharClass, s: &str) -> (r: (&str, &str))
    ensures
        r.0@ == s@.subrange(take_len(accept, s@) as int, s@.len() as int),
        r.1@ == s@.subrange(0, take_len(accept, s@) as int),
{
    let len = s.unicode_len();
    let mut i: usize = 0;
    while i < len && accept.accepts(s.get_char(i))
        invariant
            len == s@.len(),
            i <= len,
            forall|j: int| 0 <= j < i ==> accept.accepts_spec(#[trigger] s@[j]),
        decreases len - i,
    {
        i = i + 1;
    }
    proof {
        lemma_take_len_unique(accept, s@, i as nat);
    }
    let rem = s.substring_char(i, len);
    let ext = s.substring_char(0, i);
    (rem, ext)
}

/// As [`take_while`], but fails with `err` when the matched prefix is empty.
pub fn take_while_restrict(accept: CharClass, s: &str, err: Error) -> (r: Result<
    (&str, &str),
    Error,
>)
    ensures
        match r {
            Ok((rem, ext)) => {
                &&& take_len(accept, s@) > 0
                &&& rem@ == s@.subrange(take_len(accept, s@) as int, s@.len() as int)
                &&& ext@ == s@.subrange(0, take_len(accept, s@) as int)
            },
            Err(e) => take_len(accept, s@) == 0 && e == err,
        },
{
    let (rem, ext) = take_while(accept, s);
    proof {
        lemma_take_len(accept, s@);
    }
    if ext.unicode_len() == 0 {
        Err(err)
    } else {
        Ok((rem, ext))
    }
}

/// Splits `s` after its leading Unicode whitespace, returning
/// `(remainder, whitespace)`.
pub fn extract_whitespace(s: &str) -> (r: (&str, &str))
    ensures
        r.0@ == s@.subrange(take_len(CharClass::Whitespace, s@) as int, s@.len() as int),
        r.1@ == s@.subrange(0, take_len(CharClass::Whitespace, s@) as int),
{
    take_while(CharClass::Whitespace, s)
}

/// Splits `s` after its leading spaces and tabs; fails when there are none.
/// Used where a keyword requires at least one separating space.
pub fn extract_whitespace_restrict(s: &str) -> (r: Result<(&str, &str), Error>)
    ensures
        match r {
            Ok((rem, ext)) => {
                &&& take_len(CharClass::SpaceTab, s@) > 0
                &&& rem@ == s@.subrange(take_len(CharClass::SpaceTab, s@) as int, s@.len() as int)
                &&& ext@ == s@.subrange(0, take_len(CharClass::SpaceTab, s@) as int)
            },
            Err(e) => take_len(CharClass::SpaceTab, s@) == 0 && e == Error::ExpectedWhitespace,
        },
{
    take_while_restrict(CharClass::SpaceTab, s, Error::ExpectedWhitespace)
}

/// Splits `s` after its leading ASCII digits; fails when there are none.
pub fn extract_digits(s: &str) -> (r: Result<(&str, &str), Error>)
    ensures
        match r {
            Ok((rem, ext)) => {
                &&& take_len(CharClass::Digit, s@) > 0
                &&& rem@ == s@.subrange(take_len(CharClass::Digit, s@) as int, s@.len() as int)
                &&& ext@ == s@.subrange(0, take_len(CharClass::Digit, s@) as int)
            },
            Err(e) => take_len(CharClass::Digit, s@) == 0 && e == Error::ExpectedDigits,
        },
{
    take_while_restrict(CharClass::Digit, s, Error::ExpectedDigits)
}

/// What [`extract_ident`] consumes: input must open with an ASCII letter,
/// and the identifier then extends over letters and digits.
pub open spec fn ident_start(s: Seq<char>) -> bool {
    s.len() > 0 && is_ascii_alphabetic_char(s[0])
}

/// Splits `s` after a leading identifier: an ASCII letter followed by ASCII
/// letters and digits.
pub fn extract_ident(s: &str) -> (r: Result<(&str, &str), Error>)
    ensures
        match r {
            Ok((rem, ext)) => {
                &&& ident_start(s@)
                &&& rem@ == s@.subrange(
                    take_len(CharClass::Alphanumeric, s@) as int,
                    s@.len() as int,
                )
                &&& ext@ == s@.subrange(0, take_len(CharClass::Alphanumeric, s@) as int)
            },
            Err(e) => !ident_start(s@) && e == Error::ExpectedIdentifier,
        },
{
    if s.unicode_len() > 0 && crate::chars::is_alphabetic(s.get_char(0)) {
        Ok(take_while(CharClass::Alphanumeric, s))
    } else {
        Err(Error::ExpectedIdentifier)
    }
}

/// Relies on String::push: appends exactly the one character `c` to the
/// end of the string.
#[verifier::external_body]
pub fn push_char(s: &mut String, c: char)
    ensures
        final(s)@ == old(s)@.push(c),
{
    s.push(c);
}

/// Consumes the keyword `word` from the front of `s`, requiring a word
/// boundary: the next character, if any, is not a letter or digit.
pub fn keyword<'a>(word: &str, s: &'a str) -> (r: Option<&'a str>)
    ensures
        match r {
            Some(rem) => crate::grammar::kw_matches(word@, s@) && rem@ == s@.subrange(
                word@.len() as int,
                s@.len() as int,
            ),
            None => !crate::grammar::kw_matches(word@, s@),
        },
{
    match tag(word, s) {
        Err(_) => None,
        Ok(rem) => {
            if rem.unicode_len() == 0 {
                Some(rem)
            } else {
                let c = rem.get_char(0);
                if CharClass::Alphanumeric.accepts(c) {
                    None
                } else {
                    Some(rem)
                }
            }
        },
    }
}

/// Character-for-character equality of two string slices.
pub fn str_eq(a: &str, b: &str) -> (r: bool)
    ensures
        r == (a@ == b@),
{
    let alen = a.unicode_len();
    let blen = b.unicode_len();
    if alen != blen {
        proof {
            assert(a@ != b@);
        }
        return false;
    }
    let mut i: usize = 0;
    while i < alen && a.get_char(i) == b.get_char(i)
        invariant
            alen == a@.len(),
            alen == b@.len(),
            i <= alen,
            forall|j: int| 0 <= j < i ==> a@[j] == b@[j],
        decreases alen - i,
    {
        i = i + 1;
    }
    if i == alen {
        proof {
            assert(a@ =~= b@);
        }
        true
    } else {
        false
    }
}

/// Whether `s` begins with the exact text `p`.
pub open spec fn tag_matches(p: Seq<char>, s: Seq<char>) -> bool {
    p.len() <= s.len() && s.subrange(0, p.len() as int) == p
}

/// Consumes the exact literal `starting_text` from the front of `s`, used
/// for keywords and punctuation.
pub fn tag<'a>(starting_text: &str, s: &'a str) -> (r: Result<&'a str, Error>)
    ensures
        match r {
            Ok(rem) => tag_matches(starting_text@, s@) && rem@ == s@.subrange(
                starting_text@.len() as int,
                s@.len() as int,
            ),
            Err(e) => !tag_matches(starting_text@, s@) && e@ == SpecError::ExpectedTag(
                starting_text@,
            ),
        },
{
    let plen = starting_text.unicode_len();
    let slen = s.unicode_len();
    if plen > slen {
        return Err(Error::ExpectedTag(starting_text.to_owned()));
    }
    let mut i: usize = 0;
    while i < plen && starting_text.get_char(i) == s.get_char(i)
        invariant
            plen == starting_text@.len(),
            slen == s@.len(),
            plen <= slen,
            i <= plen,
            forall|j: int| 0 <= j < i ==> starting_text@[j] == s@[j],
        decreases plen - i,
    {
        i = i + 1;
    }
    if i == plen {
        proof {
            assert(s@.subrange(0, plen as int) =~= starting_text@);
        }
        Ok(s.substring_char(plen, slen))
    } else {
        proof {
            assert(s@.subrange(0, plen as int)[i as int] == s@[i as int]);
        }
        Err(Error::ExpectedTag(starting_text.to_owned()))
    }
}

/// What [`extract_semicolon`] leaves: when `s` opens with `;`, the
/// semicolon and the whitespace after it are consumed.
pub open spec fn after_semicolon(s: Seq<char>) -> Seq<char> {
    if s.len() > 0 && s[0] == ';' {
        let t = s.subrange(1, s.len() as int);
        t.subrange(take_len(CharClass::Whitespace, t) as int, t.len() as int)
    } else {
        s
    }
}

/// Consumes an optional `;` and any whitespace after it, returning the
/// remainder and the matched separator text.
pub fn extract_semicolon(s: &str) -> (r: (&str, &str))
    ensures
        r.0@ == after_semicolon(s@),
        r.1@ == if s@.len() > 0 && s@[0] == ';' {
            seq![';']
        } else {
            Seq::<char>::empty()
        },
{
    if s.unicode_len() > 0 && s.get_char(0) == ';' {
        let t = s.substring_char(1, s.unicode_len());
        let (rem, _) = extract_whitespace(t);
        proof {
            reveal_strlit(";");
            assert(";"@ =~= seq![';']);
        }
        (rem, ";")
    } else {
        proof {
            reveal_strlit("");
            assert(""@ =~= Seq::<char>::empty());
        }
        (s, "")
    }
}

/// As [`extract_semicolon`], but the semicolon is required.
pub fn extract_semicolon_restrict(s: &str) -> (r: Result<(&str, &str), Error>)
    ensures
        match r {
            Ok((rem, ext)) => {
                &&& s@.len() > 0 && s@[0] == ';'
                &&& rem@ == after_semicolon(s@)
                &&& ext@ == seq![';']
            },
            Err(e) => !(s@.len() > 0 && s@[0] == ';') && e == Error::ExpectedSemicolon,
        },
{
    if s.unicode_len() > 0 && s.get_char(0) == ';' {
        let (rem, ext) = extract_semicolon(s);
        Ok((rem, ext))
    } else {
        Err(Error::ExpectedSemicolon)
    }
}

/// The images of a sequence of strings.
pub open spec fn strings_view(ss: Seq<String>) -> Seq<Seq<char>> {
    Seq::new(ss.len(), |i: int| ss[i]@)
}

/// `trim_end` is the cut before the trailing whitespace.
proof fn lemma_trim_end_unique(s: Seq<char>, k: int)
    requires
        0 <= k <= s.len(),
        forall|j: int| k <= j < s.len() ==> crate::chars::is_whitespace_char(#[trigger] s[j]),
        k == 0 || !crate::chars::is_whitespace_char(s[k - 1]),
    ensures
        crate::grammar::trim_end(s) == s.subrange(0, k),
    decreases s.len(),
{
    if s.len() > 0 && crate::chars::is_whitespace_char(s.last()) {
        lemma_trim_end_unique(s.drop_last(), k);
        assert(s.drop_last().subrange(0, k) =~= s.subrange(0, k));
    } else {
        assert(s.subrange(0, s.len() as int) =~= s);
    }
}

/// `s` with leading and trailing whitespace removed.
pub fn trim(s: &str) -> (r: &str)
    ensures
        r@ == crate::grammar::spec_trim(s@),
{
    let (t, _) = extract_whitespace(s);
    proof {
        lemma_take_len(CharClass::Whitespace, s@);
    }
    let mut k = t.unicode_len();
    while k > 0 && CharClass::Whitespace.accepts(t.get_char(k - 1))
        invariant
            k <= t@.len(),
            forall|j: int|
                k <= j < t@.len() ==> crate::chars::is_whitespace_char(#[trigger] t@[j]),
        decreases k,
    {
        k = k - 1;
    }
    proof {
        lemma_trim_end_unique(t@, k as int);
    }
    t.substring_char(0, k)
}

/// Splits a parameter span on commas, trimming each piece and dropping
/// empty ones.
fn split_params(s: &str) -> (r: Vec<String>)
    ensures
        strings_view(r@) == crate::grammar::spec_split_params(s@),
    decreases s@.len(),
{
    let (rest0, piece0) = take_while(CharClass::NotComma, s);
    proof {
        lemma_take_len(CharClass::NotComma, s@);
    }
    let piece = trim(piece0);
    if rest0.unicode_len() == 0 {
        proof {
            assert(s@.subrange(0, take_len(CharClass::NotComma, s@) as int) =~= s@);
        }
        let mut out: Vec<String> = Vec::new();
        if piece.unicode_len() > 0 {
            out.push(piece.to_owned());
        }
        proof {
            assert(strings_view(out@) =~= crate::grammar::spec_split_params(s@));
        }
        out
    } else {
        proof {
            assert(rest0@[0] == s@[take_len(CharClass::NotComma, s@) as int]);
        }
        let tail = rest0.substring_char(1, rest0.unicode_len());
        proof {
            let k = take_len(CharClass::NotComma, s@) as int;
            assert(tail@ =~= s@.subrange(k + 1, s@.len() as int));
        }
        let mut out = split_params(tail);
        let ghost restv = out@;
        if piece.unicode_len() > 0 {
            out.insert(0, piece.to_owned());
            proof {
                assert forall|k: int| 0 <= k < out@.len() implies strings_view(out@)[k] == (seq![
                    piece@,
                ] + strings_view(restv))[k] by {
                    if k > 0 {
                        assert(out@[k] == restv[k - 1]);
                    }
                }
                assert(strings_view(out@) =~= seq![piece@] + strings_view(restv));
            }
        }
        out
    }
}

/// Extracts a parenthesised parameter list: the names between `(` and `)`,
/// comma-separated, each trimmed, empty pieces dropped.
pub fn extract_params<'a>(s: &'a str) -> (r: Result<(&'a str, Vec<String>), Error>)
    ensures
        match r {
            Ok((rem, params)) => spec_extract_paren(s@) matches Some((srem, span)) && rem@ == srem
                && strings_view(params@) == crate::grammar::spec_split_params(span),
            Err(e) => {
                &&& spec_extract_paren(s@) is None
                &&& e == (if s@.len() == 0 || s@[0] != '(' {
                    Error::ExpectedOpeningParen
                } else {
                    Error::ExpectedClosingParen
                })
            },
        },
{
    let (rem, span) = match extract_paranthesis(s) {
        Ok(p) => p,
        Err(e) => {
            return Err(e);
        },
    };
    let params = split_params(span);
    Ok((rem, params))
}

/// What [`extract_float`] consumes on success: a digit run, a decimal
/// point, and a second digit run, with nothing reordered or dropped.
pub open spec fn float_shape(s: Seq<char>) -> bool {
    let n = take_len(CharClass::Digit, s);
    let after = s.subrange(n as int, s.len() as int);
    &&& n > 0
    &&& after.len() > 0 && after[0] == '.'
    &&& take_len(CharClass::Digit, after.subrange(1, after.len() as int)) > 0
}

/// Consumes a float literal's text: digits, a `.`, and at least one more
/// digit, returned as one string.
pub fn extract_float(s: &str) -> (r: Result<(&str, String), Error>)
    ensures
        match r {
            Ok((rem, text)) => {
                let n = take_len(CharClass::Digit, s@);
                let after = s@.subrange(n as int, s@.len() as int);
                let tail = after.subrange(1, after.len() as int);
                let m = take_len(CharClass::Digit, tail);
                &&& float_shape(s@)
                &&& text@ == s@.subrange(0, n as int) + seq!['.'] + tail.subrange(0, m as int)
                &&& rem@ == tail.subrange(m as int, tail.len() as int)
            },
            Err(e) => {
                let n = take_len(CharClass::Digit, s@);
                let after = s@.subrange(n as int, s@.len() as int);
                &&& !float_shape(s@)
                &&& e == (if n == 0 {
                    Error::ExpectedDigits
                } else if after.len() == 0 || after[0] != '.' {
                    Error::ExpectedDecimalPoint
                } else {
                    Error::ExpectedDigitsAfterDecimalPoint
                })
            },
        },
{
    let (r1, whole) = match extract_digits(s) {
        Ok(p) => p,
        Err(e) => {
            return Err(e);
        },
    };
    proof {
        lemma_take_len(CharClass::Digit, s@);
    }
    if r1.unicode_len() == 0 || r1.get_char(0) != '.' {
        return Err(Error::ExpectedDecimalPoint);
    }
    let r2 = r1.substring_char(1, r1.unicode_len());
    let (rem, frac) = match extract_digits(r2) {
        Ok(p) => p,
        Err(_) => {
            return Err(Error::ExpectedDigitsAfterDecimalPoint);
        },
    };
    proof {
        lemma_take_len(CharClass::Digit, r2@);
    }
    let mut text = whole.to_owned();
    push_char(&mut text, '.');
    text.append(frac);
    Ok((rem, text))
}

/// What [`extract_paranthesis`] returns: the text between a leading `(` and
/// the first `)`, and the remainder after that `)` with its leading
/// whitespace consumed. `None` when the input does not open with `(` or the
/// `)` is missing.
pub open spec fn spec_extract_paren(s: Seq<char>) -> Option<(Seq<char>, Seq<char>)> {
    if s.len() == 0 || s[0] != '(' {
        None
    } else {
        let t = s.subrange(1, s.len() as int);
        let n = take_len(CharClass::NotClosingParen, t);
        if n == t.len() {
            None
        } else {
            let after = t.subrange(n as int + 1, t.len() as int);
            Some(
                (
                    after.subrange(take_len(CharClass::Whitespace, after) as int, after.len() as int),
                    t.subrange(0, n as int),
                ),
            )
        }
    }
}

/// Consumes a parenthesised span: `(` then everything up to the first `)`,
/// then the `)` and any whitespace after it. Returns
/// `(remainder, span_contents)`.
pub fn extract_paranthesis(s: &str) -> (r: Result<(&str, &str), Error>)
    ensures
        match r {
            Ok((rem, ext)) => spec_extract_paren(s@) == Some((rem@, ext@)),
            Err(e) => {
                &&& spec_extract_paren(s@) is None
                &&& e == (if s@.len() == 0 || s@[0] != '(' {
                    Error::ExpectedOpeningParen
                } else {
                    Error::ExpectedClosingParen
                })
            },
        },
{
    if s.unicode_len() == 0 || s.get_char(0) != '(' {
        return Err(Error::ExpectedOpeningParen);
    }
    let t = s.substring_char(1, s.unicode_len());
    let (rest, ext) = take_while(CharClass::NotClosingParen, t);
    proof {
        lemma_take_len(CharClass::NotClosingParen, t@);
    }
    if rest.unicode_len() == 0 {
        return Err(Error::ExpectedClosingParen);
    }
    let after = rest.substring_char(1, rest.unicode_len());
    proof {
        let n = take_len(CharClass::NotClosingParen, t@) as int;
        assert(after@ =~= t@.subrange(n + 1, t@.len() as int));
    }
    let (rem, _) = extract_whitespace(after);
    Ok((rem, ext))
}

} // verus!
