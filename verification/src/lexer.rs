//! Lexical scanning.
//!
//! [`tokenize`] turns source text into the ordered token sequence that the
//! parser consumes.  Scanning repeats one round until the input is
//! exhausted: skip one ignored prefix (longest registered entry first),
//! then match, in this order, a registered symbol (longest first, up to
//! [`MAX_SYMBOL_LEN`] characters), a numeric literal (the longest digit
//! prefix whose value fits a 64-bit signed word), or an identifier (the
//! longest run of lowercase letters).  If no rule matches and input
//! remains, the whole scan fails with [`LexError`]: no partial token
//! sequence is returned.
//!
//! [`spec_tokenize`] states that round structure as a recursive function
//! over character sequences; `tokenize` returns exactly its value.

use std::collections::VecDeque;
use vstd::prelude::*;

use crate::text::{str_chars, string_of_range};
use crate::token::{Token, TokenKind, TokenModel, tokens_view};

verus! {

/// Scanning failed: some input remains and no symbol, number or
/// identifier rule matches it.  The whole compilation aborts; there is no
/// partial result.
#[derive(PartialEq, Eq, Debug)]
pub struct LexError;

/// The longest registered symbol: the two-character comparisons
/// `==`, `!=`, `<=`, `>=`.
pub const MAX_SYMBOL_LEN: usize = 2;

/// A lowercase ASCII letter: the only characters identifiers are made of.
pub open spec fn is_lower_char(c: char) -> bool {
    97 <= c as u32 <= 122
}

/// An ASCII decimal digit.
pub open spec fn is_digit_char(c: char) -> bool {
    48 <= c as u32 <= 57
}

/// The numeric value of an ASCII decimal digit.
pub open spec fn digit_val(c: char) -> int {
    c as u32 - 48
}

/// The length of the longest entry of `ignore` that is a nonempty prefix
/// of `s`; zero when none is.
pub open spec fn ignore_skip_len(s: Seq<char>, ignore: Seq<Seq<char>>) -> nat
    decreases ignore.len(),
{
    if ignore.len() == 0 {
        0
    } else {
        let rest = ignore_skip_len(s, ignore.drop_last());
        let e = ignore.last();
        if 1 <= e.len() <= s.len() && s.take(e.len() as int) == e && e.len() > rest {
            e.len()
        } else {
            rest
        }
    }
}

/// The longest prefix of `s`, of at most [`MAX_SYMBOL_LEN`] characters,
/// that is a registered symbol; `None` when no prefix is one.
pub open spec fn symbol_match(s: Seq<char>, symbols: Seq<Seq<char>>) -> Option<Seq<char>> {
    if s.len() >= 2 && symbols.contains(s.take(2)) {
        Some(s.take(2))
    } else if s.len() >= 1 && symbols.contains(s.take(1)) {
        Some(s.take(1))
    } else {
        None
    }
}

/// How many leading digits of `s` a scan starting from the accumulated
/// value `acc` takes: it stops where the next digit would push the value
/// past `i64::MAX`.
pub open spec fn num_token_len(s: Seq<char>, acc: int) -> nat
    decreases s.len(),
{
    if s.len() == 0 || !is_digit_char(s[0]) || acc * 10 + digit_val(s[0]) > i64::MAX {
        0
    } else {
        1 + num_token_len(s.skip(1), acc * 10 + digit_val(s[0]))
    }
}

/// The value accumulated by that same scan.
pub open spec fn num_token_val(s: Seq<char>, acc: int) -> int
    decreases s.len(),
{
    if s.len() == 0 || !is_digit_char(s[0]) || acc * 10 + digit_val(s[0]) > i64::MAX {
        acc
    } else {
        num_token_val(s.skip(1), acc * 10 + digit_val(s[0]))
    }
}

/// The length of the longest prefix of `s` made of lowercase letters.
pub open spec fn lower_run_len(s: Seq<char>) -> nat
    decreases s.len(),
{
    if s.len() == 0 || !is_lower_char(s[0]) {
        0
    } else {
        1 + lower_run_len(s.skip(1))
    }
}

/// One scanning round at the head of `s`: the token it produces and the
/// total number of characters it consumes (ignored prefix included), or
/// `None` when no rule matches.
pub open spec fn round_result(s: Seq<char>, symbols: Seq<Seq<char>>, ignore: Seq<Seq<char>>)
    -> Option<(TokenModel, nat)>
{
    let k = ignore_skip_len(s, ignore);
    let s1 = s.skip(k as int);
    match symbol_match(s1, symbols) {
        Some(text) => Some(
            (TokenModel { kind: TokenKind::Reserved, val: None, text }, k + text.len()),
        ),
        None => {
            if s1.len() > 0 && is_digit_char(s1[0]) {
                let n = num_token_len(s1, 0);
                let text = s1.take(n as int);
                Some(
                    (
                        TokenModel { kind: TokenKind::Num, val: Some(num_token_val(s1, 0) as i64), text },
                        k + n,
                    ),
                )
            } else if lower_run_len(s1) > 0 {
                let n = lower_run_len(s1);
                Some(
                    (
                        TokenModel { kind: TokenKind::Ident, val: None, text: s1.take(n as int) },
                        k + n,
                    ),
                )
            } else {
                None
            }
        },
    }
}

/// A round that produces a token consumes at least one character, and
/// never more than the input holds.
pub proof fn lemma_round_consumes(s: Seq<char>, symbols: Seq<Seq<char>>, ignore: Seq<Seq<char>>)
    ensures
        round_result(s, symbols, ignore) matches Some((t, n)) ==> 1 <= n <= s.len()
            && t.text.len() >= 1,
{
    lemma_ignore_skip_len_le(s, ignore);
    let k = ignore_skip_len(s, ignore);
    let s1 = s.skip(k as int);
    if s1.len() > 0 && is_digit_char(s1[0]) {
        assert(digit_val(s1[0]) <= i64::MAX);
        lemma_num_token_len_le(s1, 0);
        assert(num_token_len(s1, 0) >= 1);
    }
    lemma_lower_run_len_le(s1);
}

/// The ignored prefix never reaches past the end of the input.
pub proof fn lemma_ignore_skip_len_le(s: Seq<char>, ignore: Seq<Seq<char>>)
    ensures
        ignore_skip_len(s, ignore) <= s.len(),
    decreases ignore.len(),
{
    if ignore.len() > 0 {
        lemma_ignore_skip_len_le(s, ignore.drop_last());
    }
}

/// A number token never reaches past the end of the input.
pub proof fn lemma_num_token_len_le(s: Seq<char>, acc: int)
    ensures
        num_token_len(s, acc) <= s.len(),
    decreases s.len(),
{
    if !(s.len() == 0 || !is_digit_char(s[0]) || acc * 10 + digit_val(s[0]) > i64::MAX) {
        lemma_num_token_len_le(s.skip(1), acc * 10 + digit_val(s[0]));
    }
}

/// An identifier never reaches past the end of the input.
pub proof fn lemma_lower_run_len_le(s: Seq<char>)
    ensures
        lower_run_len(s) <= s.len(),
    decreases s.len(),
{
    if !(s.len() == 0 || !is_lower_char(s[0])) {
        lemma_lower_run_len_le(s.skip(1));
    }
}

/// The token sequence of `s`, scanned round by round: `Some` exactly when
/// every round up to the end of the input matches a rule.
pub open spec fn spec_tokenize(s: Seq<char>, symbols: Seq<Seq<char>>, ignore: Seq<Seq<char>>)
    -> Option<Seq<TokenModel>>
    decreases s.len(),
{
    match round_result(s, symbols, ignore) {
        Some((t, n)) => {
            if 1 <= n <= s.len() {
                match spec_tokenize(s.skip(n as int), symbols, ignore) {
                    Some(rest) => Some(seq![t] + rest),
                    None => None,
                }
            } else {
                // never reached: a matching round consumes 1..=s.len() characters
                None
            }
        },
        None => {
            if ignore_skip_len(s, ignore) == s.len() {
                Some(Seq::empty())
            } else {
                None
            }
        },
    }
}

/// Whether `pat` is a nonempty match of `chars` at position `pos`.
fn match_at(chars: &Vec<char>, pos: usize, pat: &String) -> (b: bool)
    requires
        pos <= chars@.len(),
    ensures
        b == (1 <= pat@.len() <= chars@.len() - pos && chars@.subrange(
            pos as int,
            pos + pat@.len(),
        ) == pat@),
{
    let n = pat.as_str().unicode_len();
    if n < 1 || n > chars.len() - pos {
        return false;
    }
    let total = chars.len();
    let mut j: usize = 0;
    while j < n
        invariant
            j <= n,
            n == pat@.len(),
            total == chars@.len(),
            pos + n <= total,
            chars@.subrange(pos as int, pos + j) == pat@.take(j as int),
        decreases n - j,
    {
        if chars[pos + j] != pat.as_str().get_char(j) {
            assert(chars@.subrange(pos as int, pos + pat@.len())[j as int] != pat@[j as int]);
            return false;
        }
        proof {
            assert(chars@.subrange(pos as int, pos + j + 1) =~= pat@.take(j + 1));
        }
        j = j + 1;
    }
    proof {
        assert(chars@.subrange(pos as int, pos + n as int) =~= pat@);
    }
    true
}

/// How many characters of an ignored prefix stand at `pos`: the longest
/// entry of `ignore` that matches there, or zero.
fn skip_ignore(chars: &Vec<char>, pos: usize, ignore: &Vec<String>) -> (n: usize)
    requires
        pos <= chars@.len(),
    ensures
        n == ignore_skip_len(chars@.skip(pos as int), ignore.deep_view()),
        pos + n <= chars@.len(),
{
    let ghost s1 = chars@.skip(pos as int);
    let mut best: usize = 0;
    let mut i: usize = 0;
    while i < ignore.len()
        invariant
            i <= ignore@.len(),
            pos <= chars@.len(),
            s1 == chars@.skip(pos as int),
            best == ignore_skip_len(s1, ignore.deep_view().take(i as int)),
            pos + best <= chars@.len(),
        decreases ignore@.len() - i,
    {
        let ghost prefix = ignore.deep_view().take(i as int);
        proof {
            assert(ignore.deep_view().take(i + 1).drop_last() =~= prefix);
            assert(ignore.deep_view().take(i + 1).last() == ignore@[i as int]@);
        }
        let m = match_at(chars, pos, &ignore[i]);
        proof {
            if m {
                assert(s1.take(ignore@[i as int]@.len() as int) =~= chars@.subrange(
                    pos as int,
                    pos + ignore@[i as int]@.len(),
                ));
            } else {
                if 1 <= ignore@[i as int]@.len() <= s1.len() {
                    assert(s1.take(ignore@[i as int]@.len() as int) =~= chars@.subrange(
                        pos as int,
                        pos + ignore@[i as int]@.len(),
                    ));
                }
            }
        }
        if m {
            let le = ignore[i].as_str().unicode_len();
            if le > best {
                best = le;
            }
        }
        i = i + 1;
    }
    proof {
        assert(ignore.deep_view().take(ignore@.len() as int) =~= ignore.deep_view());
    }
    best
}

/// Whether some entry of `symbols` equals `chars[pos..pos + n]`.
fn contains_prefix(symbols: &Vec<String>, chars: &Vec<char>, pos: usize, n: usize) -> (b: bool)
    requires
        1 <= n,
        pos + n <= chars@.len(),
    ensures
        b == symbols.deep_view().contains(chars@.subrange(pos as int, pos + n)),
{
    let ghost pat = chars@.subrange(pos as int, pos + n);
    let mut i: usize = 0;
    while i < symbols.len()
        invariant
            i <= symbols@.len(),
            1 <= n,
            pos + n <= chars@.len(),
            pat == chars@.subrange(pos as int, pos + n),
            forall|j: int| 0 <= j < i ==> symbols.deep_view()[j] != pat,
        decreases symbols@.len() - i,
    {
        if symbols[i].as_str().unicode_len() == n && match_at(chars, pos, &symbols[i]) {
            proof {
                assert(symbols.deep_view()[i as int] == pat);
            }
            return true;
        }
        i = i + 1;
    }
    proof {
        assert(!symbols.deep_view().contains(pat)) by {
            assert forall|j: int| 0 <= j < symbols.deep_view().len() implies symbols.deep_view()[j]
                != pat by {}
        }
    }
    false
}

/// The registered symbol standing at `pos`, longest first, as
/// [`symbol_match`] describes; `None` when no symbol starts there.
fn load_symbol(chars: &Vec<char>, pos: usize, symbols: &Vec<String>) -> (r: Option<String>)
    requires
        pos <= chars@.len(),
    ensures
        ({
            let s1 = chars@.skip(pos as int);
            match r {
                Some(t) => symbol_match(s1, symbols.deep_view()) == Some(t@) && 1 <= t@.len()
                    && pos + t@.len() <= chars@.len(),
                None => symbol_match(s1, symbols.deep_view()) is None,
            }
        }),
{
    let ghost s1 = chars@.skip(pos as int);
    let total = chars.len();
    if total - pos >= MAX_SYMBOL_LEN {
        proof {
            assert(s1.take(2) =~= chars@.subrange(pos as int, pos + 2));
        }
        if contains_prefix(symbols, chars, pos, 2) {
            let t = string_of_range(chars, pos, pos + 2);
            return Some(t);
        }
    }
    if total - pos >= 1 {
        proof {
            assert(s1.take(1) =~= chars@.subrange(pos as int, pos + 1));
        }
        if contains_prefix(symbols, chars, pos, 1) {
            let t = string_of_range(chars, pos, pos + 1);
            return Some(t);
        }
    }
    None
}

/// The numeric literal standing at `pos`: its value and character count,
/// or `None` when the next character is no digit.
fn is_digit(chars: &Vec<char>, pos: usize) -> (r: Option<(i64, usize)>)
    requires
        pos <= chars@.len(),
    ensures
        ({
            let s1 = chars@.skip(pos as int);
            match r {
                Some((v, n)) => s1.len() > 0 && is_digit_char(s1[0]) && n == num_token_len(s1, 0)
                    && v == num_token_val(s1, 0) && 1 <= n && pos + n <= chars@.len(),
                None => s1.len() == 0 || !is_digit_char(s1[0]),
            }
        }),
{
    let ghost s1 = chars@.skip(pos as int);
    let total = chars.len();
    if pos >= total {
        return None;
    }
    let c0 = chars[pos];
    if !((c0 as u32) >= 48 && (c0 as u32) <= 57) {
        return None;
    }
    let mut acc: i64 = 0;
    let mut n: usize = 0;
    proof {
        assert(s1.skip(0) =~= s1);
    }
    loop
        invariant
            pos + n <= total,
            total == chars@.len(),
            pos < total,
            s1 == chars@.skip(pos as int),
            0 <= acc,
            num_token_len(s1, 0) == n + num_token_len(s1.skip(n as int), acc as int),
            num_token_val(s1, 0) == num_token_val(s1.skip(n as int), acc as int),
        ensures
            num_token_len(s1.skip(n as int), acc as int) == 0,
            num_token_val(s1.skip(n as int), acc as int) == acc,
            pos + n <= total,
            num_token_len(s1, 0) == n,
            num_token_val(s1, 0) == acc,
        decreases total - (pos + n),
    {
        let ghost rest = s1.skip(n as int);
        if pos + n >= total {
            proof {
                assert(rest.len() == 0);
            }
            break;
        }
        let c = chars[pos + n];
        proof {
            assert(rest[0] == c);
        }
        let u = c as u32;
        if !(u >= 48 && u <= 57) {
            break;
        }
        let d = (u - 48) as i64;
        let stepped = match acc.checked_mul(10) {
            Some(m) => m.checked_add(d),
            None => None,
        };
        match stepped {
            None => {
                proof {
                    assert(acc * 10 + digit_val(rest[0]) > i64::MAX);
                }
                break;
            },
            Some(a2) => {
                proof {
                    assert(a2 == acc * 10 + digit_val(rest[0]));
                    assert(s1.skip(n as int).skip(1) =~= s1.skip(n + 1));
                }
                acc = a2;
                n = n + 1;
            },
        }
    }
    Some((acc, n))
}

/// The identifier standing at `pos`: its text and character count, or
/// `None` when the next character is no lowercase letter.
fn is_ident(chars: &Vec<char>, pos: usize) -> (r: Option<(String, usize)>)
    requires
        pos <= chars@.len(),
    ensures
        ({
            let s1 = chars@.skip(pos as int);
            match r {
                Some((id, n)) => n == lower_run_len(s1) && 1 <= n && id@ == s1.take(n as int)
                    && pos + n <= chars@.len(),
                None => lower_run_len(s1) == 0,
            }
        }),
{
    let ghost s1 = chars@.skip(pos as int);
    let total = chars.len();
    let mut n: usize = 0;
    proof {
        assert(s1.skip(0) =~= s1);
    }
    loop
        invariant
            pos + n <= total,
            total == chars@.len(),
            pos <= total,
            s1 == chars@.skip(pos as int),
            lower_run_len(s1) == n + lower_run_len(s1.skip(n as int)),
        ensures
            pos + n <= total,
            n == lower_run_len(s1),
        decreases total - (pos + n),
    {
        let ghost rest = s1.skip(n as int);
        if pos + n >= total {
            proof {
                assert(rest.len() == 0);
            }
            break;
        }
        let c = chars[pos + n];
        proof {
            assert(rest[0] == c);
        }
        let u = c as u32;
        if !(u >= 97 && u <= 122) {
            break;
        }
        proof {
            assert(s1.skip(n as int).skip(1) =~= s1.skip(n + 1));
        }
        n = n + 1;
    }
    if n == 0 {
        return None;
    }
    let id = string_of_range(chars, pos, pos + n);
    proof {
        assert(s1.take(n as int) =~= chars@.subrange(pos as int, pos + n));
    }
    Some((id, n))
}

/// Appending a token to a sequence appends its model to the view.
proof fn lemma_tokens_view_push(ts: Seq<Token>, t: Token)
    ensures
        tokens_view(ts.push(t)) == tokens_view(ts).push(t@),
{
    assert(tokens_view(ts.push(t)) =~= tokens_view(ts).push(t@));
}

/// Scans `s` into its token sequence.  Returns exactly the value of
/// [`spec_tokenize`] on the text: the token sequence when every scanning
/// round matches, and `LexError` when input remains that no round can
/// consume.
pub fn tokenize(s: &String, symbols: &Vec<String>, ignore: &Vec<String>) -> (r: Result<
    VecDeque<Token>,
    LexError,
>)
    ensures
        ({
            let expected = spec_tokenize(s@, symbols.deep_view(), ignore.deep_view());
            match r {
                Ok(ts) => expected == Some(tokens_view(ts@)),
                Err(_) => expected is None,
            }
        }),
{
    let ghost syms = symbols.deep_view();
    let ghost ign = ignore.deep_view();
    let chars = str_chars(s.as_str());
    let total = chars.len();
    let mut tokens: VecDeque<Token> = VecDeque::new();
    let mut pos: usize = 0;
    proof {
        assert(chars@.skip(0) =~= chars@);
        assert(tokens_view(tokens@) + spec_tokenize(chars@, syms, ign)->Some_0 =~= spec_tokenize(
            chars@,
            syms,
            ign,
        )->Some_0);
    }
    loop
        invariant
            pos <= total,
            total == chars@.len(),
            chars@ == s@,
            syms == symbols.deep_view(),
            ign == ignore.deep_view(),
            (match spec_tokenize(chars@.skip(pos as int), syms, ign) {
                Some(rest) => spec_tokenize(chars@, syms, ign) == Some(
                    tokens_view(tokens@) + rest,
                ),
                None => spec_tokenize(chars@, syms, ign) is None,
            }),
        ensures
            spec_tokenize(chars@, syms, ign) == Some(tokens_view(tokens@)),
        decreases total - pos,
    {
        let ghost s_pos = chars@.skip(pos as int);
        let k = skip_ignore(&chars, pos, ignore);
        let pos2 = pos + k;
        let ghost s_skipped = chars@.skip(pos2 as int);
        proof {
            assert(s_pos.skip(k as int) =~= s_skipped);
        }

        if let Some(t) = load_symbol(&chars, pos2, symbols) {
            let tlen = t.as_str().unicode_len();
            let ghost model = TokenModel { kind: TokenKind::Reserved, val: None, text: t@ };
            proof {
                assert(round_result(s_pos, syms, ign) == Some((model, (k + tlen) as nat)));
            }
            let tok = Token::new(TokenKind::Reserved, None, t);
            proof {
                advance_ghost(chars@, syms, ign, pos as nat, (k + tlen) as nat, tokens@, tok);
            }
            tokens.push_back(tok);
            pos = pos2 + tlen;
            continue;
        }

        if let Some((v, n)) = is_digit(&chars, pos2) {
            let text = string_of_range(&chars, pos2, pos2 + n);
            proof {
                assert(s_skipped.take(n as int) =~= chars@.subrange(pos2 as int, pos2 + n));
            }
            let ghost model = TokenModel { kind: TokenKind::Num, val: Some(v), text: text@ };
            proof {
                assert(round_result(s_pos, syms, ign) == Some((model, (k + n) as nat)));
            }
            let tok = Token::new(TokenKind::Num, Some(v), text);
            proof {
                advance_ghost(chars@, syms, ign, pos as nat, (k + n) as nat, tokens@, tok);
            }
            tokens.push_back(tok);
            pos = pos2 + n;
            continue;
        }

        if let Some((id, n)) = is_ident(&chars, pos2) {
            let ghost model = TokenModel { kind: TokenKind::Ident, val: None, text: id@ };
            proof {
                assert(round_result(s_pos, syms, ign) == Some((model, (k + n) as nat)));
            }
            let tok = Token::new(TokenKind::Ident, None, id);
            proof {
                advance_ghost(chars@, syms, ign, pos as nat, (k + n) as nat, tokens@, tok);
            }
            tokens.push_back(tok);
            pos = pos2 + n;
            continue;
        }

        if pos2 == total {
            proof {
                assert(round_result(s_pos, syms, ign) is None);
                assert(spec_tokenize(s_pos, syms, ign) == Some(Seq::<TokenModel>::empty()));
                assert(tokens_view(tokens@) + Seq::<TokenModel>::empty() =~= tokens_view(
                    tokens@,
                ));
            }
            break;
        }

        proof {
            assert(round_result(s_pos, syms, ign) is None);
            assert(spec_tokenize(s_pos, syms, ign) is None);
        }
        return Err(LexError);
    }
    Ok(tokens)
}

/// The concatenation of the tokens' matched texts, in order.
pub open spec fn tokens_text(toks: Seq<TokenModel>) -> Seq<char>
    decreases toks.len(),
{
    if toks.len() == 0 {
        Seq::empty()
    } else {
        toks[0].text + tokens_text(toks.skip(1))
    }
}

/// A character that some one-character ignore entry consists of.
pub open spec fn is_ignored_char(c: char, ignore: Seq<Seq<char>>) -> bool {
    exists|k: int| 0 <= k < ignore.len() && ignore[k] == seq![c]
}

/// With one-character ignore entries, a round skips exactly one ignored
/// leading character, or none.
proof fn lemma_skip_one_char(s: Seq<char>, ignore: Seq<Seq<char>>)
    requires
        forall|k: int| 0 <= k < ignore.len() ==> ignore[k].len() == 1,
    ensures
        ignore_skip_len(s, ignore) == if s.len() > 0 && is_ignored_char(s[0], ignore) {
            1nat
        } else {
            0nat
        },
    decreases ignore.len(),
{
    if ignore.len() > 0 {
        lemma_skip_one_char(s, ignore.drop_last());
        assert(forall|k: int| 0 <= k < ignore.drop_last().len() ==> ignore.drop_last()[k]
            == ignore[k]);
        if s.len() > 0 {
            assert(s.take(1) =~= seq![s[0]]);
            if is_ignored_char(s[0], ignore.drop_last()) {
                assert(is_ignored_char(s[0], ignore));
            }
            if ignore.last() == seq![s[0]] {
                assert(is_ignored_char(s[0], ignore));
            }
            if is_ignored_char(s[0], ignore) && !is_ignored_char(s[0], ignore.drop_last()) {
                let k = choose|k: int| 0 <= k < ignore.len() && ignore[k] == seq![s[0]];
                assert(k == ignore.len() - 1);
                assert(ignore.last() == seq![s[0]]);
            }
        }
    }
}

/// Every character a numeric scan takes is a digit.
proof fn lemma_num_chars(s: Seq<char>, acc: int)
    ensures
        forall|j: int| 0 <= j < num_token_len(s, acc) ==> is_digit_char(#[trigger] s[j]),
    decreases s.len(),
{
    lemma_num_token_len_le(s, acc);
    if !(s.len() == 0 || !is_digit_char(s[0]) || acc * 10 + digit_val(s[0]) > i64::MAX) {
        lemma_num_chars(s.skip(1), acc * 10 + digit_val(s[0]));
        assert(forall|j: int| 1 <= j < num_token_len(s, acc) ==> s[j] == s.skip(1)[j - 1]);
    }
}

/// Every character of an identifier is a lowercase letter.
proof fn lemma_lower_chars(s: Seq<char>)
    ensures
        forall|j: int| 0 <= j < lower_run_len(s) ==> is_lower_char(#[trigger] s[j]),
    decreases s.len(),
{
    lemma_lower_run_len_le(s);
    if !(s.len() == 0 || !is_lower_char(s[0])) {
        lemma_lower_chars(s.skip(1));
        assert(forall|j: int| 1 <= j < lower_run_len(s) ==> s[j] == s.skip(1)[j - 1]);
    }
}

/// Filtering keeps a sequence whose characters all pass.
proof fn lemma_filter_all(s: Seq<char>, pred: spec_fn(char) -> bool)
    requires
        forall|j: int| 0 <= j < s.len() ==> pred(#[trigger] s[j]),
    ensures
        s.filter(pred) == s,
    decreases s.len(),
{
    reveal(Seq::filter);
    if s.len() > 0 {
        lemma_filter_all(s.drop_last(), pred);
        assert(s.drop_last().push(s.last()) =~= s);
    }
}

/// Filtering one character keeps or drops it.
proof fn lemma_filter_one(c: char, pred: spec_fn(char) -> bool)
    ensures
        seq![c].filter(pred) == if pred(c) {
            seq![c]
        } else {
            Seq::<char>::empty()
        },
{
    reveal_with_fuel(Seq::filter, 2);
    assert(seq![c].drop_last() =~= Seq::<char>::empty());
    assert(seq![c].last() == c);
    if pred(c) {
        assert(Seq::<char>::empty().push(c) =~= seq![c]);
    }
}

/// The texts of a token sequence start with the first token's text.
proof fn lemma_tokens_text_cons(t: TokenModel, rest: Seq<TokenModel>)
    ensures
        tokens_text(seq![t] + rest) == t.text + tokens_text(rest),
{
    assert((seq![t] + rest)[0] == t);
    assert((seq![t] + rest).skip(1) =~= rest);
}

/// Scanning decomposes the source: the tokens' texts, concatenated in
/// order, are exactly the source's characters with the ignored ones left
/// out.  This holds whenever the ignored entries are single characters
/// that can appear in no token: none is a digit, a lowercase letter, or a
/// character of a registered symbol.
pub proof fn lemma_tokens_reconstruct_source(
    s: Seq<char>,
    symbols: Seq<Seq<char>>,
    ignore: Seq<Seq<char>>,
)
    requires
        forall|k: int| 0 <= k < ignore.len() ==> ignore[k].len() == 1,
        forall|k: int, j: int|
            0 <= k < symbols.len() && 0 <= j < symbols[k].len() ==> !is_ignored_char(
                #[trigger] symbols[k][j],
                ignore,
            ),
        forall|c: char| is_digit_char(c) ==> !is_ignored_char(c, ignore),
        forall|c: char| is_lower_char(c) ==> !is_ignored_char(c, ignore),
    ensures
        spec_tokenize(s, symbols, ignore) matches Some(toks) ==> tokens_text(toks) == s.filter(
            |c: char| !is_ignored_char(c, ignore),
        ),
    decreases s.len(),
{
    let pred = |c: char| !is_ignored_char(c, ignore);
    lemma_round_consumes(s, symbols, ignore);
    lemma_skip_one_char(s, ignore);
    let k = ignore_skip_len(s, ignore);
    let s1 = s.skip(k as int);
    match round_result(s, symbols, ignore) {
        Some((t, n)) => {
            let tlen = t.text.len();
            assert(n == k + tlen);
            // the token's text is the consumed slice after the skip
            assert(t.text =~= s1.take(tlen as int));
            // none of its characters is ignored
            match symbol_match(s1, symbols) {
                Some(text) => {
                    let idx = choose|idx: int|
                        0 <= idx < symbols.len() && symbols[idx] == text;
                    assert(forall|j: int| 0 <= j < text.len() ==> text[j] == symbols[idx][j]);
                    assert(forall|j: int| 0 <= j < t.text.len() ==> pred(#[trigger] t.text[j]));
                },
                None => {
                    if s1.len() > 0 && is_digit_char(s1[0]) {
                        lemma_num_chars(s1, 0);
                        assert(forall|j: int|
                            0 <= j < t.text.len() ==> is_digit_char(#[trigger] t.text[j]));
                    } else {
                        lemma_lower_chars(s1);
                        assert(forall|j: int|
                            0 <= j < t.text.len() ==> is_lower_char(#[trigger] t.text[j]));
                    }
                },
            }
            assert(forall|j: int| 0 <= j < t.text.len() ==> pred(#[trigger] t.text[j]));
            match spec_tokenize(s.skip(n as int), symbols, ignore) {
                Some(rest) => {
                    lemma_tokens_reconstruct_source(s.skip(n as int), symbols, ignore);
                    lemma_tokens_text_cons(t, rest);
                    // source = skipped + text + rest
                    assert(s =~= s.take(k as int) + t.text + s.skip(n as int));
                    Seq::filter_distributes_over_add(
                        s.take(k as int) + t.text,
                        s.skip(n as int),
                        pred,
                    );
                    Seq::filter_distributes_over_add(s.take(k as int), t.text, pred);
                    if k == 1 {
                        assert(s.take(1) =~= seq![s[0]]);
                        lemma_filter_one(s[0], pred);
                    } else {
                        assert(s.take(0) =~= Seq::<char>::empty());
                        reveal(Seq::filter);
                    }
                    lemma_filter_all(t.text, pred);
                    assert(tokens_text(seq![t] + rest) =~= s.filter(pred));
                },
                None => {},
            }
        },
        None => {
            if k == s.len() {
                // the whole remainder was one skipped character, or nothing
                assert(spec_tokenize(s, symbols, ignore) == Some(Seq::<TokenModel>::empty()));
                if s.len() == 0 {
                    reveal(Seq::filter);
                } else {
                    assert(s.len() == 1);
                    assert(s =~= seq![s[0]]);
                    lemma_filter_one(s[0], pred);
                }
            }
        },
    }
}

/// Re-establishes the scanning invariant after one round that consumed
/// `n` characters at `pos` and produced `tok`.
proof fn advance_ghost(
    chars: Seq<char>,
    syms: Seq<Seq<char>>,
    ign: Seq<Seq<char>>,
    pos: nat,
    n: nat,
    toks: Seq<Token>,
    tok: Token,
)
    requires
        pos + n <= chars.len(),
        1 <= n,
        round_result(chars.skip(pos as int), syms, ign) == Some((tok@, n)),
        (match spec_tokenize(chars.skip(pos as int), syms, ign) {
            Some(rest) => spec_tokenize(chars, syms, ign) == Some(tokens_view(toks) + rest),
            None => spec_tokenize(chars, syms, ign) is None,
        }),
    ensures
        (match spec_tokenize(chars.skip(pos + n as int), syms, ign) {
            Some(rest) => spec_tokenize(chars, syms, ign) == Some(
                tokens_view(toks.push(tok)) + rest,
            ),
            None => spec_tokenize(chars, syms, ign) is None,
        }),
{
    let s_pos = chars.skip(pos as int);
    assert(s_pos.skip(n as int) =~= chars.skip(pos + n as int));
    lemma_tokens_view_push(toks, tok);
    match spec_tokenize(chars.skip(pos + n as int), syms, ign) {
        Some(rest) => {
            assert(spec_tokenize(s_pos, syms, ign) == Some(seq![tok@] + rest));
            assert(tokens_view(toks) + (seq![tok@] + rest) =~= tokens_view(toks.push(tok))
                + rest);
        },
        None => {
            assert(spec_tokenize(s_pos, syms, ign) is None);
        },
    }
}

} // verus!
