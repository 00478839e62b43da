//! The command-line tokenizer: longest-match scanning over the raw line.
use vstd::prelude::*;

use crate::text::is_space;
use crate::text::is_space_char;

verus! {

/// A word may hold any character except space, tab and semicolon.
pub open spec fn is_word_char(c: char) -> bool {
    c != ' ' && c != '\t' && c != ';'
}

pub(crate) fn is_word_char_exec(c: char) -> (r: bool)
    ensures
        r == is_word_char(c),
{
    c != ' ' && c != '\t' && c != ';'
}

/// End of the maximal run of word characters starting at `i`.
pub open spec fn word_end(s: Seq<char>, i: int) -> int
    decreases s.len() - i,
{
    if i < 0 || i >= s.len() || !is_word_char(s[i]) {
        i
    } else {
        word_end(s, i + 1)
    }
}

pub proof fn lemma_word_end(s: Seq<char>, i: int)
    requires
        0 <= i <= s.len(),
    ensures
        i <= word_end(s, i) <= s.len(),
        i < s.len() && is_word_char(s[i]) ==> word_end(s, i) >= i + 1,
    decreases s.len() - i,
{
    if i < s.len() && is_word_char(s[i]) {
        lemma_word_end(s, i + 1);
    }
}

/// First position at or after `k` holding a quote that is not preceded by a
/// backslash, or `s.len()` when there is none.
pub open spec fn first_closer(s: Seq<char>, k: int) -> int
    decreases s.len() - k,
{
    if k < 1 || k >= s.len() {
        s.len() as int
    } else if s[k] == '"' && s[k - 1] != '\\' {
        k
    } else {
        first_closer(s, k + 1)
    }
}

/// Last position at or after `k` holding a quote, or -1 when there is none.
pub open spec fn last_quote(s: Seq<char>, k: int) -> int
    decreases s.len() - k,
{
    if k < 0 || k >= s.len() {
        -1
    } else {
        let rest = last_quote(s, k + 1);
        if rest >= 0 {
            rest
        } else if s[k] == '"' {
            k
        } else {
            -1
        }
    }
}

proof fn lemma_first_closer(s: Seq<char>, k: int)
    requires
        1 <= k <= s.len(),
    ensures
        k <= first_closer(s, k) <= s.len(),
    decreases s.len() - k,
{
    if k < s.len() && !(s[k] == '"' && s[k - 1] != '\\') {
        lemma_first_closer(s, k + 1);
    }
}

proof fn lemma_last_quote(s: Seq<char>, k: int)
    requires
        0 <= k <= s.len(),
    ensures
        last_quote(s, k) == -1 || k <= last_quote(s, k) < s.len(),
    decreases s.len() - k,
{
    if k < s.len() {
        lemma_last_quote(s, k + 1);
    }
}

/// Index of the closing quote of the quoted-string match starting at the
/// quote at `i`, or -1 when no quoted string matches there.  The regular
/// quoted-string pattern matches greedily: the match closes at the first
/// quote not preceded by a backslash or, when every later quote is escaped,
/// at the last quote.
pub open spec fn str_end(s: Seq<char>, i: int) -> int
    recommends
        0 <= i < s.len(),
        s[i] == '"',
{
    let fc = first_closer(s, i + 1);
    if fc < s.len() {
        fc
    } else {
        last_quote(s, i + 1)
    }
}

proof fn lemma_str_end(s: Seq<char>, i: int)
    requires
        0 <= i < s.len(),
    ensures
        str_end(s, i) == -1 || i + 1 <= str_end(s, i) < s.len(),
{
    lemma_first_closer(s, i + 1);
    lemma_last_quote(s, i + 1);
}

/// The typed tokens of the command language.
pub enum TokenView {
    And,
    Or,
    Semicolon,
    Pipe,
    InputRedirect,
    OutputRedirect,
    StderrRedirect,
    /// A quoted string, with the delimiting quotes stripped and escaped
    /// quotes left as literal backslash-quote pairs.
    Str(Seq<char>),
    /// A bare word.
    Word(Seq<char>),
}

/// The token the longest-match rule selects at non-blank position `i`, and
/// the position just after it.  The longest match wins; on equal length the
/// two-character operators beat the single-character operators, which beat a
/// quoted string, which beats a word.
pub open spec fn token_at(s: Seq<char>, i: int) -> (TokenView, int)
    recommends
        0 <= i < s.len(),
        !is_space(s[i]),
{
    let w = word_end(s, i);
    if s[i] == ';' {
        (TokenView::Semicolon, i + 1)
    } else if s[i] == '&' && i + 1 < s.len() && s[i + 1] == '&' && w <= i + 2 {
        (TokenView::And, i + 2)
    } else if s[i] == '|' && i + 1 < s.len() && s[i + 1] == '|' && w <= i + 2 {
        (TokenView::Or, i + 2)
    } else if s[i] == '2' && i + 1 < s.len() && s[i + 1] == '>' && w <= i + 2 {
        (TokenView::StderrRedirect, i + 2)
    } else if s[i] == '|' && w <= i + 1 {
        (TokenView::Pipe, i + 1)
    } else if s[i] == '<' && w <= i + 1 {
        (TokenView::InputRedirect, i + 1)
    } else if s[i] == '>' && w <= i + 1 {
        (TokenView::OutputRedirect, i + 1)
    } else if s[i] == '"' && str_end(s, i) >= 0 && str_end(s, i) + 1 >= w {
        (TokenView::Str(s.subrange(i + 1, str_end(s, i))), str_end(s, i) + 1)
    } else {
        (TokenView::Word(s.subrange(i, w)), w)
    }
}

/// The token stream of `s` from position `i` on: whitespace is skipped
/// between tokens, and every non-blank position yields a token.
pub open spec fn tokens_from(s: Seq<char>, i: int) -> Seq<TokenView>
    decreases s.len() - i,
    via tokens_from_decreases
{
    if i < 0 || i >= s.len() {
        Seq::empty()
    } else if is_space(s[i]) {
        tokens_from(s, i + 1)
    } else {
        let te = token_at(s, i);
        seq![te.0] + tokens_from(s, te.1)
    }
}

#[via_fn]
proof fn tokens_from_decreases(s: Seq<char>, i: int) {
    if 0 <= i && i < s.len() && !is_space(s[i]) {
        lemma_word_end(s, i);
        lemma_str_end(s, i);
    }
}

/// An executable token; its view is the spec-level token.
#[derive(Debug, PartialEq, Eq)]
pub enum CommandToken {
    And,
    Or,
    Semicolon,
    Pipe,
    InputRedirect,
    OutputRedirect,
    StderrRedirect,
    Str(String),
    Word(String),
}

impl View for CommandToken {
    type V = TokenView;

    open spec fn view(&self) -> TokenView {
        match self {
            CommandToken::And => TokenView::And,
            CommandToken::Or => TokenView::Or,
            CommandToken::Semicolon => TokenView::Semicolon,
            CommandToken::Pipe => TokenView::Pipe,
            CommandToken::InputRedirect => TokenView::InputRedirect,
            CommandToken::OutputRedirect => TokenView::OutputRedirect,
            CommandToken::StderrRedirect => TokenView::StderrRedirect,
            CommandToken::Str(t) => TokenView::Str(t@),
            CommandToken::Word(t) => TokenView::Word(t@),
        }
    }
}

/// The views of a token vector, in order.
pub open spec fn tokens_view(v: Seq<CommandToken>) -> Seq<TokenView> {
    v.map_values(|t: CommandToken| t@)
}

/// End of the maximal word run starting at `i`.
fn scan_word(s: &str, i: usize) -> (r: usize)
    requires
        i <= s@.len(),
    ensures
        r == word_end(s@, i as int),
        i <= r <= s@.len(),
{
    let n = s.unicode_len();
    let mut r = i;
    while r < n && is_word_char_exec(s.get_char(r))
        invariant
            n == s@.len(),
            i <= r <= n,
            word_end(s@, i as int) == word_end(s@, r as int),
        decreases n - r,
    {
        r = r + 1;
    }
    r
}

/// The closing quote position of the quoted-string match starting at the
/// quote at `i`, if the pattern matches there.
fn scan_str_end(s: &str, i: usize) -> (r: Option<usize>)
    requires
        i < s@.len(),
        s@[i as int] == '"',
    ensures
        match r {
            Some(e) => e as int == str_end(s@, i as int) && i < e < s@.len(),
            None => str_end(s@, i as int) == -1,
        },
{
    let ghost sv = s@;
    let n = s.unicode_len();
    let mut k = i + 1;
    let mut prev = s.get_char(i);
    let mut last: Option<usize> = None;
    while k < n
        invariant
            sv == s@,
            n == sv.len(),
            i + 1 <= k <= n,
            prev == sv[k - 1],
            first_closer(sv, i + 1) == first_closer(sv, k as int),
            ({
                let lq = last_quote(sv, i + 1);
                let tail = last_quote(sv, k as int);
                lq == if tail >= 0 {
                    tail
                } else {
                    match last {
                        Some(l) => l as int,
                        None => -1,
                    }
                }
            }),
            match last {
                Some(l) => i < l < k && sv[l as int] == '"',
                None => true,
            },
        decreases n - k,
    {
        let c = s.get_char(k);
        if c == '"' && prev != '\\' {
            proof {
                assert(first_closer(sv, k as int) == k);
                lemma_first_closer(sv, i + 1);
            }
            return Some(k);
        }
        if c == '"' {
            last = Some(k);
        }
        prev = c;
        k = k + 1;
    }
    proof {
        assert(first_closer(sv, n as int) == sv.len());
        assert(last_quote(sv, n as int) == -1);
        lemma_last_quote(sv, i + 1);
    }
    last
}

/// Tokenizes a raw command line by longest/earliest-match scanning; the
/// result is exactly the spec-level token stream of the line.
pub fn tokenize(source: &str) -> (r: Vec<CommandToken>)
    ensures
        tokens_view(r@) == tokens_from(source@, 0),
{
    let ghost s = source@;
    let n = source.unicode_len();
    let mut toks: Vec<CommandToken> = Vec::new();
    let mut i: usize = 0;
    while i < n
        invariant
            s == source@,
            n == s.len(),
            i <= n,
            tokens_from(s, 0) == tokens_view(toks@) + tokens_from(s, i as int),
        decreases n - i,
    {
        let c = source.get_char(i);
        if is_space_char(c) {
            proof {
                assert(tokens_from(s, i as int) == tokens_from(s, i + 1));
            }
            i = i + 1;
        } else {
            let ghost toks0 = toks@;
            let we = scan_word(source, i);
            let tok: CommandToken;
            let e: usize;
            if c == ';' {
                tok = CommandToken::Semicolon;
                e = i + 1;
            } else if c == '&' && i + 1 < n && source.get_char(i + 1) == '&' && we <= i + 2 {
                tok = CommandToken::And;
                e = i + 2;
            } else if c == '|' && i + 1 < n && source.get_char(i + 1) == '|' && we <= i + 2 {
                tok = CommandToken::Or;
                e = i + 2;
            } else if c == '2' && i + 1 < n && source.get_char(i + 1) == '>' && we <= i + 2 {
                tok = CommandToken::StderrRedirect;
                e = i + 2;
            } else if c == '|' && we <= i + 1 {
                tok = CommandToken::Pipe;
                e = i + 1;
            } else if c == '<' && we <= i + 1 {
                tok = CommandToken::InputRedirect;
                e = i + 1;
            } else if c == '>' && we <= i + 1 {
                tok = CommandToken::OutputRedirect;
                e = i + 1;
            } else {
                let mut quoted: Option<usize> = None;
                if c == '"' {
                    if let Some(epos) = scan_str_end(source, i) {
                        if epos + 1 >= we {
                            quoted = Some(epos);
                        }
                    }
                }
                if let Some(epos) = quoted {
                    tok = CommandToken::Str(source.substring_char(i + 1, epos).to_owned());
                    e = epos + 1;
                } else {
                    proof {
                        lemma_word_end(s, i as int);
                        if c == '"' {
                            lemma_str_end(s, i as int);
                        }
                    }
                    tok = CommandToken::Word(source.substring_char(i, we).to_owned());
                    e = we;
                }
            }
            proof {
                assert(token_at(s, i as int) == (tok@, e as int));
                assert(tokens_from(s, i as int) == seq![tok@] + tokens_from(s, e as int));
            }
            toks.push(tok);
            proof {
                assert(tokens_view(toks@) =~= tokens_view(toks0) + seq![toks@.last()@]);
                assert(tokens_from(s, 0) =~= tokens_view(toks@) + tokens_from(s, e as int));
            }
            i = e;
        }
    }
    proof {
        assert(tokens_from(s, n as int) =~= Seq::<TokenView>::empty());
        assert(tokens_from(s, 0) =~= tokens_view(toks@));
    }
    toks
}

} // verus!
