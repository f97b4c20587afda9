//! Tokens of the scoring expression language.
use vstd::prelude::*;
use vstd::std_specs::iter::IteratorSpec;

verus! {

/// The kind of a token.
#[derive(Copy, Clone, Debug, PartialEq, Eq, Structural)]
pub enum TokenKind {
    Number,
    Elapsed,
    TotalMass,
    MassCount,
    Ln,
    Log,
    Plus,
    Minus,
    Star,
    Slash,
    Caret,
    LParen,
    RParen,
}

/// A token: its kind and the characters `start..end` of the source that it covers.
#[derive(Copy, Clone, Debug, PartialEq, Eq, Structural)]
pub struct Token {
    pub kind: TokenKind,
    pub start: usize,
    pub end: usize,
}

pub open spec fn is_space(c: char) -> bool {
    c == ' ' || c == '\t' || c == '\n' || c == '\r'
}

pub open spec fn is_digit(c: char) -> bool {
    '0' <= c <= '9'
}

pub open spec fn is_ident_start(c: char) -> bool {
    ('a' <= c <= 'z') || ('A' <= c <= 'Z') || c == '_'
}

pub open spec fn is_ident_char(c: char) -> bool {
    is_ident_start(c) || is_digit(c)
}

/// ASCII lower case of `c`.
pub open spec fn lower(c: char) -> char {
    if 'A' <= c <= 'Z' {
        ((c as u8) + 32) as char
    } else {
        c
    }
}

/// Whether `s` equals `word` (a lower-case word) when upper case is folded to lower.
pub open spec fn folds_to(s: Seq<char>, word: Seq<char>) -> bool {
    s.len() == word.len() && forall|i: int| 0 <= i < s.len() ==> lower(#[trigger] s[i]) == word[i]
}

pub open spec fn word_of(kind: TokenKind) -> Seq<char> {
    match kind {
        TokenKind::Elapsed => seq!['e', 'l', 'a', 'p', 's', 'e', 'd'],
        TokenKind::TotalMass => seq!['t', 'o', 't', 'a', 'l', '_', 'm', 'a', 's', 's'],
        TokenKind::MassCount => seq!['m', 'a', 's', 's', '_', 'c', 'o', 'u', 'n', 't'],
        TokenKind::Ln => seq!['l', 'n'],
        TokenKind::Log => seq!['l', 'o', 'g'],
        TokenKind::Plus => seq!['+'],
        TokenKind::Minus => seq!['-'],
        TokenKind::Star => seq!['*'],
        TokenKind::Slash => seq!['/'],
        TokenKind::Caret => seq!['^'],
        TokenKind::LParen => seq!['('],
        TokenKind::RParen => seq![')'],
        TokenKind::Number => Seq::empty(),
    }
}

/// Whether `s` is a numeral: digits with at most one point and at least one digit
/// before the exponent, then optionally `e` or `E`, an optional sign and digits.
pub open spec fn is_numeral(s: Seq<char>) -> bool {
    exists|m: int|
        0 < m <= s.len() && #[trigger] is_mantissa(s.subrange(0, m)) && is_exponent(
            s.subrange(m, s.len() as int),
        )
}

pub open spec fn is_mantissa(s: Seq<char>) -> bool {
    &&& exists|i: int| 0 <= i < s.len() && is_digit(#[trigger] s[i])
    &&& forall|i: int| 0 <= i < s.len() ==> is_digit(#[trigger] s[i]) || s[i] == '.'
    &&& forall|i: int, j: int|
        #![trigger s[i], s[j]]
        0 <= i < j < s.len() && s[i] == '.' ==> s[j] != '.'
}

pub open spec fn is_exponent(s: Seq<char>) -> bool {
    s.len() == 0 || (s.len() >= 2 && (s[0] == 'e' || s[0] == 'E') && {
        let d = if s[1] == '+' || s[1] == '-' { 2int } else { 1int };
        d < s.len() && forall|i: int| d <= i < s.len() ==> is_digit(#[trigger] s[i])
    })
}

/// Whether `text` is a token of kind `kind`.
#[verifier::opaque]
pub open spec fn token_text(kind: TokenKind, text: Seq<char>) -> bool {
    match kind {
        TokenKind::Number => is_numeral(text),
        _ => folds_to(text, word_of(kind)),
    }
}

/// Whether `toks` is a tokenization of `src`: the tokens are in order, each covers the
/// text of its kind, and what lies between and around them is white space.
pub open spec fn lexed(src: Seq<char>, toks: Seq<Token>) -> bool {
    &&& forall|k: int|
        0 <= k < toks.len() ==> {
            let t = #[trigger] toks[k];
            &&& t.start < t.end <= src.len()
            &&& token_text(t.kind, src.subrange(t.start as int, t.end as int))
        }
    &&& forall|k: int, l: int| 0 <= k < l < toks.len() ==> (#[trigger] toks[k]).end <= (#[trigger] toks[l]).start
    &&& forall|i: int| 0 <= i < src.len() && !covered(toks, i) ==> is_space(#[trigger] src[i])
}

/// Whether character `i` lies in one of the tokens.
#[verifier::opaque]
pub open spec fn covered(toks: Seq<Token>, i: int) -> bool {
    exists|k: int| 0 <= k < toks.len() && (#[trigger] toks[k]).start <= i < toks[k].end
}

/// Appending a token keeps every covered character covered, and covers its own.
proof fn lemma_covered_push(toks: Seq<Token>, t: Token, i: int)
    ensures
        covered(toks, i) ==> covered(toks.push(t), i),
        t.start <= i < t.end ==> covered(toks.push(t), i),
{
    reveal(covered);
    if covered(toks, i) {
        let k = choose|k: int| 0 <= k < toks.len() && (#[trigger] toks[k]).start <= i < toks[k].end;
        assert(toks.push(t)[k] == toks[k]);
    }
    if t.start <= i < t.end {
        assert(toks.push(t)[toks.len() as int] == t);
    }
}

/// End of the run of digits and at most one point that starts at `p`.
pub open spec fn mantissa_end(src: Seq<char>, p: int, dot_seen: bool) -> int
    decreases src.len() - p,
{
    if 0 <= p < src.len() && (is_digit(src[p]) || (src[p] == '.' && !dot_seen)) {
        mantissa_end(src, p + 1, dot_seen || src[p] == '.')
    } else {
        p
    }
}

/// End of the run of digits that starts at `p`.
pub open spec fn digits_end(src: Seq<char>, p: int) -> int
    decreases src.len() - p,
{
    if 0 <= p < src.len() && is_digit(src[p]) {
        digits_end(src, p + 1)
    } else {
        p
    }
}

/// End of the run of identifier characters that starts at `p`.
pub open spec fn ident_end(src: Seq<char>, p: int) -> int
    decreases src.len() - p,
{
    if 0 <= p < src.len() && is_ident_char(src[p]) {
        ident_end(src, p + 1)
    } else {
        p
    }
}

/// Whether a digit lies in `src[p..q]`.
pub open spec fn has_digit(src: Seq<char>, p: int, q: int) -> bool {
    exists|i: int| p <= i < q && is_digit(#[trigger] src[i])
}

/// End of the longest numeral that starts at `p`, if one does: the mantissa run, then
/// an exponent when digits follow its `e` and optional sign.
pub open spec fn numeral_end(src: Seq<char>, p: int) -> Option<int> {
    let m = mantissa_end(src, p, false);
    if !has_digit(src, p, m) {
        None
    } else if m < src.len() && (src[m] == 'e' || src[m] == 'E') {
        let j = if m + 1 < src.len() && (src[m + 1] == '+' || src[m + 1] == '-') {
            m + 2
        } else {
            m + 1
        };
        let d = digits_end(src, j);
        Some(if d > j { d } else { m })
    } else {
        Some(m)
    }
}

/// The keyword that `text` spells, ignoring case.
pub open spec fn keyword_of(text: Seq<char>) -> Option<TokenKind> {
    if folds_to(text, word_of(TokenKind::Elapsed)) {
        Some(TokenKind::Elapsed)
    } else if folds_to(text, word_of(TokenKind::TotalMass)) {
        Some(TokenKind::TotalMass)
    } else if folds_to(text, word_of(TokenKind::MassCount)) {
        Some(TokenKind::MassCount)
    } else if folds_to(text, word_of(TokenKind::Ln)) {
        Some(TokenKind::Ln)
    } else if folds_to(text, word_of(TokenKind::Log)) {
        Some(TokenKind::Log)
    } else {
        None
    }
}

/// The one-character operator `c` is, if any.
pub open spec fn operator_of(c: char) -> Option<TokenKind> {
    if c == '+' {
        Some(TokenKind::Plus)
    } else if c == '-' {
        Some(TokenKind::Minus)
    } else if c == '*' {
        Some(TokenKind::Star)
    } else if c == '/' {
        Some(TokenKind::Slash)
    } else if c == '^' {
        Some(TokenKind::Caret)
    } else if c == '(' {
        Some(TokenKind::LParen)
    } else if c == ')' {
        Some(TokenKind::RParen)
    } else {
        None
    }
}

/// The longest token that starts at `p`, which is no white space: a numeral, a word
/// (which must be a keyword) or an operator.
pub open spec fn next_token_spec(src: Seq<char>, p: int) -> Option<Token> {
    let c = src[p];
    if is_digit(c) || c == '.' {
        match numeral_end(src, p) {
            Some(e) => Some(Token { kind: TokenKind::Number, start: p as usize, end: e as usize }),
            None => None,
        }
    } else if is_ident_start(c) {
        let e = ident_end(src, p + 1);
        match keyword_of(src.subrange(p, e)) {
            Some(k) => Some(Token { kind: k, start: p as usize, end: e as usize }),
            None => None,
        }
    } else {
        match operator_of(c) {
            Some(k) => Some(Token { kind: k, start: p as usize, end: (p + 1) as usize }),
            None => None,
        }
    }
}

/// The tokens of `src` from position `p` on, each the longest that starts where it
/// does, white space skipped; none if some token cannot be read.
pub open spec fn lex_from(src: Seq<char>, p: int) -> Option<Seq<Token>>
    decreases src.len() - p,
{
    if p < 0 || p >= src.len() {
        Some(Seq::empty())
    } else if is_space(src[p]) {
        lex_from(src, p + 1)
    } else {
        match next_token_spec(src, p) {
            Some(t) => if p < t.end <= src.len() {
                match lex_from(src, t.end as int) {
                    Some(rest) => Some(seq![t] + rest),
                    None => None,
                }
            } else {
                None
            },
            None => None,
        }
    }
}

/// The characters of `s`, in order, read through `str::chars`.
pub(crate) fn chars_of(s: &str) -> (r: Vec<char>)
    ensures
        r@ == s@,
{
    let mut it = s.chars();
    proof {
        vstd::string::axiom_spec_iter(s);
    }
    let mut r: Vec<char> = Vec::new();
    loop
        invariant
            r@ + it.remaining() == s@,
            it.decrease() is Some,
        ensures
            r@ == s@,
        decreases it.decrease()->Some_0,
    {
        let ghost before = it.remaining();
        match it.next() {
            Some(c) => {
                r.push(c);
                assert(r@ + it.remaining() =~= s@);
            },
            None => {
                assert(r@ =~= s@);
                break;
            },
        }
    }
    r
}

/// Relies on FromIterator<char> for String: the string of the characters `cs`.
#[verifier::external_body]
pub(crate) fn string_of(cs: Vec<char>) -> (r: String)
    ensures
        r@ == cs@,
{
    cs.into_iter().collect()
}

fn lower_char(c: char) -> (r: char)
    ensures
        r == lower(c),
{
    if 'A' <= c && c <= 'Z' {
        ((c as u8) + 32) as char
    } else {
        c
    }
}

/// Whether `src[start..end]` folds to `word`.
fn matches_word(src: &Vec<char>, start: usize, end: usize, word: &str) -> (r: bool)
    requires
        start <= end <= src@.len(),
    ensures
        r == folds_to(src@.subrange(start as int, end as int), word@),
{
    let w = chars_of(word);
    if end - start != w.len() {
        return false;
    }
    let mut i: usize = 0;
    while i < w.len()
        invariant
            w@ == word@,
            start <= end <= src@.len(),
            end - start == w@.len(),
            i <= w@.len(),
            forall|k: int| 0 <= k < i ==> lower(#[trigger] src@[start + k]) == w@[k],
        decreases w@.len() - i,
    {
        if lower_char(src[start + i]) != w[i] {
            assert(lower(src@.subrange(start as int, end as int)[i as int]) != word@[i as int]);
            return false;
        }
        i += 1;
    }
    assert forall|k: int| 0 <= k < end - start implies lower(
        #[trigger] src@.subrange(start as int, end as int)[k],
    ) == word@[k] by {
        assert(src@.subrange(start as int, end as int)[k] == src@[start + k]);
    }
    true
}

/// The keyword that `src[start..end]` spells, if any.
fn keyword(src: &Vec<char>, start: usize, end: usize) -> (r: Option<TokenKind>)
    requires
        start <= end <= src@.len(),
    ensures
        r matches Some(k) ==> k != TokenKind::Number && token_text(
            k,
            src@.subrange(start as int, end as int),
        ),
        r == keyword_of(src@.subrange(start as int, end as int)),
{
    reveal(token_text);
    proof {
        reveal_strlit("elapsed");
        reveal_strlit("total_mass");
        reveal_strlit("mass_count");
        reveal_strlit("ln");
        reveal_strlit("log");
    }
    if matches_word(src, start, end, "elapsed") {
        Some(TokenKind::Elapsed)
    } else if matches_word(src, start, end, "total_mass") {
        Some(TokenKind::TotalMass)
    } else if matches_word(src, start, end, "mass_count") {
        Some(TokenKind::MassCount)
    } else if matches_word(src, start, end, "ln") {
        Some(TokenKind::Ln)
    } else if matches_word(src, start, end, "log") {
        Some(TokenKind::Log)
    } else {
        None
    }
}

fn is_digit_char(c: char) -> (r: bool)
    ensures
        r == is_digit(c),
{
    '0' <= c && c <= '9'
}

fn is_space_char(c: char) -> (r: bool)
    ensures
        r == is_space(c),
{
    c == ' ' || c == '\t' || c == '\n' || c == '\r'
}

fn is_ident_start_char(c: char) -> (r: bool)
    ensures
        r == is_ident_start(c),
{
    ('a' <= c && c <= 'z') || ('A' <= c && c <= 'Z') || c == '_'
}

/// The end of the numeral that starts at `start`, if one does.
fn scan_numeral(src: &Vec<char>, start: usize) -> (r: Option<usize>)
    requires
        start < src@.len(),
    ensures
        r matches Some(end) ==> start < end <= src@.len() && is_numeral(
            src@.subrange(start as int, end as int),
        ),
        match numeral_end(src@, start as int) {
            Some(e) => r == Some(e as usize),
            None => r is None,
        },
{
    let n = src.len();
    let mut i: usize = start;
    let mut seen_dot = false;
    let mut seen_digit = false;
    let mut first_digit: usize = start;
    while i < n && (is_digit_char(src[i]) || (src[i] == '.' && !seen_dot))
        invariant
            start <= i <= n,
            n == src@.len(),
            forall|k: int| start <= k < i ==> is_digit(#[trigger] src@[k]) || src@[k] == '.',
            seen_dot <==> exists|k: int| start <= k < i && #[trigger] src@[k] == '.',
            forall|k: int, l: int|
                #![trigger src@[k], src@[l]]
                start <= k < l < i && src@[k] == '.' ==> src@[l] != '.',
            seen_digit ==> start <= first_digit < i && is_digit(src@[first_digit as int]),
            seen_digit <==> has_digit(src@, start as int, i as int),
            mantissa_end(src@, start as int, false) == mantissa_end(src@, i as int, seen_dot),
        decreases n - i,
    {
        proof {
            if has_digit(src@, start as int, i as int + 1) && !is_digit(src@[i as int]) {
                let w = choose|w: int| start <= w < i + 1 && is_digit(#[trigger] src@[w]);
                assert(has_digit(src@, start as int, i as int));
            }
            if is_digit(src@[i as int]) {
                assert(has_digit(src@, start as int, i as int + 1));
            }
            if has_digit(src@, start as int, i as int) {
                let w = choose|w: int| start <= w < i && is_digit(#[trigger] src@[w]);
                assert(has_digit(src@, start as int, i as int + 1));
            }
        }
        if src[i] == '.' {
            seen_dot = true;
        } else if !seen_digit {
            seen_digit = true;
            first_digit = i;
        }
        i += 1;
    }
    if !seen_digit {
        return None;
    }
    let m = i;
    let ghost mant = src@.subrange(start as int, m as int);
    assert(mant[first_digit - start] == src@[first_digit as int]);
    assert(is_mantissa(mant));
    let mut end = m;
    if m < n && (src[m] == 'e' || src[m] == 'E') {
        let mut j: usize = m + 1;
        if j < n && (src[j] == '+' || src[j] == '-') {
            j += 1;
        }
        let digits_from = j;
        while j < n && is_digit_char(src[j])
            invariant
                digits_from <= j <= n,
                n == src@.len(),
                forall|k: int| digits_from <= k < j ==> is_digit(#[trigger] src@[k]),
                digits_end(src@, digits_from as int) == digits_end(src@, j as int),
            decreases n - j,
        {
            j += 1;
        }
        if j > digits_from {
            end = j;
            let ghost ex = src@.subrange(m as int, end as int);
            assert forall|k: int| (digits_from - m) <= k < ex.len() implies is_digit(
                #[trigger] ex[k],
            ) by {
                assert(ex[k] == src@[m + k]);
            }
            assert(is_exponent(ex));
        }
    }
    let ghost whole = src@.subrange(start as int, end as int);
    assert(whole.subrange(0, (m - start) as int) =~= mant);
    assert(whole.subrange((m - start) as int, whole.len() as int) =~= src@.subrange(
        m as int,
        end as int,
    ));
    if end == m {
        assert(src@.subrange(m as int, end as int) =~= Seq::<char>::empty());
    }
    assert(is_mantissa(whole.subrange(0, (m - start) as int)));
    Some(end)
}

/// The kind of a one-character operator token.
fn operator_kind(c: char) -> (r: Option<TokenKind>)
    ensures
        r matches Some(k) ==> k != TokenKind::Number && word_of(k) == seq![c],
        r == operator_of(c),
{
    if c == '+' {
        Some(TokenKind::Plus)
    } else if c == '-' {
        Some(TokenKind::Minus)
    } else if c == '*' {
        Some(TokenKind::Star)
    } else if c == '/' {
        Some(TokenKind::Slash)
    } else if c == '^' {
        Some(TokenKind::Caret)
    } else if c == '(' {
        Some(TokenKind::LParen)
    } else if c == ')' {
        Some(TokenKind::RParen)
    } else {
        None
    }
}

/// The token that starts at `pos`, which is not white space; on failure, `pos`.
fn next_token(src: &Vec<char>, pos: usize) -> (r: Result<Token, usize>)
    requires
        pos < src@.len(),
    ensures
        r matches Ok(t) ==> t.start == pos && pos < t.end <= src@.len() && token_text(
            t.kind,
            src@.subrange(t.start as int, t.end as int),
        ),
        r matches Err(p) ==> p == pos,
        match next_token_spec(src@, pos as int) {
            Some(t) => r == Ok::<Token, usize>(t),
            None => r == Err::<Token, usize>(pos),
        },
{
    reveal(token_text);
    let n = src.len();
    let c = src[pos];
    if is_digit_char(c) || c == '.' {
        match scan_numeral(src, pos) {
            Some(e) => Ok(Token { kind: TokenKind::Number, start: pos, end: e }),
            None => Err(pos),
        }
    } else if is_ident_start_char(c) {
        let mut j = pos + 1;
        while j < n && (is_ident_start_char(src[j]) || is_digit_char(src[j]))
            invariant
                pos < j <= n,
                n == src@.len(),
                ident_end(src@, pos + 1) == ident_end(src@, j as int),
            decreases n - j,
        {
            j += 1;
        }
        match keyword(src, pos, j) {
            Some(k) => Ok(Token { kind: k, start: pos, end: j }),
            None => Err(pos),
        }
    } else {
        match operator_kind(c) {
            Some(k) => {
                assert(src@.subrange(pos as int, pos + 1) =~= seq![c]);
                assert(folds_to(seq![c], seq![c]));
                Ok(Token { kind: k, start: pos, end: pos + 1 })
            },
            None => Err(pos),
        }
    }
}

/// Splits `src` into tokens, skipping white space. On failure, the position of a
/// character that starts no token, or of a word that is no keyword.
pub fn tokenize(src: &Vec<char>) -> (r: Result<Vec<Token>, usize>)
    ensures
        r matches Ok(toks) ==> lexed(src@, toks@),
        r matches Err(p) ==> p < src@.len() && !is_space(src@[p as int]),
        match lex_from(src@, 0) {
            Some(ts) => r matches Ok(toks) && toks@ == ts,
            None => r is Err,
        },
{
    let n = src.len();
    let mut toks: Vec<Token> = Vec::new();
    let mut pos: usize = 0;
    while pos < n
        invariant
            pos <= n,
            n == src@.len(),
            forall|k: int|
                0 <= k < toks@.len() ==> {
                    let t = #[trigger] toks@[k];
                    &&& t.start < t.end <= pos
                    &&& token_text(t.kind, src@.subrange(t.start as int, t.end as int))
                },
            forall|k: int, l: int|
                0 <= k < l < toks@.len() ==> (#[trigger] toks@[k]).end <= (#[trigger] toks@[l]).start,
            forall|i: int| 0 <= i < pos && !covered(toks@, i) ==> is_space(#[trigger] src@[i]),
            lex_from(src@, 0) == match lex_from(src@, pos as int) {
                Some(rest) => Some(toks@ + rest),
                None => None::<Seq<Token>>,
            },
        decreases n - pos,
    {
        if is_space_char(src[pos]) {
            pos += 1;
        } else {
            let t = match next_token(src, pos) {
                Ok(t) => t,
                Err(p) => {
                    return Err(p);
                },
            };
            let ghost before = toks@;
            toks.push(t);
            proof {
                match lex_from(src@, t.end as int) {
                    Some(rest) => {
                        assert(before + (seq![t] + rest) =~= toks@ + rest);
                    },
                    None => {},
                }
            }
            proof {
                assert forall|i: int| 0 <= i < t.end && !covered(toks@, i) implies is_space(
                    #[trigger] src@[i],
                ) by {
                    lemma_covered_push(before, t, i);
                }
                assert forall|k: int, l: int| 0 <= k < l < toks@.len() implies (#[trigger] toks@[k]).end
                    <= (#[trigger] toks@[l]).start by {
                    if l == before.len() {
                        assert(before[k].end <= pos);
                    } else {
                        assert(before[k].end <= before[l].start);
                    }
                }
            }
            pos = t.end;
        }
    }
    assert(toks@ + Seq::<Token>::empty() =~= toks@);
    Ok(toks)
}

} // verus!
