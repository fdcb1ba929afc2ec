use vstd::prelude::*;
use vstd::string::StringSliceAdditionalSpecFns;

verus! {

/// A classified, positioned lexical unit.  Positions are 1-based; a
/// multi-character token (a keyword or a two-character operator) records a
/// span wider than one column but still occupies one slot in the stream.
#[derive(Debug, PartialEq)]
pub struct Token {
    pub kind: TokenKind,
    pub lexeme: Vec<u8>,
    pub start_line: u32,
    pub end_line: u32,
    pub start_col: u32,
    pub end_col: u32,
}

/// Mathematical image of a [`Token`].
pub struct TokenV {
    pub kind: TokenKind,
    pub lexeme: Seq<u8>,
    pub start_line: int,
    pub end_line: int,
    pub start_col: int,
    pub end_col: int,
}

impl View for Token {
    type V = TokenV;

    open spec fn view(&self) -> TokenV {
        TokenV {
            kind: self.kind,
            lexeme: self.lexeme@,
            start_line: self.start_line as int,
            end_line: self.end_line as int,
            start_col: self.start_col as int,
            end_col: self.end_col as int,
        }
    }
}

/// Element-by-element copy of a byte vector.
pub fn clone_bytes(v: &Vec<u8>) -> (r: Vec<u8>)
    ensures
        r@ == v@,
{
    let mut r: Vec<u8> = Vec::new();
    let mut k: usize = 0;
    while k < v.len()
        invariant
            k <= v@.len(),
            r@ == v@.subrange(0, k as int),
        decreases v@.len() - k,
    {
        r.push(v[k]);
        proof {
            assert(r@ =~= v@.subrange(0, k as int + 1));
        }
        k += 1;
    }
    proof {
        assert(r@ =~= v@);
    }
    r
}

impl Clone for Token {
    fn clone(&self) -> (r: Token)
        ensures
            r@ == self@,
    {
        Token {
            kind: self.kind,
            lexeme: clone_bytes(&self.lexeme),
            start_line: self.start_line,
            end_line: self.end_line,
            start_col: self.start_col,
            end_col: self.end_col,
        }
    }
}

impl Token {
    /// A fresh token: kind `Other`, empty lexeme, all positions zero.
    pub fn new() -> (r: Token)
        ensures
            r@ == (TokenV {
                kind: TokenKind::Other,
                lexeme: Seq::<u8>::empty(),
                start_line: 0,
                end_line: 0,
                start_col: 0,
                end_col: 0,
            }),
    {
        Token {
            kind: TokenKind::Other,
            lexeme: Vec::new(),
            start_line: 0,
            end_line: 0,
            start_col: 0,
            end_col: 0,
        }
    }

    pub fn get_kind(&self) -> (k: TokenKind)
        ensures
            k == self.kind,
    {
        self.kind
    }

    pub fn set_kind(&mut self, new_kind: TokenKind)
        ensures
            final(self).kind == new_kind,
            final(self).lexeme == old(self).lexeme,
            final(self).start_line == old(self).start_line,
            final(self).end_line == old(self).end_line,
            final(self).start_col == old(self).start_col,
            final(self).end_col == old(self).end_col,
    {
        self.kind = new_kind;
    }
}

/// The closed set of token classes.  `Alpha` and `Digit` are
/// single-character classes: identifiers and numbers are assembled by the
/// parser from runs of them.  `WhiteSpace` is filtered out of the final
/// stream, and exactly one `EOF` sentinel ends it.
#[derive(Debug, PartialEq, Eq, Structural, Clone, Copy)]
pub enum TokenKind {
    True,
    False,
    Fn,
    Return,
    Let,
    Alpha,
    Digit,
    LeftParen,
    RightParen,
    LeftCurly,
    RightCurly,
    Equal,
    Plus,
    Dash,
    Quote,
    WhiteSpace,
    Semicolon,
    Comma,
    Slash,
    Other,
    EOF,
    GreaterThan,
    LessThan,
    GreaterThanOrEqualTo,
    LessThanOrEqualTo,
    EqualTo,
    NotEqualTo,
}

/// View of a sequence of tokens.
pub open spec fn toks_view(s: Seq<Token>) -> Seq<TokenV> {
    Seq::new(s.len(), |i: int| s[i]@)
}

/// An ordered token stream, as produced by [`lex`].
#[derive(Debug, PartialEq, Clone)]
pub struct Tokens {
    pub tokens: Vec<Token>,
}

impl View for Tokens {
    type V = Seq<TokenV>;

    open spec fn view(&self) -> Seq<TokenV> {
        toks_view(self.tokens@)
    }
}

/// Whether a token stream is at its end: empty, or an `EOF` token in front.
pub open spec fn spec_is_done(s: Seq<TokenV>) -> bool {
    s.len() == 0 || s[0].kind == TokenKind::EOF
}

impl Tokens {
    pub fn new() -> (r: Tokens)
        ensures
            r@ == Seq::<TokenV>::empty(),
    {
        let r = Tokens { tokens: Vec::new() };
        proof {
            assert(r@ =~= Seq::<TokenV>::empty());
        }
        r
    }

    pub fn from(tokens: Vec<Token>) -> (r: Tokens)
        ensures
            r@ == toks_view(tokens@),
    {
        Tokens { tokens }
    }

    pub fn push(&mut self, token: Token)
        ensures
            final(self)@ == old(self)@.push(token@),
    {
        self.tokens.push(token);
        proof {
            assert(self@ =~= old(self)@.push(token@));
        }
    }

    pub fn len(&self) -> (n: usize)
        ensures
            n == self@.len(),
    {
        self.tokens.len()
    }

    /// Whether the whole stream has been consumed: the next token is the
    /// `EOF` sentinel, or nothing is left at all.
    pub fn is_done(&self) -> (r: bool)
        ensures
            r == spec_is_done(self@),
    {
        if !self.is_empty() {
            match self.tokens[0].kind {
                TokenKind::EOF => true,
                _ => false,
            }
        } else {
            true
        }
    }

    pub fn is_empty(&self) -> (r: bool)
        ensures
            r == (self@.len() == 0),
    {
        self.tokens.is_empty()
    }
}

/// Digit byte: `'0'..='9'`.
pub open spec fn is_digit_byte(c: u8) -> bool {
    48 <= c <= 57
}

/// Alphabetic byte: `'A'..='Z'` or `'a'..='z'`.
pub open spec fn is_alpha_byte(c: u8) -> bool {
    (65 <= c <= 90) || (97 <= c <= 122)
}

/// Whitespace byte: space, newline or tab.
pub open spec fn is_space_byte(c: u8) -> bool {
    c == 32 || c == 10 || c == 9
}

/// Whether the byte at `i` begins a two-character operator (`==`, `<=`,
/// `>=`, `!=`): the following byte exists and is `'='`.
pub open spec fn pairs_with_equal(s: Seq<u8>, i: int) -> bool {
    i + 1 < s.len() && s[i + 1] == 61
}

/// Classification of the byte at `i` before any keyword probe, mirroring the
/// single left-to-right scan: digits, letters and whitespace first, then the
/// two-character operators, then single punctuation, then `Other`.
pub open spec fn base_kind(s: Seq<u8>, i: int) -> TokenKind {
    let c = s[i];
    if is_digit_byte(c) {
        TokenKind::Digit
    } else if is_alpha_byte(c) {
        TokenKind::Alpha
    } else if is_space_byte(c) {
        TokenKind::WhiteSpace
    } else if c == 61 {
        if pairs_with_equal(s, i) {
            TokenKind::EqualTo
        } else {
            TokenKind::Equal
        }
    } else if c == 60 {
        if pairs_with_equal(s, i) {
            TokenKind::LessThanOrEqualTo
        } else {
            TokenKind::LessThan
        }
    } else if c == 62 {
        if pairs_with_equal(s, i) {
            TokenKind::GreaterThanOrEqualTo
        } else {
            TokenKind::GreaterThan
        }
    } else if c == 33 {
        if pairs_with_equal(s, i) {
            TokenKind::NotEqualTo
        } else {
            TokenKind::Other
        }
    } else if c == 59 {
        TokenKind::Semicolon
    } else if c == 123 {
        TokenKind::LeftCurly
    } else if c == 125 {
        TokenKind::RightCurly
    } else if c == 40 {
        TokenKind::LeftParen
    } else if c == 41 {
        TokenKind::RightParen
    } else if c == 43 {
        TokenKind::Plus
    } else if c == 45 {
        TokenKind::Dash
    } else if c == 44 {
        TokenKind::Comma
    } else if c == 34 {
        TokenKind::Quote
    } else {
        TokenKind::Other
    }
}

/// Index of the last byte the base classification consumes: `i + 1` for a
/// two-character operator, `i` otherwise.
pub open spec fn base_end(s: Seq<u8>, i: int) -> int {
    let c = s[i];
    if (c == 61 || c == 60 || c == 62 || c == 33) && pairs_with_equal(s, i) {
        i + 1
    } else {
        i
    }
}

/// Outcome of scanning one token starting at byte `i`: its kind, the index
/// of the next byte to scan, and the extra column width of the token.
pub struct ScanStep {
    pub kind: TokenKind,
    pub next: int,
}

/// One step of the scan.  After the base classification, the keyword probes
/// run in order (`fn`, `true`, `false`, `let`, `return`), each inspecting the
/// bytes after the scan cursor as the previous probes have already advanced
/// it; a hit consumes the probed bytes.
pub open spec fn scan_step(s: Seq<u8>, i: int) -> ScanStep {
    let c = s[i];
    let k0 = base_kind(s, i);
    let i0 = base_end(s, i);
    let fn_hit = c == 102 && i0 + 1 < s.len() && s[i0 + 1] == 110;
    let (k1, i1): (TokenKind, int) = if fn_hit {
        (TokenKind::Fn, i0 + 1)
    } else {
        (k0, i0)
    };
    let true_hit = c == 116 && i1 + 3 < s.len() && s[i1 + 1] == 114 && s[i1 + 2] == 117 && s[i1
        + 3] == 101;
    let (k2, i2): (TokenKind, int) = if true_hit {
        (TokenKind::True, i1 + 3)
    } else {
        (k1, i1)
    };
    let false_hit = c == 102 && i2 + 4 < s.len() && s[i2 + 1] == 97 && s[i2 + 2] == 108 && s[i2
        + 3] == 115 && s[i2 + 4] == 101;
    let (k3, i3): (TokenKind, int) = if false_hit {
        (TokenKind::False, i2 + 4)
    } else {
        (k2, i2)
    };
    let let_hit = c == 108 && i3 + 2 < s.len() && s[i3 + 1] == 101 && s[i3 + 2] == 116;
    let (k4, i4): (TokenKind, int) = if let_hit {
        (TokenKind::Let, i3 + 2)
    } else {
        (k3, i3)
    };
    let ret_hit = c == 114 && i4 + 5 < s.len() && s[i4 + 1] == 101 && s[i4 + 2] == 116 && s[i4
        + 3] == 117 && s[i4 + 4] == 114 && s[i4 + 5] == 110;
    let (k5, i5): (TokenKind, int) = if ret_hit {
        (TokenKind::Return, i4 + 5)
    } else {
        (k4, i4)
    };
    ScanStep { kind: k5, next: i5 + 1 }
}

/// The token emitted for the scan step starting at byte `i`.  Its lexeme is
/// the single byte at `i`; its span covers one column per byte the step
/// consumed, so keywords and two-character operators are wider than one.
pub open spec fn token_at(s: Seq<u8>, i: int, line: int, col: int) -> TokenV {
    let st = scan_step(s, i);
    TokenV {
        kind: st.kind,
        lexeme: seq![s[i]],
        start_line: line,
        end_line: line,
        start_col: col,
        end_col: col + (st.next - i - 1),
    }
}

/// The `EOF` sentinel appended once the input is exhausted.
pub open spec fn eof_token(line: int, col: int) -> TokenV {
    TokenV {
        kind: TokenKind::EOF,
        lexeme: Seq::<u8>::empty(),
        start_line: line,
        end_line: line,
        start_col: col,
        end_col: col,
    }
}

/// The raw token sequence scanned from byte `i` onward, whitespace still
/// included, ending in the `EOF` sentinel.  The column advances once per
/// input byte consumed; a newline byte advances the line and resets the
/// column to 1.
pub open spec fn scan(s: Seq<u8>, i: int, line: int, col: int) -> Seq<TokenV>
    decreases s.len() - i,
{
    if i < 0 || i >= s.len() {
        seq![eof_token(line, col)]
    } else {
        let st = scan_step(s, i);
        let c = s[i];
        let nl: int = if c == 10 {
            line + 1
        } else {
            line
        };
        let nc: int = if c == 10 {
            1
        } else {
            col + (st.next - i)
        };
        seq![token_at(s, i, line, col)] + scan(s, st.next, nl, nc)
    }
}

/// The tokens of `s` with every `WhiteSpace` token removed.
pub open spec fn strip_ws(s: Seq<TokenV>) -> Seq<TokenV> {
    s.filter(|t: TokenV| t.kind != TokenKind::WhiteSpace)
}

/// What [`lex`] returns: the scan of the whole input, whitespace filtered
/// out, ending in exactly one `EOF` sentinel.
pub open spec fn lex_spec(s: Seq<u8>) -> Seq<TokenV> {
    strip_ws(scan(s, 0, 1, 1))
}

/// Scans raw source bytes into a flat, ordered token stream: one single
/// left-to-right pass with lookahead for the two-character operators and for
/// the keyword probes, whitespace removed, exactly one `EOF` sentinel at the
/// end.  Lexing never fails: every byte classifies to some kind, `Other` at
/// worst.  The input length is bounded so that the 1-based line and column
/// counters fit their word size.
pub fn lex(input: &str) -> (r: Tokens)
    requires
        input.spec_bytes().len() < 0xFFFF_FF00,
    ensures
        r@ == lex_spec(input.spec_bytes()),
{
    let ghost s = input.spec_bytes();
    let list = input.as_bytes();
    let n = list.len();
    let mut raw: Vec<Token> = Vec::new();
    let mut i: usize = 0;
    let mut line: u32 = 1;
    let mut col: u32 = 1;
    proof {
        assert(toks_view(raw@) =~= Seq::<TokenV>::empty());
        assert(toks_view(raw@) + scan(s, 0, 1, 1) =~= scan(s, 0, 1, 1));
    }
    while i < n
        invariant
            list@ == s,
            n == s.len(),
            n < 0xFFFF_FF00,
            i <= n,
            1 <= line <= i + 1,
            1 <= col <= i + 1,
            toks_view(raw@) + scan(s, i as int, line as int, col as int) == scan(s, 0, 1, 1),
        decreases n - i,
    {
        let ghost i0 = i as int;
        let ghost line0 = line as int;
        let ghost col0 = col as int;
        let ghost raw0 = raw@;
        let start = i;
        let c = list[i];
        let mut kind: TokenKind;
        if 48 <= c && c <= 57 {
            kind = TokenKind::Digit;
        } else if (65 <= c && c <= 90) || (97 <= c && c <= 122) {
            kind = TokenKind::Alpha;
        } else if c == 32 || c == 10 || c == 9 {
            kind = TokenKind::WhiteSpace;
        } else if c == 61 {
            if i + 1 < n && list[i + 1] == 61 {
                i += 1;
                kind = TokenKind::EqualTo;
            } else {
                kind = TokenKind::Equal;
            }
        } else if c == 60 {
            if i + 1 < n && list[i + 1] == 61 {
                i += 1;
                kind = TokenKind::LessThanOrEqualTo;
            } else {
                kind = TokenKind::LessThan;
            }
        } else if c == 62 {
            if i + 1 < n && list[i + 1] == 61 {
                i += 1;
                kind = TokenKind::GreaterThanOrEqualTo;
            } else {
                kind = TokenKind::GreaterThan;
            }
        } else if c == 33 {
            if i + 1 < n && list[i + 1] == 61 {
                i += 1;
                kind = TokenKind::NotEqualTo;
            } else {
                kind = TokenKind::Other;
            }
        } else if c == 59 {
            kind = TokenKind::Semicolon;
        } else if c == 123 {
            kind = TokenKind::LeftCurly;
        } else if c == 125 {
            kind = TokenKind::RightCurly;
        } else if c == 40 {
            kind = TokenKind::LeftParen;
        } else if c == 41 {
            kind = TokenKind::RightParen;
        } else if c == 43 {
            kind = TokenKind::Plus;
        } else if c == 45 {
            kind = TokenKind::Dash;
        } else if c == 44 {
            kind = TokenKind::Comma;
        } else if c == 34 {
            kind = TokenKind::Quote;
        } else {
            kind = TokenKind::Other;
        }
        proof {
            assert(kind == base_kind(s, i0));
            assert(i as int == base_end(s, i0));
        }
        if c == 102 {
            if i + 1 < n {
                if list[i + 1] == 110 {
                    kind = TokenKind::Fn;
                    i += 1;
                }
            }
        }
        if c == 116 {
            if i + 3 < n {
                if list[i + 1] == 114 && list[i + 2] == 117 && list[i + 3] == 101 {
                    kind = TokenKind::True;
                    i += 3;
                }
            }
        }
        if c == 102 {
            if i + 4 < n {
                if list[i + 1] == 97 && list[i + 2] == 108 && list[i + 3] == 115 && list[i + 4]
                    == 101 {
                    kind = TokenKind::False;
                    i += 4;
                }
            }
        }
        if c == 108 {
            if i + 2 < n {
                if list[i + 1] == 101 && list[i + 2] == 116 {
                    kind = TokenKind::Let;
                    i += 2;
                }
            }
        }
        if c == 114 {
            if i + 5 < n {
                if list[i + 1] == 101 && list[i + 2] == 116 && list[i + 3] == 117 && list[i + 4]
                    == 114 && list[i + 5] == 110 {
                    kind = TokenKind::Return;
                    i += 5;
                }
            }
        }
        proof {
            let st = scan_step(s, i0);
            assert(kind == st.kind);
            assert(i as int + 1 == st.next);
            assert(i - start <= 5);
        }
        let extra = (i - start) as u32;
        let mut lx: Vec<u8> = Vec::new();
        lx.push(c);
        let token = Token {
            kind,
            lexeme: lx,
            start_col: col,
            end_col: col + extra,
            start_line: line,
            end_line: line,
        };
        proof {
            assert(token@.lexeme =~= seq![s[i0]]);
            assert(token@ == token_at(s, i0, line0, col0));
        }
        i += 1;
        raw.push(token);
        col += extra + 1;
        if c == 10 {
            line += 1;
            col = 1;
        }
        proof {
            assert(scan(s, i0, line0, col0) == seq![token_at(s, i0, line0, col0)] + scan(
                s,
                i as int,
                line as int,
                col as int,
            ));
            assert(toks_view(raw@) =~= toks_view(raw0).push(token@));
            assert(toks_view(raw@) + scan(s, i as int, line as int, col as int) =~= (toks_view(
                raw0,
            ) + scan(s, i0, line0, col0)));
        }
    }
    let mut lx: Vec<u8> = Vec::new();
    let token = Token {
        kind: TokenKind::EOF,
        lexeme: lx,
        start_col: col,
        end_col: col,
        start_line: line,
        end_line: line,
    };
    proof {
        assert(token@ == eof_token(line as int, col as int));
        assert(scan(s, i as int, line as int, col as int) == seq![
            eof_token(line as int, col as int),
        ]);
    }
    let ghost raw0 = raw@;
    raw.push(token);
    proof {
        assert(toks_view(raw@) =~= toks_view(raw0).push(token@));
        assert(toks_view(raw@) =~= scan(s, 0, 1, 1));
    }
    let mut filtered: Vec<Token> = Vec::new();
    let mut j: usize = 0;
    proof {
        assert(toks_view(raw@).subrange(0, 0) =~= Seq::<TokenV>::empty());
        assert(strip_ws(Seq::<TokenV>::empty()) =~= Seq::<TokenV>::empty());
        assert(toks_view(filtered@) =~= Seq::<TokenV>::empty());
    }
    while j < raw.len()
        invariant
            j <= raw@.len(),
            toks_view(filtered@) == strip_ws(toks_view(raw@).subrange(0, j as int)),
        decreases raw@.len() - j,
    {
        let ghost pre = toks_view(raw@).subrange(0, j as int);
        let keep_it = match raw[j].kind {
            TokenKind::WhiteSpace => false,
            _ => true,
        };
        if keep_it {
            let ghost f0 = filtered@;
            let t = raw[j].clone();
            filtered.push(t);
            proof {
                assert(toks_view(filtered@) =~= toks_view(f0).push(t@));
            }
        }
        proof {
            lemma_strip_ws_push(pre, toks_view(raw@)[j as int]);
            assert(toks_view(raw@).subrange(0, j as int + 1) =~= pre.push(
                toks_view(raw@)[j as int],
            ));
        }
        j += 1;
    }
    let r = Tokens { tokens: filtered };
    proof {
        assert(toks_view(raw@).subrange(0, raw@.len() as int) =~= toks_view(raw@));
        assert(r@ == lex_spec(s));
    }
    r
}

proof fn lemma_strip_ws_push(s: Seq<TokenV>, t: TokenV)
    ensures
        strip_ws(s.push(t)) == if t.kind != TokenKind::WhiteSpace {
            strip_ws(s).push(t)
        } else {
            strip_ws(s)
        },
{
    reveal_with_fuel(Seq::filter, 2);
    assert(s.push(t).drop_last() =~= s);
    assert(s.push(t).last() == t);
}

/// Lexing is a pure function of the source bytes: any two token streams
/// lexed from the same input are identical.
pub proof fn lemma_lex_deterministic(s: Seq<u8>, t1: Seq<TokenV>, t2: Seq<TokenV>)
    requires
        t1 == lex_spec(s),
        t2 == lex_spec(s),
    ensures
        t1 == t2,
{
}

proof fn lemma_scan_eof(s: Seq<u8>, i: int, line: int, col: int)
    ensures
        ({
            let sc = scan(s, i, line, col);
            sc.len() >= 1 && sc.last().kind == TokenKind::EOF && forall|j: int|
                0 <= j < sc.len() - 1 ==> sc[j].kind != TokenKind::EOF
        }),
    decreases s.len() - i,
{
    if !(i < 0 || i >= s.len()) {
        let st = scan_step(s, i);
        let c = s[i];
        let nl: int = if c == 10 {
            line + 1
        } else {
            line
        };
        let nc: int = if c == 10 {
            1
        } else {
            col + (st.next - i)
        };
        lemma_scan_eof(s, st.next, nl, nc);
        let sc = scan(s, i, line, col);
        let rest = scan(s, st.next, nl, nc);
        assert(sc == seq![token_at(s, i, line, col)] + rest);
        assert(token_at(s, i, line, col).kind != TokenKind::EOF);
        assert forall|j: int| 0 <= j < sc.len() - 1 implies sc[j].kind != TokenKind::EOF by {
            if j > 0 {
                assert(sc[j] == rest[j - 1]);
            }
        }
    }
}

proof fn lemma_strip_ws_no_eof(s: Seq<TokenV>)
    requires
        forall|j: int| 0 <= j < s.len() ==> s[j].kind != TokenKind::EOF,
    ensures
        forall|j: int| 0 <= j < strip_ws(s).len() ==> strip_ws(s)[j].kind != TokenKind::EOF,
    decreases s.len(),
{
    if s.len() > 0 {
        let dl = s.drop_last();
        lemma_strip_ws_no_eof(dl);
        lemma_strip_ws_push(dl, s.last());
        assert(dl.push(s.last()) =~= s);
    }
}

/// Every lexed stream ends in exactly one `EOF` sentinel: at least one
/// token, `EOF` last, and `EOF` nowhere else.
pub proof fn lemma_lex_single_eof(s: Seq<u8>)
    ensures
        ({
            let t = lex_spec(s);
            t.len() >= 1 && t.last().kind == TokenKind::EOF && forall|j: int|
                0 <= j < t.len() - 1 ==> t[j].kind != TokenKind::EOF
        }),
{
    lemma_scan_eof(s, 0, 1, 1);
    let sc = scan(s, 0, 1, 1);
    let dl = sc.drop_last();
    assert(forall|j: int| 0 <= j < dl.len() ==> dl[j].kind != TokenKind::EOF);
    lemma_strip_ws_no_eof(dl);
    lemma_strip_ws_push(dl, sc.last());
    assert(dl.push(sc.last()) =~= sc);
    assert(strip_ws(sc) == strip_ws(dl).push(sc.last()));
    assert forall|j: int| 0 <= j < strip_ws(sc).len() - 1 implies strip_ws(sc)[j].kind
        != TokenKind::EOF by {
        assert(strip_ws(sc)[j] == strip_ws(dl)[j]);
    }
}

} // verus!
