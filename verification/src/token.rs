//! The tokenizer: turns a line of source text into a sequence of typed
//! tokens, and serves as the cursor the parser reads them through.

use vstd::prelude::*;
use crate::logger::{LoggerRepository, LoggerInteractor, DefaultLoggerRepository};
use crate::interpreter::InterpreterError;
use crate::text::{
    is_ws_char, is_alnum_char, is_numeric_char, is_ascii_digit_char, dec_val, dec_i32, digit_val, run_end, ws_p,
    non_ws_p, alnum_p, numeric_p, lemma_run_end, lemma_run_end_skip, chars_of, char_is_ws,
    char_is_alnum, char_is_digit, i32_to_string, string_from_chars, substring_of, char_string,
    str_eq,
};

verus! {

/// One lexical unit.
#[derive(Debug, PartialEq)]
pub enum TokenKind {
    /// A reserved symbol, one of `+ - * / ( ) = ; $ " '`.
    RESERVED(String),
    /// An identifier.
    IDENT(String),
    /// An integer literal.
    NUM(i32),
    /// A bare word.
    STRING(String),
    /// The leading word of a program, read as a call.
    FUNCCALL(String),
    /// The `return` keyword.
    RETURN,
    /// The end of the input.
    EOF,
}

/// The mathematical image of a token.
pub enum TokenView {
    Reserved(Seq<char>),
    Ident(Seq<char>),
    Num(i32),
    Text(Seq<char>),
    Funccall(Seq<char>),
    Return,
    Eof,
}

impl View for TokenKind {
    type V = TokenView;

    open spec fn view(&self) -> TokenView {
        match self {
            TokenKind::RESERVED(s) => TokenView::Reserved(s@),
            TokenKind::IDENT(s) => TokenView::Ident(s@),
            TokenKind::NUM(x) => TokenView::Num(*x),
            TokenKind::STRING(s) => TokenView::Text(s@),
            TokenKind::FUNCCALL(s) => TokenView::Funccall(s@),
            TokenKind::RETURN => TokenView::Return,
            TokenKind::EOF => TokenView::Eof,
        }
    }
}

/// The images of a token vector.
pub open spec fn toks_v(s: Seq<TokenKind>) -> Seq<TokenView> {
    s.map_values(|t: TokenKind| t@)
}

/// A well-formed token sequence: non-empty, ending in the one end
/// marker.
pub open spec fn tk_wf(ts: Seq<TokenView>) -> bool {
    ts.len() >= 1 && ts.last() == TokenView::Eof && (forall|i: int|
        0 <= i < ts.len() - 1 ==> ts[i] != TokenView::Eof)
}

/// The symbols the tokenizer reserves.
pub open spec fn is_reserved_char(c: char) -> bool {
    c == '+' || c == '-' || c == '*' || c == '/' || c == '(' || c == ')' || c == '=' || c == ';'
        || c == '$' || c == '"' || c == '\''
}

pub fn char_is_reserved(c: char) -> (b: bool)
    ensures
        b == is_reserved_char(c),
{
    c == '+' || c == '-' || c == '*' || c == '/' || c == '(' || c == ')' || c == '=' || c == ';'
        || c == '$' || c == '"' || c == '\''
}

pub open spec fn all_ascii_digits(s: Seq<char>) -> bool {
    forall|i: int| 0 <= i < s.len() ==> is_ascii_digit_char(#[trigger] s[i])
}

/// A bare word: non-empty, wholly alphanumeric, not starting with a
/// digit. Only such a leading word is read as a function call.
pub open spec fn is_word(w: Seq<char>) -> bool {
    w.len() > 0 && (forall|i: int| 0 <= i < w.len() ==> is_alnum_char(#[trigger] w[i]))
        && !is_ascii_digit_char(w[0])
}

/// The text a token contributes when tokens are concatenated back into
/// a string (as between quotes).
pub open spec fn tok_text(t: TokenView) -> Seq<char> {
    match t {
        TokenView::Num(x) => dec_i32(x as int),
        TokenView::Text(s) => s,
        TokenView::Funccall(s) => s,
        TokenView::Reserved(s) => s,
        TokenView::Ident(s) => s,
        TokenView::Return => Seq::empty(),
        TokenView::Eof => seq!['\0'],
    }
}

/// The token at a position, with everything past the end reading as the
/// end marker.
pub open spec fn at2(toks: Seq<TokenView>, pos: int) -> TokenView {
    if 0 <= pos < toks.len() {
        toks[pos]
    } else {
        TokenView::Eof
    }
}

pub open spec fn cons_tok(t: TokenView, r: Result<Seq<TokenView>, InterpreterError>) -> Result<
    Seq<TokenView>,
    InterpreterError,
> {
    match r {
        Ok(ts) => Ok(seq![t] + ts),
        Err(e) => Err(e),
    }
}

/// Scanning after the leading word: whitespace is skipped; the keyword
/// `return`, the reserved symbols, decimal numerals and alphanumeric
/// words become tokens; anything else stops the tokenizer. A numeral
/// must be ASCII digits with a value a 32-bit integer can hold.
pub open spec fn sp_scan(s: Seq<char>) -> Result<Seq<TokenView>, InterpreterError>
    decreases s.len(),
    via sp_scan_dec
{
    if s.len() == 0 {
        Ok(seq![TokenView::Eof])
    } else if is_ws_char(s[0]) {
        sp_scan(s.skip(1))
    } else {
        let ae = run_end(s, 0, alnum_p());
        if ae == 6 && s.subrange(0, 6) == "return"@ {
            cons_tok(TokenView::Return, sp_scan(s.skip(6)))
        } else if is_reserved_char(s[0]) {
            cons_tok(TokenView::Reserved(seq![s[0]]), sp_scan(s.skip(1)))
        } else if is_ascii_digit_char(s[0]) {
            let ne = run_end(s, 0, numeric_p());
            let run = s.subrange(0, ne);
            if all_ascii_digits(run) && dec_val(run) <= 0x7fffffff {
                cons_tok(TokenView::Num(dec_val(run) as i32), sp_scan(s.skip(ne)))
            } else {
                Err(InterpreterError::InvalidSource)
            }
        } else if ae > 0 {
            cons_tok(TokenView::Text(s.subrange(0, ae)), sp_scan(s.skip(ae)))
        } else {
            Err(InterpreterError::Untokenized)
        }
    }
}

#[via_fn]
proof fn sp_scan_dec(s: Seq<char>) {
    if s.len() > 0 && !is_ws_char(s[0]) {
        lemma_run_end(s, 0, alnum_p());
        lemma_run_end(s, 0, numeric_p());
        if is_ascii_digit_char(s[0]) {
            if run_end(s, 0, numeric_p()) == 0 {
                assert(!numeric_p()(s[0]));
                assert(false);
            }
        }
    }
}

/// What tokenizing a whole line yields. The first whitespace-delimited
/// run, when it is a bare word, is read as the program name and becomes
/// a function-call token; the rest is scanned rule by rule.
pub open spec fn sp_tokenize(s: Seq<char>) -> Result<Seq<TokenView>, InterpreterError> {
    let b = run_end(s, 0, ws_p());
    let t = s.skip(b);
    if t.len() == 0 {
        Ok(seq![TokenView::Eof])
    } else {
        let we = run_end(t, 0, non_ws_p());
        let w = t.subrange(0, we);
        if is_word(w) {
            cons_tok(TokenView::Funccall(w), sp_scan(t.skip(we)))
        } else {
            sp_scan(t)
        }
    }
}

pub open spec fn res_prepend(
    pre: Seq<TokenView>,
    r: Result<Seq<TokenView>, InterpreterError>,
) -> Result<Seq<TokenView>, InterpreterError> {
    match r {
        Ok(ts) => Ok(pre + ts),
        Err(e) => Err(e),
    }
}

proof fn lemma_res_prepend_push(
    pre: Seq<TokenView>,
    t: TokenView,
    r: Result<Seq<TokenView>, InterpreterError>,
)
    ensures
        res_prepend(pre, cons_tok(t, r)) == res_prepend(pre.push(t), r),
{
    match r {
        Ok(ts) => {
            assert(pre + (seq![t] + ts) =~= pre.push(t) + ts);
        },
        Err(_) => {},
    }
}

/// Every token sequence the scanner accepts is well formed.
proof fn lemma_sp_scan_wf(s: Seq<char>)
    ensures
        sp_scan(s) matches Ok(ts) ==> tk_wf(ts),
    decreases s.len(),
{
    if s.len() == 0 {
    } else if is_ws_char(s[0]) {
        lemma_sp_scan_wf(s.skip(1));
    } else {
        lemma_run_end(s, 0, alnum_p());
        lemma_run_end(s, 0, numeric_p());
        let ae = run_end(s, 0, alnum_p());
        if ae == 6 && s.subrange(0, 6) == "return"@ {
            lemma_sp_scan_wf(s.skip(6));
            lemma_tk_wf_cons(TokenView::Return, sp_scan(s.skip(6)));
        } else if is_reserved_char(s[0]) {
            lemma_sp_scan_wf(s.skip(1));
            lemma_tk_wf_cons(TokenView::Reserved(seq![s[0]]), sp_scan(s.skip(1)));
        } else if is_ascii_digit_char(s[0]) {
            let ne = run_end(s, 0, numeric_p());
            if ne == 0 {
                assert(!numeric_p()(s[0]));
                assert(false);
            }
            let run = s.subrange(0, ne);
            if all_ascii_digits(run) && dec_val(run) <= 0x7fffffff {
                lemma_sp_scan_wf(s.skip(ne));
                lemma_tk_wf_cons(TokenView::Num(dec_val(run) as i32), sp_scan(s.skip(ne)));
            }
        } else if ae > 0 {
            lemma_sp_scan_wf(s.skip(ae));
            lemma_tk_wf_cons(TokenView::Text(s.subrange(0, ae)), sp_scan(s.skip(ae)));
        }
    }
}

proof fn lemma_tk_wf_cons(t: TokenView, r: Result<Seq<TokenView>, InterpreterError>)
    requires
        t != TokenView::Eof,
        r matches Ok(ts) ==> tk_wf(ts),
    ensures
        cons_tok(t, r) matches Ok(ts2) ==> tk_wf(ts2),
{
    match r {
        Ok(ts) => {
            let ts2 = seq![t] + ts;
            assert(ts2.last() == ts.last());
            assert forall|i: int| 0 <= i < ts2.len() - 1 implies ts2[i] != TokenView::Eof by {
                if i > 0 {
                    assert(ts2[i] == ts[i - 1]);
                }
            }
        },
        Err(_) => {},
    }
}

/// Every token sequence the tokenizer accepts is well formed.
pub proof fn lemma_sp_tokenize_wf(s: Seq<char>)
    ensures
        sp_tokenize(s) matches Ok(ts) ==> tk_wf(ts),
{
    let b = run_end(s, 0, ws_p());
    let t = s.skip(b);
    if t.len() == 0 {
    } else {
        let we = run_end(t, 0, non_ws_p());
        let w = t.subrange(0, we);
        if is_word(w) {
            lemma_sp_scan_wf(t.skip(we));
            lemma_tk_wf_cons(TokenView::Funccall(w), sp_scan(t.skip(we)));
        } else {
            lemma_sp_scan_wf(t);
        }
    }
}

/// The tokenizer: holds the token sequence it produced and a cursor
/// into it, which the parser advances.
#[derive(Debug)]
pub struct Tokenizer<T> where T: LoggerRepository + Clone {
    tokens: Vec<TokenKind>,
    pos: usize,
    code: String,
    logger: LoggerInteractor<T>,
}

impl Tokenizer<DefaultLoggerRepository> {
    pub fn init() -> (t: Tokenizer<DefaultLoggerRepository>)
        ensures
            t.wf(),
            t.toks() == seq![TokenView::Eof],
            t.at() == 0,
    {
        Tokenizer::init_with_logger(DefaultLoggerRepository {  })
    }
}

impl<T: LoggerRepository + Clone> Tokenizer<T> {
    /// The tokens as mathematical values.
    pub closed spec fn toks(&self) -> Seq<TokenView> {
        toks_v(self.tokens@)
    }

    /// The cursor position.
    pub closed spec fn at(&self) -> int {
        self.pos as int
    }

    /// The source text of the last `tokenize` call.
    pub closed spec fn src(&self) -> Seq<char> {
        self.code@
    }

    /// The token under the cursor.
    pub open spec fn cur(&self) -> TokenView {
        self.toks()[self.at()]
    }

    pub open spec fn wf(&self) -> bool {
        0 <= self.at() < self.toks().len() && tk_wf(self.toks())
    }

    fn new(logger: T) -> (t: Tokenizer<T>)
        ensures
            t.wf(),
            t.toks() == seq![TokenView::Eof],
            t.at() == 0,
    {
        let mut tokens: Vec<TokenKind> = Vec::new();
        tokens.push(TokenKind::EOF);
        let t = Tokenizer { tokens, pos: 0, code: String::new(), logger: LoggerInteractor::new(logger) };
        proof {
            assert(t.toks() =~= seq![TokenView::Eof]);
        }
        t
    }

    pub fn init_with_logger(logger: T) -> (t: Tokenizer<T>)
        ensures
            t.wf(),
            t.toks() == seq![TokenView::Eof],
            t.at() == 0,
    {
        Tokenizer::new(logger)
    }

    /// Reports where in the source an error sits.
    fn error_at(&self, loc: &str, s: &str) {
        let cv = chars_of(self.code.as_str());
        let lv = chars_of(loc);
        let pos = if lv.len() <= cv.len() {
            cv.len() - lv.len()
        } else {
            0
        };
        let mut w: Vec<char> = Vec::new();
        let mut k: usize = 0;
        while k < pos
            invariant
                k <= pos,
            decreases pos - k,
        {
            w.push(' ');
            k += 1;
        }
        w.push('^');
        let caret = string_from_chars(&w);
        self.logger.print(self.code.as_str());
        self.logger.print(caret.as_str());
        self.logger.print(s);
    }

    /// Advances over the expected symbol and reports whether it was
    /// there.
    pub fn consume(&mut self, op: &str) -> (b: bool)
        requires
            old(self).wf(),
        ensures
            final(self).wf(),
            final(self).toks() == old(self).toks(),
            final(self).src() == old(self).src(),
            b == (at2(old(self).toks(), old(self).at()) matches TokenView::Reserved(s) && s
                == op@),
            final(self).at() == if b {
                old(self).at() + 1
            } else {
                old(self).at()
            },
    {
        proof {
            assert(at2(old(self).toks(), old(self).at()) == old(self).toks()[old(self).at()]);
        }
        let hit = match &self.tokens[self.pos] {
            TokenKind::RESERVED(x) => str_eq(x.as_str(), op),
            _ => false,
        };
        if hit {
            proof {
                assert(old(self).toks()[old(self).at()] != TokenView::Eof);
                assert(self.toks().len() == self.tokens@.len());
                if self.pos == self.tokens.len() - 1 {
                    assert(self.cur() == TokenView::Eof);
                }
                assert(self.pos + 1 < self.tokens@.len());
            }
            self.pos = self.pos + 1;
        }
        hit
    }

    /// Advances over an identifier token and yields its name.
    pub fn consume_ident(&mut self) -> (r: Option<String>)
        requires
            old(self).wf(),
        ensures
            final(self).wf(),
            final(self).toks() == old(self).toks(),
            final(self).src() == old(self).src(),
            match r {
                Some(x) => at2(old(self).toks(), old(self).at()) matches TokenView::Ident(s)
                    && x@ == s && final(self).at() == old(self).at() + 1,
                None => !(at2(old(self).toks(), old(self).at()) is Ident) && final(self).at()
                    == old(self).at(),
            },
    {
        proof {
            assert(at2(old(self).toks(), old(self).at()) == old(self).toks()[old(self).at()]);
        }
        let out = match &self.tokens[self.pos] {
            TokenKind::IDENT(x) => Some(x.clone()),
            _ => None,
        };
        if out.is_some() {
            proof {
                assert(old(self).toks()[old(self).at()] != TokenView::Eof);
                assert(self.toks().len() == self.tokens@.len());
                if self.pos == self.tokens.len() - 1 {
                    assert(self.cur() == TokenView::Eof);
                }
                assert(self.pos + 1 < self.tokens@.len());
            }
            self.pos = self.pos + 1;
        }
        out
    }

    /// Advances over a bare-word token and yields its text.
    pub fn consume_strings(&mut self) -> (r: Option<String>)
        requires
            old(self).wf(),
        ensures
            final(self).wf(),
            final(self).toks() == old(self).toks(),
            final(self).src() == old(self).src(),
            match r {
                Some(x) => at2(old(self).toks(), old(self).at()) matches TokenView::Text(s)
                    && x@ == s && final(self).at() == old(self).at() + 1,
                None => !(at2(old(self).toks(), old(self).at()) is Text) && final(self).at()
                    == old(self).at(),
            },
    {
        proof {
            assert(at2(old(self).toks(), old(self).at()) == old(self).toks()[old(self).at()]);
        }
        let out = match &self.tokens[self.pos] {
            TokenKind::STRING(x) => Some(x.clone()),
            _ => None,
        };
        if out.is_some() {
            proof {
                assert(old(self).toks()[old(self).at()] != TokenView::Eof);
                assert(self.toks().len() == self.tokens@.len());
                if self.pos == self.tokens.len() - 1 {
                    assert(self.cur() == TokenView::Eof);
                }
                assert(self.pos + 1 < self.tokens@.len());
            }
            self.pos = self.pos + 1;
        }
        out
    }

    /// Yields the current token's text whatever it is, advancing unless
    /// the input is exhausted.
    pub fn consume_any(&mut self) -> (s: String)
        requires
            old(self).wf(),
        ensures
            final(self).wf(),
            final(self).toks() == old(self).toks(),
            final(self).src() == old(self).src(),
            s@ == tok_text(at2(old(self).toks(), old(self).at())),
            final(self).at() == if at2(old(self).toks(), old(self).at()) is Eof {
                old(self).at()
            } else {
                old(self).at() + 1
            },
    {
        proof {
            assert(at2(old(self).toks(), old(self).at()) == old(self).toks()[old(self).at()]);
        }
        let mut advance = true;
        let out = match &self.tokens[self.pos] {
            TokenKind::NUM(x) => i32_to_string(*x),
            TokenKind::STRING(x) => x.clone(),
            TokenKind::FUNCCALL(x) => x.clone(),
            TokenKind::RESERVED(x) => x.clone(),
            TokenKind::IDENT(x) => x.clone(),
            TokenKind::RETURN => String::new(),
            TokenKind::EOF => {
                advance = false;
                char_string('\0')
            },
        };
        if advance {
            proof {
                assert(old(self).toks()[old(self).at()] != TokenView::Eof);
                assert(self.toks().len() == self.tokens@.len());
                if self.pos == self.tokens.len() - 1 {
                    assert(self.cur() == TokenView::Eof);
                }
                assert(self.pos + 1 < self.tokens@.len());
            }
            self.pos = self.pos + 1;
        }
        out
    }

    /// Advances over a function-call token and yields its name.
    pub fn consume_funccall(&mut self) -> (r: Option<String>)
        requires
            old(self).wf(),
        ensures
            final(self).wf(),
            final(self).toks() == old(self).toks(),
            final(self).src() == old(self).src(),
            match r {
                Some(x) => at2(old(self).toks(), old(self).at()) matches TokenView::Funccall(s)
                    && x@ == s && final(self).at() == old(self).at() + 1,
                None => !(at2(old(self).toks(), old(self).at()) is Funccall) && final(self).at()
                    == old(self).at(),
            },
    {
        proof {
            assert(at2(old(self).toks(), old(self).at()) == old(self).toks()[old(self).at()]);
        }
        let out = match &self.tokens[self.pos] {
            TokenKind::FUNCCALL(x) => Some(x.clone()),
            _ => None,
        };
        if out.is_some() {
            proof {
                assert(old(self).toks()[old(self).at()] != TokenView::Eof);
                assert(self.toks().len() == self.tokens@.len());
                if self.pos == self.tokens.len() - 1 {
                    assert(self.cur() == TokenView::Eof);
                }
                assert(self.pos + 1 < self.tokens@.len());
            }
            self.pos = self.pos + 1;
        }
        out
    }

    /// Advances over the `return` keyword and reports whether it was
    /// there.
    pub fn consume_return(&mut self) -> (b: bool)
        requires
            old(self).wf(),
        ensures
            final(self).wf(),
            final(self).toks() == old(self).toks(),
            final(self).src() == old(self).src(),
            b == (at2(old(self).toks(), old(self).at()) is Return),
            final(self).at() == if b {
                old(self).at() + 1
            } else {
                old(self).at()
            },
    {
        proof {
            assert(at2(old(self).toks(), old(self).at()) == old(self).toks()[old(self).at()]);
        }
        let hit = match &self.tokens[self.pos] {
            TokenKind::RETURN => true,
            _ => false,
        };
        if hit {
            proof {
                assert(old(self).toks()[old(self).at()] != TokenView::Eof);
                assert(self.toks().len() == self.tokens@.len());
                if self.pos == self.tokens.len() - 1 {
                    assert(self.cur() == TokenView::Eof);
                }
                assert(self.pos + 1 < self.tokens@.len());
            }
            self.pos = self.pos + 1;
        }
        hit
    }

    /// Advances over the expected symbol, or fails with `Unexpected`.
    pub fn expect(&mut self, op: &str) -> (r: Result<(), InterpreterError>)
        requires
            old(self).wf(),
        ensures
            final(self).wf(),
            final(self).toks() == old(self).toks(),
            final(self).src() == old(self).src(),
            match r {
                Ok(()) => (at2(old(self).toks(), old(self).at())
                    matches TokenView::Reserved(s) && s == op@) && final(self).at() == old(self).at() + 1,
                Err(e) => e == InterpreterError::Unexpected && !(at2(
                    old(self).toks(),
                    old(self).at(),
                ) matches TokenView::Reserved(s) && s == op@) && final(self).at() == old(self).at(),
            },
    {
        proof {
            assert(at2(old(self).toks(), old(self).at()) == old(self).toks()[old(self).at()]);
        }
        let mut hit = false;
        let mut miss_text: Option<String> = None;
        match &self.tokens[self.pos] {
            TokenKind::RESERVED(x) => {
                if str_eq(x.as_str(), op) {
                    hit = true;
                } else {
                    miss_text = Some(x.clone());
                }
            },
            TokenKind::STRING(x) => {
                miss_text = Some(x.clone());
            },
            TokenKind::NUM(x) => {
                miss_text = Some(i32_to_string(*x));
            },
            TokenKind::FUNCCALL(x) => {
                miss_text = Some(x.clone());
            },
            TokenKind::IDENT(x) => {
                miss_text = Some(x.clone());
            },
            _ => {},
        }
        if hit {
            proof {
                assert(old(self).toks()[old(self).at()] != TokenView::Eof);
                assert(self.toks().len() == self.tokens@.len());
                if self.pos == self.tokens.len() - 1 {
                    assert(self.cur() == TokenView::Eof);
                }
                assert(self.pos + 1 < self.tokens@.len());
            }
            self.pos = self.pos + 1;
            Ok(())
        } else {
            match miss_text {
                Some(x) => {
                    self.error_at(x.as_str(), "not the expected symbol");
                },
                None => {
                    self.logger.print("not the expected symbol");
                },
            }
            Err(InterpreterError::Unexpected)
        }
    }

    /// Advances over a number token and yields its value, or fails with
    /// `Unexpected`.
    pub fn expect_number(&mut self) -> (r: Result<i32, InterpreterError>)
        requires
            old(self).wf(),
        ensures
            final(self).wf(),
            final(self).toks() == old(self).toks(),
            final(self).src() == old(self).src(),
            match r {
                Ok(x) => at2(old(self).toks(), old(self).at()) == TokenView::Num(x) && final(self).at() == old(self).at() + 1,
                Err(e) => e == InterpreterError::Unexpected && !(at2(
                    old(self).toks(),
                    old(self).at(),
                ) is Num) && final(self).at() == old(self).at(),
            },
    {
        proof {
            assert(at2(old(self).toks(), old(self).at()) == old(self).toks()[old(self).at()]);
        }
        let mut hit: Option<i32> = None;
        let mut miss_text: Option<String> = None;
        match &self.tokens[self.pos] {
            TokenKind::NUM(x) => {
                hit = Some(*x);
            },
            TokenKind::STRING(x) => {
                miss_text = Some(x.clone());
            },
            TokenKind::FUNCCALL(x) => {
                miss_text = Some(x.clone());
            },
            TokenKind::RESERVED(x) => {
                miss_text = Some(x.clone());
            },
            TokenKind::IDENT(x) => {
                miss_text = Some(x.clone());
            },
            _ => {},
        }
        match hit {
            Some(x) => {
                proof {
                    assert(old(self).toks()[old(self).at()] != TokenView::Eof);
                    assert(self.toks().len() == self.tokens@.len());
                    if self.pos == self.tokens.len() - 1 {
                        assert(self.cur() == TokenView::Eof);
                    }
                    assert(self.pos + 1 < self.tokens@.len());
                }
                self.pos = self.pos + 1;
                Ok(x)
            },
            None => {
                match miss_text {
                    Some(x) => {
                        self.error_at(x.as_str(), "not a number");
                    },
                    None => {
                        self.logger.print("not a number");
                    },
                }
                Err(InterpreterError::Unexpected)
            },
        }
    }

    /// Whether the cursor stands on the end of the input.
    pub fn at_eof(&self) -> (b: bool)
        requires
            self.wf(),
        ensures
            b == (at2(self.toks(), self.at()) is Eof),
    {
        proof {
            assert(at2(self.toks(), self.at()) == self.toks()[self.at()]);
        }
        match &self.tokens[self.pos] {
            TokenKind::EOF => true,
            _ => false,
        }
    }

    /// Turns `code` into tokens and puts the cursor on the first one.
    pub fn tokenize(&mut self, code: &str) -> (r: Result<(), InterpreterError>)
        requires
            old(self).wf(),
        ensures
            final(self).wf(),
            final(self).src() == code@,
            match r {
                Ok(()) => sp_tokenize(code@) matches Ok(ts) && final(self).toks() == ts && final(self).at() == 0,
                Err(e) => sp_tokenize(code@) == Err::<Seq<TokenView>, InterpreterError>(e) && final(self).toks() == old(self).toks() && final(self).at() == old(self).at(),
            },
    {
        self.code = code.to_owned();
        self.logger.print("input code:");
        self.logger.print(code);
        let v = chars_of(code);
        let ghost cs = v@;
        let mut toks: Vec<TokenKind> = Vec::new();
        let mut i: usize;

        // the first whitespace-delimited run, when it is a bare word,
        // names the program to call
        let start = scan_ws_here(&v, 0);
        proof {
            lemma_run_end(cs, 0, ws_p());
        }
        if start < v.len() {
            let wend = scan_non_ws_here(&v, start);
            proof {
                lemma_run_end(cs, start as int, non_ws_p());
                lemma_run_end_skip(cs, start as int, non_ws_p());
            }
            let ghost w = cs.subrange(start as int, wend as int);
            let mut all_al = true;
            let mut j = start;
            while j < wend
                invariant
                    start <= j <= wend,
                    wend <= v@.len(),
                    v@ == cs,
                    all_al == (forall|k: int|
                        start as int <= k < j as int ==> is_alnum_char(#[trigger] cs[k])),
                decreases wend - j,
            {
                let a = char_is_alnum(v[j]);
                proof {
                    if all_al && a {
                        assert forall|k: int|
                            start as int <= k < j as int + 1 implies is_alnum_char(
                            #[trigger] cs[k],
                        ) by {}
                    }
                }
                all_al = all_al && a;
                j += 1;
            }
            let is_w = all_al && !char_is_digit(v[start]);
            proof {
                assert(w.len() == wend - start);
                if wend == start {
                    assert(!non_ws_p()(cs[start as int]));
                    assert(false);
                }
                assert(w[0] == cs[start as int]);
                if is_w {
                    assert forall|k: int| 0 <= k < w.len() implies is_alnum_char(
                        #[trigger] w[k],
                    ) by {
                        assert(w[k] == cs[start + k]);
                    }
                    assert(is_word(w));
                } else {
                    if all_al {
                        assert(is_ascii_digit_char(w[0]));
                        assert(!is_word(w));
                    } else {
                        let k = choose|k: int|
                            start as int <= k < wend as int && !is_alnum_char(#[trigger] cs[k]);
                        assert(w[k - start] == cs[k]);
                        assert(!is_word(w));
                    }
                }
            }
            if is_w {
                let word = substring_of(&v, start, wend);
                toks.push(TokenKind::FUNCCALL(word));
                i = wend;
            } else {
                i = start;
            }
        } else {
            i = start;
        }

        proof {
            let b = run_end(cs, 0, ws_p());
            let t = cs.skip(b);
            if start == v@.len() {
                assert(t.len() == 0);
                assert(cs.skip(i as int).len() == 0);
                assert(cs.skip(i as int) =~= Seq::<char>::empty());
                assert(sp_scan(cs.skip(i as int)) == Ok::<_, InterpreterError>(
                    seq![TokenView::Eof],
                ));
                assert(toks_v(toks@) =~= Seq::<TokenView>::empty());
                assert(res_prepend(toks_v(toks@), sp_scan(cs.skip(i as int))) == sp_tokenize(cs));
            } else {
                let we = run_end(t, 0, non_ws_p());
                let w2 = t.subrange(0, we);
                lemma_run_end_skip(cs, start as int, non_ws_p());
                assert(w2 =~= cs.subrange(start as int, run_end(cs, start as int, non_ws_p())));
                if is_word(w2) {
                    assert(toks@.len() == 1);
                    assert(toks_v(toks@) =~= seq![TokenView::Funccall(w2)]);
                    assert(t.skip(we) =~= cs.skip(i as int));
                    match sp_scan(cs.skip(i as int)) {
                        Ok(ts) => {
                            assert(seq![TokenView::Funccall(w2)] + ts =~= toks_v(toks@) + ts);
                        },
                        Err(_) => {},
                    }
                    assert(res_prepend(toks_v(toks@), sp_scan(cs.skip(i as int))) == sp_tokenize(
                        cs,
                    ));
                } else {
                    assert(toks@.len() == 0);
                    assert(toks_v(toks@) =~= Seq::<TokenView>::empty());
                    assert(t =~= cs.skip(i as int));
                    assert(res_prepend(toks_v(toks@), sp_scan(cs.skip(i as int))) == sp_tokenize(
                        cs,
                    ));
                }
            }
        }

        loop
            invariant_except_break
                i <= v@.len(),
                v@ == cs,
                cs == code@,
                self.wf(),
                self.src() == code@,
                self.toks() == old(self).toks(),
                self.at() == old(self).at(),
                res_prepend(toks_v(toks@), sp_scan(cs.skip(i as int))) == sp_tokenize(cs),
            ensures
                i == v@.len(),
                v@ == cs,
                self.wf(),
                self.src() == code@,
                self.toks() == old(self).toks(),
                self.at() == old(self).at(),
                res_prepend(toks_v(toks@), sp_scan(cs.skip(i as int))) == sp_tokenize(cs),
            decreases v@.len() - i,
        {
            if i >= v.len() {
                break ;
            }
            let ghost s_i = cs.skip(i as int);
            proof {
                assert(s_i.len() == cs.len() - i);
                assert(s_i[0] == cs[i as int]);
            }
            let c = v[i];
            if char_is_ws(c) {
                proof {
                    assert(s_i.skip(1) =~= cs.skip(i as int + 1));
                }
                i += 1;
                continue ;
            }
            let ae = scan_alnum_here(&v, i);
            proof {
                lemma_run_end(cs, i as int, alnum_p());
                lemma_run_end_skip(cs, i as int, alnum_p());
            }
            let is_ret = (ae - i == 6) && v[i] == 'r' && v[i + 1] == 'e' && v[i + 2] == 't' && v[i
                + 3] == 'u' && v[i + 4] == 'r' && v[i + 5] == 'n';
            proof {
                reveal_strlit("return");
                if is_ret {
                    assert(s_i.subrange(0, 6) =~= "return"@);
                    assert(run_end(s_i, 0, alnum_p()) == 6);
                } else {
                    if run_end(s_i, 0, alnum_p()) == 6 && s_i.subrange(0, 6) == "return"@ {
                        assert(ae - i == 6);
                        assert(s_i.subrange(0, 6)[0] == cs[i as int]);
                        assert(s_i.subrange(0, 6)[1] == cs[i as int + 1]);
                        assert(s_i.subrange(0, 6)[2] == cs[i as int + 2]);
                        assert(s_i.subrange(0, 6)[3] == cs[i as int + 3]);
                        assert(s_i.subrange(0, 6)[4] == cs[i as int + 4]);
                        assert(s_i.subrange(0, 6)[5] == cs[i as int + 5]);
                        assert(false);
                    }
                }
            }
            if is_ret {
                proof {
                    assert(s_i.skip(6) =~= cs.skip(i as int + 6));
                    lemma_res_prepend_push(toks_v(toks@), TokenView::Return, sp_scan(cs.skip(i as int + 6)));
                    assert(toks_v(toks@.push(TokenKind::RETURN)) =~= toks_v(toks@).push(
                        TokenView::Return,
                    ));
                }
                toks.push(TokenKind::RETURN);
                i = ae;
            } else if char_is_reserved(c) {
                let sym = char_string(c);
                proof {
                    assert(s_i.skip(1) =~= cs.skip(i as int + 1));
                    lemma_res_prepend_push(
                        toks_v(toks@),
                        TokenView::Reserved(seq![cs[i as int]]),
                        sp_scan(cs.skip(i as int + 1)),
                    );
                }
                let ghost before = toks@;
                toks.push(TokenKind::RESERVED(sym));
                proof {
                    assert(toks_v(toks@) =~= toks_v(before).push(
                        TokenView::Reserved(seq![cs[i as int]]),
                    ));
                }
                i += 1;
            } else if char_is_digit(c) {
                let ne = scan_numeric_here(&v, i);
                proof {
                    lemma_run_end(cs, i as int, numeric_p());
                    lemma_run_end_skip(cs, i as int, numeric_p());
                    assert(numeric_p()(cs[i as int]));
                    if ne == i {
                        assert(!numeric_p()(cs[i as int]));
                        assert(false);
                    }
                }
                let ghost run = cs.subrange(i as int, ne as int);
                let mut acc: u64 = 0;
                let mut over = false;
                let mut digits_ok = true;
                let mut j = i;
                while j < ne
                    invariant
                        i <= j <= ne,
                        ne <= v@.len(),
                        v@ == cs,
                        digits_ok == all_ascii_digits(cs.subrange(i as int, j as int)),
                        digits_ok ==> ((!over && acc == dec_val(
                            cs.subrange(i as int, j as int),
                        ) && acc <= 0x7fffffff) || (over && dec_val(
                            cs.subrange(i as int, j as int),
                        ) > 0x7fffffff)),
                    decreases ne - j,
                {
                    let c2 = v[j];
                    let d_ok = char_is_digit(c2);
                    let ghost pref = cs.subrange(i as int, j as int);
                    let ghost pref2 = cs.subrange(i as int, j as int + 1);
                    proof {
                        assert(pref2.drop_last() =~= pref);
                        assert(pref2.last() == cs[j as int]);
                    }
                    if !d_ok {
                        proof {
                            assert(!is_ascii_digit_char(pref2.last()));
                            assert(!all_ascii_digits(pref2));
                        }
                        digits_ok = false;
                    } else {
                        proof {
                            if digits_ok {
                                assert forall|k: int| 0 <= k < pref2.len() implies
                                    is_ascii_digit_char(#[trigger] pref2[k]) by {
                                    if k < pref.len() {
                                        assert(pref2[k] == pref[k]);
                                    }
                                }
                            } else {
                                let k = choose|k: int|
                                    0 <= k < pref.len() && !is_ascii_digit_char(
                                        #[trigger] pref[k],
                                    );
                                assert(pref2[k] == pref[k]);
                                assert(!all_ascii_digits(pref2));
                            }
                            assert(dec_val(pref2) == dec_val(pref) * 10 + digit_val(cs[j as int]));
                        }
                        if digits_ok && !over {
                            let d = (c2 as u32 - 48) as u64;
                            acc = acc * 10 + d;
                            if acc > 0x7fffffff {
                                over = true;
                            }
                        } else if digits_ok {
                            proof {
                                assert(dec_val(pref) > 0x7fffffff);
                                assert(digit_val(cs[j as int]) >= 0);
                                assert(dec_val(pref) * 10 >= dec_val(pref));
                                assert(dec_val(pref2) > 0x7fffffff);
                            }
                        }
                    }
                    j += 1;
                }
                if digits_ok && !over {
                    proof {
                        assert(run == cs.subrange(i as int, ne as int));
                        assert(s_i.subrange(0, ne - i) =~= run);
                        assert(run_end(s_i, 0, numeric_p()) == ne - i);
                        assert(acc == dec_val(run) && dec_val(run) <= 0x7fffffff);
                        assert(s_i.skip(ne - i) =~= cs.skip(ne as int));
                        lemma_res_prepend_push(
                            toks_v(toks@),
                            TokenView::Num(dec_val(run) as i32),
                            sp_scan(cs.skip(ne as int)),
                        );
                    }
                    let ghost before = toks@;
                    let value: i32 = acc as i32;
                    toks.push(TokenKind::NUM(value));
                    proof {
                        assert(toks_v(toks@) =~= toks_v(before).push(
                            TokenView::Num(dec_val(run) as i32),
                        ));
                    }
                    i = ne;
                } else {
                    proof {
                        assert(run == cs.subrange(i as int, ne as int));
                        assert(s_i.subrange(0, ne - i) =~= run);
                        assert(run_end(s_i, 0, numeric_p()) == ne - i);
                        assert(!(all_ascii_digits(run) && dec_val(run) <= 0x7fffffff));
                        assert(sp_scan(s_i) == Err::<Seq<TokenView>, InterpreterError>(
                            InterpreterError::InvalidSource,
                        ));
                    }
                    let cur = char_string(c);
                    self.error_at(cur.as_str(), "numeral out of range");
                    return Err(InterpreterError::InvalidSource);
                }
            } else if ae > i {
                let word = substring_of(&v, i, ae);
                proof {
                    assert(s_i.subrange(0, ae - i) =~= cs.subrange(i as int, ae as int));
                    assert(run_end(s_i, 0, alnum_p()) == ae - i);
                    assert(s_i.skip(ae - i) =~= cs.skip(ae as int));
                    lemma_res_prepend_push(
                        toks_v(toks@),
                        TokenView::Text(cs.subrange(i as int, ae as int)),
                        sp_scan(cs.skip(ae as int)),
                    );
                }
                let ghost before = toks@;
                toks.push(TokenKind::STRING(word));
                proof {
                    assert(toks_v(toks@) =~= toks_v(before).push(
                        TokenView::Text(cs.subrange(i as int, ae as int)),
                    ));
                }
                i = ae;
            } else {
                proof {
                    assert(run_end(s_i, 0, alnum_p()) == 0);
                    assert(sp_scan(s_i) == Err::<Seq<TokenView>, InterpreterError>(
                        InterpreterError::Untokenized,
                    ));
                }
                let cur = char_string(c);
                self.error_at(cur.as_str(), "cannot tokenize");
                return Err(InterpreterError::Untokenized);
            }
        }

        proof {
            assert(cs.skip(i as int).len() == 0);
            assert(cs.skip(i as int) =~= Seq::<char>::empty());
            assert(sp_scan(cs.skip(i as int)) == Ok::<_, InterpreterError>(seq![TokenView::Eof]));
            lemma_sp_tokenize_wf(cs);
        }
        let ghost before = toks@;
        toks.push(TokenKind::EOF);
        proof {
            assert(toks_v(toks@) =~= toks_v(before).push(TokenView::Eof));
            assert(toks_v(before) + seq![TokenView::Eof] =~= toks_v(toks@));
        }
        self.tokens = toks;
        self.pos = 0;
        Ok(())
    }
}

fn scan_ws_here(v: &Vec<char>, from: usize) -> (j: usize)
    requires
        from <= v@.len(),
    ensures
        j == run_end(v@, from as int, ws_p()),
        from <= j <= v@.len(),
{
    proof {
        lemma_run_end(v@, from as int, ws_p());
    }
    crate::text::scan_end_ws(v, from)
}

fn scan_non_ws_here(v: &Vec<char>, from: usize) -> (j: usize)
    requires
        from <= v@.len(),
    ensures
        j == run_end(v@, from as int, non_ws_p()),
        from <= j <= v@.len(),
{
    proof {
        lemma_run_end(v@, from as int, non_ws_p());
    }
    crate::text::scan_end_non_ws(v, from)
}

fn scan_alnum_here(v: &Vec<char>, from: usize) -> (j: usize)
    requires
        from <= v@.len(),
    ensures
        j == run_end(v@, from as int, alnum_p()),
        from <= j <= v@.len(),
{
    proof {
        lemma_run_end(v@, from as int, alnum_p());
    }
    crate::text::scan_end_alnum(v, from)
}

fn scan_numeric_here(v: &Vec<char>, from: usize) -> (j: usize)
    requires
        from <= v@.len(),
    ensures
        j == run_end(v@, from as int, numeric_p()),
        from <= j <= v@.len(),
{
    proof {
        lemma_run_end(v@, from as int, numeric_p());
    }
    crate::text::scan_end_numeric(v, from)
}


/// A line holding one decimal numeral (with a value a 32-bit integer
/// can hold) tokenizes to exactly that number and the end marker.
pub proof fn lemma_tokenize_numeral(s: Seq<char>)
    requires
        s.len() >= 1,
        all_ascii_digits(s),
        dec_val(s) <= 0x7fffffff,
    ensures
        sp_tokenize(s) == Ok::<Seq<TokenView>, InterpreterError>(
            seq![TokenView::Num(dec_val(s) as i32), TokenView::Eof],
        ),
{
    assert(is_ascii_digit_char(s[0]));
    assert(!is_ws_char(s[0]));
    lemma_run_end(s, 0, ws_p());
    assert(run_end(s, 0, ws_p()) == 0);
    let t = s.skip(0);
    assert(t =~= s);
    lemma_run_end(s, 0, non_ws_p());
    let we = run_end(s, 0, non_ws_p());
    if we < s.len() {
        assert(is_ws_char(s[we]));
        assert(false);
    }
    let w = s.subrange(0, we);
    assert(w =~= s);
    assert(!is_word(w));
    // scanning: the whole line is one numeral
    lemma_run_end(s, 0, alnum_p());
    let ae = run_end(s, 0, alnum_p());
    if ae < s.len() {
        assert(is_alnum_char(s[ae]));
        assert(false);
    }
    reveal_strlit("return");
    assert("return"@.len() == 6);
    if ae == 6 && s.subrange(0, 6) == "return"@ {
        assert(s.subrange(0, 6)[0] == s[0]);
        assert("return"@[0] == 'r');
        assert(false);
    }
    assert(!is_reserved_char(s[0]));
    lemma_run_end(s, 0, numeric_p());
    let ne = run_end(s, 0, numeric_p());
    if ne < s.len() {
        assert(is_numeric_char(s[ne]));
        assert(false);
    }
    let run = s.subrange(0, ne);
    assert(run =~= s);
    assert(s.skip(ne).len() == 0);
    assert(sp_scan(s.skip(ne)) == Ok::<Seq<TokenView>, InterpreterError>(seq![TokenView::Eof]));
    assert(sp_scan(s) == cons_tok(
        TokenView::Num(dec_val(s) as i32),
        sp_scan(s.skip(ne)),
    ));
    assert(seq![TokenView::Num(dec_val(s) as i32)] + seq![TokenView::Eof] =~= seq![
        TokenView::Num(dec_val(s) as i32),
        TokenView::Eof,
    ]);
}

/// No token rule covers a character that is not whitespace, not a
/// reserved symbol, not alphanumeric and not numeric; the scanner,
/// consuming only characters of those classes, must reach it and stop.
proof fn lemma_sp_scan_untokenizable(s: Seq<char>, i: int)
    requires
        0 <= i < s.len(),
        !is_ws_char(s[i]),
        !is_reserved_char(s[i]),
        !is_alnum_char(s[i]),
        !is_numeric_char(s[i]),
    ensures
        sp_scan(s) is Err,
    decreases s.len(),
{
    let c = s[i];
    if is_ws_char(s[0]) {
        assert(i != 0);
        assert(s.skip(1)[i - 1] == c);
        lemma_sp_scan_untokenizable(s.skip(1), i - 1);
    } else {
        lemma_run_end(s, 0, alnum_p());
        let ae = run_end(s, 0, alnum_p());
        assert(i >= ae) by {
            if i < ae {
                assert(is_alnum_char(s[i]));
            }
        }
        if ae == 6 && s.subrange(0, 6) == "return"@ {
            assert(s.skip(6)[i - 6] == c);
            lemma_sp_scan_untokenizable(s.skip(6), i - 6);
        } else if is_reserved_char(s[0]) {
            assert(i != 0);
            assert(s.skip(1)[i - 1] == c);
            lemma_sp_scan_untokenizable(s.skip(1), i - 1);
        } else if is_ascii_digit_char(s[0]) {
            lemma_run_end(s, 0, numeric_p());
            let ne = run_end(s, 0, numeric_p());
            assert(ne >= 1) by {
                if ne == 0 {
                    assert(!numeric_p()(s[0]));
                }
            }
            assert(i >= ne) by {
                if i < ne {
                    assert(is_numeric_char(s[i]));
                }
            }
            let run = s.subrange(0, ne);
            if all_ascii_digits(run) && dec_val(run) <= 0x7fffffff {
                assert(s.skip(ne)[i - ne] == c);
                lemma_sp_scan_untokenizable(s.skip(ne), i - ne);
            }
        } else if ae > 0 {
            assert(s.skip(ae)[i - ae] == c);
            lemma_sp_scan_untokenizable(s.skip(ae), i - ae);
        }
    }
}

/// A line holding a character that no token rule covers cannot be
/// tokenized, wherever the character stands.
pub proof fn lemma_tokenize_untokenizable(s: Seq<char>, i: int)
    requires
        0 <= i < s.len(),
        !is_ws_char(s[i]),
        !is_reserved_char(s[i]),
        !is_alnum_char(s[i]),
        !is_numeric_char(s[i]),
    ensures
        sp_tokenize(s) is Err,
{
    let c = s[i];
    lemma_run_end(s, 0, ws_p());
    let b = run_end(s, 0, ws_p());
    assert(i >= b) by {
        if i < b {
            assert(is_ws_char(s[i]));
        }
    }
    let t = s.skip(b);
    assert(t[i - b] == c);
    lemma_run_end(t, 0, non_ws_p());
    let we = run_end(t, 0, non_ws_p());
    let w = t.subrange(0, we);
    if is_word(w) {
        assert(i - b >= we) by {
            if i - b < we {
                assert(w[i - b] == c);
                assert(is_alnum_char(c));
            }
        }
        assert(t.skip(we)[i - b - we] == c);
        lemma_sp_scan_untokenizable(t.skip(we), i - b - we);
    } else {
        lemma_sp_scan_untokenizable(t, i - b);
    }
}
} // verus!
