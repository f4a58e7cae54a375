//! The tokenizer: turns source text into tokens, inserting `Indent` and
//! `Dedent` tokens from the leading spaces of each logical line.

use vstd::prelude::*;
use std::collections::VecDeque;
use crate::ast::Span;
use crate::text::{int_text, push_char};
use crate::builtins::str_eq;

verus! {

/// Whether the character has the Unicode property XID_Start.
pub uninterp spec fn xid_start_spec(c: char) -> bool;

/// Whether the character has the Unicode property XID_Continue.
pub uninterp spec fn xid_continue_spec(c: char) -> bool;

pub open spec fn is_ascii_letter(c: char) -> bool {
    (65 <= (c as u32) <= 90) || (97 <= (c as u32) <= 122)
}

pub open spec fn is_ascii_digit(c: char) -> bool {
    48 <= (c as u32) <= 57
}

/// `unicode_ident::is_xid_start`. Claims: the result is the XID_Start property
/// of the character, which for ASCII holds exactly of the letters.
#[verifier::external_body]
fn is_xid_start(c: char) -> (r: bool)
    ensures
        r == xid_start_spec(c),
        (c as u32) < 128 ==> (r <==> is_ascii_letter(c)),
{
    unicode_ident::is_xid_start(c)
}

/// `unicode_ident::is_xid_continue`. Claims: the result is the XID_Continue
/// property of the character, which for ASCII holds exactly of the letters,
/// the digits and `_`.
#[verifier::external_body]
fn is_xid_continue(c: char) -> (r: bool)
    ensures
        r == xid_continue_spec(c),
        (c as u32) < 128 ==> (r <==> (is_ascii_letter(c) || is_ascii_digit(c) || c == '_')),
{
    unicode_ident::is_xid_continue(c)
}

#[derive(Debug, Clone, PartialEq)]
pub enum Token {
    If,
    Elif,
    Else,
    While,
    For,
    In,
    Def,
    Return,
    And,
    Or,
    Not,
    Class,
    Break,
    Continue,
    Pass,
    Lambda,
    NoneKw,
    Bool(bool),
    Int(i64),
    String(String),
    Identifier(String),
    /// A float literal, as written.
    Float(String),
    Plus,
    Minus,
    Star,
    SlashSlash,
    Slash,
    Percent,
    EqualEqual,
    NotEqual,
    Less,
    LessEqual,
    Greater,
    GreaterEqual,
    Equal,
    LParen,
    RParen,
    LBracket,
    RBracket,
    LBrace,
    RBrace,
    Colon,
    Comma,
    Semicolon,
    Dot,
    Indent,
    Dedent,
    Newline,
    Eof,
    Error(String, Span),
}

/// The token a reserved word stands for, if it is one.
pub open spec fn keyword_token(w: Seq<char>) -> Option<Token> {
    if w == "if"@ { Some(Token::If) }
    else if w == "elif"@ { Some(Token::Elif) }
    else if w == "else"@ { Some(Token::Else) }
    else if w == "while"@ { Some(Token::While) }
    else if w == "for"@ { Some(Token::For) }
    else if w == "in"@ { Some(Token::In) }
    else if w == "def"@ { Some(Token::Def) }
    else if w == "return"@ { Some(Token::Return) }
    else if w == "and"@ { Some(Token::And) }
    else if w == "or"@ { Some(Token::Or) }
    else if w == "not"@ { Some(Token::Not) }
    else if w == "class"@ { Some(Token::Class) }
    else if w == "break"@ { Some(Token::Break) }
    else if w == "continue"@ { Some(Token::Continue) }
    else if w == "pass"@ { Some(Token::Pass) }
    else if w == "lambda"@ { Some(Token::Lambda) }
    else if w == "None"@ { Some(Token::NoneKw) }
    else if w == "True"@ { Some(Token::Bool(true)) }
    else if w == "False"@ { Some(Token::Bool(false)) }
    else { None }
}

/// Whether a piece of source text is the text of the token: a keyword,
/// an identifier that is no keyword, a number, a string literal in quotes
/// with its escapes processed, a newline or an operator.
pub open spec fn denotes(t: Token, text: Seq<char>) -> bool {
    match t {
        Token::Newline => text == seq!['\n'],
        Token::Int(v) => text.len() > 0 && (forall|k: int| 0 <= k < text.len() ==> is_ascii_digit(#[trigger] text[k]))
            && v as int == digits_value(text),
        Token::Float(f) => f@ == text && text.len() > 0 && is_ascii_digit(text[0]),
        Token::String(b) => text.len() >= 2 && (text[0] == '"' || text[0] == '\'') && text.last() == text[0]
            && b@ == unescape(text.subrange(1, text.len() - 1)),
        Token::Identifier(n) => n@ == text && keyword_token(text) is None,
        Token::Plus => text == seq!['+'],
        Token::Minus => text == seq!['-'],
        Token::Star => text == seq!['*'],
        Token::SlashSlash => text == seq!['/', '/'],
        Token::Slash => text == seq!['/'],
        Token::Percent => text == seq!['%'],
        Token::EqualEqual => text == seq!['=', '='],
        Token::NotEqual => text == seq!['!', '='],
        Token::Less => text == seq!['<'],
        Token::LessEqual => text == seq!['<', '='],
        Token::Greater => text == seq!['>'],
        Token::GreaterEqual => text == seq!['>', '='],
        Token::Equal => text == seq!['='],
        Token::LParen => text == seq!['('],
        Token::RParen => text == seq![')'],
        Token::LBracket => text == seq!['['],
        Token::RBracket => text == seq![']'],
        Token::LBrace => text == seq!['{'],
        Token::RBrace => text == seq!['}'],
        Token::Colon => text == seq![':'],
        Token::Comma => text == seq![','],
        Token::Semicolon => text == seq![';'],
        Token::Dot => text == seq!['.'],
        Token::Indent | Token::Dedent | Token::Eof | Token::Error(_, _) => false,
        _ => keyword_token(text) == Some(t),
    }
}

/// The value of an escape character after a backslash.
pub open spec fn escape_text(c: char) -> Seq<char> {
    if c == 'n' { seq!['\n'] }
    else if c == 't' { seq!['\t'] }
    else if c == 'r' { seq!['\r'] }
    else if c == '\\' { seq!['\\'] }
    else if c == '"' { seq!['"'] }
    else if c == '\'' { seq!['\''] }
    else { seq!['\\', c] }
}

/// The text of a string literal body after its escapes are processed.
pub open spec fn unescape(s: Seq<char>) -> Seq<char>
    decreases s.len(),
{
    if s.len() == 0 {
        Seq::empty()
    } else if s[0] == '\\' {
        if s.len() == 1 {
            seq!['\\']
        } else {
            escape_text(s[1]) + unescape(s.skip(2))
        }
    } else {
        seq![s[0]] + unescape(s.skip(1))
    }
}

fn push_escape(res: &mut String, c: char)
    ensures
        final(res)@ == old(res)@ + escape_text(c),
{
    if c == 'n' { push_char(res, '\n'); }
    else if c == 't' { push_char(res, '\t'); }
    else if c == 'r' { push_char(res, '\r'); }
    else if c == '\\' { push_char(res, '\\'); }
    else if c == '"' { push_char(res, '"'); }
    else if c == '\'' { push_char(res, '\''); }
    else { push_char(res, '\\'); push_char(res, c); }
    assert(final(res)@ =~= old(res)@ + escape_text(c));
}

/// Processes the escapes of the characters `chars[lo..hi]`.
pub fn unescape_range(chars: &Vec<char>, lo: usize, hi: usize) -> (r: String)
    requires
        lo <= hi <= chars.len(),
    ensures
        r@ == unescape(chars@.subrange(lo as int, hi as int)),
{
    let mut res = String::new();
    let mut i = lo;
    while i < hi
        invariant
            lo <= i <= hi <= chars.len(),
            res@ + unescape(chars@.subrange(i as int, hi as int)) == unescape(chars@.subrange(lo as int, hi as int)),
        decreases hi - i,
    {
        let ghost rest = chars@.subrange(i as int, hi as int);
        if chars[i] == '\\' {
            if i + 1 == hi {
                push_char(&mut res, '\\');
                assert(rest.len() == 1);
                assert(unescape(rest) == seq!['\\']);
                i = i + 1;
                assert(chars@.subrange(i as int, hi as int) =~= Seq::<char>::empty());
                assert(res@ + unescape(chars@.subrange(i as int, hi as int)) =~= res@);
            } else {
                let c = chars[i + 1];
                push_escape(&mut res, c);
                assert(rest.skip(2) =~= chars@.subrange(i + 2, hi as int));
                i = i + 2;
            }
        } else {
            push_char(&mut res, chars[i]);
            assert(rest.skip(1) =~= chars@.subrange(i + 1, hi as int));
            i = i + 1;
        }
    }
    assert(chars@.subrange(i as int, hi as int) =~= Seq::<char>::empty());
    assert(res@ + Seq::<char>::empty() =~= res@);
    res
}

/// Processes the escapes of a string literal body: `\n`, `\t`, `\r`, `\\`,
/// `\"` and `\'` stand for one character each; any other escaped character
/// is kept with its backslash, and a trailing backslash is kept as is.
pub fn process_string_escapes(s: &str) -> (r: String)
    ensures
        r@ == unescape(s@),
{
    let chars = str_chars(s);
    let r = unescape_range(&chars, 0, chars.len());
    assert(chars@.subrange(0, chars@.len() as int) =~= s@);
    r
}

/// The characters of a string slice.
pub fn str_chars(s: &str) -> (v: Vec<char>)
    ensures
        v@ == s@,
{
    let n = s.unicode_len();
    let mut v: Vec<char> = Vec::new();
    let mut i: usize = 0;
    while i < n
        invariant
            n == s@.len(),
            i <= n,
            v@ == s@.subrange(0, i as int),
        decreases n - i,
    {
        v.push(s.get_char(i));
        i = i + 1;
        assert(v@ =~= s@.subrange(0, i as int));
    }
    assert(v@ =~= s@);
    v
}

/// The number of bytes that the UTF-8 encoding of a character takes.
pub open spec fn utf8_len(c: char) -> nat {
    if (c as u32) < 0x80 { 1 } else if (c as u32) < 0x800 { 2 } else if (c as u32) < 0x10000 { 3 } else { 4 }
}

pub fn char_utf8_len(c: char) -> (n: usize)
    ensures
        n == utf8_len(c),
{
    let u = c as u32;
    if u < 0x80 { 1 } else if u < 0x800 { 2 } else if u < 0x10000 { 3 } else { 4 }
}

/// The byte offset at which the character with index `i` starts.
pub open spec fn byte_offset(s: Seq<char>, i: int) -> nat
    decreases i,
{
    if i <= 0 { 0 } else { byte_offset(s, i - 1) + utf8_len(s[i - 1]) }
}

pub(crate) proof fn lemma_byte_offset_mono(s: Seq<char>, i: int, j: int)
    requires
        0 <= i <= j,
    ensures
        byte_offset(s, i) <= byte_offset(s, j),
        byte_offset(s, j) <= byte_offset(s, i) + 4 * (j - i),
    decreases j - i,
{
    if i < j {
        lemma_byte_offset_mono(s, i, j - 1);
    }
}

/// Tokens that stand for the layout of lines or for an error rather than
/// for a piece of text.
pub open spec fn is_layout(t: Token) -> bool {
    t is Indent || t is Dedent || t is Error
}

/// Whether the byte span `sp` of `src` covers a piece of text that the
/// token stands for.
pub open spec fn spans_text(src: Seq<char>, t: Token, sp: Span) -> bool {
    exists|a: int, b: int|
        0 <= a <= b <= src.len() && sp.start == byte_offset(src, a) && sp.end == byte_offset(src, b)
            && #[trigger] denotes(t, src.subrange(a, b))
}

/// What one raw scan step found.
enum Scanned {
    Tok(Token),
    Invalid,
    End,
}

/// The number of `Indent` tokens minus the number of `Dedent` tokens.
pub open spec fn block_balance(q: Seq<(Token, Span)>) -> int
    decreases q.len(),
{
    if q.len() == 0 {
        0
    } else {
        (if q[0].0 is Indent { 1int } else if q[0].0 is Dedent { -1int } else { 0int })
            + block_balance(q.drop_first())
    }
}

/// Appending a token adds its own part to the balance.
pub proof fn lemma_block_balance_push(q: Seq<(Token, Span)>, t: (Token, Span))
    ensures
        block_balance(q.push(t)) == block_balance(q)
            + (if t.0 is Indent { 1int } else if t.0 is Dedent { -1int } else { 0int }),
    decreases q.len(),
{
    let qt = q.push(t);
    if q.len() == 0 {
        assert(qt[0] == t);
        assert(qt.drop_first() =~= Seq::<(Token, Span)>::empty());
        assert(block_balance(qt.drop_first()) == 0);
    } else {
        assert(qt[0] == q[0]);
        assert(qt.drop_first() =~= q.drop_first().push(t));
        lemma_block_balance_push(q.drop_first(), t);
        assert(block_balance(qt) == (if q[0].0 is Indent { 1int } else if q[0].0 is Dedent { -1int } else { 0int })
            + block_balance(qt.drop_first()));
    }
}

/// Lexicographic order on triples of naturals.
pub open spec fn lex_lt(a1: nat, a2: nat, a3: nat, b1: nat, b2: nat, b3: nat) -> bool {
    a1 < b1 || (a1 == b1 && (a2 < b2 || (a2 == b2 && a3 < b3)))
}

pub struct Lexer {
    chars: Vec<char>,
    offsets: Vec<usize>,
    pos: usize,
    last_end: usize,
    token_queue: VecDeque<(Token, Span)>,
    indent_stack: Vec<usize>,
    at_start_of_line: bool,
    indents_out: Ghost<int>,
    dedents_out: Ghost<int>,
}

impl Lexer {
    /// The source characters.
    pub closed spec fn source(&self) -> Seq<char> {
        self.chars@
    }

    /// The byte length of the source.
    pub closed spec fn byte_len(&self) -> nat {
        byte_offset(self.chars@, self.chars@.len() as int)
    }

    /// How many `Indent` tokens have been handed out so far.
    pub closed spec fn indents_emitted(&self) -> int {
        self.indents_out@
    }

    /// How many `Dedent` tokens have been handed out so far.
    pub closed spec fn dedents_emitted(&self) -> int {
        self.dedents_out@
    }

    /// The widths of the currently open indentation levels, outermost first.
    pub closed spec fn levels(&self) -> Seq<usize> {
        self.indent_stack@
    }

    /// Whether the lexer has read all of its source, has no token queued and
    /// has closed every block: all it has left to give is `Eof`.
    pub closed spec fn exhausted(&self) -> bool {
        &&& self.pos == self.chars.len()
        &&& self.token_queue@.len() == 0
        &&& self.indent_stack@ == seq![0usize]
    }

    /// Characters not yet scanned.
    pub closed spec fn measure_chars(&self) -> nat {
        (self.chars@.len() - self.pos) as nat
    }

    /// Whether the indentation of the current line is still to be handled.
    pub closed spec fn measure_line(&self) -> nat {
        if self.at_start_of_line { 1 } else { 0 }
    }

    /// Queued tokens and open indentation levels.
    pub closed spec fn measure_queue(&self) -> nat {
        self.token_queue@.len() + 2 * self.indent_stack@.len()
    }

    pub closed spec fn wf(&self) -> bool {
        &&& self.offsets.len() == self.chars.len() + 1
        &&& forall|i: int| 0 <= i <= self.chars.len() ==> #[trigger] self.offsets@[i] == byte_offset(self.chars@, i)
        &&& self.byte_len() <= usize::MAX
        &&& self.last_end <= self.pos <= self.chars.len()
        &&& self.indent_stack.len() >= 1
        &&& self.indent_stack@[0] == 0
        &&& forall|i: int, j: int| 0 <= i < j < self.indent_stack.len() ==> self.indent_stack@[i] < self.indent_stack@[j]
        &&& forall|k: int| 0 <= k < self.token_queue@.len() ==> (#[trigger] self.token_queue@[k]).1.start <= self.token_queue@[k].1.end
            && self.token_queue@[k].1.end <= self.byte_len() && is_layout(self.token_queue@[k].0)
        &&& self.indent_stack.len() - 1 == self.indents_out@ - self.dedents_out@ + block_balance(self.token_queue@)
    }

    /// A lexer positioned at the start of `source`.
    pub fn new(source: &str) -> (r: Self)
        requires
            source@.len() <= usize::MAX / 4,
        ensures
            r.wf(),
            r.source() == source@,
            r.indents_emitted() == 0,
            r.dedents_emitted() == 0,
            r.levels() == seq![0usize],
    {
        let chars = str_chars(source);
        let n = chars.len();
        let mut offsets: Vec<usize> = Vec::new();
        offsets.push(0);
        let mut i: usize = 0;
        let mut acc: usize = 0;
        while i < n
            invariant
                n == chars.len(),
                n <= usize::MAX / 4,
                i <= n,
                offsets.len() == i + 1,
                acc == byte_offset(chars@, i as int),
                acc <= 4 * i,
                forall|k: int| 0 <= k <= i ==> #[trigger] offsets@[k] == byte_offset(chars@, k),
            decreases n - i,
        {
            let w = char_utf8_len(chars[i]);
            acc = acc + w;
            offsets.push(acc);
            i = i + 1;
        }
        proof {
            lemma_byte_offset_mono(chars@, 0, n as int);
        }
        let r = Lexer {
            chars,
            offsets,
            pos: 0,
            last_end: 0,
            token_queue: VecDeque::new(),
            indent_stack: vec![0],
            at_start_of_line: true,
            indents_out: Ghost(0),
            dedents_out: Ghost(0),
        };
        assert(r.token_queue@ =~= Seq::<(Token, Span)>::empty());
        assert(r.indent_stack@ =~= seq![0usize]);
        r
    }

    /// The next token.
    pub fn next_token(&mut self) -> (t: Token)
        requires
            old(self).wf(),
        ensures
            final(self).wf(),
            final(self).source() == old(self).source(),
            t is Eof ==> final(self).indents_emitted() == final(self).dedents_emitted()
                && final(self).levels() == seq![0usize],
            final(self).indents_emitted() == old(self).indents_emitted() + (if t is Indent { 1int } else { 0int }),
            final(self).dedents_emitted() == old(self).dedents_emitted() + (if t is Dedent { 1int } else { 0int }),
            !(t is Eof) ==> lex_lt(final(self).measure_chars(), final(self).measure_line(), final(self).measure_queue(),
                old(self).measure_chars(), old(self).measure_line(), old(self).measure_queue()),
            t is Eof ==> final(self).exhausted(),
            old(self).exhausted() ==> t is Eof && final(self).exhausted(),
            !is_layout(t) && !(t is Eof) ==> exists|s: Span| s.start <= s.end <= final(self).byte_len()
                && #[trigger] spans_text(final(self).source(), t, s),
    {
        let (tok, sp) = self.next_token_with_span();
        proof {
            if !is_layout(tok) && !(tok is Eof) {
                assert(spans_text(self.source(), tok, sp));
            }
        }
        tok
    }

    fn queue_push(&mut self, t: Token, s: Span)
        requires
            s.start <= s.end <= old(self).byte_len(),
            is_layout(t),
            old(self).offsets.len() == old(self).chars.len() + 1,
            forall|k: int| 0 <= k < old(self).token_queue@.len() ==> (#[trigger] old(self).token_queue@[k]).1.start <= old(self).token_queue@[k].1.end
                && old(self).token_queue@[k].1.end <= old(self).byte_len() && is_layout(old(self).token_queue@[k].0),
        ensures
            final(self).chars == old(self).chars,
            final(self).offsets == old(self).offsets,
            final(self).pos == old(self).pos,
            final(self).last_end == old(self).last_end,
            final(self).indent_stack == old(self).indent_stack,
            final(self).at_start_of_line == old(self).at_start_of_line,
            final(self).indents_out == old(self).indents_out,
            final(self).dedents_out == old(self).dedents_out,
            final(self).token_queue@ == old(self).token_queue@.push((t, s)),
            block_balance(final(self).token_queue@) == block_balance(old(self).token_queue@)
                + (if t is Indent { 1int } else if t is Dedent { -1int } else { 0int }),
            forall|k: int| 0 <= k < final(self).token_queue@.len() ==> (#[trigger] final(self).token_queue@[k]).1.start <= final(self).token_queue@[k].1.end
                && final(self).token_queue@[k].1.end <= final(self).byte_len() && is_layout(final(self).token_queue@[k].0),
    {
        proof { lemma_block_balance_push(self.token_queue@, (t, s)); }
        self.token_queue.push_back((t, s));
    }

    fn queue_pop(&mut self) -> (r: Option<(Token, Span)>)
        requires
            old(self).wf(),
        ensures
            final(self).wf(),
            final(self).chars == old(self).chars,
            final(self).pos == old(self).pos,
            final(self).indent_stack == old(self).indent_stack,
            final(self).at_start_of_line == old(self).at_start_of_line,
            old(self).token_queue@.len() == 0 <==> r is None,
            r is None ==> final(self).token_queue@ == old(self).token_queue@
                && final(self).indents_out == old(self).indents_out
                && final(self).dedents_out == old(self).dedents_out,
            r is Some ==> final(self).token_queue@.len() == old(self).token_queue@.len() - 1,
            r matches Some(p) ==> final(self).indents_out@ == old(self).indents_out@ + (if p.0 is Indent { 1int } else { 0int })
                && final(self).dedents_out@ == old(self).dedents_out@ + (if p.0 is Dedent { 1int } else { 0int }),
            r matches Some(p) ==> p.1.start <= p.1.end && p.1.end <= final(self).byte_len() && is_layout(p.0),
    {
        match self.token_queue.pop_front() {
            Some(p) => {
                assert(old(self).token_queue@[0] == p);
                assert(self.token_queue@ =~= old(self).token_queue@.drop_first());
                if matches!(p.0, Token::Indent) {
                    self.indents_out = Ghost(self.indents_out@ + 1);
                } else if matches!(p.0, Token::Dedent) {
                    self.dedents_out = Ghost(self.dedents_out@ + 1);
                }
                assert forall|k: int| 0 <= k < self.token_queue@.len() implies (#[trigger] self.token_queue@[k]).1.start <= self.token_queue@[k].1.end
                    && self.token_queue@[k].1.end <= self.byte_len() && is_layout(self.token_queue@[k].0) by {
                    assert(self.token_queue@[k] == old(self).token_queue@[k + 1]);
                }
                Some(p)
            },
            None => None,
        }
    }

    fn byte_at(&self, i: usize) -> (b: usize)
        requires
            self.wf(),
            i <= self.chars.len(),
        ensures
            b == byte_offset(self.chars@, i as int),
            b <= self.byte_len(),
    {
        proof { lemma_byte_offset_mono(self.chars@, i as int, self.chars@.len() as int); }
        self.offsets[i]
    }

    /// The next token together with its byte span.
    pub fn next_token_with_span(&mut self) -> (r: (Token, Span))
        requires
            old(self).wf(),
        ensures
            final(self).wf(),
            final(self).source() == old(self).source(),
            r.1.start <= r.1.end <= final(self).byte_len(),
            !is_layout(r.0) && !(r.0 is Eof) ==> spans_text(final(self).source(), r.0, r.1),
            final(self).indents_emitted() == old(self).indents_emitted() + (if r.0 is Indent { 1int } else { 0int }),
            final(self).dedents_emitted() == old(self).dedents_emitted() + (if r.0 is Dedent { 1int } else { 0int }),
            r.0 is Eof ==> final(self).indents_emitted() == final(self).dedents_emitted()
                && final(self).levels() == seq![0usize],
            !(r.0 is Eof) ==> lex_lt(final(self).measure_chars(), final(self).measure_line(), final(self).measure_queue(),
                old(self).measure_chars(), old(self).measure_line(), old(self).measure_queue()),
            r.0 is Eof ==> final(self).exhausted(),
            old(self).exhausted() ==> r.0 is Eof && final(self).exhausted(),
    {
        if let Some(p) = self.queue_pop() {
            return p;
        }
        if self.at_start_of_line {
            self.handle_indentation();
            if let Some(p) = self.queue_pop() {
                return p;
            }
        }
        let (kind, start, end) = scan(&self.chars, self.pos);
        let bs = self.byte_at(start);
        let be = self.byte_at(end);
        proof { lemma_byte_offset_mono(self.chars@, start as int, end as int); }
        match kind {
            Scanned::Tok(tok) => {
                proof {
                    assert(denotes(tok, self.chars@.subrange(start as int, end as int)));
                }
                self.pos = end;
                self.last_end = end;
                if matches!(tok, Token::Newline) {
                    self.at_start_of_line = true;
                }
                (tok, Span { start: bs, end: be })
            },
            Scanned::Invalid => {
                self.pos = end;
                self.last_end = end;
                let msg = invalid_token_message(&self.chars, start, end);
                let sp = Span { start: bs, end: be };
                (Token::Error(msg, sp), sp)
            },
            Scanned::End => {
                self.pos = self.chars.len();
                let eof = self.byte_at(self.chars.len());
                let ghost s0 = self.indent_stack@.len();
                let ghost at0 = self.at_start_of_line;
                assert(self.token_queue@.len() == 0);
                while self.indent_stack.len() > 1
                    invariant
                        self.wf(),
                        self.chars@ == old(self).chars@,
                        eof == self.byte_len(),
                        self.pos == self.chars.len(),
                        self.at_start_of_line == at0,
                        self.token_queue@.len() + self.indent_stack@.len() == s0,
                        self.indents_out == old(self).indents_out,
                        self.dedents_out == old(self).dedents_out,
                    decreases self.indent_stack.len(),
                {
                    self.indent_stack.pop();
                    self.queue_push(Token::Dedent, Span { start: eof, end: eof });
                }
                match self.queue_pop() {
                    Some(p) => p,
                    None => {
                        assert(block_balance(self.token_queue@) == 0);
                        assert(self.indent_stack@ =~= seq![0usize]);
                        (Token::Eof, Span { start: eof, end: eof })
                    },
                }
            },
        }
    }

    /// Handles the leading spaces of a logical line: queues `Indent`,
    /// `Dedent` or error tokens as the width changes.
    fn handle_indentation(&mut self)
        requires
            old(self).wf(),
            old(self).at_start_of_line,
            old(self).token_queue@.len() == 0,
        ensures
            final(self).wf(),
            final(self).chars@ == old(self).chars@,
            final(self).pos >= old(self).pos,
            final(self).at_start_of_line ==> final(self).token_queue@.len() == 0
                && final(self).indent_stack@ == old(self).indent_stack@,
            final(self).indents_out == old(self).indents_out,
            final(self).dedents_out == old(self).dedents_out,
            final(self).pos == old(self).pos + run_spaces(old(self).chars@, old(self).pos as int),
            final(self).at_start_of_line == blank_rest(old(self).chars@, final(self).pos as int),
            !final(self).at_start_of_line ==> final(self).indent_stack@
                == indent_after(old(self).indent_stack@, run_spaces(old(self).chars@, old(self).pos as int) as int),
            old(self).pos == old(self).chars@.len() && old(self).indent_stack@ == seq![0usize]
                ==> final(self).token_queue@.len() == 0 && final(self).indent_stack@ == seq![0usize],
    {
        let line_start = self.last_end;
        let ls_byte = self.byte_at(line_start);
        let cur = self.pos;
        let cur_byte = self.byte_at(cur);
        proof { lemma_byte_offset_mono(self.chars@, line_start as int, cur as int); }
        let n = self.chars.len();
        let mut current_indent: usize = 0;
        let mut j = cur;
        while j < n && (self.chars[j] == ' ' || self.chars[j] == '\t')
            invariant
                self.wf(),
                self.chars@ == old(self).chars@,
                self.pos == cur,
                self.last_end == line_start,
                self.at_start_of_line == old(self).at_start_of_line,
                self.indent_stack == old(self).indent_stack,
                self.indents_out == old(self).indents_out,
                self.dedents_out == old(self).dedents_out,
                n == self.chars.len(),
                cur <= j <= n,
                current_indent <= j - cur,
                ls_byte <= cur_byte,
                cur_byte == byte_offset(self.chars@, cur as int),
                forall|k: int| cur <= k < j ==> (#[trigger] self.chars@[k] == ' ' || self.chars@[k] == '\t'),
                byte_offset(self.chars@, j as int) == cur_byte + (j - cur),
                current_indent + self.token_queue@.len() == j - cur,
                current_indent + run_spaces(self.chars@, j as int) == run_spaces(self.chars@, cur as int),
            decreases n - j,
        {
            proof {
                lemma_byte_offset_mono(self.chars@, j as int + 1, n as int);
                assert(byte_offset(self.chars@, j as int + 1) == byte_offset(self.chars@, j as int) + 1);
            }
            if self.chars[j] == ' ' {
                current_indent = current_indent + 1;
            } else {
                let st = ls_byte + current_indent;
                let msg = tabs_message();
                self.queue_push(Token::Error(msg, Span { start: st, end: st + 1 }), Span { start: st, end: st + 1 });
            }
            j = j + 1;
        }
        proof { lemma_byte_offset_mono(self.chars@, j as int, n as int); }
        // Advance past the counted spaces.
        let new_pos = cur + current_indent;
        self.pos = new_pos;
        let ind_end = ls_byte + current_indent;
        let indent_span = Span { start: ls_byte, end: ind_end };
        if new_pos < n {
            let ch = self.chars[new_pos];
            if ch == '\n' || ch == '\r' || ch == '#' {
                self.at_start_of_line = true;
                return;
            }
        }
        self.at_start_of_line = false;
        let last_indent = self.indent_stack[self.indent_stack.len() - 1];
        if current_indent == last_indent {
        } else if current_indent > last_indent {
            if last_indent > usize::MAX - 2 || current_indent != last_indent + 2 {
                let msg = invalid_indent_message(last_indent, current_indent);
                self.queue_push(Token::Error(msg, indent_span), indent_span);
            } else {
                self.indent_stack.push(current_indent);
                self.queue_push(Token::Indent, indent_span);
            }
        } else {
            while current_indent < self.indent_stack[self.indent_stack.len() - 1]
                invariant
                    self.wf(),
                    self.chars@ == old(self).chars@,
                    self.pos == new_pos,
                    new_pos >= old(self).pos,
                    !self.at_start_of_line,
                    indent_span.start <= indent_span.end <= self.byte_len(),
                    self.indents_out == old(self).indents_out,
                    self.dedents_out == old(self).dedents_out,
                    current_indent == run_spaces(old(self).chars@, old(self).pos as int),
                    current_indent < old(self).indent_stack@.last(),
                    dedent_to(self.indent_stack@, current_indent as int)
                        == dedent_to(old(self).indent_stack@, current_indent as int),
                ensures
                    self.indent_stack@.len() == 1 || current_indent >= self.indent_stack@.last(),
                decreases self.indent_stack.len(),
            {
                if self.indent_stack.len() == 1 {
                    break;
                }
                self.indent_stack.pop();
                self.queue_push(Token::Dedent, indent_span);
            }
            if current_indent != self.indent_stack[self.indent_stack.len() - 1] {
                let msg = dedent_message();
                self.queue_push(Token::Error(msg, indent_span), indent_span);
            }
        }
    }
}

/// The spaces in the run of spaces and tabs that starts at `j`.
pub open spec fn run_spaces(chars: Seq<char>, j: int) -> nat
    decreases chars.len() - j,
{
    if 0 <= j < chars.len() && (chars[j] == ' ' || chars[j] == '\t') {
        (if chars[j] == ' ' { 1nat } else { 0nat }) + run_spaces(chars, j + 1)
    } else {
        0
    }
}

/// The indentation stack with its entries above `c` taken off, keeping the
/// first.
pub open spec fn dedent_to(stack: Seq<usize>, c: int) -> Seq<usize>
    decreases stack.len(),
{
    if stack.len() > 1 && c < stack.last() { dedent_to(stack.drop_last(), c) } else { stack }
}

/// The indentation stack after a line indented by `c` spaces: one level more
/// (two spaces) opens a level, less closes levels down to it, anything else
/// leaves it as it is.
pub open spec fn indent_after(stack: Seq<usize>, c: int) -> Seq<usize> {
    if c > stack.last() {
        if stack.last() <= usize::MAX - 2 && c == stack.last() + 2 { stack.push(c as usize) } else { stack }
    } else {
        dedent_to(stack, c)
    }
}

/// Whether the text at `p` leaves a line blank (its end or a comment).
pub open spec fn blank_rest(chars: Seq<char>, p: int) -> bool {
    p < chars.len() && (chars[p] == '\n' || chars[p] == '\r' || chars[p] == '#')
}

fn tabs_message() -> (s: String)
    ensures
        s@ == "Tabs are not allowed for indentation."@,
{
    "Tabs are not allowed for indentation.".to_owned()
}

fn dedent_message() -> (s: String)
    ensures
        s@ == "Invalid dedentation."@,
{
    "Invalid dedentation.".to_owned()
}

fn invalid_indent_message(last: usize, got: usize) -> (s: String)
    requires
        last <= usize::MAX - 2,
    ensures
        s@ == "Invalid indentation: expected "@ + crate::text::decimal_digits((last + 2) as nat) + " spaces, but got "@
            + crate::text::decimal_digits(got as nat) + seq!['.'],
{
    let mut s = "Invalid indentation: expected ".to_owned();
    let a = crate::text::u64_to_string((last + 2) as u64);
    s.append(a.as_str());
    s.append(" spaces, but got ");
    let b = crate::text::u64_to_string(got as u64);
    s.append(b.as_str());
    push_char(&mut s, '.');
    assert(s@ =~= "Invalid indentation: expected "@ + crate::text::decimal_digits((last + 2) as nat) + " spaces, but got "@
            + crate::text::decimal_digits(got as nat) + seq!['.']);
    s
}

fn invalid_token_message(chars: &Vec<char>, start: usize, end: usize) -> (s: String)
    requires
        start <= end <= chars.len(),
    ensures
        s@ == "Invalid token '"@ + chars@.subrange(start as int, end as int) + seq!['\''],
{
    let mut s = "Invalid token '".to_owned();
    let ghost head = s@;
    let mut i = start;
    while i < end
        invariant
            start <= i <= end <= chars.len(),
            s@ == head + chars@.subrange(start as int, i as int),
        decreases end - i,
    {
        push_char(&mut s, chars[i]);
        i = i + 1;
        assert(s@ =~= head + chars@.subrange(start as int, i as int));
    }
    push_char(&mut s, '\'');
    s
}

fn slice_string(chars: &Vec<char>, start: usize, end: usize) -> (s: String)
    requires
        start <= end <= chars.len(),
    ensures
        s@ == chars@.subrange(start as int, end as int),
{
    let mut s = String::new();
    let mut i = start;
    while i < end
        invariant
            start <= i <= end <= chars.len(),
            s@ == chars@.subrange(start as int, i as int),
        decreases end - i,
    {
        push_char(&mut s, chars[i]);
        i = i + 1;
        assert(s@ =~= chars@.subrange(start as int, i as int));
    }
    s
}

fn is_digit(c: char) -> (r: bool)
    ensures
        r == is_ascii_digit(c),
{
    let u = c as u32;
    48 <= u && u <= 57
}

/// The word's keyword token, if it is a reserved word.
fn keyword_of(w: &str) -> (r: Option<Token>)
    ensures
        r == keyword_token(w@),
{
    if str_eq(w, "if") { Some(Token::If) }
    else if str_eq(w, "elif") { Some(Token::Elif) }
    else if str_eq(w, "else") { Some(Token::Else) }
    else if str_eq(w, "while") { Some(Token::While) }
    else if str_eq(w, "for") { Some(Token::For) }
    else if str_eq(w, "in") { Some(Token::In) }
    else if str_eq(w, "def") { Some(Token::Def) }
    else if str_eq(w, "return") { Some(Token::Return) }
    else if str_eq(w, "and") { Some(Token::And) }
    else if str_eq(w, "or") { Some(Token::Or) }
    else if str_eq(w, "not") { Some(Token::Not) }
    else if str_eq(w, "class") { Some(Token::Class) }
    else if str_eq(w, "break") { Some(Token::Break) }
    else if str_eq(w, "continue") { Some(Token::Continue) }
    else if str_eq(w, "pass") { Some(Token::Pass) }
    else if str_eq(w, "lambda") { Some(Token::Lambda) }
    else if str_eq(w, "None") { Some(Token::NoneKw) }
    else if str_eq(w, "True") { Some(Token::Bool(true)) }
    else if str_eq(w, "False") { Some(Token::Bool(false)) }
    else { None }
}

/// The value of a run of decimal digits.
pub open spec fn digits_value(s: Seq<char>) -> nat
    decreases s.len(),
{
    if s.len() == 0 { 0 } else { digits_value(s.drop_last()) * 10 + ((s.last() as u32) - 48) as nat }
}

/// Parses `chars[start..end]`, all decimal digits, as an `i64`.
fn parse_digits(chars: &Vec<char>, start: usize, end: usize) -> (r: Option<i64>)
    requires
        start <= end <= chars.len(),
        forall|k: int| start <= k < end ==> is_ascii_digit(#[trigger] chars@[k]),
    ensures
        r matches Some(v) ==> v as int == digits_value(chars@.subrange(start as int, end as int)),
        r is None ==> digits_value(chars@.subrange(start as int, end as int)) > i64::MAX,
{
    let mut acc: i64 = 0;
    let mut i = start;
    while i < end
        invariant
            start <= i <= end <= chars.len(),
            forall|k: int| start <= k < end ==> is_ascii_digit(#[trigger] chars@[k]),
            acc >= 0,
            acc as int == digits_value(chars@.subrange(start as int, i as int)),
        decreases end - i,
    {
        let d = (chars[i] as u32 - 48) as i64;
        assert(chars@.subrange(start as int, i + 1).drop_last() =~= chars@.subrange(start as int, i as int));
        match acc.checked_mul(10) {
            Some(m) => match m.checked_add(d) {
                Some(v) => {
                    acc = v;
                },
                None => {
                    proof { lemma_digits_grow(chars@, start as int, i as int + 1, end as int); }
                    return None;
                },
            },
            None => {
                proof { lemma_digits_grow(chars@, start as int, i as int + 1, end as int); }
                return None;
            },
        }
        i = i + 1;
    }
    Some(acc)
}

proof fn lemma_digits_grow(s: Seq<char>, start: int, i: int, end: int)
    requires
        0 <= start <= i <= end <= s.len(),
        forall|k: int| start <= k < end ==> is_ascii_digit(#[trigger] s[k]),
    ensures
        digits_value(s.subrange(start, i)) <= digits_value(s.subrange(start, end)),
    decreases end - i,
{
    if i < end {
        lemma_digits_grow(s, start, i + 1, end);
        assert(s.subrange(start, i + 1).drop_last() =~= s.subrange(start, i));
    }
}

/// The tokens written with operator and punctuation characters.
pub open spec fn is_punct(t: Token) -> bool {
    t is Plus || t is Minus || t is Star || t is SlashSlash || t is Slash || t is Percent
        || t is EqualEqual || t is NotEqual || t is Less || t is LessEqual || t is Greater
        || t is GreaterEqual || t is Equal || t is LParen || t is RParen || t is LBracket
        || t is RBracket || t is LBrace || t is RBrace || t is Colon || t is Comma
        || t is Semicolon || t is Dot
}

/// Whether a character starts a name or a keyword: `_`, an ASCII letter, or
/// a character past ASCII with the property XID_Start.
pub open spec fn word_start(c: char) -> bool {
    c == '_' || is_ascii_letter(c) || ((c as u32) >= 128 && xid_start_spec(c))
}

/// The characters that a one-character punctuation token is written with.
pub open spec fn punct_char(c: char) -> bool {
    c == '+' || c == '-' || c == '*' || c == '/' || c == '%' || c == '<' || c == '>' || c == '='
        || c == '(' || c == ')' || c == '[' || c == ']' || c == '{' || c == '}' || c == ':'
        || c == ',' || c == ';' || c == '.'
}

/// The texts of the punctuation tokens: one punctuation character, or one
/// of `//`, `==`, `!=`, `<=`, `>=`.
proof fn lemma_punct_texts()
    ensures
        forall|t: Token, text: Seq<char>| is_punct(t) && #[trigger] denotes(t, text) ==> {
            ||| text.len() == 1 && punct_char(text[0])
            ||| text.len() == 2 && ((text[0] == '/' && text[1] == '/')
                || (text[1] == '=' && (text[0] == '=' || text[0] == '!' || text[0] == '<' || text[0] == '>')))
        },
{
}

/// Scans one raw token starting at `pos`, after skipping blanks and comments.
/// Returns what was found and its character range.
fn scan(chars: &Vec<char>, pos: usize) -> (r: (Scanned, usize, usize))
    requires
        pos <= chars.len(),
    ensures
        pos <= r.1 <= r.2 <= chars.len(),
        r.0 is End ==> r.1 == chars.len() && r.2 == chars.len(),
        !(r.0 is End) ==> r.1 < r.2,
        r.0 matches Scanned::Tok(t) ==> !(t is Eof),
        r.0 matches Scanned::Tok(t) ==> denotes(t, chars@.subrange(r.1 as int, r.2 as int)),
        forall|t: Token, k: int| #![trigger denotes(t, chars@.subrange(r.1 as int, r.1 + k))]
            is_punct(t) && 0 < k && r.1 + k <= chars.len() && denotes(t, chars@.subrange(r.1 as int, r.1 + k))
            ==> (r.0 matches Scanned::Tok(u) && is_punct(u) && r.2 - r.1 >= k),
        r.1 < chars.len() && is_ascii_digit(chars@[r.1 as int]) ==> ({
            &&& (r.0 is Invalid || r.0 matches Scanned::Tok(Token::Int(_)) || r.0 matches Scanned::Tok(Token::Float(_)))
            &&& (r.2 == chars.len() || !is_ascii_digit(chars@[r.2 as int]))
        }),
        r.1 < chars.len() && word_start(chars@[r.1 as int]) ==> ({
            &&& r.0 matches Scanned::Tok(u) && (u is Identifier || keyword_token(chars@.subrange(r.1 as int, r.2 as int)) == Some(u))
            &&& forall|k: int| r.1 < k < r.2 ==> xid_continue_spec(#[trigger] chars@[k])
            &&& (r.2 == chars.len() || !xid_continue_spec(chars@[r.2 as int]))
        }),
{
    proof { lemma_punct_texts(); }
    let n = chars.len();
    let mut i = pos;
    // Skip blanks and comments.
    loop
        invariant
            pos <= i <= n,
            n == chars.len(),
        ensures
            pos <= i < n,
        decreases n - i,
    {
        if i >= n {
            proof { lemma_punct_texts(); }
            return (Scanned::End, n, n);
        }
        let c = chars[i];
        if c == ' ' || c == '\t' || c == '\r' {
            i = i + 1;
        } else if c == '#' {
            let ghost i0 = i;
            i = i + 1;
            while i < n && chars[i] != '\n'
                invariant
                    pos <= i <= n,
                    i0 < i,
                    n == chars.len(),
                decreases n - i,
            {
                i = i + 1;
            }
        } else {
            break;
        }
    }
    let start = i;
    let c = chars[i];
    proof { lemma_punct_texts(); }
    if c == '\n' {
        assert(chars@.subrange(start as int, start + 1) =~= seq!['\n']);
        return (Scanned::Tok(Token::Newline), start, start + 1);
    }
    if is_digit(c) {
        let mut j = i + 1;
        while j < n && is_digit(chars[j])
            invariant
                start < j <= n,
                n == chars.len(),
                forall|k: int| start <= k < j ==> is_ascii_digit(#[trigger] chars@[k]),
            decreases n - j,
        {
            j = j + 1;
        }
        // A fraction makes it a float literal.
        if j < n && j + 1 < n && chars[j] == '.' && is_digit(chars[j + 1]) {
            let mut k = j + 2;
            while k < n && is_digit(chars[k])
                invariant
                    j + 2 <= k <= n,
                    n == chars.len(),
                decreases n - k,
            {
                k = k + 1;
            }
            // Optional exponent.
            if k < n && (chars[k] == 'e' || chars[k] == 'E') {
                let mut e = k + 1;
                if e < n && (chars[e] == '+' || chars[e] == '-') {
                    e = e + 1;
                }
                if e < n && is_digit(chars[e]) {
                    let mut f = e + 1;
                    while f < n && is_digit(chars[f])
                        invariant
                            e < f <= n,
                            n == chars.len(),
                        decreases n - f,
                    {
                        f = f + 1;
                    }
                    return (Scanned::Tok(Token::Float(slice_string(chars, start, f))), start, f);
                }
            }
            return (Scanned::Tok(Token::Float(slice_string(chars, start, k))), start, k);
        }
        return match parse_digits(chars, start, j) {
            Some(v) => {
                proof {
                    let text = chars@.subrange(start as int, j as int);
                    assert forall|k: int| 0 <= k < text.len() implies is_ascii_digit(#[trigger] text[k]) by {
                        assert(text[k] == chars@[start + k]);
                    }
                }
                (Scanned::Tok(Token::Int(v)), start, j)
            },
            None => (Scanned::Invalid, start, j),
        };
    }
    if c == '"' || c == '\'' {
        let mut j = i + 1;
        while j < n && chars[j] != c
            invariant
                start < j <= n,
                n == chars.len(),
            decreases n - j,
        {
            if chars[j] == '\\' && j + 1 < n {
                j = j + 2;
            } else {
                j = j + 1;
            }
        }
        if j < n {
            let body = unescape_range(chars, start + 1, j);
            proof {
                let text = chars@.subrange(start as int, j + 1);
                assert(text[0] == c);
                assert(text.last() == chars@[j as int]);
                assert(text.subrange(1, text.len() - 1) =~= chars@.subrange(start + 1, j as int));
            }
            return (Scanned::Tok(Token::String(body)), start, j + 1);
        } else {
            return (Scanned::Invalid, start, n);
        }
    }
    let next = if i + 1 < n { chars[i + 1] } else { ' ' };
    if c == '/' && next == '/' {
        assert(chars@.subrange(start as int, start + 2) =~= seq![c, next]);
        return (Scanned::Tok(Token::SlashSlash), start, start + 2);
    }
    if c == '=' && next == '=' {
        assert(chars@.subrange(start as int, start + 2) =~= seq![c, next]);
        return (Scanned::Tok(Token::EqualEqual), start, start + 2);
    }
    if c == '!' && next == '=' {
        assert(chars@.subrange(start as int, start + 2) =~= seq![c, next]);
        return (Scanned::Tok(Token::NotEqual), start, start + 2);
    }
    if c == '<' && next == '=' {
        assert(chars@.subrange(start as int, start + 2) =~= seq![c, next]);
        return (Scanned::Tok(Token::LessEqual), start, start + 2);
    }
    if c == '>' && next == '=' {
        assert(chars@.subrange(start as int, start + 2) =~= seq![c, next]);
        return (Scanned::Tok(Token::GreaterEqual), start, start + 2);
    }
    let t = if c == '+' { Some(Token::Plus) }
        else if c == '-' { Some(Token::Minus) }
        else if c == '*' { Some(Token::Star) }
        else if c == '/' { Some(Token::Slash) }
        else if c == '%' { Some(Token::Percent) }
        else if c == '<' { Some(Token::Less) }
        else if c == '>' { Some(Token::Greater) }
        else if c == '=' { Some(Token::Equal) }
        else if c == '(' { Some(Token::LParen) }
        else if c == ')' { Some(Token::RParen) }
        else if c == '[' { Some(Token::LBracket) }
        else if c == ']' { Some(Token::RBracket) }
        else if c == '{' { Some(Token::LBrace) }
        else if c == '}' { Some(Token::RBrace) }
        else if c == ':' { Some(Token::Colon) }
        else if c == ',' { Some(Token::Comma) }
        else if c == ';' { Some(Token::Semicolon) }
        else if c == '.' { Some(Token::Dot) }
        else { None };
    match t {
        Some(t) => {
            assert(chars@.subrange(start as int, start + 1) =~= seq![c]);
            return (Scanned::Tok(t), start, start + 1);
        },
        None => {},
    }
    if c == '_' || is_xid_start(c) {
        let mut j = i + 1;
        while j < n && is_xid_continue(chars[j])
            invariant
                start < j <= n,
                n == chars.len(),
                forall|k: int| start < k < j ==> xid_continue_spec(#[trigger] chars@[k]),
            decreases n - j,
        {
            j = j + 1;
        }
        let word = slice_string(chars, start, j);
        return match keyword_of(word.as_str()) {
            Some(t) => (Scanned::Tok(t), start, j),
            None => (Scanned::Tok(Token::Identifier(word)), start, j),
        };
    }
    (Scanned::Invalid, start, start + 1)
}

fn literal_string(s: &str) -> (r: String)
    ensures
        r@ == s@,
{
    s.to_owned()
}

/// How a token is shown in messages: keywords and operators as written,
/// literals and names by their text, layout tokens by a bracketed name.
pub open spec fn token_text(t: Token) -> Seq<char> {
    match t {
        Token::If => "if"@,
        Token::Elif => "elif"@,
        Token::Else => "else"@,
        Token::While => "while"@,
        Token::For => "for"@,
        Token::In => "in"@,
        Token::Def => "def"@,
        Token::Return => "return"@,
        Token::And => "and"@,
        Token::Or => "or"@,
        Token::Not => "not"@,
        Token::Class => "class"@,
        Token::Break => "break"@,
        Token::Continue => "continue"@,
        Token::Pass => "pass"@,
        Token::Lambda => "lambda"@,
        Token::NoneKw => "None"@,
        Token::Bool(true) => "True"@,
        Token::Bool(false) => "False"@,
        Token::Plus => "+"@,
        Token::Minus => "-"@,
        Token::Star => "*"@,
        Token::SlashSlash => "//"@,
        Token::Slash => "/"@,
        Token::Percent => "%"@,
        Token::EqualEqual => "=="@,
        Token::NotEqual => "!="@,
        Token::Less => "<"@,
        Token::LessEqual => "<="@,
        Token::Greater => ">"@,
        Token::GreaterEqual => ">="@,
        Token::Equal => "="@,
        Token::LParen => "("@,
        Token::RParen => ")"@,
        Token::LBracket => "["@,
        Token::RBracket => "]"@,
        Token::LBrace => "{"@,
        Token::RBrace => "}"@,
        Token::Colon => ":"@,
        Token::Comma => ","@,
        Token::Semicolon => ";"@,
        Token::Dot => "."@,
        Token::Indent => "<INDENT>"@,
        Token::Dedent => "<DEDENT>"@,
        Token::Newline => "\\n"@,
        Token::Eof => "<EOF>"@,
        Token::Int(i) => int_text(i as int),
        Token::String(v) => "\""@ + v@ + seq!['"'],
        Token::Identifier(n) => n@,
        Token::Float(f) => f@,
        Token::Error(m, _) => "<ERROR: "@ + m@ + seq!['>'],
    }
}

impl Token {
    /// How the token is shown in messages.
    pub fn text(&self) -> (s: String)
        ensures
            s@ == token_text(*self),
    {
        match self {
            Token::If => literal_string("if"),
            Token::Elif => literal_string("elif"),
            Token::Else => literal_string("else"),
            Token::While => literal_string("while"),
            Token::For => literal_string("for"),
            Token::In => literal_string("in"),
            Token::Def => literal_string("def"),
            Token::Return => literal_string("return"),
            Token::And => literal_string("and"),
            Token::Or => literal_string("or"),
            Token::Not => literal_string("not"),
            Token::Class => literal_string("class"),
            Token::Break => literal_string("break"),
            Token::Continue => literal_string("continue"),
            Token::Pass => literal_string("pass"),
            Token::Lambda => literal_string("lambda"),
            Token::NoneKw => literal_string("None"),
            Token::Bool(true) => literal_string("True"),
            Token::Bool(false) => literal_string("False"),
            Token::Int(i) => crate::text::i64_to_string(*i),
            Token::String(v) => {
                let mut s = literal_string("\"");
                s.append(v.as_str());
                push_char(&mut s, '"');
                s
            },
            Token::Identifier(n) => n.clone(),
            Token::Float(f) => f.clone(),
            Token::Plus => literal_string("+"),
            Token::Minus => literal_string("-"),
            Token::Star => literal_string("*"),
            Token::SlashSlash => literal_string("//"),
            Token::Slash => literal_string("/"),
            Token::Percent => literal_string("%"),
            Token::EqualEqual => literal_string("=="),
            Token::NotEqual => literal_string("!="),
            Token::Less => literal_string("<"),
            Token::LessEqual => literal_string("<="),
            Token::Greater => literal_string(">"),
            Token::GreaterEqual => literal_string(">="),
            Token::Equal => literal_string("="),
            Token::LParen => literal_string("("),
            Token::RParen => literal_string(")"),
            Token::LBracket => literal_string("["),
            Token::RBracket => literal_string("]"),
            Token::LBrace => literal_string("{"),
            Token::RBrace => literal_string("}"),
            Token::Colon => literal_string(":"),
            Token::Comma => literal_string(","),
            Token::Semicolon => literal_string(";"),
            Token::Dot => literal_string("."),
            Token::Indent => literal_string("<INDENT>"),
            Token::Dedent => literal_string("<DEDENT>"),
            Token::Newline => literal_string("\\n"),
            Token::Eof => literal_string("<EOF>"),
            Token::Error(m, _) => {
                let mut s = literal_string("<ERROR: ");
                s.append(m.as_str());
                push_char(&mut s, '>');
                s
            },
        }
    }
}

} // verus!
