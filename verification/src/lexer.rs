use vstd::prelude::*;
use crate::token::{Float, Literal, LiteralView, Token, TokenView};
use crate::token_type::TokenType;

verus! {

/// `String::push`: the character is added at the end.
#[verifier::external_body]
fn push_char(s: &mut String, c: char)
    ensures
        final(s)@ == old(s)@.push(c),
{
    s.push(c)
}

/// The characters of a text.
pub fn chars_of(source: &str) -> (r: Vec<char>)
    ensures
        r@ == source@,
{
    let mut v: Vec<char> = Vec::new();
    for c in it: source.chars()
        invariant
            it.seq() == source@,
            v@ == it.seq().take(it.index() as int),
    {
        v.push(c);
        assert(it.seq().take(it.index() + 1) =~= it.seq().take(it.index() as int).push(c));
    }
    assert(v@ =~= source@);
    v
}

/// A decimal digit.
pub open spec fn is_digit(c: char) -> bool {
    '0' <= c <= '9'
}

/// A letter of the English alphabet or an underscore: what a name starts
/// with.
pub open spec fn is_alpha(c: char) -> bool {
    ('a' <= c <= 'z') || ('A' <= c <= 'Z') || c == '_'
}

/// What a name goes on with.
pub open spec fn is_word(c: char) -> bool {
    is_alpha(c) || is_digit(c)
}

/// A blank between tokens, other than a line feed.
pub open spec fn is_blank(c: char) -> bool {
    c == ' ' || c == '\t' || c == '\r'
}

/// The kinds of runs of characters that the lexer takes in one go.
#[derive(Debug, Clone, Copy, PartialEq, Eq, Structural)]
pub enum Run {
    /// Decimal digits.
    Digits,
    /// Letters, digits and underscores.
    Word,
    /// Everything up to a double quote.
    Quoted,
    /// Everything up to a line feed.
    Line,
}

/// The character belongs to a run of the kind.
pub open spec fn in_run(run: Run, c: char) -> bool {
    match run {
        Run::Digits => is_digit(c),
        Run::Word => is_word(c),
        Run::Quoted => c != '"',
        Run::Line => c != '\n',
    }
}

/// Where the run of the kind that starts at `from` ends: the first index from
/// there on that holds a character outside the run, or the text's end.
pub open spec fn run_end(src: Seq<char>, from: int, run: Run) -> int
    decreases src.len() - from,
{
    if from < 0 || from >= src.len() || !in_run(run, src[from]) {
        from
    } else {
        run_end(src, from + 1, run)
    }
}

/// Where the block comment whose body starts at `from` closes: the index of
/// the first `*` from there on that a `/` follows, or the text's end where
/// there is none.
pub open spec fn comment_close(src: Seq<char>, from: int) -> int
    decreases src.len() - from,
{
    if from < 0 || from + 1 >= src.len() {
        src.len() as int
    } else if src[from] == '*' && src[from + 1] == '/' {
        from
    } else {
        comment_close(src, from + 1)
    }
}

/// The number of line feeds in `src[from..to]`.
pub open spec fn line_feeds(src: Seq<char>, from: int, to: int) -> nat
    decreases to - from,
{
    if from < 0 || from >= to || to > src.len() {
        0
    } else {
        line_feeds(src, from, to - 1) + if src[to - 1] == '\n' {
            1nat
        } else {
            0nat
        }
    }
}

/// The number that a run of decimal digits denotes.
pub open spec fn digits_value(digits: Seq<char>) -> nat
    decreases digits.len(),
{
    if digits.len() == 0 {
        0
    } else {
        digits_value(digits.drop_last()) * 10 + (digits.last() as u32 - '0' as u32) as nat
    }
}

/// The kind of a word: a keyword's, or that of an identifier.
pub open spec fn word_kind(word: Seq<char>) -> TokenType {
    if word == "and"@ {
        TokenType::And
    } else if word == "class"@ {
        TokenType::Class
    } else if word == "else"@ {
        TokenType::Else
    } else if word == "false"@ {
        TokenType::False
    } else if word == "for"@ {
        TokenType::For
    } else if word == "if"@ {
        TokenType::If
    } else if word == "or"@ {
        TokenType::Or
    } else if word == "return"@ {
        TokenType::Return
    } else if word == "super"@ {
        TokenType::Super
    } else if word == "this"@ {
        TokenType::This
    } else if word == "true"@ {
        TokenType::True
    } else if word == "let"@ {
        TokenType::Let
    } else if word == "while"@ {
        TokenType::While
    } else if word == "def"@ {
        TokenType::Def
    } else if word == "print"@ {
        TokenType::Print
    } else if word == "None"@ {
        TokenType::Nil
    } else {
        TokenType::Identifier
    }
}

/// The kind of a token of one character, for the characters that are one.
pub open spec fn single_kind(c: char) -> Option<TokenType> {
    if c == '(' {
        Some(TokenType::LeftParen)
    } else if c == ')' {
        Some(TokenType::RightParen)
    } else if c == '{' {
        Some(TokenType::LeftBrace)
    } else if c == '}' {
        Some(TokenType::RightBrace)
    } else if c == '[' {
        Some(TokenType::LeftSqb)
    } else if c == ']' {
        Some(TokenType::RightSqb)
    } else if c == ',' {
        Some(TokenType::Comma)
    } else if c == '.' {
        Some(TokenType::Dot)
    } else if c == '-' {
        Some(TokenType::Minus)
    } else if c == '+' {
        Some(TokenType::Plus)
    } else if c == ';' {
        Some(TokenType::Semi)
    } else if c == ':' {
        Some(TokenType::Colon)
    } else if c == '%' {
        Some(TokenType::Rem)
    } else if c == '*' {
        Some(TokenType::Star)
    } else if c == '\n' {
        Some(TokenType::Newline)
    } else if is_blank(c) {
        Some(TokenType::Whitespace)
    } else {
        None
    }
}

/// The kinds of the tokens that start with the character and go on with `=`
/// or stand alone: with `=` first, alone second.
pub open spec fn pair_kind(c: char) -> Option<(TokenType, TokenType)> {
    if c == '!' {
        Some((TokenType::BangEqual, TokenType::Bang))
    } else if c == '=' {
        Some((TokenType::EqualEqual, TokenType::Equal))
    } else if c == '<' {
        Some((TokenType::LessEqual, TokenType::Less))
    } else if c == '>' {
        Some((TokenType::GreaterEqual, TokenType::Greater))
    } else {
        None
    }
}

/// One token as the lexer finds it: its kind, where it ends, and its payload.
pub struct Scanned {
    pub token_type: TokenType,
    pub end: int,
    pub literal: LiteralView,
}

/// The token that starts at `start`, which is an index into the text.
///
/// A number is a run of digits, and goes on with a dot and a second run of
/// digits where a digit follows the dot. A string runs to the next double
/// quote, a line comment to the end of the line, a block comment to the next
/// `*/`. A string or a block comment that does not close, a whole number
/// that does not fit in 64 bits and a character that starts no token are
/// error tokens, whose payload says what is wrong.
pub open spec fn scan(src: Seq<char>, start: int) -> Scanned {
    let c = src[start];
    let second = if start + 1 < src.len() {
        Some(src[start + 1])
    } else {
        None
    };
    if single_kind(c) is Some {
        Scanned { token_type: single_kind(c)->0, end: start + 1, literal: LiteralView::Nil }
    } else if pair_kind(c) is Some {
        let (with_equal, alone) = pair_kind(c)->0;
        if second == Some('=') {
            Scanned { token_type: with_equal, end: start + 2, literal: LiteralView::Nil }
        } else {
            Scanned { token_type: alone, end: start + 1, literal: LiteralView::Nil }
        }
    } else if c == '/' {
        if second == Some('/') {
            let end = run_end(src, start + 2, Run::Line);
            Scanned {
                token_type: TokenType::Comment,
                end,
                literal: LiteralView::Str(src.subrange(start, end)),
            }
        } else if second == Some('*') {
            let close = comment_close(src, start + 2);
            if close < src.len() {
                Scanned {
                    token_type: TokenType::Comment,
                    end: close + 2,
                    literal: LiteralView::Str(src.subrange(start, close + 2)),
                }
            } else {
                Scanned {
                    token_type: TokenType::Error,
                    end: src.len() as int,
                    literal: LiteralView::Str("Unterminated comment"@),
                }
            }
        } else {
            Scanned { token_type: TokenType::Slash, end: start + 1, literal: LiteralView::Nil }
        }
    } else if c == '"' {
        let close = run_end(src, start + 1, Run::Quoted);
        if close < src.len() {
            Scanned {
                token_type: TokenType::SoxString,
                end: close + 1,
                literal: LiteralView::Str(src.subrange(start + 1, close)),
            }
        } else {
            Scanned {
                token_type: TokenType::Error,
                end: src.len() as int,
                literal: LiteralView::Str("Unterminated string"@),
            }
        }
    } else if is_alpha(c) {
        let end = run_end(src, start, Run::Word);
        Scanned {
            token_type: word_kind(src.subrange(start, end)),
            end,
            literal: LiteralView::Nil,
        }
    } else if is_digit(c) {
        let whole = run_end(src, start, Run::Digits);
        if whole + 1 < src.len() && src[whole] == '.' && is_digit(src[whole + 1]) {
            let end = run_end(src, whole + 1, Run::Digits);
            Scanned {
                token_type: TokenType::Number,
                end,
                literal: LiteralView::Float(src.subrange(start, end)),
            }
        } else if digits_value(src.subrange(start, whole)) <= i64::MAX {
            Scanned {
                token_type: TokenType::Number,
                end: whole,
                literal: LiteralView::Integer(digits_value(src.subrange(start, whole)) as i64),
            }
        } else {
            Scanned {
                token_type: TokenType::Error,
                end: whole,
                literal: LiteralView::Str("Integer literal out of range"@),
            }
        }
    } else {
        Scanned {
            token_type: TokenType::Error,
            end: start + 1,
            literal: LiteralView::Str("Unexpected character"@),
        }
    }
}

/// The token starts a block comment, closed or not.
pub open spec fn opens_comment(src: Seq<char>, start: int) -> bool {
    start + 1 < src.len() && src[start] == '/' && src[start + 1] == '*'
}

/// By how much a token that starts at `start` raises the line number: a line
/// feed by one, a block comment by the line feeds in it, every other token
/// not at all.
pub open spec fn lines_in(src: Seq<char>, start: int) -> nat {
    if src[start] == '\n' {
        1
    } else if opens_comment(src, start) {
        line_feeds(src, start, scan(src, start).end)
    } else {
        0
    }
}

/// The line number of the token that starts at `start`, where the line number
/// before it is `line`: that line, and for a block comment the line it ends
/// on. A line number that does not fit in the machine's word stays at the
/// largest that does.
pub open spec fn line_of(src: Seq<char>, start: int, line: usize) -> usize {
    if opens_comment(src, start) {
        clamp(line + lines_in(src, start))
    } else {
        line
    }
}

/// A number as a machine word, or the largest word for a number beyond it.
pub open spec fn clamp(n: int) -> usize {
    if n > usize::MAX {
        usize::MAX
    } else {
        n as usize
    }
}

/// The token after `id` gets the next number, as long as there is one.
pub open spec fn next_id(id: u32) -> u32 {
    if id == u32::MAX {
        id
    } else {
        (id + 1) as u32
    }
}

/// The token that starts at `start`, where the line number before it is
/// `line`, numbered `id`.
pub open spec fn token_at(src: Seq<char>, start: int, line: usize, id: u32) -> TokenView {
    TokenView {
        token_type: scan(src, start).token_type,
        lexeme: src.subrange(start, scan(src, start).end),
        literal: scan(src, start).literal,
        line: line_of(src, start, line),
        id,
    }
}

/// The token that ends every token stream.
pub open spec fn end_token(line: usize, id: u32) -> TokenView {
    TokenView {
        token_type: TokenType::EOF,
        lexeme: Seq::<char>::empty(),
        literal: LiteralView::Nil,
        line,
        id,
    }
}

/// The tokens of `src[start..]`, without the end token, where the line number
/// before them is `line` and the first is numbered `id`.
pub open spec fn tokens_from(src: Seq<char>, start: int, line: usize, id: u32) -> Seq<TokenView>
    decreases src.len() - start,
{
    if start < 0 || start >= src.len() || scan(src, start).end <= start || scan(src, start).end
        > src.len() {
        Seq::<TokenView>::empty()
    } else {
        seq![token_at(src, start, line, id)] + tokens_from(
            src,
            scan(src, start).end,
            clamp(line + lines_in(src, start)),
            next_id(id),
        )
    }
}

/// The tokens of a text, without the end token: lines count from one, tokens
/// from zero.
pub open spec fn tokens_of(src: Seq<char>) -> Seq<TokenView> {
    tokens_from(src, 0, 1, 0)
}

/// A run ends at or after its start and within the text.
pub proof fn lemma_run_end(src: Seq<char>, from: int, run: Run)
    requires
        0 <= from <= src.len(),
    ensures
        from <= run_end(src, from, run) <= src.len(),
        forall|i: int| from <= i < run_end(src, from, run) ==> in_run(run, #[trigger] src[i]),
        run_end(src, from, run) < src.len() ==> !in_run(run, src[run_end(src, from, run)]),
    decreases src.len() - from,
{
    if from < src.len() && in_run(run, src[from]) {
        lemma_run_end(src, from + 1, run);
    }
}

/// A block comment closes at or after its body's start and within the text.
pub proof fn lemma_comment_close(src: Seq<char>, from: int)
    requires
        0 <= from <= src.len(),
    ensures
        from <= comment_close(src, from) <= src.len(),
        comment_close(src, from) < src.len() ==> comment_close(src, from) + 2 <= src.len(),
    decreases src.len() - from,
{
    if from + 1 < src.len() && !(src[from] == '*' && src[from + 1] == '/') {
        lemma_comment_close(src, from + 1);
    }
}

/// A token is not empty and ends within the text.
pub proof fn lemma_scan_bounds(src: Seq<char>, start: int)
    requires
        0 <= start < src.len(),
    ensures
        start < scan(src, start).end <= src.len(),
{
    if start + 2 <= src.len() {
        lemma_run_end(src, start + 2, Run::Line);
    }
    lemma_run_end(src, start + 1, Run::Quoted);
    lemma_run_end(src, start, Run::Word);
    lemma_run_end(src, start, Run::Digits);
    if start + 2 <= src.len() {
        lemma_comment_close(src, start + 2);
    }
    let whole = run_end(src, start, Run::Digits);
    if whole + 1 < src.len() {
        lemma_run_end(src, whole + 1, Run::Digits);
    }
}

/// The value of a run of digits does not shrink as the run grows.
pub proof fn lemma_digits_value_grows(digits: Seq<char>, shorter: int)
    requires
        0 <= shorter <= digits.len(),
        forall|i: int| 0 <= i < digits.len() ==> is_digit(#[trigger] digits[i]),
    ensures
        digits_value(digits.subrange(0, shorter)) <= digits_value(digits),
    decreases digits.len() - shorter,
{
    if shorter < digits.len() {
        let longer = digits.subrange(0, shorter + 1);
        assert(longer.drop_last() =~= digits.subrange(0, shorter));
        assert(digits_value(longer) >= digits_value(digits.subrange(0, shorter)));
        lemma_digits_value_grows(digits, shorter + 1);
    } else {
        assert(digits.subrange(0, shorter) =~= digits);
    }
}

/// The textual form of a token stream: the lexemes, one after the other.
pub open spec fn text_of(tokens: Seq<TokenView>) -> Seq<char>
    decreases tokens.len(),
{
    if tokens.len() == 0 {
        Seq::<char>::empty()
    } else {
        tokens[0].lexeme + text_of(tokens.drop_first())
    }
}

/// The kinds of the tokens of a stream.
pub open spec fn kinds_of(tokens: Seq<TokenView>) -> Seq<TokenType> {
    tokens.map_values(|t: TokenView| t.token_type)
}

/// The tokens tile the text: their lexemes, one after the other, are the
/// text from the first token's start on.
pub proof fn lemma_tokens_tile(src: Seq<char>, start: int, line: usize, id: u32)
    requires
        0 <= start <= src.len(),
    ensures
        text_of(tokens_from(src, start, line, id)) == src.subrange(start, src.len() as int),
    decreases src.len() - start,
{
    if start < src.len() {
        lemma_scan_bounds(src, start);
        let first = token_at(src, start, line, id);
        let end = scan(src, start).end;
        let rest = tokens_from(src, end, clamp(line + lines_in(src, start)), next_id(id));
        lemma_tokens_tile(src, end, clamp(line + lines_in(src, start)), next_id(id));
        assert((seq![first] + rest).drop_first() =~= rest);
        assert(src.subrange(start, end) + src.subrange(end, src.len() as int) =~= src.subrange(
            start,
            src.len() as int,
        ));
    } else {
        assert(src.subrange(start, src.len() as int) =~= Seq::<char>::empty());
    }
}

/// Lexing is idempotent: the textual form of the tokens of a text is the
/// text, so that lexing the textual form gives the same tokens again, and
/// with them the same kinds. Blanks, line feeds and comments are tokens and
/// belong to the textual form.
pub proof fn lemma_lexing_is_idempotent(src: Seq<char>)
    ensures
        text_of(tokens_of(src)) == src,
        tokens_of(text_of(tokens_of(src))) == tokens_of(src),
        kinds_of(tokens_of(text_of(tokens_of(src)))) == kinds_of(tokens_of(src)),
{
    lemma_tokens_tile(src, 0, 1, 0);
    assert(src.subrange(0, src.len() as int) =~= src);
}

/// What goes wrong in lexing.
#[derive(Debug)]
pub struct LexError {
    msg: String,
}

impl LexError {
    pub fn new(msg: String) -> (r: Self)
        ensures
            r.message() == msg@,
    {
        LexError { msg }
    }

    /// What went wrong.
    pub closed spec fn message(&self) -> Seq<char> {
        self.msg@
    }

    /// The error that an error token stands for; `None` for every other
    /// token.
    pub fn of(token: &Token) -> (r: Option<Self>)
        ensures
            match r {
                Some(e) => token.token_type == TokenType::Error && token.literal@
                    == LiteralView::Str(e.message()),
                None => !(token.token_type == TokenType::Error && token.literal is String),
            },
    {
        if token.token_type == TokenType::Error {
            match &token.literal {
                Literal::String(msg) => Some(LexError { msg: msg.clone() }),
                _ => None,
            }
        } else {
            None
        }
    }

    /// What went wrong.
    pub fn msg(&self) -> (r: &String)
        ensures
            r@ == self.message(),
    {
        &self.msg
    }
}

/// A lexer: a source text and a position in it.
///
/// `next` gives one token after the other: every character of the text
/// belongs to exactly one token, blanks and comments too. After the text's
/// last token comes the end token, and then nothing.
pub struct Lexer<'source> {
    source: &'source str,
    chars: Vec<char>,
    current: usize,
    line: usize,
    id: u32,
    done: bool,
}

impl<'source> Lexer<'source> {
    /// The source text.
    pub closed spec fn text(&self) -> Seq<char> {
        self.source@
    }

    /// The index of the character that the next token starts with.
    pub closed spec fn position(&self) -> int {
        self.current as int
    }

    /// The line number before the next token.
    pub closed spec fn line_number(&self) -> usize {
        self.line
    }

    /// The number of the next token.
    pub closed spec fn number(&self) -> u32 {
        self.id
    }

    /// The end token has been given.
    pub closed spec fn finished(&self) -> bool {
        self.done
    }

    /// The lexer holds the characters of its text, and its position is within
    /// the text.
    pub closed spec fn wf(&self) -> bool {
        &&& self.chars@ == self.source@
        &&& self.current <= self.chars@.len()
    }

    /// A lexer at the start of the text: line one, token zero.
    pub fn new(source: &'source str) -> (r: Self)
        ensures
            r.wf(),
            r.text() == source@,
            r.position() == 0,
            r.line_number() == 1,
            r.number() == 0,
            !r.finished(),
    {
        Lexer { source, chars: chars_of(source), current: 0, line: 1, id: 0, done: false }
    }

    /// A lexer at the start of the text, whose first token gets the number
    /// given: for a text that continues an earlier one.
    pub fn numbered_from(source: &'source str, first: u32) -> (r: Self)
        ensures
            r.wf(),
            r.text() == source@,
            r.position() == 0,
            r.line_number() == 1,
            r.number() == first,
            !r.finished(),
    {
        Lexer {
            source,
            chars: chars_of(source),
            current: 0,
            line: 1,
            id: first,
            done: false,
        }
    }

    /// The number of the next token.
    pub fn next_number(&self) -> (r: u32)
        ensures
            r == self.number(),
    {
        self.id
    }

    /// A lexer at the start of the text.
    pub fn lex(source: &'source str) -> (r: Self)
        ensures
            r.wf(),
            r.text() == source@,
            r.position() == 0,
            r.line_number() == 1,
            r.number() == 0,
            !r.finished(),
    {
        Lexer::new(source)
    }

    /// Steps over the next character, if it is the one expected.
    fn char_matches(&mut self, expected: char) -> (r: bool)
        requires
            old(self).wf(),
        ensures
            final(self).wf(),
            r == {
                &&& old(self).current < old(self).chars@.len()
                &&& old(self).chars@[old(self).current as int] == expected
            },
            final(self).current == old(self).current + if r {
                1int
            } else {
                0int
            },
            final(self).same_but_position(old(self)),
    {
        if self.current < self.chars.len() && self.chars[self.current] == expected {
            self.current += 1;
            true
        } else {
            false
        }
    }

    /// All but the position is as in `before`.
    closed spec fn same_but_position(&self, before: &Self) -> bool {
        &&& self.source == before.source
        &&& self.chars == before.chars
        &&& self.line == before.line
        &&& self.id == before.id
        &&& self.done == before.done
    }

    /// Steps over the run of the kind that starts at the position.
    fn take_while(&mut self, run: Run)
        requires
            old(self).wf(),
        ensures
            final(self).wf(),
            final(self).current == run_end(old(self).chars@, old(self).current as int, run),
            final(self).same_but_position(old(self)),
    {
        proof {
            lemma_run_end(self.chars@, self.current as int, run);
        }
        while self.current < self.chars.len() && belongs(run, self.chars[self.current])
            invariant
                self.wf(),
                self.same_but_position(old(self)),
                old(self).current <= self.current,
                run_end(old(self).chars@, old(self).current as int, run) == run_end(
                    self.chars@,
                    self.current as int,
                    run,
                ),
            decreases self.chars@.len() - self.current,
        {
            self.current += 1;
        }
    }

    /// The text from `from` to `to`.
    fn slice(&self, from: usize, to: usize) -> (r: String)
        requires
            from <= to <= self.chars@.len(),
        ensures
            r@ == self.chars@.subrange(from as int, to as int),
    {
        let mut s = String::new();
        let mut i = from;
        while i < to
            invariant
                from <= i <= to <= self.chars@.len(),
                s@ == self.chars@.subrange(from as int, i as int),
            decreases to - i,
        {
            push_char(&mut s, self.chars[i]);
            i += 1;
            assert(s@ =~= self.chars@.subrange(from as int, i as int));
        }
        assert(s@ =~= self.chars@.subrange(from as int, to as int));
        s
    }

    /// The number of line feeds from `from` to `to`.
    fn count_lines(&self, from: usize, to: usize) -> (r: usize)
        requires
            from <= to <= self.chars@.len(),
        ensures
            r == line_feeds(self.chars@, from as int, to as int),
    {
        let mut n: usize = 0;
        let mut i = from;
        while i < to
            invariant
                from <= i <= to <= self.chars@.len(),
                n == line_feeds(self.chars@, from as int, i as int),
                n <= i - from,
            decreases to - i,
        {
            if self.chars[i] == '\n' {
                n += 1;
            }
            i += 1;
        }
        n
    }

    /// The value of the digits from `from` to `to`, if it fits in 64 bits.
    fn whole_number(&self, from: usize, to: usize) -> (r: Option<i64>)
        requires
            from <= to <= self.chars@.len(),
            forall|i: int| from <= i < to ==> is_digit(#[trigger] self.chars@[i]),
        ensures
            match r {
                Some(v) => v == digits_value(self.chars@.subrange(from as int, to as int)),
                None => digits_value(self.chars@.subrange(from as int, to as int)) > i64::MAX,
            },
    {
        let ghost all = self.chars@.subrange(from as int, to as int);
        let mut acc: i64 = 0;
        let mut i = from;
        while i < to
            invariant
                from <= i <= to <= self.chars@.len(),
                all == self.chars@.subrange(from as int, to as int),
                forall|j: int| from <= j < to ==> is_digit(#[trigger] self.chars@[j]),
                acc == digits_value(self.chars@.subrange(from as int, i as int)),
                acc >= 0,
            decreases to - i,
        {
            let c = self.chars[i];
            let d: i64 = (c as u32 - '0' as u32) as i64;
            let ghost longer = self.chars@.subrange(from as int, i + 1);
            proof {
                assert(longer.drop_last() =~= self.chars@.subrange(from as int, i as int));
                assert(longer.last() == c);
                assert(longer =~= all.subrange(0, i + 1 - from));
                assert forall|j: int| 0 <= j < all.len() implies is_digit(#[trigger] all[j]) by {
                    assert(all[j] == self.chars@[from + j]);
                }
                lemma_digits_value_grows(all, i + 1 - from);
            }
            if acc > (i64::MAX - d) / 10 {
                assert(acc * 10 + d > i64::MAX) by (nonlinear_arith)
                    requires
                        acc > (i64::MAX - d) / 10,
                        0 <= d <= 9,
                ;
                return None;
            }
            assert(acc * 10 + d <= i64::MAX) by (nonlinear_arith)
                requires
                    acc <= (i64::MAX - d) / 10,
                    0 <= d <= 9,
                    acc >= 0,
            ;
            acc = acc * 10 + d;
            i += 1;
        }
        assert(self.chars@.subrange(from as int, i as int) =~= all);
        Some(acc)
    }

    /// What `next` gives and does. After the end token: nothing. At the end
    /// of the text: the end token. Else the token that starts at the
    /// position, and the position, the line number and the token number move
    /// past it.
    pub open spec fn follows(&self, before: &Self, r: Option<Token>) -> bool {
        let src = before.text();
        let at = before.position();
        &&& self.text() == src
        &&& if before.finished() {
            &&& r is None
            &&& self.finished()
            &&& self.position() == at
            &&& self.line_number() == before.line_number()
            &&& self.number() == before.number()
        } else if at >= src.len() {
            &&& r is Some
            &&& r->0@ == end_token(before.line_number(), before.number())
            &&& self.finished()
            &&& self.position() == at
            &&& self.line_number() == before.line_number()
            &&& self.number() == next_id(before.number())
        } else {
            &&& r is Some
            &&& r->0@ == token_at(src, at, before.line_number(), before.number())
            &&& !self.finished()
            &&& self.position() == scan(src, at).end
            &&& self.line_number() == clamp(before.line_number() + lines_in(src, at))
            &&& self.number() == next_id(before.number())
        }
    }

    /// The next token.
    pub fn next(&mut self) -> (r: Option<Token>)
        requires
            old(self).wf(),
        ensures
            final(self).wf(),
            final(self).follows(old(self), r),
    {
        if self.done {
            return None;
        }
        let id = self.id;
        self.id = if id == u32::MAX {
            id
        } else {
            id + 1
        };
        if self.current >= self.chars.len() {
            self.done = true;
            return Some(
                Token {
                    token_type: TokenType::EOF,
                    lexeme: String::new(),
                    literal: Literal::Nil,
                    line: self.line,
                    id,
                },
            );
        }
        let ghost src = self.chars@;
        let ghost at = self.current as int;
        proof {
            lemma_scan_bounds(src, at);
        }
        let start = self.current;
        let c = self.chars[start];
        assert(self.current < self.chars@.len());
        self.current += 1;
        let mut line = self.line;
        let mut literal = Literal::Nil;
        let mut kind = TokenType::Error;
        match single(c) {
            Some(k) => {
                kind = k;
                if c == '\n' {
                    self.line = if line == usize::MAX {
                        line
                    } else {
                        line + 1
                    };
                }
            },
            None => match pair(c) {
                Some((with_equal, alone)) => {
                    kind = if self.char_matches('=') {
                        with_equal
                    } else {
                        alone
                    };
                },
                None => {
                    if c == '/' {
                        if self.char_matches('/') {
                            self.take_while(Run::Line);
                            kind = TokenType::Comment;
                            literal = Literal::String(self.slice(start, self.current));
                        } else if self.char_matches('*') {
                            let close = self.find_close();
                            proof {
                                lemma_comment_close(src, at + 2);
                            }
                            if close < self.chars.len() {
                                self.current = close + 2;
                                kind = TokenType::Comment;
                                literal = Literal::String(self.slice(start, self.current));
                            } else {
                                self.current = self.chars.len();
                                literal = Literal::String(String::from_str("Unterminated comment"));
                            }
                            let feeds = self.count_lines(start, self.current);
                            line = if feeds > usize::MAX - line {
                                usize::MAX
                            } else {
                                line + feeds
                            };
                            self.line = line;
                        } else {
                            kind = TokenType::Slash;
                        }
                    } else if c == '"' {
                        self.take_while(Run::Quoted);
                        proof {
                            lemma_run_end(src, at + 1, Run::Quoted);
                        }
                        if self.current < self.chars.len() {
                            literal = Literal::String(self.slice(start + 1, self.current));
                            self.current += 1;
                            kind = TokenType::SoxString;
                        } else {
                            literal = Literal::String(String::from_str("Unterminated string"));
                        }
                    } else if alpha(c) {
                        self.current = start;
                        self.take_while(Run::Word);
                        proof {
                            lemma_run_end(src, at, Run::Word);
                        }
                        kind = keyword(&self.slice(start, self.current));
                    } else if digit(c) {
                        self.current = start;
                        self.take_while(Run::Digits);
                        proof {
                            lemma_run_end(src, at, Run::Digits);
                        }
                        let whole = self.current;
                        if whole < self.chars.len() && whole + 1 < self.chars.len()
                            && self.chars[whole] == '.' && digit(self.chars[whole + 1]) {
                            self.current = whole + 1;
                            self.take_while(Run::Digits);
                            proof {
                                lemma_run_end(src, whole + 1, Run::Digits);
                            }
                            kind = TokenType::Number;
                            literal = Literal::Float(Float(self.slice(start, self.current)));
                        } else {
                            match self.whole_number(start, whole) {
                                Some(v) => {
                                    kind = TokenType::Number;
                                    literal = Literal::Integer(v);
                                },
                                None => {
                                    literal = Literal::String(
                                        String::from_str("Integer literal out of range"),
                                    );
                                },
                            }
                        }
                    } else {
                        literal = Literal::String(String::from_str("Unexpected character"));
                    }
                },
            },
        }
        let lexeme = self.slice(start, self.current);
        Some(Token { token_type: kind, lexeme, literal, line, id })
    }

    /// Where the block comment whose body starts at the position closes.
    fn find_close(&self) -> (r: usize)
        requires
            self.wf(),
        ensures
            r == comment_close(self.chars@, self.current as int),
    {
        let mut i = self.current;
        proof {
            lemma_comment_close(self.chars@, i as int);
        }
        while i < self.chars.len() && i + 1 < self.chars.len() && !(self.chars[i] == '*'
            && self.chars[i + 1] == '/')
            invariant
                self.current <= i <= self.chars@.len(),
                comment_close(self.chars@, self.current as int) == comment_close(
                    self.chars@,
                    i as int,
                ),
            decreases self.chars@.len() - i,
        {
            i += 1;
        }
        if i < self.chars.len() && i + 1 < self.chars.len() {
            i
        } else {
            self.chars.len()
        }
    }

    /// All the tokens from the position on, without the end token.
    pub fn collect(self) -> (r: Vec<Token>)
        requires
            self.wf(),
            !self.finished(),
        ensures
            r@.map_values(|t: Token| t@) == tokens_from(
                self.text(),
                self.position(),
                self.line_number(),
                self.number(),
            ),
    {
        let mut lexer = self;
        let mut tokens: Vec<Token> = Vec::new();
        let ghost all = tokens_from(self.text(), self.position(), self.line_number(), self.number());
        loop
            invariant
                lexer.wf(),
                !lexer.finished(),
                lexer.text() == self.text(),
                lexer.position() <= lexer.text().len(),
                all == tokens_from(
                    self.text(),
                    self.position(),
                    self.line_number(),
                    self.number(),
                ),
                all == tokens.view().map_values(|t: Token| t@) + tokens_from(
                    lexer.text(),
                    lexer.position(),
                    lexer.line_number(),
                    lexer.number(),
                ),
            decreases lexer.text().len() - lexer.position(),
        {
            let ghost before = lexer;
            let ghost sofar = tokens@.map_values(|t: Token| t@);
            proof {
                if lexer.position() < lexer.text().len() {
                    lemma_scan_bounds(lexer.text(), lexer.position());
                }
            }
            match lexer.next() {
                Some(token) => {
                    if token.token_type == TokenType::EOF && lexer.done {
                        proof {
                            assert(all == sofar + tokens_from(
                                before.text(),
                                before.position(),
                                before.line_number(),
                                before.number(),
                            ));
                            assert(tokens@.map_values(|t: Token| t@) == sofar);
                            assert(before.position() >= before.text().len());
                            assert(tokens_from(
                                before.text(),
                                before.position(),
                                before.line_number(),
                                before.number(),
                            ) =~= Seq::<TokenView>::empty());
                            assert(sofar + Seq::<TokenView>::empty() =~= sofar);
                        }
                        return tokens;
                    }
                    tokens.push(token);
                    proof {
                        assert(tokens@.map_values(|t: Token| t@) =~= sofar.push(token@));
                        assert(sofar.push(token@) + tokens_from(
                            lexer.text(),
                            lexer.position(),
                            lexer.line_number(),
                            lexer.number(),
                        ) =~= sofar + (seq![token@] + tokens_from(
                            lexer.text(),
                            lexer.position(),
                            lexer.line_number(),
                            lexer.number(),
                        )));
                    }
                },
                None => {
                    return tokens;
                },
            }
        }
    }
}

/// Whether the character belongs to a run of the kind.
pub fn belongs(run: Run, c: char) -> (r: bool)
    ensures
        r == in_run(run, c),
{
    match run {
        Run::Digits => digit(c),
        Run::Word => alpha(c) || digit(c),
        Run::Quoted => c != '"',
        Run::Line => c != '\n',
    }
}

/// Whether the character is a decimal digit.
pub fn digit(c: char) -> (r: bool)
    ensures
        r == is_digit(c),
{
    '0' <= c && c <= '9'
}

/// Whether the character is a letter of the English alphabet or an
/// underscore.
pub fn alpha(c: char) -> (r: bool)
    ensures
        r == is_alpha(c),
{
    ('a' <= c && c <= 'z') || ('A' <= c && c <= 'Z') || c == '_'
}

/// The kind of a token of one character.
pub fn single(c: char) -> (r: Option<TokenType>)
    ensures
        r == single_kind(c),
{
    if c == '(' {
        Some(TokenType::LeftParen)
    } else if c == ')' {
        Some(TokenType::RightParen)
    } else if c == '{' {
        Some(TokenType::LeftBrace)
    } else if c == '}' {
        Some(TokenType::RightBrace)
    } else if c == '[' {
        Some(TokenType::LeftSqb)
    } else if c == ']' {
        Some(TokenType::RightSqb)
    } else if c == ',' {
        Some(TokenType::Comma)
    } else if c == '.' {
        Some(TokenType::Dot)
    } else if c == '-' {
        Some(TokenType::Minus)
    } else if c == '+' {
        Some(TokenType::Plus)
    } else if c == ';' {
        Some(TokenType::Semi)
    } else if c == ':' {
        Some(TokenType::Colon)
    } else if c == '%' {
        Some(TokenType::Rem)
    } else if c == '*' {
        Some(TokenType::Star)
    } else if c == '\n' {
        Some(TokenType::Newline)
    } else if c == ' ' || c == '\t' || c == '\r' {
        Some(TokenType::Whitespace)
    } else {
        None
    }
}

/// The kinds of the tokens that start with the character and go on with `=`
/// or stand alone.
pub fn pair(c: char) -> (r: Option<(TokenType, TokenType)>)
    ensures
        r == pair_kind(c),
{
    if c == '!' {
        Some((TokenType::BangEqual, TokenType::Bang))
    } else if c == '=' {
        Some((TokenType::EqualEqual, TokenType::Equal))
    } else if c == '<' {
        Some((TokenType::LessEqual, TokenType::Less))
    } else if c == '>' {
        Some((TokenType::GreaterEqual, TokenType::Greater))
    } else {
        None
    }
}

/// Whether a text is the literal.
fn is_text(word: &String, literal: &str) -> (r: bool)
    ensures
        r == (word@ == literal@),
{
    *word == String::from_str(literal)
}

/// The kind of a word: a keyword's, or that of an identifier.
pub fn keyword(word: &String) -> (r: TokenType)
    ensures
        r == word_kind(word@),
{
    if is_text(word, "and") {
        TokenType::And
    } else if is_text(word, "class") {
        TokenType::Class
    } else if is_text(word, "else") {
        TokenType::Else
    } else if is_text(word, "false") {
        TokenType::False
    } else if is_text(word, "for") {
        TokenType::For
    } else if is_text(word, "if") {
        TokenType::If
    } else if is_text(word, "or") {
        TokenType::Or
    } else if is_text(word, "return") {
        TokenType::Return
    } else if is_text(word, "super") {
        TokenType::Super
    } else if is_text(word, "this") {
        TokenType::This
    } else if is_text(word, "true") {
        TokenType::True
    } else if is_text(word, "let") {
        TokenType::Let
    } else if is_text(word, "while") {
        TokenType::While
    } else if is_text(word, "def") {
        TokenType::Def
    } else if is_text(word, "print") {
        TokenType::Print
    } else if is_text(word, "None") {
        TokenType::Nil
    } else {
        TokenType::Identifier
    }
}

} // verus!
