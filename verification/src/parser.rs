//! Splitting a command line into arguments, with single quotes, double
//! quotes and backslash escapes.
//!
//! The parser is a character-at-a-time state machine. Its state is modelled
//! by [`ParserView`], one character's effect by [`step`], and a whole line by
//! [`parse_outcome`]; every method's contract is stated over these.
use vstd::prelude::*;
use crate::text::{is_whitespace, is_ws, push_char, trim, trimmed_chars, views};

verus! {

/// The quoting context the parser is in.
#[derive(Clone, Copy, Debug, PartialEq, Eq, Structural)]
pub enum ParserState {
    SingleQuote,
    NoQuote,
    DoubleQuote,
}

struct CharState {
    is_escaped: bool,
    was_escaped: bool,
}

/// Splits command lines into arguments.
pub struct Parser {
    current_arg: String,
    args: Vec<String>,
    previous_char: Option<char>,
    current_state: ParserState,
    current_char_state: CharState,
}

/// The abstract state of a [`Parser`].
pub struct ParserView {
    /// The argument being built.
    pub current_arg: Seq<char>,
    /// The arguments finished so far.
    pub args: Seq<Seq<char>>,
    /// The character seen last, escaped or not.
    pub previous_char: Option<char>,
    pub state: ParserState,
    /// A backslash was read: the next character is escaped.
    pub is_escaped: bool,
    /// The character seen last was escaped.
    pub was_escaped: bool,
}

impl View for Parser {
    type V = ParserView;

    closed spec fn view(&self) -> ParserView {
        ParserView {
            current_arg: self.current_arg@,
            args: views(self.args@),
            previous_char: self.previous_char,
            state: self.current_state,
            is_escaped: self.current_char_state.is_escaped,
            was_escaped: self.current_char_state.was_escaped,
        }
    }
}

/// A quote character, single or double.
pub open spec fn is_quote(c: char) -> bool {
    c == '\'' || c == '"'
}

/// The state of a fresh parser.
pub open spec fn initial_parser() -> ParserView {
    ParserView {
        current_arg: Seq::empty(),
        args: Seq::empty(),
        previous_char: None,
        state: ParserState::NoQuote,
        is_escaped: false,
        was_escaped: false,
    }
}

/// `c` appended to the argument being built.
pub open spec fn push_current(p: ParserView, c: char) -> ParserView {
    ParserView { current_arg: p.current_arg.push(c), ..p }
}

/// The argument being built, if non-empty, moved to the finished ones.
pub open spec fn add_current(p: ParserView) -> ParserView {
    if p.current_arg.len() > 0 {
        ParserView { args: p.args.push(p.current_arg), current_arg: Seq::empty(), ..p }
    } else {
        p
    }
}

/// The last finished argument (or nothing) taken back as the argument being
/// built; what was being built is dropped.
pub open spec fn reopen_last(p: ParserView) -> ParserView {
    if p.args.len() > 0 {
        ParserView { current_arg: p.args.last(), args: p.args.drop_last(), ..p }
    } else {
        ParserView { current_arg: Seq::empty(), ..p }
    }
}

/// A closing quote: the argument being built is finished, even when empty.
pub open spec fn close_quote(p: ParserView) -> ParserView {
    ParserView {
        args: p.args.push(p.current_arg),
        current_arg: Seq::empty(),
        state: ParserState::NoQuote,
        ..p
    }
}

/// In unquoted text right after a closing quote, the quoted argument is
/// reopened so that what follows is glued to it. An escaped quote is an
/// ordinary character and glues nothing.
pub open spec fn glue_after_quote(p: ParserView) -> ParserView {
    match p.previous_char {
        Some(prev) => if p.state == ParserState::NoQuote && is_quote(prev) && !p.was_escaped {
            reopen_last(p)
        } else {
            p
        },
        None => p,
    }
}

/// A backslash that is not itself escaped: literal inside single quotes,
/// else it escapes the next character.
pub open spec fn on_backslash(p: ParserView) -> ParserView {
    match p.state {
        ParserState::SingleQuote => push_current(p, '\\'),
        ParserState::DoubleQuote => ParserView { is_escaped: true, ..p },
        ParserState::NoQuote => ParserView { is_escaped: true, ..glue_after_quote(p) },
    }
}

/// The characters a backslash escapes inside double quotes.
pub open spec fn escapable_in_double_quotes(c: char) -> bool {
    c == '\\' || c == '"' || c == '$' || c == '`' || c == '\n'
}

/// An escaped character: taken literally; inside double quotes a backslash
/// before a character it does not escape is kept.
pub open spec fn on_escaped(p: ParserView, c: char) -> ParserView {
    let q = ParserView { is_escaped: false, ..p };
    if p.state == ParserState::DoubleQuote && !escapable_in_double_quotes(c) {
        push_current(push_current(q, '\\'), c)
    } else {
        push_current(q, c)
    }
}

/// A whitespace character that is not escaped.
pub open spec fn on_whitespace(p: ParserView, c: char) -> ParserView {
    if p.state == ParserState::NoQuote {
        add_current(p)
    } else {
        push_current(p, c)
    }
}

/// Any other character that is not escaped.
pub open spec fn on_normal(p: ParserView, c: char) -> ParserView {
    push_current(glue_after_quote(p), c)
}

/// A single quote that is not escaped.
pub open spec fn on_single_quote(p: ParserView) -> ParserView {
    match p.previous_char {
        None => ParserView { current_arg: Seq::empty(), state: ParserState::SingleQuote, ..p },
        Some(_) => match p.state {
            ParserState::NoQuote => ParserView {
                state: ParserState::SingleQuote,
                ..glue_after_quote(p)
            },
            ParserState::DoubleQuote => push_current(p, '\''),
            ParserState::SingleQuote => close_quote(p),
        },
    }
}

/// A double quote that is not escaped.
pub open spec fn on_double_quote(p: ParserView) -> ParserView {
    match p.previous_char {
        None => ParserView { current_arg: Seq::empty(), state: ParserState::DoubleQuote, ..p },
        Some(_) => match p.state {
            ParserState::NoQuote => ParserView {
                state: ParserState::DoubleQuote,
                ..glue_after_quote(p)
            },
            ParserState::SingleQuote => push_current(p, '"'),
            ParserState::DoubleQuote => close_quote(p),
        },
    }
}

/// The effect of one input character.
pub open spec fn step(p: ParserView, c: char) -> ParserView {
    let q = if p.is_escaped {
        on_escaped(p, c)
    } else if c == '\\' {
        on_backslash(p)
    } else if c == '\'' {
        on_single_quote(p)
    } else if c == '"' {
        on_double_quote(p)
    } else if is_ws(c) {
        on_whitespace(p, c)
    } else {
        on_normal(p, c)
    };
    ParserView { previous_char: Some(c), was_escaped: p.is_escaped, ..q }
}

/// The effect of a sequence of characters.
pub open spec fn run(p: ParserView, cs: Seq<char>) -> ParserView
    decreases cs.len(),
{
    if cs.len() == 0 {
        p
    } else {
        step(run(p, cs.drop_last()), cs.last())
    }
}

/// The state after parsing `input`: its trimmed characters are run through
/// the machine and the last argument is finished.
pub open spec fn parse_outcome(p: ParserView, input: Seq<char>) -> ParserView {
    add_current(run(p, trim(input)))
}

/// The arguments a fresh parser makes of `input`.
pub open spec fn parse_line(input: Seq<char>) -> Seq<Seq<char>> {
    parse_outcome(initial_parser(), input).args
}

proof fn lemma_views_push(v: Seq<String>, s: String)
    ensures
        views(v.push(s)) == views(v).push(s@),
{
    assert(views(v.push(s)) =~= views(v).push(s@));
}

proof fn lemma_views_drop_last(v: Seq<String>)
    requires
        v.len() > 0,
    ensures
        views(v.drop_last()) == views(v).drop_last(),
        views(v).last() == v.last()@,
{
    assert(views(v.drop_last()) =~= views(v).drop_last());
}

impl Parser {
    /// A parser with no input seen.
    pub fn new() -> (p: Self)
        ensures
            p@ == initial_parser(),
    {
        let p = Parser {
            current_arg: String::new(),
            args: Vec::new(),
            previous_char: None,
            current_state: ParserState::NoQuote,
            current_char_state: CharState { is_escaped: false, was_escaped: false },
        };
        assert(views(p.args@) =~= Seq::<Seq<char>>::empty());
        p
    }

    /// Splits `input` into arguments: surrounding whitespace is ignored,
    /// whitespace outside quotes separates arguments, quotes group text
    /// (pieces written next to each other form one argument), and a
    /// backslash takes the next character literally, except inside single
    /// quotes, where it is an ordinary character, and inside double quotes,
    /// where it escapes only `\`, `"`, `$`, a backquote and a newline.
    /// Returns every argument this parser has finished, the new ones last.
    pub fn parse_arg_string(&mut self, input: &str) -> (r: Vec<String>)
        ensures
            final(self)@ == parse_outcome(old(self)@, input@),
            views(r@) == final(self)@.args,
    {
        let trimmed = trimmed_chars(input);
        let mut i: usize = 0;
        while i < trimmed.len()
            invariant
                i <= trimmed.len(),
                trimmed@ == trim(input@),
                self@ == run(old(self)@, trimmed@.take(i as int)),
            decreases trimmed.len() - i,
        {
            let c = trimmed[i];
            let escaped = self.current_char_state.is_escaped;
            if escaped {
                self.parse_escaped_char(c);
            } else if c == '\\' {
                self.parse_escape_char();
            } else if c == '\'' {
                self.parse_single_quote();
            } else if c == '"' {
                self.parse_double_quote();
            } else if is_whitespace(c) {
                self.parse_whitespace(&c);
            } else {
                self.parse_normal_char(&c);
            }
            self.previous_char = Some(c);
            self.current_char_state.was_escaped = escaped;
            assert(trimmed@.take(i + 1).drop_last() =~= trimmed@.take(i as int));
            i = i + 1;
        }
        assert(trimmed@.take(trimmed.len() as int) =~= trimmed@);
        self.add_current_arg();
        let r = self.clone_args();
        r
    }

    fn clone_args(&self) -> (r: Vec<String>)
        ensures
            r@ == self.args@,
    {
        let mut r: Vec<String> = Vec::new();
        let mut i: usize = 0;
        while i < self.args.len()
            invariant
                i <= self.args.len(),
                r@ == self.args@.take(i as int),
            decreases self.args.len() - i,
        {
            r.push(self.args[i].clone());
            assert(r@ =~= self.args@.take(i + 1));
            i = i + 1;
        }
        assert(self.args@.take(self.args.len() as int) =~= self.args@);
        r
    }

    fn add_current_arg(&mut self)
        ensures
            final(self)@ == add_current(old(self)@),
    {
        if !self.current_arg.as_str().is_empty() {
            let finished = self.current_arg.clone();
            self.args.push(finished);
            self.current_arg = String::new();
            proof {
                lemma_views_push(old(self).args@, old(self).current_arg);
            }
        }
    }

    /// If an argument needs to be concatenated, for example 'test'test2, the
    /// argument 'test' has already been finished and is taken back so that
    /// test2 is glued to it.
    fn concat_arg(&mut self)
        ensures
            final(self)@ == reopen_last(old(self)@),
    {
        match self.args.pop() {
            Some(last) => {
                proof {
                    lemma_views_drop_last(old(self).args@);
                }
                self.current_arg = last;
            },
            None => {
                self.current_arg = String::new();
            },
        }
    }

    fn parse_escape_char(&mut self)
        ensures
            final(self)@ == on_backslash(old(self)@),
    {
        match self.current_state {
            ParserState::SingleQuote => {
                push_char(&mut self.current_arg, '\\');
            },
            ParserState::DoubleQuote => {
                self.current_char_state.is_escaped = true;
            },
            ParserState::NoQuote => {
                self.glue_to_quoted();
                self.current_char_state.is_escaped = true;
            },
        }
    }

    fn parse_escaped_char(&mut self, c: char)
        ensures
            final(self)@ == on_escaped(old(self)@, c),
    {
        self.current_char_state.is_escaped = false;
        if self.current_state == ParserState::DoubleQuote && !(c == '\\' || c == '"' || c == '$'
            || c == '`' || c == '\n') {
            push_char(&mut self.current_arg, '\\');
        }
        push_char(&mut self.current_arg, c);
    }

    fn parse_whitespace(&mut self, current: &char)
        ensures
            final(self)@ == on_whitespace(old(self)@, *current),
    {
        match self.current_state {
            ParserState::NoQuote => {
                self.add_current_arg();
                self.current_state = ParserState::NoQuote;
            },
            _ => {
                push_char(&mut self.current_arg, *current);
            },
        }
    }

    fn glue_to_quoted(&mut self)
        ensures
            final(self)@ == glue_after_quote(old(self)@),
    {
        if let Some(prev) = self.previous_char {
            if self.current_state == ParserState::NoQuote && (prev == '\'' || prev == '"')
                && !self.current_char_state.was_escaped {
                self.concat_arg();
            }
        }
    }

    fn parse_normal_char(&mut self, c: &char)
        ensures
            final(self)@ == on_normal(old(self)@, *c),
    {
        self.glue_to_quoted();
        push_char(&mut self.current_arg, *c);
    }

    fn close_quoted_arg(&mut self)
        ensures
            final(self)@ == close_quote(old(self)@),
    {
        let finished = self.current_arg.clone();
        self.args.push(finished);
        self.current_arg = String::new();
        self.current_state = ParserState::NoQuote;
        proof {
            lemma_views_push(old(self).args@, old(self).current_arg);
        }
    }

    fn parse_single_quote(&mut self)
        ensures
            final(self)@ == on_single_quote(old(self)@),
    {
        if self.previous_char.is_some() {
            match self.current_state {
                // echo banana'orange' -> bananaorange
                // echo 'banana''orange' -> bananaorange
                ParserState::NoQuote => {
                    self.glue_to_quoted();
                    self.current_state = ParserState::SingleQuote;
                },
                ParserState::DoubleQuote => {
                    push_char(&mut self.current_arg, '\'');
                },
                ParserState::SingleQuote => {
                    self.close_quoted_arg();
                },
            }
        } else {
            self.current_arg = String::new();
            self.current_state = ParserState::SingleQuote;
        }
    }

    fn parse_double_quote(&mut self)
        ensures
            final(self)@ == on_double_quote(old(self)@),
    {
        if self.previous_char.is_some() {
            match self.current_state {
                ParserState::NoQuote => {
                    self.glue_to_quoted();
                    self.current_state = ParserState::DoubleQuote;
                },
                ParserState::SingleQuote => {
                    push_char(&mut self.current_arg, '"');
                },
                ParserState::DoubleQuote => {
                    self.close_quoted_arg();
                },
            }
        } else {
            self.current_arg = String::new();
            self.current_state = ParserState::DoubleQuote;
        }
    }
}

} // verus!
