//! The compiler proper: a single-pass recursive-descent parser that emits
//! bytecode as it reads tokens.
//!
//! Diagnostics are collected as text; compilation fails exactly when one
//! was reported.

use vstd::prelude::*;
use vstd::string::StringSliceAdditionalSpecFns;

use crate::chunk::{
    chunk_refs_ok, constant_refs_ok, constants_extend, function_refs_ok, jump_lands, jumps_land_from,
    lemma_refs_ok_add_constant, operand_ok,
};
use crate::compiler::{Compiler, Local, LOCAL_MAX};
use crate::error::ArcError;
use crate::grammar::{
    arguments_at, expression_at, infix_at, more_arguments_at, next_cursor, operator_at, prefix_at,
    Compiled, Cursor,
};
use crate::instruction::Instruction;
use crate::parserule::{build_rules, is_rule_table, kind_index, lemma_rules_well_formed, rule_for, ParseFn, ParseRule};
use crate::precedence::Precedence;
use crate::scanner::{
    has_lexical_error, lemma_lexical_error_step, line_count_fits, token_end, token_kind, token_start,
    token_text, Scanner, QUOTE,
};
use crate::text::{decimal, push_bytes, push_decimal, push_text};
use crate::token::{copy_bytes, Token, TokenType};
use crate::value::{clone_function, Constant, ConstantModel, Function, FunctionModel, FunctionType};

verus! {

/// The most parameters a function, and arguments a call, can have.
pub const MAX_PARAMS: usize = 255;

/// The operand a forward jump holds until it is patched.
pub const JUMP_PLACEHOLDER: usize = 65535;

/// `a` grows into `b`: `b` is `a` with instructions added at the end.
pub open spec fn code_extends(a: Seq<Instruction>, b: Seq<Instruction>) -> bool {
    &&& a.len() <= b.len()
    &&& forall|i: int| 0 <= i < a.len() ==> #[trigger] b[i] == a[i]
}

/// A compiler (and every compiler it is nested in) is consistent: slot 0 is
/// reserved, locals fit, the block depth is between 0 and `depth_bound`, and
/// each instruction has a line.
pub open spec fn compiler_ok(c: Compiler, depth_bound: int) -> bool
    decreases c,
{
    &&& 1 <= c.locals@.len() <= LOCAL_MAX
    &&& c.locals@[0].depth == 0
    &&& 0 <= c.scope_depth <= depth_bound
    &&& c.function.chunk.code@.len() == c.function.chunk.lines@.len()
    &&& match c.enclosing {
        Some(e) => compiler_ok(*e, depth_bound),
        None => true,
    }
}

pub proof fn lemma_compiler_ok_mono(c: Compiler, a: int, b: int)
    requires
        compiler_ok(c, a),
        a <= b,
    ensures
        compiler_ok(c, b),
    decreases c,
{
    match c.enclosing {
        Some(e) => lemma_compiler_ok_mono(*e, a, b),
        None => {},
    }
}

/// The operands of a compiler's code, and of every compiler it is nested
/// in, are valid.
pub open spec fn compiler_refs_ok(c: Compiler) -> bool
    decreases c,
{
    &&& chunk_refs_ok(c.function.chunk@)
    &&& match c.enclosing {
        Some(e) => compiler_refs_ok(*e),
        None => true,
    }
}

/// The text of a compile error reported at `token`.
pub open spec fn error_report(token: Token, message: Seq<u8>) -> Seq<u8> {
    "[line ".spec_bytes() + decimal(token.line as nat) + "] Error".spec_bytes() + match token.kind {
        TokenType::EoF => " at end".spec_bytes(),
        TokenType::Error => Seq::empty(),
        _ => " at '".spec_bytes() + token.lexeme@ + "'".spec_bytes(),
    } + ": ".spec_bytes() + message + "\n".spec_bytes()
}

/// The code `literal` emits for a literal token.
pub open spec fn literal_code(kind: TokenType) -> Seq<Instruction> {
    match kind {
        TokenType::False => seq![Instruction::False],
        TokenType::True => seq![Instruction::True],
        TokenType::Nil => seq![Instruction::Nil],
        _ => Seq::empty(),
    }
}

/// The code `binary` emits after its right operand, for the operator's kind.
pub open spec fn binary_code(kind: TokenType) -> Seq<Instruction> {
    match kind {
        TokenType::BangEqual => seq![Instruction::Equal, Instruction::Not],
        TokenType::EqualEqual => seq![Instruction::Equal],
        TokenType::Greater => seq![Instruction::Greater],
        TokenType::GreaterEqual => seq![Instruction::Less, Instruction::Not],
        TokenType::Less => seq![Instruction::Less],
        TokenType::LessEqual => seq![Instruction::Greater, Instruction::Not],
        TokenType::Plus => seq![Instruction::Add],
        TokenType::Minus => seq![Instruction::Subtract],
        TokenType::Star => seq![Instruction::Multiply],
        TokenType::Slash => seq![Instruction::Divide],
        _ => Seq::empty(),
    }
}

/// `n` `Pop` instructions.
pub open spec fn pops(n: nat) -> Seq<Instruction> {
    Seq::new(n, |_i: int| Instruction::Pop)
}

/// A forward jump given the operand `jump`.
pub open spec fn retarget(instruction: Instruction, jump: int) -> Instruction {
    match instruction {
        Instruction::Jump(_) => Instruction::Jump(jump as usize),
        Instruction::JumpIfFalse(_) => Instruction::JumpIfFalse(jump as usize),
        other => other,
    }
}

/// The innermost of `locals[..n]` named `name`: the last one with that name.
pub open spec fn resolve_spec(locals: Seq<Local>, name: Seq<u8>, n: int) -> Option<int>
    decreases n,
{
    if n <= 0 {
        None
    } else if locals[n - 1].name.lexeme@ == name {
        Some(n - 1)
    } else {
        resolve_spec(locals, name, n - 1)
    }
}

/// Whether a token of this kind begins a statement, where recovery from an
/// error resumes.
pub open spec fn starts_statement(kind: TokenType) -> bool {
    kind == TokenType::Class || kind == TokenType::Fun || kind == TokenType::Var || kind
        == TokenType::For || kind == TokenType::If || kind == TokenType::While || kind
        == TokenType::Print || kind == TokenType::Return
}

/// Compiling `r1` and then `r2` compiles their concatenation.
pub proof fn lemma_compiled_joined(a: Parser, b: Parser, c: Parser, r1: Compiled, r2: Compiled)
    requires
        b.compiled_to(&a, r1),
        c.compiled_to(&b, r2),
    ensures
        c.compiled_to(&a, crate::grammar::joined(r1, r2)),
{
    assert(c.code() =~= a.code() + (r1.code + r2.code));
    assert(c.compiler.function.chunk@.constants =~= a.compiler.function.chunk@.constants + (r1.constants
        + r2.constants));
}

/// Reading one token and then compiling `r` compiles `r`.
proof fn lemma_compiled_after_step(a: Parser, b: Parser, c: Parser, r: Compiled)
    requires
        b.stepped(&a),
        b.had_error == a.had_error,
        c.compiled_to(&b, r),
    ensures
        c.compiled_to(&a, r),
{
}

/// Compiling `r` and then emitting `added` compiles `r` with `added` after its code.
proof fn lemma_compiled_then_emitted(a: Parser, b: Parser, c: Parser, r: Compiled, added: Seq<Instruction>)
    requires
        b.compiled_to(&a, r),
        c.emitted(&b, added),
        c.advanced_from(&b),
    ensures
        c.compiled_to(&a, Compiled { code: r.code + added, ..r }),
{
    assert(c.code() =~= a.code() + (r.code + added));
}

/// Compiling `r` and then reading one more token compiles `r`, with the
/// token after that one next.
proof fn lemma_compiled_then_step(a: Parser, b: Parser, c: Parser, r: Compiled)
    requires
        b.compiled_to(&a, r),
        c.stepped(&b),
        c.had_error == b.had_error,
    ensures
        c.compiled_to(&a, Compiled { next: c.cursor(), ..r }),
{
}

/// Reading nothing compiles nothing.
proof fn lemma_compiled_nothing(a: Parser)
    requires
        a.wf(),
    ensures
        a.compiled_to(&a, crate::grammar::nothing_at(a.cursor())),
{
    assert(a.code() =~= a.code() + Seq::<Instruction>::empty());
    assert(a.compiler.function.chunk@.constants =~= a.compiler.function.chunk@.constants + Seq::<ConstantModel>::empty());
}

/// A report is never empty.
pub proof fn lemma_report_nonempty(token: Token, message: Seq<u8>)
    ensures
        error_report(token, message).len() > 0,
{
    reveal_strlit("[line ");
}

/// Only literal tokens start an expression with `literal`.
pub proof fn lemma_literal_rule(kind: TokenType)
    ensures
        rule_for(kind).prefix == Some(ParseFn::Literal) ==> literal_code(kind).len() > 0,
{
}

/// The text of a series of reports, in order.
pub open spec fn reports_text(reports: Seq<(Token, Seq<u8>)>) -> Seq<u8>
    decreases reports.len(),
{
    if reports.len() == 0 {
        Seq::empty()
    } else {
        reports_text(reports.drop_last()) + error_report(reports.last().0, reports.last().1)
    }
}

/// `text` is made of whole error reports.
pub open spec fn is_reports(text: Seq<u8>) -> bool {
    exists|reports: Seq<(Token, Seq<u8>)>| text == #[trigger] reports_text(reports)
}

/// Parses and compiles one source.
pub struct Parser<'source> {
    scanner: Scanner<'source>,
    rules: Vec<ParseRule>,
    previous: Token,
    current: Token,
    compiler: Box<Compiler>,
    had_error: bool,
    panic_mode: bool,
    diagnostics: Vec<u8>,
}

impl<'source> Parser<'source> {
    /// The source bytes.
    pub closed spec fn source(&self) -> Seq<u8> {
        self.scanner.source()
    }

    /// What is left to read: the unscanned bytes, plus one while the current
    /// token is not the end.  Every parsing routine leaves it no larger.
    pub closed spec fn remaining(&self) -> int {
        (self.scanner.source().len() - self.scanner.position()) + if self.current.kind
            == TokenType::EoF {
            0int
        } else {
            1int
        }
    }

    /// Consistent, and every error token read so far has been reported.
    pub closed spec fn wf(&self) -> bool {
        &&& self.wf_core()
        &&& self.lexical_errors_reported()
    }

    /// An error token was met before the scanner's position only if an error
    /// was reported.
    pub closed spec fn lexical_errors_reported(&self) -> bool {
        self.had_error || !has_lexical_error(self.scanner.source(), 0) || has_lexical_error(
            self.scanner.source(),
            self.scanner.position(),
        )
    }

    /// The state is consistent: the scanner and rule table are, what is left
    /// to read bounds the block depth, the diagnostics are whole error
    /// reports, an error was reported exactly when there are diagnostics (and
    /// always before recovery mode is entered), and until one is reported the
    /// code being built has valid operands.
    pub closed spec fn wf_core(&self) -> bool {
        &&& self.scanner.wf()
        &&& is_rule_table(self.rules@)
        &&& self.current.kind == TokenType::EoF ==> self.scanner.position()
            == self.scanner.source().len()
        &&& self.scanner.source().len() + 1 <= i32::MAX
        &&& 0 <= self.remaining() <= self.scanner.source().len() + 1
        &&& compiler_ok(*self.compiler, self.scanner.source().len() + 1 - self.remaining())
        &&& self.had_error == (self.diagnostics@.len() > 0)
        &&& is_reports(self.diagnostics@)
        &&& self.panic_mode ==> self.had_error
        &&& self.had_error || compiler_refs_ok(*self.compiler)
    }

    /// `self` is `old` after parsing some tokens: still consistent, no more
    /// left to read, and the current function at the same nesting level,
    /// block depth and arity, with instructions and constants added at the
    /// end, and (unless an error was reported) every jump added landing
    /// inside the code.
    pub closed spec fn advanced_from(&self, old: &Self) -> bool {
        &&& self.grew_from(old)
        &&& self.compiler.function.arity == old.compiler.function.arity
    }

    /// Like `advanced_from`, with the arity free to change.
    pub closed spec fn grew_from(&self, old: &Self) -> bool {
        &&& self.wf()
        &&& self.scanner.source() == old.scanner.source()
        &&& self.remaining() <= old.remaining()
        &&& self.compiler.enclosing == old.compiler.enclosing
        &&& self.compiler.function_type == old.compiler.function_type
        &&& self.compiler.scope_depth == old.compiler.scope_depth
        &&& self.compiler.function.name == old.compiler.function.name
        &&& code_extends(old.compiler.function.chunk.code@, self.compiler.function.chunk.code@)
        &&& constants_extend(old.compiler.function.chunk@.constants, self.compiler.function.chunk@.constants)
        &&& old.had_error ==> self.had_error
        &&& self.had_error || jumps_land_from(self.code(), old.code().len() as int)
    }

    /// Nothing reported yet, and the top-level script is being compiled, with
    /// no code emitted so far.
    pub closed spec fn is_fresh(&self) -> bool {
        &&& !self.had_error
        &&& !self.panic_mode
        &&& self.compiler.enclosing is None
        &&& self.compiler.function_type == FunctionType::Script
        &&& self.compiler.function.name@.len() == 0
        &&& self.compiler.function.arity == 0
        &&& self.code().len() == 0
    }

    /// Like `advanced_from`, with the locals of the current function unchanged.
    pub closed spec fn kept(&self, old: &Self) -> bool {
        &&& self.advanced_from(old)
        &&& self.compiler.locals == old.compiler.locals
    }

    /// The current function can open one more block: its depth stays within
    /// the tokens read so far.
    pub closed spec fn depth_room(&self) -> bool {
        self.compiler.scope_depth + 1 <= self.scanner.source().len() + 1 - self.remaining()
    }

    pub closed spec fn code(&self) -> Seq<Instruction> {
        self.compiler.function.chunk.code@
    }

    pub fn new(source: &'source str) -> (parser: Self)
        requires
            line_count_fits(source.spec_bytes()),
            source.spec_bytes().len() + 1 <= i32::MAX,
        ensures
            parser.wf(),
            parser.source() == source.spec_bytes(),
            parser.remaining() == source.spec_bytes().len() + 1,
            parser.is_fresh(),
    {
        let parser = Self {
            scanner: Scanner::new(source),
            rules: build_rules(),
            previous: Token::null(),
            current: Token::null(),
            compiler: Compiler::new(Vec::new(), FunctionType::Script),
            had_error: false,
            panic_mode: false,
            diagnostics: Vec::new(),
        };
        proof {
            assert(parser.diagnostics@ == reports_text(Seq::<(Token, Seq<u8>)>::empty()));
        }
        parser
    }

    /// Reports an error at `token`, unless an error is being recovered from.
    #[verifier::rlimit(30)]
    fn error_at(&mut self, token: &Token, message: &[u8])
        requires
            old(self).wf_core(),
        ensures
            final(self).wf(),
            final(self).had_error,
            final(self).scanner == old(self).scanner,
            final(self).rules == old(self).rules,
            final(self).previous == old(self).previous,
            final(self).current == old(self).current,
            final(self).compiler == old(self).compiler,
            final(self).panic_mode,
            old(self).panic_mode ==> final(self).had_error == old(self).had_error
                && final(self).diagnostics == old(self).diagnostics,
            !old(self).panic_mode ==> final(self).had_error && final(self).diagnostics@ == old(
                self,
            ).diagnostics@ + error_report(*token, message@),
    {
        if self.panic_mode {
            return;
        }
        self.had_error = true;
        self.panic_mode = true;
        let ghost start = self.diagnostics@;
        push_text(&mut self.diagnostics, "[line ");
        push_decimal(&mut self.diagnostics, token.line as u64);
        push_text(&mut self.diagnostics, "] Error");
        let ghost before_place = self.diagnostics@;
        match token.kind {
            TokenType::EoF => push_text(&mut self.diagnostics, " at end"),
            TokenType::Error => {},
            _ => {
                push_text(&mut self.diagnostics, " at '");
                push_bytes(&mut self.diagnostics, token.lexeme.as_slice());
                push_text(&mut self.diagnostics, "'");
            },
        }
        let ghost place = self.diagnostics@.subrange(before_place.len() as int, self.diagnostics@.len() as int);
        proof {
            assert(self.diagnostics@ =~= before_place + place);
            assert(place =~= match token.kind {
                TokenType::EoF => " at end".spec_bytes(),
                TokenType::Error => Seq::empty(),
                _ => " at '".spec_bytes() + token.lexeme@ + "'".spec_bytes(),
            });
        }
        push_text(&mut self.diagnostics, ": ");
        push_bytes(&mut self.diagnostics, message);
        push_text(&mut self.diagnostics, "\n");
        proof {
            assert(self.diagnostics@ =~= start + error_report(*token, message@));
            let reports = choose|reports: Seq<(Token, Seq<u8>)>| start == #[trigger] reports_text(reports);
            let more = reports.push((*token, message@));
            assert(more.drop_last() =~= reports);
            assert(self.diagnostics@ == reports_text(more));
        }
    }

    /// Reports an error at the current token.
    fn error_at_current(&mut self, message: &[u8])
        requires
            old(self).wf_core(),
        ensures
            final(self).wf(),
            final(self).had_error,
            final(self).scanner == old(self).scanner,
            final(self).rules == old(self).rules,
            final(self).previous == old(self).previous,
            final(self).current == old(self).current,
            final(self).compiler == old(self).compiler,
            final(self).panic_mode,
            old(self).panic_mode ==> final(self).had_error == old(self).had_error
                && final(self).diagnostics == old(self).diagnostics,
            !old(self).panic_mode ==> final(self).had_error && final(self).diagnostics@ == old(
                self,
            ).diagnostics@ + error_report(old(self).current, message@),
    {
        let token = self.current.duplicate();
        proof {
            assert(token.lexeme@ == self.current.lexeme@);
        }
        self.error_at(&token, message);
        proof {
            assert(error_report(token, message@) == error_report(old(self).current, message@));
        }
    }

    /// Reports an error at the previous token.
    fn error(&mut self, message: &str)
        requires
            old(self).wf(),
        ensures
            final(self).wf(),
            final(self).scanner == old(self).scanner,
            final(self).rules == old(self).rules,
            final(self).previous == old(self).previous,
            final(self).current == old(self).current,
            final(self).compiler == old(self).compiler,
            final(self).panic_mode,
            old(self).panic_mode ==> final(self).had_error == old(self).had_error
                && final(self).diagnostics == old(self).diagnostics,
            !old(self).panic_mode ==> final(self).had_error && final(self).diagnostics@ == old(
                self,
            ).diagnostics@ + error_report(old(self).previous, message.spec_bytes()),
            final(self).had_error,
    {
        let token = self.previous.duplicate();
        self.error_at(&token, message.as_bytes());
        proof {
            assert(error_report(token, message.spec_bytes()) == error_report(
                old(self).previous,
                message.spec_bytes(),
            ));
        }
    }

    /// Only the current function's code (and its lines) changed, by `added`.
    pub closed spec fn emitted(&self, old: &Self, added: Seq<Instruction>) -> bool {
        &&& self.scanner == old.scanner
        &&& self.rules == old.rules
        &&& self.previous == old.previous
        &&& self.current == old.current
        &&& self.had_error == old.had_error
        &&& self.panic_mode == old.panic_mode
        &&& self.diagnostics == old.diagnostics
        &&& self.compiler.enclosing == old.compiler.enclosing
        &&& self.compiler.function_type == old.compiler.function_type
        &&& self.compiler.locals == old.compiler.locals
        &&& self.compiler.scope_depth == old.compiler.scope_depth
        &&& self.compiler.function.arity == old.compiler.function.arity
        &&& self.compiler.function.name == old.compiler.function.name
        &&& self.compiler.function.chunk.constants == old.compiler.function.chunk.constants
        &&& self.code() == old.code() + added
    }

    /// The current token moved to `previous` and a new one was read.
    pub closed spec fn stepped(&self, old: &Self) -> bool {
        &&& self.wf()
        &&& self.scanner.source() == old.scanner.source()
        &&& self.rules == old.rules
        &&& self.compiler == old.compiler
        &&& self.previous == old.current
        &&& self.current.kind != TokenType::Error
        &&& old.had_error ==> self.had_error
        &&& self.remaining() <= old.remaining()
        &&& (old.current.kind != TokenType::EoF ==> self.remaining() < old.remaining())
    }

    /// Reads the next token; error tokens are reported and skipped.
    fn advance(&mut self)
        requires
            old(self).wf(),
        ensures
            final(self).stepped(old(self)),
            final(self).diagnostics@.len() >= old(self).diagnostics@.len(),
            final(self).panic_mode ==> old(self).panic_mode || final(self).diagnostics@.len() > old(
                self,
            ).diagnostics@.len(),
            token_kind(old(self).source(), token_start(old(self).source(), old(self).scanner.position()))
                != TokenType::Error ==> {
                &&& final(self).current.kind == token_kind(
                    old(self).source(),
                    token_start(old(self).source(), old(self).scanner.position()),
                )
                &&& final(self).scanner.position() == token_end(
                    old(self).source(),
                    token_start(old(self).source(), old(self).scanner.position()),
                )
                &&& final(self).current.lexeme@ == token_text(
                    old(self).source(),
                    token_start(old(self).source(), old(self).scanner.position()),
                )
                &&& final(self).had_error == old(self).had_error
                &&& final(self).diagnostics == old(self).diagnostics
                &&& final(self).panic_mode == old(self).panic_mode
            },
            next_cursor(old(self).source(), old(self).scanner.position()) matches Some(c1)
                ==> final(self).cursor() == c1 && final(self).had_error == old(self).had_error,
    {
        let ghost s = self.scanner.source();
        let ghost r0 = self.remaining();
        let ghost p0 = self.scanner.position();
        let mut next = self.scanner.scan_token();
        proof {
            crate::scanner::lemma_token_start_bounds(s, p0);
            crate::scanner::lemma_token_end_bounds(s, self.scanner.start_pos());
        }
        std::mem::swap(&mut self.current, &mut next);
        self.previous = next;
        proof {
            lemma_compiler_ok_mono(*self.compiler, s.len() + 1 - r0, s.len() + 1 - self.remaining());
        }
        proof {
            lemma_lexical_error_step(s, p0);
        }
        let ghost first = self.current.kind;
        let ghost first_end = self.scanner.position();
        let ghost first_text = self.current.lexeme@;
        while self.current.kind == TokenType::Error
            invariant
                first != TokenType::Error ==> self.current.kind == first && self.scanner.position()
                    == first_end && self.current.lexeme@ == first_text && self.had_error == old(self).had_error && self.diagnostics
                    == old(self).diagnostics && self.panic_mode == old(self).panic_mode,
                self.wf_core(),
                self.lexical_errors_reported() || self.current.kind == TokenType::Error,
                self.scanner.source() == s,
                self.rules == old(self).rules,
                self.compiler == old(self).compiler,
                self.previous == old(self).current,
                old(self).had_error ==> self.had_error,
                self.diagnostics@.len() >= old(self).diagnostics@.len(),
                self.panic_mode ==> old(self).panic_mode || self.diagnostics@.len() > old(
                    self,
                ).diagnostics@.len(),
                self.remaining() <= r0,
                old(self).current.kind != TokenType::EoF ==> self.remaining() < r0,
            decreases self.remaining(),
        {
            let message = copy_bytes(&self.current.lexeme);
            proof {
                lemma_report_nonempty(self.current, message@);
            }
            self.error_at_current(message.as_slice());
            let ghost r1 = self.remaining();
            let ghost p1 = self.scanner.position();
            self.current = self.scanner.scan_token();
            proof {
                lemma_lexical_error_step(s, p1);
                crate::scanner::lemma_token_start_bounds(s, p1);
                crate::scanner::lemma_token_end_bounds(s, self.scanner.start_pos());
                lemma_compiler_ok_mono(*self.compiler, s.len() + 1 - r1, s.len() + 1 - self.remaining());
            }
        }
    }

    /// Reads the current token if it is of `kind`; reports `message` otherwise.
    fn consume(&mut self, kind: TokenType, message: &str)
        requires
            old(self).wf(),
        ensures
            final(self).advanced_from(old(self)),
            final(self).compiler == old(self).compiler,
            old(self).current.kind == kind ==> final(self).stepped(old(self)),
            old(self).current.kind != kind ==> final(self).had_error,
            final(self).previous.kind == kind || final(self).had_error,
            old(self).current.kind == kind && token_kind(
                old(self).source(),
                token_start(old(self).source(), old(self).scanner.position()),
            ) != TokenType::Error ==> final(self).current.kind == token_kind(
                old(self).source(),
                token_start(old(self).source(), old(self).scanner.position()),
            ) && final(self).had_error == old(self).had_error && final(self).scanner.position()
                == token_end(old(self).source(), token_start(old(self).source(), old(self).scanner.position())),
            old(self).current.kind == kind ==> (next_cursor(old(self).source(), old(self).scanner.position()) matches Some(c1)
                ==> final(self).cursor() == c1 && final(self).had_error == old(self).had_error),
    {
        if self.current.kind == kind {
            self.advance();
            return;
        }
        self.error_at_current(message.as_bytes());
    }

    fn check(&self, kind: TokenType) -> (b: bool)
        ensures
            b == (self.current.kind == kind),
    {
        self.current.kind == kind
    }

    /// Reads the current token if it is of `kind`.
    fn matches(&mut self, kind: TokenType) -> (b: bool)
        requires
            old(self).wf(),
        ensures
            b == (old(self).current.kind == kind),
            b ==> final(self).stepped(old(self)),
            !b ==> *final(self) == *old(self),
            b && token_kind(
                old(self).source(),
                token_start(old(self).source(), old(self).scanner.position()),
            ) != TokenType::Error ==> final(self).current.kind == token_kind(
                old(self).source(),
                token_start(old(self).source(), old(self).scanner.position()),
            ) && final(self).had_error == old(self).had_error && final(self).scanner.position()
                == token_end(old(self).source(), token_start(old(self).source(), old(self).scanner.position())),
            b ==> (next_cursor(old(self).source(), old(self).scanner.position()) matches Some(c1)
                ==> final(self).cursor() == c1 && final(self).had_error == old(self).had_error),
    {
        if !self.check(kind) {
            return false;
        }
        self.advance();
        true
    }

    fn emit_instruction(&mut self, instruction: Instruction)
        requires
            old(self).wf(),
            old(self).had_error || operand_ok(instruction, old(self).compiler.function.chunk@.constants),
        ensures
            final(self).wf(),
            final(self).emitted(old(self), seq![instruction]),
    {
        let line = self.previous.line;
        self.compiler.function.chunk.write(instruction, line);
        proof {
            assert(self.code() =~= old(self).code() + seq![instruction]);
            if !self.had_error {
                let k = self.compiler.function.chunk@;
                let k0 = old(self).compiler.function.chunk@;
                assert forall|i: int| 0 <= i < k.code.len() implies operand_ok(#[trigger] k.code[i], k.constants) by {
                    if i < k0.code.len() {
                        assert(k.code[i] == k0.code[i]);
                    }
                }
                assert(chunk_refs_ok(k));
            }
        }
    }

    fn emit_instructions(&mut self, instruction_1: Instruction, instruction_2: Instruction)
        requires
            old(self).wf(),
            old(self).had_error || operand_ok(instruction_1, old(self).compiler.function.chunk@.constants),
            old(self).had_error || operand_ok(instruction_2, old(self).compiler.function.chunk@.constants),
        ensures
            final(self).wf(),
            final(self).emitted(old(self), seq![instruction_1, instruction_2]),
    {
        self.emit_instruction(instruction_1);
        self.emit_instruction(instruction_2);
        proof {
            assert(self.code() =~= old(self).code() + seq![instruction_1, instruction_2]);
        }
    }
}

pub proof fn lemma_emitted_advances(old: Parser, new: Parser, added: Seq<Instruction>)
    requires
        old.wf(),
        new.wf(),
        new.emitted(&old, added),
        forall|i: int| 0 <= i < added.len() ==> jump_lands(#[trigger] added[i], old.code().len() + i, new.code().len() as int),
    ensures
        new.advanced_from(&old),
{
    assert forall|i: int| 0 <= i < old.code().len() implies #[trigger] new.code()[i] == old.code()[i] by {
    }
    assert forall|i: int| old.code().len() <= i < new.code().len() implies jump_lands(#[trigger] new.code()[i], i, new.code().len() as int) by {
        assert(new.code()[i] == added[i - old.code().len()]);
    }
}

impl<'source> Parser<'source> {
    /// `self` is `old` with the forward jump at `offset` pointed at the end
    /// of the code (an error is reported if it is too far).
    pub closed spec fn patched(&self, old: &Self, offset: int) -> bool {
        &&& self.wf()
        &&& self.scanner == old.scanner
        &&& self.rules == old.rules
        &&& self.previous == old.previous
        &&& self.current == old.current
        &&& self.compiler.enclosing == old.compiler.enclosing
        &&& self.compiler.function_type == old.compiler.function_type
        &&& self.compiler.locals == old.compiler.locals
        &&& self.compiler.scope_depth == old.compiler.scope_depth
        &&& self.compiler.function.arity == old.compiler.function.arity
        &&& self.compiler.function.name == old.compiler.function.name
        &&& self.compiler.function.chunk.constants == old.compiler.function.chunk.constants
        &&& self.code() == old.code().update(offset, self.code()[offset])
        &&& self.code()[offset].is_forward_jump()
        &&& old.had_error ==> self.had_error
        &&& self.had_error || jump_lands(self.code()[offset], offset, self.code().len() as int)
        &&& old.code().len() - offset - 1 <= 65535 ==> self.code()[offset] == retarget(
            old.code()[offset],
            old.code().len() - offset - 1,
        )
        &&& old.code().len() - offset - 1 > 65535 ==> self.had_error && self.code()[offset] == retarget(
            old.code()[offset],
            JUMP_PLACEHOLDER as int,
        )
        &&& self.compiler.function.chunk.lines == old.compiler.function.chunk.lines
        &&& old.code()[offset] is Jump ==> self.code()[offset] is Jump
        &&& old.code()[offset] is JumpIfFalse ==> self.code()[offset] is JumpIfFalse
    }

    /// `self` is `old` after compiling a use of the variable `name`: a read,
    /// or an assignment where one is allowed and `=` follows.  A local that
    /// is initialized is used by its slot; otherwise the name is added as a
    /// string constant and the global of that name is used.
    pub closed spec fn used_variable(&self, old: &Self, name: Seq<u8>, can_assign: bool) -> bool {
        let r = resolve_spec(old.compiler.locals@, name, old.compiler.locals@.len() as int);
        let local = r is Some && old.compiler.locals@[r->0].depth != -1;
        let assign = can_assign && old.current.kind == TokenType::Equal;
        let k = old.compiler.function.chunk@.constants.len();
        &&& self.kept(old)
        &&& r is Some && !local ==> self.had_error
        &&& local && !assign ==> self.code() == old.code().push(Instruction::GetLocal(r->0 as usize))
        &&& local && assign ==> self.code().len() > old.code().len() && self.code().last()
            == Instruction::SetLocal(r->0 as usize)
        &&& !local ==> self.compiler.function.chunk@.constants.len() > k
            && self.compiler.function.chunk@.constants[k as int] == ConstantModel::String(name)
        &&& !local && k > 255 ==> self.had_error
        &&& !local && !assign && k <= 255 ==> self.code() == old.code().push(
            Instruction::GetGlobal(k as usize),
        ) && self.compiler.function.chunk@.constants == old.compiler.function.chunk@.constants.push(
            ConstantModel::String(name),
        ) && (r is None ==> self.had_error == old.had_error)
        &&& !local && assign && k <= 255 ==> self.code().len() > old.code().len() && self.code().last()
            == Instruction::SetGlobal(k as usize)
        &&& assign ==> self.remaining() < old.remaining()
        &&& assign && !self.had_error ==> self.code().len() >= old.code().len() + 2
        &&& !assign ==> self.scanner == old.scanner && self.current == old.current && self.previous
            == old.previous
    }

    /// The current token and where scanning goes on after it.
    pub closed spec fn cursor(&self) -> Cursor {
        Cursor { kind: self.current.kind, text: self.current.lexeme@, pos: self.scanner.position() }
    }

    /// Top-level code is being compiled: no block is open, and only the
    /// reserved slot holds a local.
    pub closed spec fn top_level(&self) -> bool {
        &&& self.compiler.scope_depth == 0
        &&& self.compiler.locals@.len() == 1
        &&& self.compiler.locals@[0].name.lexeme@.len() == 0
    }

    /// How many constants the current chunk holds.
    pub closed spec fn n_constants(&self) -> nat {
        self.compiler.function.chunk@.constants.len()
    }

    /// `self` is `old` after compiling tokens to `r`, with no error reported.
    pub closed spec fn compiled_to(&self, old: &Self, r: Compiled) -> bool {
        &&& self.kept(old)
        &&& self.code() == old.code() + r.code
        &&& self.compiler.function.chunk@.constants == old.compiler.function.chunk@.constants + r.constants
        &&& self.cursor() == r.next
        &&& self.had_error == old.had_error
    }

    /// `self` is `old` after emitting `Constant` for a new constant `value`.
    pub closed spec fn emitted_constant(&self, old: &Self, value: ConstantModel) -> bool {
        &&& self.kept(old)
        &&& self.code().len() == old.code().len() + 1
        &&& self.code().last() is Constant
        &&& self.compiler.function.chunk@.constants == old.compiler.function.chunk@.constants.push(value)
        &&& old.compiler.function.chunk@.constants.len() <= 255 ==> self.code().last()
            == Instruction::Constant(old.compiler.function.chunk@.constants.len() as usize)
        &&& old.compiler.function.chunk@.constants.len() > 255 ==> self.had_error
        &&& old.compiler.function.chunk@.constants.len() <= 255 ==> self.had_error == old.had_error
        &&& self.scanner == old.scanner
        &&& self.current == old.current
        &&& self.previous == old.previous
    }

    /// Emits a forward jump with a placeholder operand; returns its offset.
    fn emit_jump(&mut self, if_false: bool) -> (offset: usize)
        requires
            old(self).wf(),
        ensures
            final(self).wf(),
            offset == old(self).code().len(),
            final(self).code().len() == offset + 1,
            final(self).code()[offset as int].is_forward_jump(),
            final(self).emitted(old(self), seq![final(self).code()[offset as int]]),
            if_false ==> final(self).code()[offset as int] == Instruction::JumpIfFalse(JUMP_PLACEHOLDER),
            !if_false ==> final(self).code()[offset as int] == Instruction::Jump(JUMP_PLACEHOLDER),
    {
        if if_false {
            self.emit_instruction(Instruction::JumpIfFalse(JUMP_PLACEHOLDER));
        } else {
            self.emit_instruction(Instruction::Jump(JUMP_PLACEHOLDER));
        }
        self.compiler.function.chunk.get_count() - 1
    }

    /// `value` if it fits in 16 bits; otherwise reports `message`.
    fn clip_u16(&mut self, value: usize, message: &str) -> (clipped: usize)
        requires
            old(self).wf(),
        ensures
            final(self).wf(),
            final(self).scanner == old(self).scanner,
            final(self).rules == old(self).rules,
            final(self).previous == old(self).previous,
            final(self).current == old(self).current,
            final(self).compiler == old(self).compiler,
            clipped <= 65535,
            value <= 65535 ==> clipped == value && *final(self) == *old(self),
            old(self).had_error ==> final(self).had_error,
            value > 65535 ==> final(self).had_error && clipped == JUMP_PLACEHOLDER,
            value > 65535 && !old(self).panic_mode ==> final(self).diagnostics@ == old(self).diagnostics@
                + error_report(old(self).previous, message.spec_bytes()),
    {
        if value <= 65535 {
            value
        } else {
            self.error(message);
            JUMP_PLACEHOLDER
        }
    }

    /// Points the forward jump at `offset` to the end of the code.
    fn patch_jump(&mut self, offset: usize)
        requires
            old(self).wf(),
            offset < old(self).code().len(),
            old(self).code()[offset as int].is_forward_jump(),
        ensures
            final(self).patched(old(self), offset as int),
            old(self).code().len() - offset - 1 > 65535 && !old(self).panic_mode ==> final(self).diagnostics@
                == old(self).diagnostics@ + error_report(old(self).previous, "Too much code to jump over.".spec_bytes()),
    {
        let jump = self.compiler.function.chunk.get_count() - offset - 1;
        let jump = self.clip_u16(jump, "Too much code to jump over.");
        let instruction = self.compiler.function.chunk.get_instruction(offset);
        let patched = match instruction {
            Instruction::Jump(_) => Instruction::Jump(jump),
            Instruction::JumpIfFalse(_) => Instruction::JumpIfFalse(jump),
            other => other,
        };
        self.compiler.function.chunk.set_instruction(offset, patched);
        proof {
            if !self.had_error {
                let k = self.compiler.function.chunk@;
                let k0 = old(self).compiler.function.chunk@;
                assert forall|i: int| 0 <= i < k.code.len() implies operand_ok(#[trigger] k.code[i], k.constants) by {
                    if i != offset {
                        assert(k.code[i] == k0.code[i]);
                    }
                }
                assert(chunk_refs_ok(k));
            }
            assert(self.code() =~= old(self).code().update(offset as int, patched));
        }
    }

    /// Emits a backward jump to `loop_start`.
    fn emit_loop(&mut self, loop_start: usize)
        requires
            old(self).wf(),
            loop_start <= old(self).code().len(),
        ensures
            final(self).kept(old(self)),
            final(self).compiler.function.chunk.constants == old(self).compiler.function.chunk.constants,
            final(self).code().len() == old(self).code().len() + 1,
            final(self).code().last() is Loop,
            final(self).previous == old(self).previous,
            old(self).code().len() - loop_start + 1 <= 65535 ==> final(self).code().last()
                == Instruction::Loop((old(self).code().len() - loop_start + 1) as usize),
            old(self).code().len() - loop_start + 1 > 65535 ==> final(self).had_error,
    {
        let count = self.compiler.function.chunk.get_count();
        // A chunk never holds `usize::MAX` instructions, so this adds one.
        let offset = (count - loop_start).saturating_add(1);
        let offset = self.clip_u16(offset, "Loop body too large.");
        let ghost mid = *self;
        self.emit_instruction(Instruction::Loop(offset));
        proof {
            lemma_emitted_advances(mid, *self, seq![Instruction::Loop(offset)]);
        }
    }

    /// Adds a constant; reports an error and gives 0 when there are too many.
    fn make_constant(&mut self, value: Constant) -> (index: usize)
        requires
            old(self).wf(),
            old(self).had_error || constant_refs_ok(value@),
        ensures
            final(self).wf(),
            final(self).scanner == old(self).scanner,
            final(self).rules == old(self).rules,
            final(self).previous == old(self).previous,
            final(self).current == old(self).current,
            final(self).compiler.enclosing == old(self).compiler.enclosing,
            final(self).compiler.function_type == old(self).compiler.function_type,
            final(self).compiler.locals == old(self).compiler.locals,
            final(self).compiler.scope_depth == old(self).compiler.scope_depth,
            final(self).compiler.function.arity == old(self).compiler.function.arity,
            final(self).compiler.function.name == old(self).compiler.function.name,
            final(self).code() == old(self).code(),
            final(self).compiler.function.chunk.lines == old(self).compiler.function.chunk.lines,
            final(self).compiler.function.chunk.constants@ == old(self).compiler.function.chunk.constants@.push(value),
            index < final(self).compiler.function.chunk.constants@.len(),
            index <= 255,
            old(self).compiler.function.chunk.constants@.len() <= 255 ==> index == old(self).compiler.function.chunk.constants@.len(),
            old(self).compiler.function.chunk.constants@.len() > 255 ==> final(self).had_error && index == 0,
            old(self).compiler.function.chunk.constants@.len() <= 255 ==> final(self).had_error == old(self).had_error
                && final(self).diagnostics == old(self).diagnostics && final(self).panic_mode == old(self).panic_mode,
            old(self).had_error ==> final(self).had_error,
            final(self).compiler.function.chunk@.constants == old(self).compiler.function.chunk@.constants.push(value@),
            index < final(self).compiler.function.chunk@.constants.len(),
            old(self).compiler.function.chunk.constants@.len() <= 255 ==> index == old(self).compiler.function.chunk@.constants.len(),
            old(self).compiler.function.chunk.constants@.len() > 255 && !old(self).panic_mode ==> final(self).diagnostics@
                == old(self).diagnostics@ + error_report(old(self).previous, "Too many constants in one chunk.".spec_bytes()),
    {
        proof {
            crate::value::lemma_constants_model(old(self).compiler.function.chunk.constants@);
            assert(old(self).compiler.function.chunk.constants@.push(value).drop_last() =~= old(self).compiler.function.chunk.constants@);
            if !old(self).had_error {
                lemma_refs_ok_add_constant(old(self).compiler.function.chunk@, value@);
            }
        }
        let index = self.compiler.function.chunk.add_constant(value);
        if index <= 255 {
            index
        } else {
            self.error("Too many constants in one chunk.");
            0
        }
    }

    fn emit_constant(&mut self, value: Constant)
        requires
            old(self).wf(),
            old(self).had_error || constant_refs_ok(value@),
        ensures
            final(self).emitted_constant(old(self), value@),
    {
        proof {
            crate::value::lemma_constants_model(old(self).compiler.function.chunk.constants@);
        }
        let index = self.make_constant(value);
        let ghost mid = *self;
        self.emit_instruction(Instruction::Constant(index));
        proof {
            assert(self.code().last() == Instruction::Constant(index));
            assert(mid.kept(old(self)));
            lemma_emitted_advances(mid, *self, seq![Instruction::Constant(index)]);
        }
    }

    fn emit_return(&mut self)
        requires
            old(self).wf(),
        ensures
            final(self).wf(),
            final(self).emitted(old(self), seq![Instruction::Nil, Instruction::Return]),
    {
        self.emit_instructions(Instruction::Nil, Instruction::Return);
    }

    /// The constant index of `token`'s text as a string.
    fn identifier_constant(&mut self, token: &Token) -> (index: usize)
        requires
            old(self).wf(),
        ensures
            final(self).kept(old(self)),
            final(self).code() == old(self).code(),
            final(self).previous == old(self).previous,
            final(self).current == old(self).current,
            final(self).had_error || operand_ok(Instruction::GetGlobal(index), final(self).compiler.function.chunk@.constants),
            final(self).compiler.function.chunk@.constants == old(self).compiler.function.chunk@.constants.push(
                ConstantModel::String(token.lexeme@),
            ),
            old(self).compiler.function.chunk@.constants.len() <= 255 ==> index == old(self).compiler.function.chunk@.constants.len(),
            final(self).compiler.locals == old(self).compiler.locals,
            old(self).compiler.function.chunk@.constants.len() > 255 ==> final(self).had_error,
            old(self).compiler.function.chunk@.constants.len() <= 255 ==> final(self).had_error == old(self).had_error,
            final(self).scanner == old(self).scanner,
    {
        proof {
            crate::value::lemma_constants_model(old(self).compiler.function.chunk.constants@);
        }
        self.make_constant(Constant::String(copy_bytes(&token.lexeme)))
    }

    fn begin_scope(&mut self)
        requires
            old(self).wf(),
            old(self).depth_room(),
        ensures
            final(self).wf(),
            final(self).compiler.scope_depth == old(self).compiler.scope_depth + 1,
            final(self).scanner == old(self).scanner,
            final(self).current == old(self).current,
            final(self).previous == old(self).previous,
            final(self).compiler.enclosing == old(self).compiler.enclosing,
            final(self).compiler.function == old(self).compiler.function,
            final(self).compiler.function_type == old(self).compiler.function_type,
            final(self).compiler.locals == old(self).compiler.locals,
            final(self).had_error == old(self).had_error,
    {
        self.compiler.scope_depth = self.compiler.scope_depth + 1;
    }

    /// Closes a block: its locals are popped.
    fn end_scope(&mut self)
        requires
            old(self).wf(),
            old(self).compiler.scope_depth >= 1,
        ensures
            final(self).wf(),
            final(self).compiler.scope_depth == old(self).compiler.scope_depth - 1,
            final(self).scanner == old(self).scanner,
            final(self).current == old(self).current,
            final(self).previous == old(self).previous,
            final(self).compiler.enclosing == old(self).compiler.enclosing,
            final(self).compiler.function_type == old(self).compiler.function_type,
            final(self).compiler.function.arity == old(self).compiler.function.arity,
            final(self).compiler.function.name == old(self).compiler.function.name,
            code_extends(old(self).code(), final(self).code()),
            final(self).compiler.function.chunk.constants == old(self).compiler.function.chunk.constants,
            final(self).had_error == old(self).had_error,
            jumps_land_from(final(self).code(), old(self).code().len() as int),
            1 <= final(self).compiler.locals@.len() <= old(self).compiler.locals@.len(),
            final(self).compiler.locals@ == old(self).compiler.locals@.subrange(
                0,
                final(self).compiler.locals@.len() as int,
            ),
            forall|i: int|
                final(self).compiler.locals@.len() <= i < old(self).compiler.locals@.len()
                    ==> #[trigger] old(self).compiler.locals@[i].depth > final(self).compiler.scope_depth,
            final(self).compiler.locals@.last().depth <= final(self).compiler.scope_depth,
            final(self).code() == old(self).code() + pops(
                (old(self).compiler.locals@.len() - final(self).compiler.locals@.len()) as nat,
            ),
    {
        self.compiler.scope_depth = self.compiler.scope_depth - 1;
        proof {
            assert(old(self).code() + pops(0) =~= old(self).code());
            assert(old(self).compiler.locals@ =~= old(self).compiler.locals@.subrange(
                0,
                old(self).compiler.locals@.len() as int,
            ));
        }
        while self.compiler.locals[self.compiler.locals.len() - 1].depth > self.compiler.scope_depth
            invariant
                self.wf(),
                self.compiler.scope_depth == old(self).compiler.scope_depth - 1,
                self.scanner == old(self).scanner,
                self.current == old(self).current,
                self.previous == old(self).previous,
                self.compiler.enclosing == old(self).compiler.enclosing,
                self.compiler.function_type == old(self).compiler.function_type,
                self.compiler.function.arity == old(self).compiler.function.arity,
                self.compiler.function.name == old(self).compiler.function.name,
                code_extends(old(self).code(), self.code()),
                self.compiler.function.chunk.constants == old(self).compiler.function.chunk.constants,
                self.had_error == old(self).had_error,
                jumps_land_from(self.code(), old(self).code().len() as int),
                1 <= self.compiler.locals@.len() <= old(self).compiler.locals@.len(),
                self.compiler.locals@ == old(self).compiler.locals@.subrange(0, self.compiler.locals@.len() as int),
                forall|i: int|
                    self.compiler.locals@.len() <= i < old(self).compiler.locals@.len()
                        ==> #[trigger] old(self).compiler.locals@[i].depth > self.compiler.scope_depth,
                self.code() == old(self).code() + pops(
                    (old(self).compiler.locals@.len() - self.compiler.locals@.len()) as nat,
                ),
            decreases self.compiler.locals@.len(),
        {
            let ghost before = *self;
            let ghost k = (old(self).compiler.locals@.len() - self.compiler.locals@.len()) as nat;
            self.emit_instruction(Instruction::Pop);
            proof {
                lemma_emitted_advances(before, *self, seq![Instruction::Pop]);
            }
            self.compiler.locals.pop();
            proof {
                assert(pops(k) + seq![Instruction::Pop] =~= pops(k + 1));
                assert(self.code() =~= old(self).code() + pops(k + 1));
                assert(self.compiler.locals@ =~= old(self).compiler.locals@.subrange(
                    0,
                    self.compiler.locals@.len() as int,
                ));
            }
        }
    }
}

impl<'source> Parser<'source> {
    /// Marks the newest local as initialized (in a block).
    fn mark_initialized(&mut self)
        requires
            old(self).wf(),
            old(self).compiler.scope_depth == 0 || old(self).compiler.locals@.len() >= 2,
        ensures
            final(self).advanced_from(old(self)),
            final(self).code() == old(self).code(),
            final(self).compiler.locals@.len() == old(self).compiler.locals@.len(),
            final(self).previous == old(self).previous,
            final(self).current == old(self).current,
            final(self).compiler.function.chunk.constants == old(self).compiler.function.chunk.constants,
            old(self).compiler.scope_depth == 0 ==> *final(self) == *old(self),
            old(self).compiler.scope_depth != 0 ==> final(self).compiler.locals@ == old(
                self,
            ).compiler.locals@.update(
                old(self).compiler.locals@.len() - 1,
                Local { depth: old(self).compiler.scope_depth, ..old(self).compiler.locals@.last() },
            ),
            final(self).compiler.scope_depth == old(self).compiler.scope_depth,
            final(self).had_error == old(self).had_error,
            final(self).diagnostics == old(self).diagnostics,
    {
        if self.compiler.scope_depth == 0 {
            return;
        }
        let depth = self.compiler.scope_depth;
        let mut local = self.compiler.locals.pop().unwrap();
        local.depth = depth;
        self.compiler.locals.push(local);
    }

    /// Adds a local (not yet initialized), unless the function has too many.
    fn add_local(&mut self, name: Token)
        requires
            old(self).wf(),
        ensures
            final(self).advanced_from(old(self)),
            final(self).code() == old(self).code(),
            final(self).previous == old(self).previous,
            final(self).current == old(self).current,
            final(self).compiler.function.chunk.constants == old(self).compiler.function.chunk.constants,
            old(self).compiler.locals@.len() < LOCAL_MAX ==> final(self).compiler.locals@.len()
                == old(self).compiler.locals@.len() + 1,
            old(self).compiler.locals@.len() >= LOCAL_MAX ==> final(self).compiler.locals@.len()
                == old(self).compiler.locals@.len(),
            old(self).compiler.locals@.len() < LOCAL_MAX ==> final(self).compiler.locals@ == old(
                self,
            ).compiler.locals@.push(Local { name: name, depth: -1i32 }),
            old(self).compiler.locals@.len() >= LOCAL_MAX ==> final(self).had_error,
            final(self).compiler.scope_depth == old(self).compiler.scope_depth,
    {
        if self.compiler.locals.len() == LOCAL_MAX {
            self.error("Too many local variables in function.");
            return;
        }
        let local = Local::new(name, -1);
        self.compiler.locals.push(local);
    }

    /// Declares the previous token as a local (in a block).
    fn declare_variable(&mut self)
        requires
            old(self).wf(),
        ensures
            final(self).advanced_from(old(self)),
            final(self).code() == old(self).code(),
            final(self).previous == old(self).previous,
            final(self).current == old(self).current,
            final(self).compiler.function.chunk.constants == old(self).compiler.function.chunk.constants,
            final(self).compiler.scope_depth > 0 ==> final(self).compiler.locals@.len() >= 2,
            final(self).compiler.scope_depth == 0 ==> final(self).compiler.locals == old(self).compiler.locals,
            final(self).compiler.scope_depth > 0 && !final(self).had_error ==> {
                &&& final(self).compiler.locals@.len() == old(self).compiler.locals@.len() + 1
                &&& final(self).compiler.locals@.last().name.lexeme@ == old(self).previous.lexeme@
                &&& final(self).compiler.locals@.last().depth == -1
            },
    {
        if self.compiler.scope_depth == 0 {
            return;
        }
        let name = self.previous.duplicate();
        let count = self.compiler.is_same_scope(&name);
        let mut k: u32 = 0;
        while k < count
            invariant
                self.advanced_from(old(self)),
                self.code() == old(self).code(),
                self.previous == old(self).previous,
                self.current == old(self).current,
                self.compiler.function.chunk.constants == old(self).compiler.function.chunk.constants,
                self.compiler.locals == old(self).compiler.locals,
            decreases count - k,
        {
            self.error("Already a variable with this name in this scope.");
            k += 1;
        }
        self.add_local(name);
    }

    /// Reads a variable name and declares it; gives the constant index of its
    /// name for a global, or 0 for a local.
    fn parse_variable(&mut self, message: &str) -> (index: usize)
        requires
            old(self).wf(),
        ensures
            final(self).advanced_from(old(self)),
            final(self).code() == old(self).code(),
            final(self).compiler.scope_depth > 0 ==> final(self).compiler.locals@.len() >= 2,
            final(self).compiler.scope_depth == 0 ==> final(self).compiler.locals == old(self).compiler.locals,
            old(self).current.kind == TokenType::Identifier ==> final(self).remaining() < old(self).remaining(),
            final(self).compiler.scope_depth == 0 ==> final(self).had_error || operand_ok(
                Instruction::DefineGlobal(index),
                final(self).compiler.function.chunk@.constants,
            ),
            !final(self).had_error ==> old(self).current.kind == TokenType::Identifier
                && final(self).previous.lexeme@ == old(self).current.lexeme@,
            final(self).compiler.scope_depth == 0 && !final(self).had_error ==> {
                &&& index == old(self).compiler.function.chunk@.constants.len()
                &&& final(self).compiler.function.chunk@.constants == old(
                    self,
                ).compiler.function.chunk@.constants.push(ConstantModel::String(old(self).current.lexeme@))
            },
            final(self).compiler.scope_depth > 0 && !final(self).had_error ==> {
                &&& final(self).compiler.locals@.len() == old(self).compiler.locals@.len() + 1
                &&& final(self).compiler.locals@.last().name.lexeme@ == old(self).current.lexeme@
                &&& final(self).compiler.locals@.last().depth == -1
            },
    {
        self.consume(TokenType::Identifier, message);
        self.declare_variable();
        if self.compiler.scope_depth > 0 {
            return 0;
        }
        let name = self.previous.duplicate();
        self.identifier_constant(&name)
    }

    /// Defines the variable just declared: a global, or a local that is now initialized.
    fn define_variable(&mut self, index: usize)
        requires
            old(self).wf(),
            old(self).compiler.scope_depth == 0 ==> old(self).had_error || operand_ok(
                Instruction::DefineGlobal(index),
                old(self).compiler.function.chunk@.constants,
            ),
            old(self).compiler.scope_depth == 0 || old(self).compiler.locals@.len() >= 2,
        ensures
            final(self).advanced_from(old(self)),
            final(self).compiler.locals@.len() == old(self).compiler.locals@.len(),
            final(self).previous == old(self).previous,
            final(self).current == old(self).current,
            old(self).compiler.scope_depth == 0 ==> final(self).wf() && final(self).emitted(
                old(self),
                seq![Instruction::DefineGlobal(index)],
            ),
            final(self).compiler.function.chunk.constants == old(self).compiler.function.chunk.constants,
            old(self).compiler.scope_depth != 0 ==> final(self).code() == old(self).code()
                && final(self).compiler.locals@ == old(self).compiler.locals@.update(
                old(self).compiler.locals@.len() - 1,
                Local { depth: old(self).compiler.scope_depth, ..old(self).compiler.locals@.last() },
            ),
    {
        if self.compiler.scope_depth > 0 {
            self.mark_initialized();
            return;
        }
        self.emit_instruction(Instruction::DefineGlobal(index));
        proof {
            lemma_emitted_advances(*old(self), *self, seq![Instruction::DefineGlobal(index)]);
        }
    }

    /// The slot of the innermost local named like `name`, if any.
    fn resolve_local(&mut self, name: &Token) -> (slot: Option<usize>)
        requires
            old(self).wf(),
        ensures
            final(self).kept(old(self)),
            final(self).code() == old(self).code(),
            final(self).compiler == old(self).compiler,
            final(self).previous == old(self).previous,
            final(self).current == old(self).current,
            final(self).scanner == old(self).scanner,
            slot matches Some(i) ==> i < final(self).compiler.locals@.len(),
            match resolve_spec(old(self).compiler.locals@, name.lexeme@, old(self).compiler.locals@.len() as int) {
                Some(i) => if old(self).compiler.locals@[i].depth == -1 {
                    &&& slot is None
                    &&& final(self).had_error
                    &&& !old(self).panic_mode ==> final(self).diagnostics@ == old(self).diagnostics@
                        + error_report(
                        old(self).previous,
                        "Can't read local variable in its own initializer".spec_bytes(),
                    )
                } else {
                    slot == Some(i as usize) && *final(self) == *old(self)
                },
                None => slot is None && *final(self) == *old(self),
            },
    {
        let mut i: usize = self.compiler.locals.len();
        while i > 0
            invariant
                i <= self.compiler.locals@.len(),
                self.wf(),
                *self == *old(self),
                resolve_spec(self.compiler.locals@, name.lexeme@, i as int) == resolve_spec(
                    self.compiler.locals@,
                    name.lexeme@,
                    self.compiler.locals@.len() as int,
                ),
            decreases i,
        {
            let index = i - 1;
            if crate::scanner::bytes_equal(name.lexeme.as_slice(), self.compiler.locals[index].name.lexeme.as_slice()) {
                if self.compiler.locals[index].depth == -1 {
                    self.error("Can't read local variable in its own initializer");
                    return None;
                }
                return Some(index);
            }
            i -= 1;
        }
        None
    }

    /// Starts compiling a nested function.
    fn init_compiler(&mut self, name: Vec<u8>, function_type: FunctionType)
        requires
            old(self).wf(),
            old(self).remaining() <= old(self).scanner.source().len(),
        ensures
            final(self).wf(),
            final(self).scanner == old(self).scanner,
            final(self).previous == old(self).previous,
            final(self).current == old(self).current,
            final(self).had_error == old(self).had_error,
            final(self).panic_mode == old(self).panic_mode,
            final(self).compiler.enclosing == Some(old(self).compiler),
            final(self).compiler.function_type == function_type,
            final(self).compiler.function.arity == 0,
            final(self).compiler.function.name@ == name@,
            final(self).code().len() == 0,
            final(self).compiler.locals@.len() == 1,
            final(self).compiler.scope_depth == 0,
            final(self).depth_room(),
    {
        let mut new = Compiler::new(name, function_type);
        std::mem::swap(&mut self.compiler, &mut new);
        self.compiler.enclosing = Some(new);
    }

    /// Returns to the enclosing function, if there is one.
    fn pop_compiler(&mut self)
        requires
            old(self).wf(),
        ensures
            final(self).wf(),
            final(self).scanner == old(self).scanner,
            final(self).previous == old(self).previous,
            final(self).current == old(self).current,
            final(self).had_error == old(self).had_error,
            final(self).panic_mode == old(self).panic_mode,
            final(self).diagnostics == old(self).diagnostics,
            old(self).compiler.enclosing matches Some(e) ==> final(self).compiler == e,
    {
        if let Some(enclosing) = self.compiler.enclosing.take() {
            self.compiler = enclosing;
        }
    }

    /// Finishes the current function: emits its return, and returns to the
    /// enclosing function.
    fn end_compiler(&mut self) -> (function: Function)
        requires
            old(self).wf(),
        ensures
            final(self).wf(),
            final(self).scanner == old(self).scanner,
            final(self).previous == old(self).previous,
            final(self).current == old(self).current,
            final(self).had_error == old(self).had_error,
            final(self).panic_mode == old(self).panic_mode,
            final(self).diagnostics == old(self).diagnostics,
            old(self).compiler.enclosing matches Some(e) ==> final(self).compiler == e,
            function@.arity == old(self).compiler.function.arity,
            function@.name == old(self).compiler.function.name@,
            function@.chunk.code == old(self).code() + seq![Instruction::Nil, Instruction::Return],
            function@.chunk.code.len() == function@.chunk.lines.len(),
            old(self).had_error || chunk_refs_ok(function@.chunk),
            jumps_land_from(old(self).code(), 0) ==> jumps_land_from(function@.chunk.code, 0),
    {
        self.emit_return();
        proof {
            let c = self.code();
            if jumps_land_from(old(self).code(), 0) {
                assert forall|i: int| 0 <= i < c.len() implies jump_lands(#[trigger] c[i], i, c.len() as int) by {
                    if i < old(self).code().len() {
                        assert(c[i] == old(self).code()[i]);
                        assert(jump_lands(old(self).code()[i], i, old(self).code().len() as int));
                    }
                }
            }
        }
        let function = clone_function(&self.compiler.function);
        self.pop_compiler();
        function
    }

    /// After an error, skips tokens up to a statement boundary.
    fn synchronize(&mut self)
        requires
            old(self).wf(),
        ensures
            final(self).kept(old(self)),
            final(self).code() == old(self).code(),
            final(self).compiler == old(self).compiler,
            final(self).current.kind == TokenType::EoF || final(self).previous.kind == TokenType::Semicolon
                || starts_statement(final(self).current.kind),
            !final(self).panic_mode || final(self).diagnostics@.len() > old(self).diagnostics@.len(),
            old(self).current.kind == TokenType::EoF || old(self).previous.kind == TokenType::Semicolon
                || starts_statement(old(self).current.kind) ==> final(self).scanner == old(self).scanner
                && final(self).current == old(self).current && final(self).previous == old(self).previous
                && !final(self).panic_mode,
    {
        self.panic_mode = false;
        while self.current.kind != TokenType::EoF
            invariant
                self.kept(old(self)),
                self.code() == old(self).code(),
                self.compiler == old(self).compiler,
                !self.panic_mode || self.diagnostics@.len() > old(self).diagnostics@.len(),
                self.diagnostics@.len() >= old(self).diagnostics@.len(),
                old(self).current.kind == TokenType::EoF || old(self).previous.kind == TokenType::Semicolon
                    || starts_statement(old(self).current.kind) ==> self.scanner == old(self).scanner
                    && self.current == old(self).current && self.previous == old(self).previous
                    && !self.panic_mode,
            decreases self.remaining(),
        {
            if self.previous.kind == TokenType::Semicolon {
                return;
            }
            match self.current.kind {
                TokenType::Class | TokenType::Fun | TokenType::Var | TokenType::For
                | TokenType::If | TokenType::While | TokenType::Print | TokenType::Return => {
                    return;
                },
                _ => {},
            }
            self.advance();
        }
    }
}

/// The first index at or after `i` that does not hold a quote.
pub open spec fn skip_quotes_forward(s: Seq<u8>, i: int) -> int
    decreases s.len() - i,
{
    if 0 <= i < s.len() && s[i] == QUOTE {
        skip_quotes_forward(s, i + 1)
    } else {
        i
    }
}

/// Moving back from `j` (not past `lo`), the end of the text before trailing quotes.
pub open spec fn skip_quotes_backward(s: Seq<u8>, lo: int, j: int) -> int
    decreases j,
{
    if 0 <= lo < j <= s.len() && s[j - 1] == QUOTE {
        skip_quotes_backward(s, lo, j - 1)
    } else {
        j
    }
}

/// `s` without its leading and trailing quotes (all of them).
pub open spec fn trim_quotes(s: Seq<u8>) -> Seq<u8> {
    let i = skip_quotes_forward(s, 0);
    s.subrange(i, skip_quotes_backward(s, i, s.len() as int))
}

/// The text of a string literal: its lexeme without the surrounding quotes.
pub fn trim_quotes_exec(s: &Vec<u8>) -> (text: Vec<u8>)
    ensures
        text@ == trim_quotes(s@),
{
    let ghost t = s@;
    let mut i: usize = 0;
    while i < s.len() && s[i] == QUOTE
        invariant
            i <= t.len(),
            s@ == t,
            skip_quotes_forward(t, i as int) == skip_quotes_forward(t, 0),
        decreases t.len() - i,
    {
        i += 1;
    }
    let mut j: usize = s.len();
    while j > i && s[j - 1] == QUOTE
        invariant
            i <= j <= t.len(),
            s@ == t,
            i as int == skip_quotes_forward(t, 0),
            skip_quotes_backward(t, i as int, j as int) == skip_quotes_backward(t, i as int, t.len() as int),
        decreases j,
    {
        j -= 1;
    }
    let mut text: Vec<u8> = Vec::new();
    let mut k: usize = i;
    while k < j
        invariant
            i <= k <= j <= t.len(),
            s@ == t,
            text@ == t.subrange(i as int, k as int),
        decreases j - k,
    {
        text.push(s[k]);
        k += 1;
    }
    text
}

impl<'source> Parser<'source> {
    fn get_rule(&self, kind: TokenType) -> (rule: ParseRule)
        requires
            self.wf(),
        ensures
            rule == rule_for(kind),
    {
        self.rules[kind_index(kind)]
    }

    /// Parses an expression whose operators bind at least as tightly as `precedence`.
    fn parse_precedence(&mut self, precedence: Precedence)
        requires
            old(self).wf(),
            precedence.spec_rank() >= 1,
        ensures
            final(self).kept(old(self)),
            old(self).current.kind != TokenType::EoF ==> final(self).remaining() < old(self).remaining(),
            !final(self).had_error ==> final(self).code().len() > old(self).code().len(),
            old(self).top_level() ==> forall|fuel: nat|
                #[trigger] expression_at(old(self).source(), old(self).cursor(), precedence, old(self).n_constants(), fuel) matches Some(r)
                    ==> final(self).compiled_to(old(self), r),
        decreases old(self).remaining(), 0int,
    {
        let ghost s0 = *self;
        self.advance();
        let ghost s1 = *self;
        let prefix_rule = self.get_rule(self.previous.kind).prefix;
        proof {
            lemma_rules_well_formed(self.previous.kind);
        }
        match prefix_rule {
            None => {
                self.error("Expect expression.");
                proof {
                    if s0.top_level() {
                        assert forall|fuel: nat| #[trigger] expression_at(s0.source(), s0.cursor(), precedence, s0.n_constants(), fuel) is None by {
                            if fuel > 0 {
                                if next_cursor(s0.source(), s0.cursor().pos) is Some {
                                    let c1 = next_cursor(s0.source(), s0.cursor().pos).unwrap();
                                    assert(prefix_at(
                                        s0.source(),
                                        s0.cursor().kind,
                                        s0.cursor().text,
                                        c1,
                                        precedence.spec_le(Precedence::Assignment),
                                        s0.n_constants(),
                                        (fuel - 1) as nat,
                                    ) is None);
                                }
                            }
                        }
                    }
                }
            },
            Some(rule) => {
                let can_assign = precedence.le(Precedence::Assignment);
                proof {
                    lemma_literal_rule(self.previous.kind);
                }
                self.invoke_rule(rule, can_assign);
                let ghost s2 = *self;
                self.infix_rest(precedence, can_assign);
                proof {
                    if s0.top_level() {
                        assert forall|fuel: nat| #[trigger] expression_at(s0.source(), s0.cursor(), precedence, s0.n_constants(), fuel) is Some implies self.compiled_to(&s0, expression_at(s0.source(), s0.cursor(), precedence, s0.n_constants(), fuel).unwrap()) by {
                            let c1 = next_cursor(s0.source(), s0.cursor().pos).unwrap();
                            assert(s1.cursor() == c1);
                            let r1 = prefix_at(s0.source(), s0.cursor().kind, s0.cursor().text, c1, can_assign, s0.n_constants(), (fuel - 1) as nat).unwrap();
                            assert(s2.compiled_to(&s1, r1));
                            let r2 = infix_at(s0.source(), r1.next, precedence, can_assign, s0.n_constants() + r1.constants.len(), (fuel - 1) as nat).unwrap();
                            assert(self.compiled_to(&s2, r2));
                            lemma_compiled_joined(s1, s2, *self, r1, r2);
                            lemma_compiled_after_step(s0, s1, *self, crate::grammar::joined(r1, r2));
                        }
                    }
                }
            },
        }
    }

    /// The operators that follow the expression read so far, while they bind
    /// at least as tightly as `precedence`; then an `=` where assignment is
    /// allowed is an invalid target.
    fn infix_rest(&mut self, precedence: Precedence, can_assign: bool)
        requires
            old(self).wf(),
            precedence.spec_rank() >= 1,
        ensures
            final(self).kept(old(self)),
            old(self).top_level() ==> forall|fuel: nat|
                #[trigger] infix_at(old(self).source(), old(self).cursor(), precedence, can_assign, old(self).n_constants(), fuel) matches Some(r)
                    ==> final(self).compiled_to(old(self), r),
        decreases old(self).remaining(), 6int,
    {
        let ghost s0 = *self;
        proof {
            lemma_rules_well_formed(self.current.kind);
        }
        if precedence.le(self.get_rule(self.current.kind).precedence) {
            self.advance();
            let ghost s1 = *self;
            proof {
                lemma_rules_well_formed(self.previous.kind);
            }
            let infix_rule = self.get_rule(self.previous.kind).infix.unwrap();
            self.invoke_rule(infix_rule, can_assign);
            let ghost s2 = *self;
            self.infix_rest(precedence, can_assign);
            proof {
                if s0.top_level() {
                    assert forall|fuel: nat| #[trigger] infix_at(s0.source(), s0.cursor(), precedence, can_assign, s0.n_constants(), fuel) is Some implies self.compiled_to(&s0, infix_at(s0.source(), s0.cursor(), precedence, can_assign, s0.n_constants(), fuel).unwrap()) by {
                        let c1 = next_cursor(s0.source(), s0.cursor().pos).unwrap();
                        assert(s1.cursor() == c1);
                        let r1 = operator_at(s0.source(), s0.cursor().kind, c1, s0.n_constants(), (fuel - 1) as nat).unwrap();
                        assert(s2.compiled_to(&s1, r1));
                        let r2 = infix_at(s0.source(), r1.next, precedence, can_assign, s0.n_constants() + r1.constants.len(), (fuel - 1) as nat).unwrap();
                        assert(self.compiled_to(&s2, r2));
                        lemma_compiled_joined(s1, s2, *self, r1, r2);
                        lemma_compiled_after_step(s0, s1, *self, crate::grammar::joined(r1, r2));
                    }
                }
            }
        } else {
            let is_assignment = can_assign && self.matches(TokenType::Equal);
            if is_assignment {
                self.error("Invalid assignment target.");
            } else {
                proof {
                    lemma_compiled_nothing(*self);
                }
            }
        }
    }

    /// Runs the parse routine `f`.
    #[verifier::rlimit(60)]
    fn invoke_rule(&mut self, f: ParseFn, can_assign: bool)
        requires
            old(self).wf(),
        ensures
            final(self).kept(old(self)),
            f == ParseFn::Number ==> final(self).emitted_constant(
                old(self),
                ConstantModel::Number(old(self).previous.lexeme@),
            ),
            f == ParseFn::String ==> final(self).emitted_constant(
                old(self),
                ConstantModel::String(trim_quotes(old(self).previous.lexeme@)),
            ),
            f == ParseFn::Literal ==> final(self).emitted(old(self), literal_code(old(self).previous.kind)),
            f == ParseFn::Variable ==> final(self).used_variable(old(self), old(self).previous.lexeme@, can_assign),
            !final(self).had_error && (f == ParseFn::Literal ==> literal_code(old(self).previous.kind).len() > 0)
                ==> final(self).code().len() > old(self).code().len(),
            old(self).top_level() && rule_for(old(self).previous.kind).prefix == Some(f) ==> forall|fuel: nat|
                #[trigger] prefix_at(
                    old(self).source(),
                    old(self).previous.kind,
                    old(self).previous.lexeme@,
                    old(self).cursor(),
                    can_assign,
                    old(self).n_constants(),
                    fuel,
                ) matches Some(r) ==> final(self).compiled_to(old(self), r),
            old(self).top_level() && rule_for(old(self).previous.kind).infix == Some(f) ==> forall|fuel: nat|
                #[trigger] operator_at(old(self).source(), old(self).previous.kind, old(self).cursor(), old(self).n_constants(), fuel) matches Some(r)
                    ==> final(self).compiled_to(old(self), r),
        decreases old(self).remaining(), 5int,
    {
        let ghost s0 = *self;
        match f {
            ParseFn::Grouping => {
                self.grouping(can_assign);
                proof {
                    if s0.top_level() && rule_for(s0.previous.kind).prefix == Some(f) {
                        assert forall|fuel: nat| #[trigger] prefix_at(s0.source(), s0.previous.kind, s0.previous.lexeme@, s0.cursor(), can_assign, s0.n_constants(), fuel) is Some implies self.compiled_to(&s0, prefix_at(s0.source(), s0.previous.kind, s0.previous.lexeme@, s0.cursor(), can_assign, s0.n_constants(), fuel).unwrap()) by {
                            let e = expression_at(s0.source(), s0.cursor(), Precedence::Assignment, s0.n_constants(), (fuel - 1) as nat);
                            assert(e is Some);
                        }
                    }
                }
            },
            ParseFn::Call => {
                self.call(can_assign);
                proof {
                    if s0.top_level() && rule_for(s0.previous.kind).infix == Some(f) {
                        assert forall|fuel: nat| #[trigger] operator_at(s0.source(), s0.previous.kind, s0.cursor(), s0.n_constants(), fuel) is Some implies self.compiled_to(&s0, operator_at(s0.source(), s0.previous.kind, s0.cursor(), s0.n_constants(), fuel).unwrap()) by {
                            let a = arguments_at(s0.source(), s0.cursor(), s0.n_constants(), (fuel - 1) as nat);
                            assert(a is Some);
                        }
                    }
                }
            },
            ParseFn::Unary => {
                self.unary(can_assign);
                proof {
                    if s0.top_level() && rule_for(s0.previous.kind).prefix == Some(f) {
                        assert forall|fuel: nat| #[trigger] prefix_at(s0.source(), s0.previous.kind, s0.previous.lexeme@, s0.cursor(), can_assign, s0.n_constants(), fuel) is Some implies self.compiled_to(&s0, prefix_at(s0.source(), s0.previous.kind, s0.previous.lexeme@, s0.cursor(), can_assign, s0.n_constants(), fuel).unwrap()) by {
                            let e = expression_at(s0.source(), s0.cursor(), Precedence::Unary, s0.n_constants(), (fuel - 1) as nat);
                            assert(e is Some);
                        }
                    }
                }
            },
            ParseFn::Binary => {
                self.binary(can_assign);
                proof {
                    if s0.top_level() && rule_for(s0.previous.kind).infix == Some(f) {
                        assert forall|fuel: nat| #[trigger] operator_at(s0.source(), s0.previous.kind, s0.cursor(), s0.n_constants(), fuel) is Some implies self.compiled_to(&s0, operator_at(s0.source(), s0.previous.kind, s0.cursor(), s0.n_constants(), fuel).unwrap()) by {
                            let e = expression_at(s0.source(), s0.cursor(), rule_for(s0.previous.kind).precedence.spec_next(), s0.n_constants(), (fuel - 1) as nat);
                            assert(e is Some);
                        }
                    }
                }
            },
            ParseFn::Variable => {
                self.variable(can_assign);
                proof {
                    if s0.top_level() && rule_for(s0.previous.kind).prefix == Some(f) {
                        assert forall|fuel: nat| #[trigger] prefix_at(s0.source(), s0.previous.kind, s0.previous.lexeme@, s0.cursor(), can_assign, s0.n_constants(), fuel) is Some implies self.compiled_to(&s0, prefix_at(s0.source(), s0.previous.kind, s0.previous.lexeme@, s0.cursor(), can_assign, s0.n_constants(), fuel).unwrap()) by {
                            reveal_with_fuel(resolve_spec, 2);
                            assert(self.code() =~= s0.code() + prefix_at(s0.source(), s0.previous.kind, s0.previous.lexeme@, s0.cursor(), can_assign, s0.n_constants(), fuel).unwrap().code);
                            assert(self.compiler.function.chunk@.constants =~= s0.compiler.function.chunk@.constants + prefix_at(s0.source(), s0.previous.kind, s0.previous.lexeme@, s0.cursor(), can_assign, s0.n_constants(), fuel).unwrap().constants);
                        }
                    }
                }
            },
            ParseFn::String => {
                self.string(can_assign);
                proof {
                    if s0.top_level() && rule_for(s0.previous.kind).prefix == Some(f) {
                        assert forall|fuel: nat| #[trigger] prefix_at(s0.source(), s0.previous.kind, s0.previous.lexeme@, s0.cursor(), can_assign, s0.n_constants(), fuel) is Some implies self.compiled_to(&s0, prefix_at(s0.source(), s0.previous.kind, s0.previous.lexeme@, s0.cursor(), can_assign, s0.n_constants(), fuel).unwrap()) by {
                            assert(self.code() =~= s0.code() + prefix_at(s0.source(), s0.previous.kind, s0.previous.lexeme@, s0.cursor(), can_assign, s0.n_constants(), fuel).unwrap().code);
                            assert(self.compiler.function.chunk@.constants =~= s0.compiler.function.chunk@.constants + prefix_at(s0.source(), s0.previous.kind, s0.previous.lexeme@, s0.cursor(), can_assign, s0.n_constants(), fuel).unwrap().constants);
                        }
                    }
                }
            },
            ParseFn::Number => {
                self.number(can_assign);
                proof {
                    if s0.top_level() && rule_for(s0.previous.kind).prefix == Some(f) {
                        assert forall|fuel: nat| #[trigger] prefix_at(s0.source(), s0.previous.kind, s0.previous.lexeme@, s0.cursor(), can_assign, s0.n_constants(), fuel) is Some implies self.compiled_to(&s0, prefix_at(s0.source(), s0.previous.kind, s0.previous.lexeme@, s0.cursor(), can_assign, s0.n_constants(), fuel).unwrap()) by {
                            assert(self.code() =~= s0.code() + prefix_at(s0.source(), s0.previous.kind, s0.previous.lexeme@, s0.cursor(), can_assign, s0.n_constants(), fuel).unwrap().code);
                            assert(self.compiler.function.chunk@.constants =~= s0.compiler.function.chunk@.constants + prefix_at(s0.source(), s0.previous.kind, s0.previous.lexeme@, s0.cursor(), can_assign, s0.n_constants(), fuel).unwrap().constants);
                        }
                    }
                }
            },
            ParseFn::Literal => {
                self.literal(can_assign);
                proof {
                    if s0.top_level() && rule_for(s0.previous.kind).prefix == Some(f) {
                        assert forall|fuel: nat| #[trigger] prefix_at(s0.source(), s0.previous.kind, s0.previous.lexeme@, s0.cursor(), can_assign, s0.n_constants(), fuel) is Some implies self.compiled_to(&s0, prefix_at(s0.source(), s0.previous.kind, s0.previous.lexeme@, s0.cursor(), can_assign, s0.n_constants(), fuel).unwrap()) by {
                            assert(self.code() =~= s0.code() + prefix_at(s0.source(), s0.previous.kind, s0.previous.lexeme@, s0.cursor(), can_assign, s0.n_constants(), fuel).unwrap().code);
                            assert(self.compiler.function.chunk@.constants =~= s0.compiler.function.chunk@.constants + prefix_at(s0.source(), s0.previous.kind, s0.previous.lexeme@, s0.cursor(), can_assign, s0.n_constants(), fuel).unwrap().constants);
                        }
                    }
                }
            },
            ParseFn::And => self.and(can_assign),
            ParseFn::Or => self.or(can_assign),
        }
    }

    fn expression(&mut self)
        requires
            old(self).wf(),
        ensures
            final(self).kept(old(self)),
            old(self).current.kind != TokenType::EoF ==> final(self).remaining() < old(self).remaining(),
            !final(self).had_error ==> final(self).code().len() > old(self).code().len(),
            old(self).top_level() ==> forall|fuel: nat|
                #[trigger] expression_at(old(self).source(), old(self).cursor(), Precedence::Assignment, old(self).n_constants(), fuel) matches Some(r)
                    ==> final(self).compiled_to(old(self), r),
        decreases old(self).remaining(), 1int,
    {
        self.parse_precedence(Precedence::Assignment)
    }

    fn grouping(&mut self, _can_assign: bool)
        requires
            old(self).wf(),
        ensures
            final(self).kept(old(self)),
            !final(self).had_error ==> final(self).code().len() > old(self).code().len(),
            final(self).previous.kind == TokenType::RightParen || final(self).had_error,
            old(self).current.kind != TokenType::EoF ==> final(self).remaining() < old(self).remaining(),
            old(self).top_level() ==> forall|fuel: nat|
                #[trigger] expression_at(old(self).source(), old(self).cursor(), Precedence::Assignment, old(self).n_constants(), fuel) matches Some(r)
                    ==> (r.next.kind == TokenType::RightParen ==> (next_cursor(old(self).source(), r.next.pos) matches Some(c2)
                    ==> final(self).compiled_to(old(self), Compiled { next: c2, ..r }))),
        decreases old(self).remaining(), 2int,
    {
        let ghost s0 = *self;
        self.expression();
        let ghost s1 = *self;
        self.consume(TokenType::RightParen, "Expect ')' after expression.");
        proof {
            if s0.top_level() {
                assert forall|fuel: nat| #[trigger] expression_at(s0.source(), s0.cursor(), Precedence::Assignment, s0.n_constants(), fuel) is Some
                    && expression_at(s0.source(), s0.cursor(), Precedence::Assignment, s0.n_constants(), fuel).unwrap().next.kind == TokenType::RightParen
                    && next_cursor(s0.source(), expression_at(s0.source(), s0.cursor(), Precedence::Assignment, s0.n_constants(), fuel).unwrap().next.pos) is Some
                    implies self.compiled_to(&s0, Compiled {
                        next: next_cursor(s0.source(), expression_at(s0.source(), s0.cursor(), Precedence::Assignment, s0.n_constants(), fuel).unwrap().next.pos).unwrap(),
                        ..expression_at(s0.source(), s0.cursor(), Precedence::Assignment, s0.n_constants(), fuel).unwrap()
                    }) by {
                    let r = expression_at(s0.source(), s0.cursor(), Precedence::Assignment, s0.n_constants(), fuel).unwrap();
                    assert(s1.compiled_to(&s0, r));
                    lemma_compiled_then_step(s0, s1, *self, r);
                }
            }
        }
    }

    fn call(&mut self, _can_assign: bool)
        requires
            old(self).wf(),
        ensures
            final(self).kept(old(self)),
            final(self).code().len() > old(self).code().len(),
            final(self).code().last() is Call,
            old(self).current.kind == TokenType::RightParen ==> final(self).code() == old(self).code().push(
                Instruction::Call(0),
            ),
            final(self).previous.kind == TokenType::RightParen || final(self).had_error,
            old(self).top_level() ==> forall|fuel: nat|
                #[trigger] arguments_at(old(self).source(), old(self).cursor(), old(self).n_constants(), fuel) matches Some((r, k))
                    ==> final(self).compiled_to(
                    old(self),
                    Compiled { code: r.code.push(Instruction::Call(k as usize)), ..r },
                ),
        decreases old(self).remaining(), 4int,
    {
        let ghost s0 = *self;
        let arg_count = self.argument_list();
        let ghost mid = *self;
        self.emit_instruction(Instruction::Call(arg_count));
        proof {
            lemma_emitted_advances(mid, *self, seq![Instruction::Call(arg_count)]);
            if s0.top_level() {
                assert forall|fuel: nat| #[trigger] arguments_at(s0.source(), s0.cursor(), s0.n_constants(), fuel) is Some
                    implies self.compiled_to(
                    &s0,
                    Compiled {
                        code: arguments_at(s0.source(), s0.cursor(), s0.n_constants(), fuel).unwrap().0.code.push(
                            Instruction::Call(arguments_at(s0.source(), s0.cursor(), s0.n_constants(), fuel).unwrap().1 as usize),
                        ),
                        ..arguments_at(s0.source(), s0.cursor(), s0.n_constants(), fuel).unwrap().0
                    },
                ) by {
                    let r = arguments_at(s0.source(), s0.cursor(), s0.n_constants(), fuel).unwrap().0;
                    lemma_compiled_then_emitted(s0, mid, *self, r, seq![Instruction::Call(arg_count)]);
                    assert(r.code + seq![Instruction::Call(arg_count)] =~= r.code.push(Instruction::Call(arg_count)));
                }
            }
        }
    }

    /// Parses the arguments of a call; returns how many there were.
    fn argument_list(&mut self) -> (arg_count: usize)
        requires
            old(self).wf(),
        ensures
            final(self).kept(old(self)),
            old(self).current.kind == TokenType::RightParen ==> arg_count == 0 && final(self).code()
                == old(self).code() && final(self).stepped(old(self)),
            old(self).current.kind != TokenType::RightParen ==> arg_count >= 1,
            !final(self).had_error ==> final(self).code().len() >= old(self).code().len() + arg_count,
            final(self).previous.kind == TokenType::RightParen || final(self).had_error,
            old(self).top_level() ==> forall|fuel: nat|
                #[trigger] arguments_at(old(self).source(), old(self).cursor(), old(self).n_constants(), fuel) matches Some((r, k))
                    ==> final(self).compiled_to(old(self), r) && arg_count == k,
        decreases old(self).remaining(), 3int,
    {
        let ghost s0 = *self;
        let mut arg_count: usize = 0;
        if !self.check(TokenType::RightParen) {
            arg_count = self.more_arguments(0);
        }
        let ghost s1 = *self;
        self.consume(TokenType::RightParen, "Expected ')' after arguments.");
        proof {
            if s0.top_level() {
                assert forall|fuel: nat| #[trigger] arguments_at(s0.source(), s0.cursor(), s0.n_constants(), fuel) is Some
                    implies self.compiled_to(&s0, arguments_at(s0.source(), s0.cursor(), s0.n_constants(), fuel).unwrap().0)
                    && arg_count == arguments_at(s0.source(), s0.cursor(), s0.n_constants(), fuel).unwrap().1 by {
                    if s0.current.kind == TokenType::RightParen {
                        lemma_compiled_nothing(*self);
                        lemma_compiled_after_step(s0, *self, *self, crate::grammar::nothing_at(self.cursor()));
                    } else {
                        let r = more_arguments_at(s0.source(), s0.cursor(), s0.n_constants(), 0, (fuel - 1) as nat).unwrap().0;
                        assert(s1.compiled_to(&s0, r));
                        lemma_compiled_then_step(s0, s1, *self, r);
                    }
                }
            }
        }
        arg_count
    }

    /// The arguments from the current token on, `count` of them already read;
    /// returns how many there are in all.
    fn more_arguments(&mut self, count: usize) -> (arg_count: usize)
        requires
            old(self).wf(),
            count + old(self).remaining() <= i32::MAX,
        ensures
            final(self).kept(old(self)),
            arg_count >= count + 1,
            !final(self).had_error ==> final(self).code().len() >= old(self).code().len() + arg_count - count,
            old(self).top_level() ==> forall|fuel: nat|
                #[trigger] more_arguments_at(old(self).source(), old(self).cursor(), old(self).n_constants(), count as nat, fuel) matches Some((r, k))
                    ==> final(self).compiled_to(old(self), r) && arg_count == k,
        decreases old(self).remaining(), 2int,
    {
        let ghost s0 = *self;
        let ghost count0 = count;
        self.expression();
        let ghost s1 = *self;
        if count == MAX_PARAMS {
            self.error("Can't have more than 255 arguments.");
        }
        let count = count + 1;
        if self.matches(TokenType::Comma) {
            let ghost s2 = *self;
            let k = self.more_arguments(count);
            proof {
                if s0.top_level() {
                    assert forall|fuel: nat| #[trigger] more_arguments_at(s0.source(), s0.cursor(), s0.n_constants(), count0 as nat, fuel) is Some
                        implies self.compiled_to(&s0, more_arguments_at(s0.source(), s0.cursor(), s0.n_constants(), count0 as nat, fuel).unwrap().0)
                        && k == more_arguments_at(s0.source(), s0.cursor(), s0.n_constants(), count0 as nat, fuel).unwrap().1 by {
                        let r1 = expression_at(s0.source(), s0.cursor(), Precedence::Assignment, s0.n_constants(), (fuel - 1) as nat).unwrap();
                        assert(s1.compiled_to(&s0, r1));
                        let r2 = more_arguments_at(s0.source(), s2.cursor(), s2.n_constants(), count as nat, (fuel - 1) as nat).unwrap().0;
                        assert(self.compiled_to(&s2, r2));
                        lemma_compiled_after_step(s1, s2, *self, r2);
                        lemma_compiled_joined(s0, s1, *self, r1, r2);
                    }
                }
            }
            k
        } else {
            proof {
                if s0.top_level() {
                    assert forall|fuel: nat| #[trigger] more_arguments_at(s0.source(), s0.cursor(), s0.n_constants(), count0 as nat, fuel) is Some
                        implies self.compiled_to(&s0, more_arguments_at(s0.source(), s0.cursor(), s0.n_constants(), count0 as nat, fuel).unwrap().0)
                        && count == more_arguments_at(s0.source(), s0.cursor(), s0.n_constants(), count0 as nat, fuel).unwrap().1 by {
                        let r1 = expression_at(s0.source(), s0.cursor(), Precedence::Assignment, s0.n_constants(), (fuel - 1) as nat).unwrap();
                        assert(s1.compiled_to(&s0, r1));
                    }
                }
            }
            count
        }
    }

    fn literal(&mut self, _can_assign: bool)
        requires
            old(self).wf(),
        ensures
            final(self).kept(old(self)),
            final(self).wf(),
            final(self).emitted(old(self), literal_code(old(self).previous.kind)),
    {
        match self.previous.kind {
            TokenType::False => {
                self.emit_instruction(Instruction::False);
                proof { lemma_emitted_advances(*old(self), *self, seq![Instruction::False]); }
            },
            TokenType::True => {
                self.emit_instruction(Instruction::True);
                proof { lemma_emitted_advances(*old(self), *self, seq![Instruction::True]); }
            },
            TokenType::Nil => {
                self.emit_instruction(Instruction::Nil);
                proof { lemma_emitted_advances(*old(self), *self, seq![Instruction::Nil]); }
            },
            _ => {},
        }
    }

    fn number(&mut self, _can_assign: bool)
        requires
            old(self).wf(),
        ensures
            final(self).emitted_constant(old(self), ConstantModel::Number(old(self).previous.lexeme@)),
    {
        let text = copy_bytes(&self.previous.lexeme);
        self.emit_constant(Constant::Number(text));
    }

    fn string(&mut self, _can_assign: bool)
        requires
            old(self).wf(),
        ensures
            final(self).emitted_constant(
                old(self),
                ConstantModel::String(trim_quotes(old(self).previous.lexeme@)),
            ),
    {
        let text = trim_quotes_exec(&self.previous.lexeme);
        self.emit_constant(Constant::String(text));
    }

    fn variable(&mut self, can_assign: bool)
        requires
            old(self).wf(),
        ensures
            final(self).used_variable(old(self), old(self).previous.lexeme@, can_assign),
        decreases old(self).remaining(), 3int,
    {
        let name = self.previous.duplicate();
        self.named_variable(name, can_assign);
    }

    /// Emits a read of the variable `name`, or an assignment to it.
    fn named_variable(&mut self, name: Token, can_assign: bool)
        requires
            old(self).wf(),
        ensures
            final(self).used_variable(old(self), name.lexeme@, can_assign),
        decreases old(self).remaining(), 2int,
    {
        let get_op;
        let set_op;
        match self.resolve_local(&name) {
            Some(arg) => {
                get_op = Instruction::GetLocal(arg);
                set_op = Instruction::SetLocal(arg);
            },
            None => {
                let arg = self.identifier_constant(&name);
                get_op = Instruction::GetGlobal(arg);
                set_op = Instruction::SetGlobal(arg);
            },
        }
        if can_assign && self.matches(TokenType::Equal) {
            self.expression();
            let ghost mid = *self;
            self.emit_instruction(set_op);
            proof {
                lemma_emitted_advances(mid, *self, seq![set_op]);
            }
        } else {
            let ghost mid = *self;
            self.emit_instruction(get_op);
            proof {
                lemma_emitted_advances(mid, *self, seq![get_op]);
                assert(self.code() =~= mid.code().push(get_op));
            }
        }
    }

    fn unary(&mut self, _can_assign: bool)
        requires
            old(self).wf(),
        ensures
            final(self).kept(old(self)),
            old(self).previous.kind == TokenType::Minus ==> final(self).code().last() == Instruction::Negate,
            old(self).previous.kind == TokenType::Bang ==> final(self).code().last() == Instruction::Not,
            !final(self).had_error ==> final(self).code().len() > old(self).code().len(),
            old(self).current.kind != TokenType::EoF ==> final(self).remaining() < old(self).remaining(),
            old(self).top_level() && old(self).previous.kind == TokenType::Minus ==> forall|fuel: nat|
                #[trigger] expression_at(old(self).source(), old(self).cursor(), Precedence::Unary, old(self).n_constants(), fuel) matches Some(r)
                    ==> final(self).compiled_to(old(self), Compiled { code: r.code.push(Instruction::Negate), ..r }),
            old(self).top_level() && old(self).previous.kind == TokenType::Bang ==> forall|fuel: nat|
                #[trigger] expression_at(old(self).source(), old(self).cursor(), Precedence::Unary, old(self).n_constants(), fuel) matches Some(r)
                    ==> final(self).compiled_to(old(self), Compiled { code: r.code.push(Instruction::Not), ..r }),
        decreases old(self).remaining(), 2int,
    {
        let ghost s0 = *self;
        let operator_type = self.previous.kind;
        self.parse_precedence(Precedence::Unary);
        let ghost mid = *self;
        match operator_type {
            TokenType::Minus => {
                self.emit_instruction(Instruction::Negate);
                proof {
                    lemma_emitted_advances(mid, *self, seq![Instruction::Negate]);
                    if s0.top_level() {
                        assert forall|fuel: nat| #[trigger] expression_at(s0.source(), s0.cursor(), Precedence::Unary, s0.n_constants(), fuel) is Some
                            implies self.compiled_to(&s0, Compiled { code: expression_at(s0.source(), s0.cursor(), Precedence::Unary, s0.n_constants(), fuel).unwrap().code.push(Instruction::Negate), ..expression_at(s0.source(), s0.cursor(), Precedence::Unary, s0.n_constants(), fuel).unwrap() }) by {
                            let r = expression_at(s0.source(), s0.cursor(), Precedence::Unary, s0.n_constants(), fuel).unwrap();
                            assert(mid.compiled_to(&s0, r));
                            lemma_compiled_then_emitted(s0, mid, *self, r, seq![Instruction::Negate]);
                            assert(r.code + seq![Instruction::Negate] =~= r.code.push(Instruction::Negate));
                        }
                    }
                }
            },
            TokenType::Bang => {
                self.emit_instruction(Instruction::Not);
                proof {
                    lemma_emitted_advances(mid, *self, seq![Instruction::Not]);
                    if s0.top_level() {
                        assert forall|fuel: nat| #[trigger] expression_at(s0.source(), s0.cursor(), Precedence::Unary, s0.n_constants(), fuel) is Some
                            implies self.compiled_to(&s0, Compiled { code: expression_at(s0.source(), s0.cursor(), Precedence::Unary, s0.n_constants(), fuel).unwrap().code.push(Instruction::Not), ..expression_at(s0.source(), s0.cursor(), Precedence::Unary, s0.n_constants(), fuel).unwrap() }) by {
                            let r = expression_at(s0.source(), s0.cursor(), Precedence::Unary, s0.n_constants(), fuel).unwrap();
                            assert(mid.compiled_to(&s0, r));
                            lemma_compiled_then_emitted(s0, mid, *self, r, seq![Instruction::Not]);
                            assert(r.code + seq![Instruction::Not] =~= r.code.push(Instruction::Not));
                        }
                    }
                }
            },
            _ => {},
        }
    }

    #[verifier::rlimit(60)]
    fn binary(&mut self, _can_assign: bool)
        requires
            old(self).wf(),
        ensures
            final(self).kept(old(self)),
            final(self).code().len() >= old(self).code().len() + binary_code(old(self).previous.kind).len(),
            final(self).code().subrange(
                final(self).code().len() - binary_code(old(self).previous.kind).len(),
                final(self).code().len() as int,
            ) == binary_code(old(self).previous.kind),
            !final(self).had_error ==> final(self).code().len() > old(self).code().len() + binary_code(
                old(self).previous.kind,
            ).len(),
            old(self).current.kind != TokenType::EoF ==> final(self).remaining() < old(self).remaining(),
            old(self).top_level() && binary_code(old(self).previous.kind).len() > 0 ==> forall|fuel: nat|
                #[trigger] expression_at(
                    old(self).source(),
                    old(self).cursor(),
                    rule_for(old(self).previous.kind).precedence.spec_next(),
                    old(self).n_constants(),
                    fuel,
                ) matches Some(r) ==> final(self).compiled_to(
                    old(self),
                    Compiled { code: r.code + binary_code(old(self).previous.kind), ..r },
                ),
        decreases old(self).remaining(), 2int,
    {
        let ghost s0 = *self;
        let operator_type = self.previous.kind;
        let rule = self.get_rule(operator_type);
        proof {
            lemma_rules_well_formed(operator_type);
        }
        self.parse_precedence(rule.precedence.next());
        let ghost mid = *self;
        match operator_type {
            TokenType::BangEqual => {
                self.emit_instructions(Instruction::Equal, Instruction::Not);
                proof { lemma_emitted_advances(mid, *self, seq![Instruction::Equal, Instruction::Not]); }
            },
            TokenType::EqualEqual => {
                self.emit_instruction(Instruction::Equal);
                proof { lemma_emitted_advances(mid, *self, seq![Instruction::Equal]); }
            },
            TokenType::Greater => {
                self.emit_instruction(Instruction::Greater);
                proof { lemma_emitted_advances(mid, *self, seq![Instruction::Greater]); }
            },
            TokenType::GreaterEqual => {
                self.emit_instructions(Instruction::Less, Instruction::Not);
                proof { lemma_emitted_advances(mid, *self, seq![Instruction::Less, Instruction::Not]); }
            },
            TokenType::Less => {
                self.emit_instruction(Instruction::Less);
                proof { lemma_emitted_advances(mid, *self, seq![Instruction::Less]); }
            },
            TokenType::LessEqual => {
                self.emit_instructions(Instruction::Greater, Instruction::Not);
                proof { lemma_emitted_advances(mid, *self, seq![Instruction::Greater, Instruction::Not]); }
            },
            TokenType::Plus => {
                self.emit_instruction(Instruction::Add);
                proof { lemma_emitted_advances(mid, *self, seq![Instruction::Add]); }
            },
            TokenType::Minus => {
                self.emit_instruction(Instruction::Subtract);
                proof { lemma_emitted_advances(mid, *self, seq![Instruction::Subtract]); }
            },
            TokenType::Star => {
                self.emit_instruction(Instruction::Multiply);
                proof { lemma_emitted_advances(mid, *self, seq![Instruction::Multiply]); }
            },
            TokenType::Slash => {
                self.emit_instruction(Instruction::Divide);
                proof { lemma_emitted_advances(mid, *self, seq![Instruction::Divide]); }
            },
            _ => {},
        }
        proof {
            if s0.top_level() && binary_code(operator_type).len() > 0 {
                assert(self.emitted(&mid, binary_code(operator_type)) && self.advanced_from(&mid));
                assert forall|fuel: nat| #[trigger] expression_at(s0.source(), s0.cursor(), rule_for(operator_type).precedence.spec_next(), s0.n_constants(), fuel) is Some
                    implies self.compiled_to(&s0, Compiled { code: expression_at(s0.source(), s0.cursor(), rule_for(operator_type).precedence.spec_next(), s0.n_constants(), fuel).unwrap().code + binary_code(operator_type), ..expression_at(s0.source(), s0.cursor(), rule_for(operator_type).precedence.spec_next(), s0.n_constants(), fuel).unwrap() }) by {
                    let r = expression_at(s0.source(), s0.cursor(), rule_for(operator_type).precedence.spec_next(), s0.n_constants(), fuel).unwrap();
                    assert(mid.compiled_to(&s0, r));
                    lemma_compiled_then_emitted(s0, mid, *self, r, binary_code(operator_type));
                }
            }
        }
    }

    fn and(&mut self, _can_assign: bool)
        requires
            old(self).wf(),
        ensures
            final(self).kept(old(self)),
            final(self).code().len() >= old(self).code().len() + 2,
            final(self).code()[old(self).code().len() as int] is JumpIfFalse,
            final(self).code()[old(self).code().len() + 1int] == Instruction::Pop,
            final(self).code().len() - old(self).code().len() - 1 <= 65535 ==> final(self).code()[old(
                self,
            ).code().len() as int] == Instruction::JumpIfFalse(
                (final(self).code().len() - old(self).code().len() - 1) as usize,
            ),
        decreases old(self).remaining(), 2int,
    {
        let end_jump = self.emit_jump(true);
        let ghost mid = *self;
        self.emit_instruction(Instruction::Pop);
        proof { lemma_emitted_advances(mid, *self, seq![Instruction::Pop]); }
        self.parse_precedence(Precedence::And);
        self.patch_jump(end_jump);
    }

    fn or(&mut self, _can_assign: bool)
        requires
            old(self).wf(),
        ensures
            final(self).kept(old(self)),
            final(self).code().len() >= old(self).code().len() + 3,
            final(self).code()[old(self).code().len() as int] == Instruction::JumpIfFalse(1),
            final(self).code()[old(self).code().len() + 1int] is Jump,
            final(self).code()[old(self).code().len() + 2int] == Instruction::Pop,
            final(self).code().len() - old(self).code().len() - 2 <= 65535 ==> final(self).code()[old(
                self,
            ).code().len() + 1int] == Instruction::Jump(
                (final(self).code().len() - old(self).code().len() - 2) as usize,
            ),
        decreases old(self).remaining(), 2int,
    {
        let else_jump = self.emit_jump(true);
        let end_jump = self.emit_jump(false);
        self.patch_jump(else_jump);
        let ghost mid = *self;
        self.emit_instruction(Instruction::Pop);
        proof { lemma_emitted_advances(mid, *self, seq![Instruction::Pop]); }
        self.parse_precedence(Precedence::Or);
        self.patch_jump(end_jump);
    }
}

impl<'source> Parser<'source> {
    fn expression_statement(&mut self)
        requires
            old(self).wf(),
        ensures
            final(self).kept(old(self)),
            final(self).code().last() == Instruction::Pop,
            !final(self).had_error ==> final(self).code().len() > old(self).code().len() + 1,
            final(self).previous.kind == TokenType::Semicolon || final(self).had_error,
            old(self).current.kind != TokenType::EoF ==> final(self).remaining() < old(self).remaining(),
        decreases old(self).remaining(), 2int,
    {
        self.expression();
        self.consume(TokenType::Semicolon, "Expected ';' after expression.");
        let ghost mid = *self;
        self.emit_instruction(Instruction::Pop);
        proof { lemma_emitted_advances(mid, *self, seq![Instruction::Pop]); }
    }

    fn print_statement(&mut self)
        requires
            old(self).wf(),
        ensures
            final(self).kept(old(self)),
            final(self).code().last() == Instruction::Print,
            !final(self).had_error ==> final(self).code().len() > old(self).code().len() + 1,
            final(self).previous.kind == TokenType::Semicolon || final(self).had_error,
        decreases old(self).remaining(), 2int,
    {
        self.expression();
        self.consume(TokenType::Semicolon, "Expected ';' after value.");
        let ghost mid = *self;
        self.emit_instruction(Instruction::Print);
        proof { lemma_emitted_advances(mid, *self, seq![Instruction::Print]); }
    }

    fn return_statement(&mut self)
        requires
            old(self).wf(),
        ensures
            final(self).kept(old(self)),
            final(self).code().last() == Instruction::Return,
            old(self).compiler.function_type == FunctionType::Script ==> final(self).had_error,
            old(self).current.kind == TokenType::Semicolon ==> final(self).code() == old(self).code()
                + seq![Instruction::Nil, Instruction::Return],
            final(self).previous.kind == TokenType::Semicolon || final(self).had_error,
        decreases old(self).remaining(), 2int,
    {
        if self.compiler.function_type == FunctionType::Script {
            self.error("Can't return from top-level code.");
        }
        if self.matches(TokenType::Semicolon) {
            let ghost mid = *self;
            self.emit_return();
            proof { lemma_emitted_advances(mid, *self, seq![Instruction::Nil, Instruction::Return]); }
        } else {
            self.expression();
            self.consume(TokenType::Semicolon, "Expected ';' after expression.");
            let ghost mid = *self;
            self.emit_instruction(Instruction::Return);
            proof { lemma_emitted_advances(mid, *self, seq![Instruction::Return]); }
        }
    }

    fn var_declaration(&mut self)
        requires
            old(self).wf(),
        ensures
            final(self).advanced_from(old(self)),
            final(self).previous.kind == TokenType::Semicolon || final(self).had_error,
            !final(self).had_error ==> old(self).current.kind == TokenType::Identifier,
            old(self).compiler.scope_depth == 0 && !final(self).had_error ==> {
                &&& final(self).code().last() == Instruction::DefineGlobal(
                    old(self).compiler.function.chunk@.constants.len() as usize,
                )
                &&& final(self).compiler.function.chunk@.constants[old(
                    self,
                ).compiler.function.chunk@.constants.len() as int] == ConstantModel::String(
                    old(self).current.lexeme@,
                )
            },
            old(self).compiler.scope_depth > 0 && !final(self).had_error ==> {
                &&& final(self).compiler.locals@.len() == old(self).compiler.locals@.len() + 1
                &&& final(self).compiler.locals@.last().name.lexeme@ == old(self).current.lexeme@
                &&& final(self).compiler.locals@.last().depth == old(self).compiler.scope_depth
            },
        decreases old(self).remaining(), 2int,
    {
        let index = self.parse_variable("Expected variable name.");
        if self.matches(TokenType::Equal) {
            self.expression();
        } else {
            let ghost mid = *self;
            self.emit_instruction(Instruction::Nil);
            proof { lemma_emitted_advances(mid, *self, seq![Instruction::Nil]); }
        }
        self.consume(TokenType::Semicolon, "Expected ';' after variable declaration.");
        self.define_variable(index);
    }

    fn block(&mut self)
        requires
            old(self).wf(),
        ensures
            final(self).advanced_from(old(self)),
            final(self).previous.kind == TokenType::RightBrace || final(self).had_error,
            old(self).current.kind != TokenType::EoF ==> final(self).remaining() < old(self).remaining(),
        decreases old(self).remaining(), 5int,
    {
        while !self.check(TokenType::RightBrace) && !self.check(TokenType::EoF)
            invariant
                self.advanced_from(old(self)),
            decreases self.remaining(),
        {
            self.declaration();
        }
        self.consume(TokenType::RightBrace, "Expected '}' after block.");
    }

    /// `if`: the condition, a conditional jump over the then-branch (and its
    /// `Pop`), the then-branch, a jump over the else-branch, a `Pop`, and the
    /// else-branch.
    #[verifier::rlimit(60)]
    fn if_statement(&mut self)
        requires
            old(self).wf(),
        ensures
            final(self).advanced_from(old(self)),
            old(self).current.kind != TokenType::EoF ==> final(self).remaining() < old(self).remaining(),
            !final(self).had_error ==> exists|t: int, e: int|
                {
                    &&& old(self).code().len() <= t
                    &&& t + 2 <= e
                    &&& e + 2 <= final(self).code().len()
                    &&& #[trigger] final(self).code()[t] == Instruction::JumpIfFalse((e - t) as usize)
                    &&& final(self).code()[t + 1] == Instruction::Pop
                    &&& #[trigger] final(self).code()[e] == Instruction::Jump(
                        (final(self).code().len() - e - 1) as usize,
                    )
                    &&& final(self).code()[e + 1] == Instruction::Pop
                },
        decreases old(self).remaining(), 4int,
    {
        self.consume(TokenType::LeftParen, "Expected '(' after 'if'.");
        self.expression();
        self.consume(TokenType::RightParen, "Expected ')' after condition.");
        let then_jump = self.emit_jump(true);
        let ghost mid = *self;
        self.emit_instruction(Instruction::Pop);
        proof { lemma_emitted_advances(mid, *self, seq![Instruction::Pop]); }
        let ghost s1 = *self;
        self.statement();
        let else_jump = self.emit_jump(false);
        self.patch_jump(then_jump);
        let ghost s2 = *self;
        let ghost mid = *self;
        self.emit_instruction(Instruction::Pop);
        proof { lemma_emitted_advances(mid, *self, seq![Instruction::Pop]); }
        let ghost s3 = *self;
        if self.matches(TokenType::Else) {
            self.statement();
        }
        let ghost s4 = *self;
        self.patch_jump(else_jump);
        proof {
            if !self.had_error {
                let t = then_jump as int;
                let e = else_jump as int;
                assert(s1.code()[t + 1] == Instruction::Pop);
                assert(s2.code()[t] == Instruction::JumpIfFalse((e - t) as usize));
                assert(s2.code()[t + 1] == Instruction::Pop);
                assert(s3.code()[t] == s2.code()[t]);
                assert(s3.code()[t + 1] == s2.code()[t + 1]);
                assert(s3.code()[e + 1] == Instruction::Pop);
                assert(s4.code()[t] == s3.code()[t]);
                assert(s4.code()[t + 1] == s3.code()[t + 1]);
                assert(s4.code()[e + 1] == s3.code()[e + 1]);
                assert(self.code()[t] == s4.code()[t]);
                assert(self.code()[t + 1] == s4.code()[t + 1]);
                assert(self.code()[e + 1] == s4.code()[e + 1]);
                assert(self.code()[e] == Instruction::Jump((self.code().len() - e - 1) as usize));
            }
        }
    }

    /// `while`: the condition, a conditional jump out of the loop (and its
    /// `Pop`), the body, a `Loop` back to the condition, and a `Pop`.
    #[verifier::rlimit(60)]
    fn while_statement(&mut self)
        requires
            old(self).wf(),
        ensures
            final(self).advanced_from(old(self)),
            old(self).current.kind != TokenType::EoF ==> final(self).remaining() < old(self).remaining(),
            final(self).code().len() >= old(self).code().len() + 4,
            final(self).code().last() == Instruction::Pop,
            final(self).code()[final(self).code().len() - 2] is Loop,
            !final(self).had_error ==> final(self).code()[final(self).code().len() - 2] == Instruction::Loop(
                (final(self).code().len() - 1 - old(self).code().len()) as usize,
            ),
            !final(self).had_error ==> exists|x: int|
                {
                    &&& old(self).code().len() <= x
                    &&& x + 2 <= final(self).code().len() - 2
                    &&& #[trigger] final(self).code()[x] == Instruction::JumpIfFalse(
                        (final(self).code().len() - 2 - x) as usize,
                    )
                    &&& final(self).code()[x + 1] == Instruction::Pop
                },
        decreases old(self).remaining(), 4int,
    {
        let loop_start = self.compiler.function.chunk.get_count();
        self.consume(TokenType::LeftParen, "Expected '(' after 'while'.");
        self.expression();
        self.consume(TokenType::RightParen, "Expected ')' after condition.");
        let exit_jump = self.emit_jump(true);
        let ghost mid = *self;
        self.emit_instruction(Instruction::Pop);
        proof { lemma_emitted_advances(mid, *self, seq![Instruction::Pop]); }
        let ghost s1 = *self;
        self.statement();
        self.emit_loop(loop_start);
        let ghost s2 = *self;
        self.patch_jump(exit_jump);
        let ghost s3 = *self;
        let ghost mid = *self;
        self.emit_instruction(Instruction::Pop);
        proof {
            lemma_emitted_advances(mid, *self, seq![Instruction::Pop]);
            let x = exit_jump as int;
            let l = s2.code().len() - 1;
            assert(s2.code()[x + 1] == s1.code()[x + 1]);
            assert(s3.code()[x + 1] == s2.code()[x + 1]);
            assert(self.code()[x + 1] == s3.code()[x + 1]);
            assert(s3.code()[l] == s2.code()[l]);
            assert(self.code()[l] == s3.code()[l]);
            assert(self.code()[x] == s3.code()[x]);
        }
    }

    /// The initializer clause of a `for` loop.
    fn for_initializer(&mut self)
        requires
            old(self).wf(),
        ensures
            final(self).advanced_from(old(self)),
            old(self).current.kind == TokenType::Semicolon ==> final(self).code() == old(self).code()
                && final(self).stepped(old(self)),
            old(self).current.kind != TokenType::EoF ==> final(self).remaining() < old(self).remaining(),
            final(self).previous.kind == TokenType::Semicolon || final(self).had_error,
        decreases old(self).remaining(), 3int,
    {
        if self.matches(TokenType::Semicolon) {
        } else if self.matches(TokenType::Var) {
            self.var_declaration();
        } else {
            self.expression_statement();
        }
    }

    /// The increment clause of a `for` loop, if there is one: it runs after
    /// the body and then loops to `loop_start`.  Returns where the body loops to.
    fn for_increment(&mut self, loop_start: usize) -> (body_loop_start: usize)
        requires
            old(self).wf(),
            loop_start <= old(self).code().len(),
        ensures
            final(self).advanced_from(old(self)),
            body_loop_start <= final(self).code().len(),
            old(self).current.kind == TokenType::RightParen ==> body_loop_start == loop_start
                && final(self).code() == old(self).code() && final(self).stepped(old(self)),
            old(self).current.kind != TokenType::RightParen ==> {
                &&& body_loop_start == old(self).code().len() + 1
                &&& final(self).code().len() >= old(self).code().len() + 3
                &&& final(self).code()[old(self).code().len() as int] is Jump
                &&& final(self).code().last() is Loop
                &&& !final(self).had_error ==> final(self).code()[old(self).code().len() as int]
                    == Instruction::Jump((final(self).code().len() - old(self).code().len() - 1) as usize)
                    && final(self).code().last() == Instruction::Loop(
                    (final(self).code().len() - loop_start) as usize,
                )
            },
            final(self).previous.kind == TokenType::RightParen || final(self).had_error,
        decreases old(self).remaining(), 3int,
    {
        if self.matches(TokenType::RightParen) {
            return loop_start;
        }
        let body_jump = self.emit_jump(false);
        let increment_start = self.compiler.function.chunk.get_count();
        self.expression();
        let ghost mid = *self;
        self.emit_instruction(Instruction::Pop);
        proof { lemma_emitted_advances(mid, *self, seq![Instruction::Pop]); }
        self.consume(TokenType::RightParen, "Expected ')' after 'for' clauses.");
        self.emit_loop(loop_start);
        self.patch_jump(body_jump);
        increment_start
    }

    #[verifier::rlimit(80)]
    fn for_statement(&mut self)
        requires
            old(self).wf(),
            old(self).depth_room(),
        ensures
            final(self).advanced_from(old(self)),
            old(self).current.kind != TokenType::EoF ==> final(self).remaining() < old(self).remaining(),
            !final(self).had_error ==> exists|l: int|
                #![trigger final(self).code()[l]]
                old(self).code().len() <= l < final(self).code().len() && (final(self).code()[l] matches Instruction::Loop(j)
                    && l + 1 - j >= old(self).code().len()),
        decreases old(self).remaining(), 4int,
    {
        self.begin_scope();
        self.consume(TokenType::LeftParen, "Expected '(' after 'if'.");
        self.for_initializer();
        let loop_start = self.compiler.function.chunk.get_count();
        let mut exit_jump: Option<usize> = None;
        if !self.matches(TokenType::Semicolon) {
            self.expression();
            self.consume(TokenType::Semicolon, "Expected ';'.");
            exit_jump = Some(self.emit_jump(true));
            let ghost mid = *self;
            self.emit_instruction(Instruction::Pop);
            proof { lemma_emitted_advances(mid, *self, seq![Instruction::Pop]); }
        }
        let loop_start = self.for_increment(loop_start);
        self.statement();
        let ghost l = self.code().len() as int;
        self.emit_loop(loop_start);
        let ghost s1 = *self;
        if let Some(value) = exit_jump {
            self.patch_jump(value);
            let ghost mid = *self;
            self.emit_instruction(Instruction::Pop);
            proof { lemma_emitted_advances(mid, *self, seq![Instruction::Pop]); }
        }
        let ghost s2 = *self;
        self.end_scope();
        proof {
            assert(s2.code()[l] == s1.code()[l]);
            assert(self.code()[l] == s2.code()[l]);
        }
    }

    fn statement(&mut self)
        requires
            old(self).wf(),
        ensures
            final(self).advanced_from(old(self)),
            old(self).current.kind != TokenType::EoF ==> final(self).remaining() < old(self).remaining(),
        decreases old(self).remaining(), 3int,
    {
        if self.matches(TokenType::Print) {
            self.print_statement();
            return;
        }
        if self.matches(TokenType::Return) {
            self.return_statement();
            return;
        }
        if self.matches(TokenType::If) {
            self.if_statement();
            return;
        }
        if self.matches(TokenType::While) {
            self.while_statement();
            return;
        }
        if self.matches(TokenType::For) {
            self.for_statement();
            return;
        }
        if self.matches(TokenType::LeftBrace) {
            self.begin_scope();
            self.block();
            self.end_scope();
            return;
        }
        self.expression_statement();
    }

    /// Compiles a function's parameters and body, then emits it as a constant.
    /// The parameter names of a function, each declared as a local of the
    /// function; the arity counts them.  Nothing is read at a `)`.
    fn parameters(&mut self)
        requires
            old(self).wf(),
            old(self).compiler.scope_depth >= 1,
            old(self).compiler.function.arity == 0,
        ensures
            final(self).grew_from(old(self)),
            final(self).compiler.function.arity <= 255 || final(self).had_error,
            old(self).current.kind == TokenType::RightParen ==> *final(self) == *old(self),
    {
        if !self.check(TokenType::RightParen) {
            let ghost r0 = self.remaining();
            loop
                invariant_except_break
                    self.compiler.function.arity + self.remaining() <= r0,
                invariant
                    self.grew_from(old(self)),
                    r0 <= i32::MAX,
                    self.compiler.function.arity <= 255 || self.had_error,
                ensures
                    self.grew_from(old(self)),
                    self.compiler.function.arity <= 255 || self.had_error,
                decreases self.remaining(),
            {
                if self.compiler.function.increment_arity() > MAX_PARAMS {
                    self.error_at_current("Can't have more than 255 parameters.".as_bytes());
                }
                let constant = self.parse_variable("Expected parameter name.");
                self.define_variable(constant);
                if !self.matches(TokenType::Comma) {
                    break;
                }
            }
        }
    }

    #[verifier::rlimit(100)]
    fn function(&mut self, function_type: FunctionType)
        requires
            old(self).wf(),
            old(self).remaining() <= old(self).scanner.source().len(),
        ensures
            final(self).kept(old(self)),
            final(self).code() == old(self).code().push(final(self).code().last()),
            final(self).code().last() is Constant,
            final(self).compiler.function.chunk@.constants.len() == old(self).compiler.function.chunk@.constants.len() + 1,
            final(self).compiler.function.chunk@.constants.last() matches ConstantModel::Function(g)
                && g.name == old(self).previous.lexeme@ && g.chunk.code.len() >= 2
                && g.chunk.code.last() == Instruction::Return
                && g.chunk.code[g.chunk.code.len() - 2] == Instruction::Nil
                && (!final(self).had_error ==> g.arity <= 255)
                && (old(self).current.kind == TokenType::LeftParen && token_kind(
                    old(self).source(),
                    token_start(old(self).source(), old(self).scanner.position()),
                ) == TokenType::RightParen ==> g.arity == 0),
            final(self).previous.kind == TokenType::RightBrace || final(self).had_error,
            final(self).remaining() < old(self).remaining() || final(self).had_error,
            old(self).compiler.function.chunk@.constants.len() <= 255 ==> final(self).code().last()
                == Instruction::Constant(old(self).compiler.function.chunk@.constants.len() as usize),
        decreases old(self).remaining(), 6int,
    {
        let name = copy_bytes(&self.previous.lexeme);
        self.init_compiler(name, function_type);
        self.begin_scope();
        let ghost inner = *self;
        let ghost no_params = old(self).current.kind == TokenType::LeftParen && token_kind(
            old(self).source(),
            token_start(old(self).source(), old(self).scanner.position()),
        ) == TokenType::RightParen;
        self.consume(TokenType::LeftParen, "Expected '(' after function name.");
        proof {
            assert(inner.scanner == old(self).scanner);
            if no_params {
                assert(self.current.kind == TokenType::RightParen);
                assert(self.compiler.function.arity == 0);
            }
        }
        self.parameters();
        let ghost arity = self.compiler.function.arity;
        proof {
            assert(no_params ==> arity == 0);
        }
        self.consume(TokenType::RightParen, "Expected ')' after parameters.");
        self.consume(TokenType::LeftBrace, "Expected '{' before function body.");
        self.block();
        proof {
            assert(self.compiler.function.arity == arity);
        }
        let function = self.end_compiler();
        proof {
            crate::value::lemma_constants_model(self.compiler.function.chunk.constants@);
        }
        let index = self.make_constant(Constant::Function(function));
        let ghost mid = *self;
        self.emit_instruction(Instruction::Constant(index));
        proof { lemma_emitted_advances(mid, *self, seq![Instruction::Constant(index)]); }
    }

    fn fun_declaration(&mut self)
        requires
            old(self).wf(),
            old(self).remaining() <= old(self).scanner.source().len(),
        ensures
            final(self).advanced_from(old(self)),
            !final(self).had_error ==> old(self).current.kind == TokenType::Identifier,
            !final(self).had_error ==> (final(self).compiler.function.chunk@.constants.last() matches ConstantModel::Function(g)
                && g.name == old(self).current.lexeme@),
            old(self).compiler.scope_depth == 0 && !final(self).had_error ==> {
                &&& final(self).code().len() == old(self).code().len() + 2
                &&& final(self).code()[old(self).code().len() as int] is Constant
                &&& final(self).code().last() == Instruction::DefineGlobal(
                    old(self).compiler.function.chunk@.constants.len() as usize,
                )
                &&& final(self).compiler.function.chunk@.constants[old(
                    self,
                ).compiler.function.chunk@.constants.len() as int] == ConstantModel::String(
                    old(self).current.lexeme@,
                )
            },
            old(self).compiler.scope_depth > 0 && !final(self).had_error ==> {
                &&& final(self).code().len() == old(self).code().len() + 1
                &&& final(self).code().last() is Constant
                &&& final(self).compiler.locals@.len() == old(self).compiler.locals@.len() + 1
                &&& final(self).compiler.locals@.last().name.lexeme@ == old(self).current.lexeme@
                &&& final(self).compiler.locals@.last().depth == old(self).compiler.scope_depth
            },
        decreases old(self).remaining(), 7int,
    {
        let index = self.parse_variable("Expected function name.");
        self.mark_initialized();
        self.function(FunctionType::Function);
        self.define_variable(index);
    }

    fn declaration(&mut self)
        requires
            old(self).wf(),
        ensures
            final(self).advanced_from(old(self)),
            old(self).current.kind != TokenType::EoF ==> final(self).remaining() < old(self).remaining(),
        decreases old(self).remaining(), 4int,
    {
        if self.matches(TokenType::Fun) {
            self.fun_declaration();
        } else if self.matches(TokenType::Var) {
            self.var_declaration();
        } else {
            self.statement();
        }
        if self.panic_mode {
            self.synchronize();
        }
    }
}

/// The shape of what a successful compilation gives: a top-level script,
/// with no name and no parameters, whose code ends by returning `nil`.
pub open spec fn is_compiled_script(f: FunctionModel) -> bool {
    &&& f.name.len() == 0
    &&& f.arity == 0
    &&& f.chunk.code.len() == f.chunk.lines.len()
    &&& f.chunk.code.len() >= 2
    &&& f.chunk.code[f.chunk.code.len() - 2] == Instruction::Nil
    &&& f.chunk.code[f.chunk.code.len() - 1] == Instruction::Return
}

impl<'source> Parser<'source> {
    /// Compiles the whole source.  Gives the script function, or
    /// `CompileError`; and the diagnostics, which are empty exactly when
    /// compilation succeeded.
    pub fn compile(self) -> (out: (Result<Function, ArcError>, Vec<u8>))
        requires
            self.wf(),
            self.is_fresh(),
        ensures
            out.0 is Err <==> out.1@.len() > 0,
            is_reports(out.1@),
            out.0 matches Err(e) ==> e == ArcError::CompileError,
            out.0 matches Ok(f) ==> is_compiled_script(f@),
            has_lexical_error(self.source(), 0) ==> out.0 is Err,
            out.0 matches Ok(f) ==> function_refs_ok(f@),
            self.remaining() == self.source().len() + 1 && token_start(self.source(), 0) == self.source().len()
                ==> out.1@.len() == 0 && (out.0 matches Ok(f) && f@.chunk.code == seq![
                Instruction::Nil,
                Instruction::Return,
            ]),
    {
        let ghost start = self;
        let ghost empty = self.remaining() == self.source().len() + 1 && token_start(
            self.source(),
            0,
        ) == self.source().len();
        let mut parser = self;
        parser.advance();
        loop
            invariant
                parser.advanced_from(&start),
                empty ==> parser.code().len() == 0 && !parser.had_error && parser.current.kind
                    == TokenType::EoF && parser.scanner.position() == parser.source().len(),
            ensures
                parser.advanced_from(&start),
                parser.remaining() == 0,
                empty ==> parser.code().len() == 0 && !parser.had_error && parser.current.kind
                    == TokenType::EoF && parser.scanner.position() == parser.source().len(),
            decreases parser.remaining(),
        {
            if parser.matches(TokenType::EoF) {
                break;
            }
            parser.declaration();
        }
        parser.consume(TokenType::EoF, "Expected end of expression.");
        proof {
            lemma_lexical_error_step(parser.source(), parser.source().len() as int);
        }
        if parser.had_error {
            (Err(ArcError::CompileError), parser.diagnostics)
        } else {
            let function = parser.end_compiler();
            let diagnostics = parser.diagnostics;
            (Ok(function), diagnostics)
        }
    }
}

} // verus!
