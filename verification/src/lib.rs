pub mod ast;
pub mod checker;
pub mod codegen;
pub mod dispatch;
pub mod cli;
pub mod chars;
pub mod lexer;
pub mod numlit;
pub mod parser;
pub mod semantics;
pub mod subtype;
pub mod table;
pub mod text;
pub mod token;
pub mod types;

use vstd::prelude::*;
use crate::ast::Module;
use crate::lexer::{lex_error, lexes_source, Lexer, LexerError};
use crate::parser::{simple_module, ParseError, Parser};
use crate::token::Token;
use crate::token::Span;

verus! {

/// "`prefix`<message> at line <line>, col <column>".
pub open spec fn located_message(prefix: Seq<char>, message: Seq<char>, span: Span) -> Seq<char> {
    prefix + message + " at line "@ + crate::text::nat_text(span.line as nat) + ", col "@
        + crate::text::nat_text(span.column as nat)
}

fn locate(prefix: &str, message: &String, span: Span) -> (s: String)
    ensures
        s@ == located_message(prefix@, message@, span),
{
    let mut s = String::from_str(prefix);
    s.append(message.as_str());
    s.append(" at line ");
    let l = crate::text::usize_to_string(span.line);
    s.append(l.as_str());
    s.append(", col ");
    let c = crate::text::usize_to_string(span.column);
    s.append(c.as_str());
    s
}

/// Lexes and parses a whole source text into a module: the tokens are those
/// of the text (see `lexes_source`), and the module is what `parse_module`
/// makes of them. A lexing failure is reported as "Lexer error: ..." and a
/// parsing failure as "Parse error: ...", each with the error's message and
/// followed by the line and column where it occurred. An empty source is an
/// empty module, and a text of unindented lines that lex (see `flat_source`)
/// never fails in the lexer.
pub fn parse(source: &str) -> (r: Result<Module, String>)
    requires
        source@.len() <= usize::MAX / 8,
    ensures
        match r {
            Ok(m) => exists|toks: Seq<Token>|
                #![trigger lexes_source(source@, toks)]
                lexes_source(source@, toks) && (simple_module(toks, 0) matches Some(ss) ==> m.statements@ == ss),
            Err(msg) => (exists|e: LexerError|
                #![trigger lex_error(source@, e)]
                lex_error(source@, e) && msg@ == located_message("Lexer error: "@, e.message@, e.span)) || (exists|
                toks: Seq<Token>,
                e: ParseError,
            |
                #![trigger lexes_source(source@, toks), e.message]
                lexes_source(source@, toks) && simple_module(toks, 0) is None && msg@ == located_message(
                    "Parse error: "@,
                    e.message@,
                    e.span,
                )),
        },
        source@.len() == 0 ==> (r matches Ok(m) && m.statements@.len() == 0),
        crate::lexer::flat_source(source@) ==> (r matches Err(m) ==> exists|msg: Seq<char>, span: Span|
            m@ == located_message("Parse error: "@, msg, span)),
        r matches Err(m) ==> (exists|msg: Seq<char>, span: Span|
            m@ == located_message("Lexer error: "@, msg, span)
            || m@ == located_message("Parse error: "@, msg, span)),
{
    let mut lexer = Lexer::new(source);
    let ghost l0 = lexer;
    let tokens = match lexer.tokenize() {
        Ok(t) => t,
        Err(e) => {
            let m = locate("Lexer error: ", &e.message, e.span);
            proof {
                let (states, toks) = choose|states: Seq<Lexer>, toks: Seq<Token>|
                    Lexer::lexes(states, toks) && states[0] == l0 && Lexer::next_post(states.last(), lexer, Err(e));
                assert(Lexer::lexes(states, toks) && Lexer::starts(states[0], source@) && Lexer::next_post(
                    states.last(),
                    lexer,
                    Err(e),
                ));
                assert(lex_error(source@, e));
            }
            return Err(m);
        },
    };
    proof {
        let states = choose|states: Seq<Lexer>|
            Lexer::lexes(states, tokens@) && states[0] == l0 && states.last() == lexer;
        assert(Lexer::lexes(states, tokens@) && Lexer::starts(states[0], source@));
        assert(lexes_source(source@, tokens@));
    }
    let ghost toks = tokens@;
    let mut parser = Parser::new(tokens);
    match parser.parse_module() {
        Ok(module) => Ok(module),
        Err(e) => {
            let m = locate("Parse error: ", &e.message, e.span);
            proof {
                assert(lexes_source(source@, toks) && simple_module(toks, 0) is None && m@ == located_message(
                    "Parse error: "@,
                    e.message@,
                    e.span,
                ));
            }
            Err(m)
        },
    }
}

} // verus!
