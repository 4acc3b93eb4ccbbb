use vstd::prelude::*;
use crate::environment::{Environment, EnvV};
use crate::evaluator::{interpret, exec_seq};
use crate::parser::{parse, parse_program, ParseError};
use crate::source::{FilePosition, Source, SourceError};
use crate::tokenizer::{tokenize, lex, TokenizeError};
use crate::value::{RuntimeError, display, runtime_message};
use crate::tokenizer::lex_message;
use crate::parser::parse_message;

verus! {

/// How much a single run may spend (see the evaluator's fuel).
pub const FUEL: u64 = 0xffff_ffff_ffff_ffff;

/// A failure of one of the three stages.
#[derive(Clone, Copy, Debug, PartialEq, Eq, Structural)]
pub enum InterpretError {
    Lex(TokenizeError),
    Parse(ParseError),
    Runtime(RuntimeError),
}

impl SourceError for InterpretError {
    open spec fn spec_position(&self) -> Option<FilePosition> {
        match self {
            InterpretError::Lex(e) => e.pos,
            InterpretError::Parse(e) => e.pos,
            InterpretError::Runtime(_) => None,
        }
    }

    open spec fn spec_message(&self) -> Seq<char> {
        match self {
            InterpretError::Lex(e) => lex_message(e.kind),
            InterpretError::Parse(e) => parse_message(e.kind),
            InterpretError::Runtime(e) => runtime_message(*e),
        }
    }

    open spec fn spec_type(&self) -> Seq<char> {
        match self {
            InterpretError::Lex(_) => "TokenizeError"@,
            InterpretError::Parse(_) => "ParseError"@,
            InterpretError::Runtime(_) => "RuntimeError"@,
        }
    }

    fn get_position(&self) -> (r: Option<FilePosition>) {
        match self {
            InterpretError::Lex(e) => e.pos,
            InterpretError::Parse(e) => e.pos,
            InterpretError::Runtime(_) => None,
        }
    }

    fn get_message(&self) -> (r: String) {
        match self {
            InterpretError::Lex(e) => e.get_message(),
            InterpretError::Parse(e) => e.get_message(),
            InterpretError::Runtime(e) => e.message(),
        }
    }

    fn get_type(&self) -> (r: String) {
        match self {
            InterpretError::Lex(_) => "TokenizeError".to_owned(),
            InterpretError::Parse(_) => "ParseError".to_owned(),
            InterpretError::Runtime(_) => "RuntimeError".to_owned(),
        }
    }
}

/// What a whole run of a source text gives: the text of a returned value,
/// if any, or the first error; and the environment after it.
pub open spec fn run_source(text: Seq<char>, env: EnvV) -> (Result<Option<Seq<char>>, InterpretError>, EnvV) {
    match lex(text) {
        Err(e) => (Err(InterpretError::Lex(e)), env),
        Ok(ts) => match parse_program(ts) {
            Err(e) => (Err(InterpretError::Parse(e)), env),
            Ok(stmts) => {
                let (r, env2) = exec_seq(stmts, 0, 0, env, FUEL as nat);
                (
                    match r {
                        Ok(Some(v)) => Ok(Some(display(v))),
                        Ok(None) => Ok(None),
                        Err(x) => Err(InterpretError::Runtime(x)),
                    },
                    env2,
                )
            },
        },
    }
}

pub open spec fn text_res(r: Result<Option<String>, InterpretError>) -> Result<Option<Seq<char>>, InterpretError> {
    match r {
        Ok(Some(s)) => Ok(Some(s@)),
        Ok(None) => Ok(None),
        Err(e) => Err(e),
    }
}

/// Runs source texts one after another in one global scope, as a REPL does.
pub struct Interpreter {
    pub env: Environment,
}

impl Interpreter {
    pub open spec fn wf(&self) -> bool {
        self.env.wf()
    }

    pub fn new() -> (r: Interpreter)
        ensures
            r.wf(),
            r.env@.scopes.len() == 1,
            r.env@.funs.len() == 0,
            r.env@.out.len() == 0,
    {
        Interpreter { env: Environment::new() }
    }

    /// Reads, parses and runs a source text in the global scope.
    pub fn interpret(&mut self, src: &Source) -> (r: Result<Option<String>, InterpretError>)
        requires
            old(self).wf(),
        ensures
            final(self).wf(),
            (text_res(r), final(self).env@) == run_source(src.content@, old(self).env@),
    {
        let tokens = match tokenize(src) {
            Ok(v) => v,
            Err(e) => return Err(InterpretError::Lex(e)),
        };
        let ast = match parse(&tokens) {
            Ok(v) => v,
            Err(e) => return Err(InterpretError::Parse(e)),
        };
        match interpret(&ast.top, 0, &mut self.env, FUEL) {
            Ok(Some(v)) => Ok(Some(v.value_string())),
            Ok(None) => Ok(None),
            Err(e) => Err(InterpretError::Runtime(e)),
        }
    }

    /// Hands over the lines printed so far and forgets them.
    pub fn take_output(&mut self) -> (r: Vec<String>)
        requires
            old(self).wf(),
        ensures
            final(self).wf(),
            r@.map_values(|s: String| s@) == old(self).env@.out,
            final(self).env@ == (EnvV { out: seq![], ..old(self).env@ }),
    {
        let mut out: Vec<String> = Vec::new();
        std::mem::swap(&mut out, &mut self.env.output);
        assert(self.env@.out =~= seq![]);
        out
    }
}

} // verus!
