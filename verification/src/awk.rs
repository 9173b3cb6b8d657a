//! A script, parsed once and run as often as wanted.

use vstd::prelude::*;
use crate::ast::Program;
use crate::evaluator::{run_program, Session};
use crate::grammar::parse;
use crate::parser::{parse_script, ParseError};
use crate::semantics::eval_lines;
use crate::text::string_texts;

verus! {

/// A parsed script.
pub struct Awk {
    program: Program,
}

/// The name that an input without a name has: `-`.
pub open spec fn input_name(filename: Option<String>) -> Seq<char> {
    match filename {
        Some(name) => name@,
        None => "-"@,
    }
}

impl Awk {
    /// The program of the script.
    pub closed spec fn program(&self) -> crate::ast::ProgramView {
        self.program@
    }

    /// Parses `script`. The result is the script ready to run, or the error
    /// that the parser gives for it.
    pub fn new(script: &str) -> (r: Result<Awk, ParseError>)
        ensures
            match parse(script@) {
                Ok(program) => r is Ok && r->Ok_0.program() == program,
                Err(e) => r is Err && r->Err_0@ == e,
            },
    {
        match parse_script(script) {
            Ok(program) => Ok(Awk { program }),
            Err(e) => Err(e),
        }
    }

    /// Starts a run of the script that takes its records one by one. The
    /// script reads `filename` as `FILENAME`.
    pub fn session(&self, filename: &str) -> (session: Session<'_>)
        ensures
            session.wf(),
            session.program() == self.program(),
            session.filename() == filename@,
            session.loop_limit() == u64::MAX,
            session.fed() == Seq::<Seq<char>>::empty(),
    {
        Session::start(&self.program, filename, u64::MAX)
    }

    /// Runs the script on the records `input` and returns the lines that it
    /// writes. The script reads `filename` as `FILENAME`, and `-` if there
    /// is none. A loop of the script stops after 2^64 - 1 rounds.
    pub fn run(&self, input: Vec<String>, filename: Option<String>) -> (out: Vec<String>)
        ensures
            string_texts(out@) == eval_lines(
                self.program(),
                string_texts(input@),
                input_name(filename),
                u64::MAX as nat,
            ),
    {
        match filename {
            Some(name) => run_program(&self.program, &input, name.as_str(), u64::MAX),
            None => run_program(&self.program, &input, "-", u64::MAX),
        }
    }
}

} // verus!
