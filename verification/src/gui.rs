//! The state of the editor window: the code being edited, the text of the
//! output panel, and the interpreter that the Run button drives.
use vstd::prelude::*;

use crate::environment::{dump_text, Environment};
use crate::evaluator::{EvalError, Evaluator, MAX_STEPS};
use crate::reader::{parse_input, parse_outcome};
use crate::semantics::{sem_stmts, Flow, State};
use crate::value::show;

verus! {

/// The editor window: the code in the editor, the output panel, and the
/// interpreter, whose variables and functions live on from run to run.
pub struct ComixApp {
    pub source: String,
    pub output: String,
    pub evaluator: Evaluator,
}

/// The output panel after a run that parsed and ended as `flow`, with the
/// variables `env` left: a completion note and the variables, or the
/// runtime error, or the value that a `return` at the top carried out.
pub open spec fn run_report(flow: Flow, env: Seq<crate::environment::Frame<crate::value::Val>>) -> Seq<char> {
    match flow {
        Flow::Normal(_) => {
            let vars = dump_text(env, Seq::empty());
            "Execution completed.\n"@ + if vars.len() == 0 {
                Seq::empty()
            } else {
                "Variables:\n"@ + vars
            }
        },
        Flow::Fail(m) => "Runtime error: "@ + m + "\n"@,
        Flow::Ret(v) => "Function returned: "@ + show(v) + "\n"@,
    }
}

impl ComixApp {
    /// A window with an empty editor and panel, over an interpreter on
    /// `env` whose error positions refer to `source`.
    pub fn new(env: Environment, source: String) -> (r: Self)
        ensures
            r.source@ == Seq::<char>::empty(),
            r.output@ == Seq::<char>::empty(),
            r.evaluator.state() == (State { env: env@, funcs: Seq::empty(), out: Seq::empty() }),
            r.evaluator.src() == vstd::utf8::encode_utf8(source@),
    {
        let evaluator = Evaluator::new(env, source);
        ComixApp { source: String::new(), output: String::new(), evaluator }
    }

    /// What the Run button does: the code in the editor is parsed and run,
    /// and the panel shows the report of the run, or the parse error. The
    /// result is what the program printed, which goes to the terminal.
    pub fn run_code(&mut self) -> (printed: String)
        ensures
            final(self).source == old(self).source,
            final(self).evaluator.src() == vstd::utf8::encode_utf8(old(self).source@),
            match parse_outcome(old(self).source@) {
                Err(m) => {
                    &&& final(self).output@ == "Parse error: "@ + m + "\n"@
                    &&& printed@ == old(self).evaluator.state().out
                    &&& final(self).evaluator.state() == (State {
                        out: Seq::empty(),
                        ..old(self).evaluator.state()
                    })
                },
                Ok(stmts) => {
                    let (st, flow) = sem_stmts(
                        MAX_STEPS as nat,
                        vstd::utf8::encode_utf8(old(self).source@),
                        old(self).evaluator.state(),
                        stmts,
                    );
                    &&& final(self).output@ == run_report(flow, st.env)
                    &&& printed@ == st.out
                    &&& final(self).evaluator.state() == (State { out: Seq::empty(), ..st })
                },
            },
    {
        self.output = String::new();
        self.evaluator.set_source(self.source.clone());
        match parse_input(self.source.as_str()) {
            Ok(stmts) => {
                match self.evaluator.evaluate(&stmts) {
                    Ok(_) => {
                        self.output.append("Execution completed.\n");
                        let mut vars = String::new();
                        self.evaluator.dump_env_to_string(&mut vars);
                        if !vars.as_str().is_empty() {
                            self.output.append("Variables:\n");
                            self.output.append(vars.as_str());
                        }
                    },
                    Err(EvalError::Runtime(m)) => {
                        self.output.append("Runtime error: ");
                        self.output.append(m.as_str());
                        self.output.append("\n");
                    },
                    Err(EvalError::Return(v)) => {
                        self.output.append("Function returned: ");
                        let shown = v.to_display_string();
                        self.output.append(shown.as_str());
                        self.output.append("\n");
                    },
                }
            },
            Err(e) => {
                self.output.append("Parse error: ");
                self.output.append(e.as_str());
                self.output.append("\n");
            },
        }
        self.evaluator.take_output()
    }
}

} // verus!
