//! The interactive loop, as a state machine: each line that the user types
//! moves it to its next state and says what to write to the terminal.
//!
//! A line ending in `\` continues on the next line; an empty line then
//! ends the input. On a fresh line, `exit` leaves, `clear` forgets all
//! variables and functions, and `dump` shows the variables. Each input is
//! read and run as a text of its own: the line and column in a message
//! count within that input.
use vstd::prelude::*;
use vstd::string::StrSliceExecFns;
use vstd::utf8::encode_utf8;

use crate::environment::{dump_text, Environment, Frame};
use crate::evaluator::{EvalError, Evaluator, MAX_STEPS};
use crate::reader::{parse_input, parse_outcome};
use crate::semantics::{sem_stmts, Flow, State};
use crate::text::str_eq;
use crate::value::{show, Val, Value};

verus! {

/// The interactive session: the interpreter, and the input collected so
/// far from lines that ended in `\`.
pub struct Repl {
    pub evaluator: Evaluator,
    pub pending: Option<String>,
}

/// What to do after a line: text for the standard output, text for the
/// standard error, and whether the session ends.
pub struct ReplReply {
    pub stdout: String,
    pub stderr: String,
    pub exit: bool,
}

/// The model of the session after a line, with the reply to that line.
pub struct ReplView {
    pub pending: Option<Seq<char>>,
    pub state: State,
    pub src: Seq<u8>,
    pub stdout: Seq<char>,
    pub stderr: Seq<char>,
    pub exit: bool,
}

/// Whether a line continues on the next one.
pub open spec fn continued(line: Seq<char>) -> bool {
    line.len() > 0 && line.last() == '\\'
}

/// Running a source text in state `st`: the state after, what goes to the
/// standard output (what the program printed, then its value unless that
/// is null) and what goes to the standard error (the parse or runtime
/// error).
pub open spec fn run_source(src: Seq<char>, st: State) -> (State, Seq<char>, Seq<char>) {
    match parse_outcome(src) {
        Err(m) => (State { out: Seq::empty(), ..st }, st.out, "解析错误: "@ + m + "\n"@),
        Ok(stmts) => {
            let (s2, flow) = sem_stmts(MAX_STEPS as nat, encode_utf8(src), st, stmts);
            let shown = match flow {
                Flow::Normal(v) => if v is Null {
                    Seq::empty()
                } else {
                    show(v) + "\n"@
                },
                _ => Seq::empty(),
            };
            let err = match flow {
                Flow::Fail(m) => "运行时错误: "@ + m + "\n"@,
                Flow::Ret(v) => "运行时错误: "@ + show(v) + "\n"@,
                Flow::Normal(_) => Seq::empty(),
            };
            (State { out: Seq::empty(), ..s2 }, s2.out + shown, err)
        },
    }
}

/// The session after running the input `input` in state `st`.
pub open spec fn ran(input: Seq<char>, st: State) -> ReplView {
    let (s2, out, err) = run_source(input, st);
    ReplView { pending: None, state: s2, src: encode_utf8(input), stdout: out, stderr: err, exit: false }
}

/// The session after the line `line`, from input collected so far
/// `pending`, interpreter state `st` and source `src`.
pub open spec fn repl_step(pending: Option<Seq<char>>, st: State, src: Seq<u8>, line: Seq<char>) -> ReplView {
    let quiet = ReplView {
        pending,
        state: st,
        src,
        stdout: Seq::empty(),
        stderr: Seq::empty(),
        exit: false,
    };
    match pending {
        None => if line.len() == 0 {
            quiet
        } else if line == "exit"@ {
            ReplView { exit: true, ..quiet }
        } else if line == "clear"@ {
            ReplView {
                state: State { env: seq![Frame::<Val>::empty()], funcs: Seq::empty(), out: Seq::empty() },
                src: Seq::empty(),
                stdout: "环境已清除\n"@,
                ..quiet
            }
        } else if line == "dump"@ {
            ReplView { stdout: dump_text(st.env, Seq::empty()), ..quiet }
        } else if continued(line) {
            ReplView { pending: Some(line.drop_last() + "\n"@), ..quiet }
        } else {
            ran(line, st)
        },
        Some(buf) => if line.len() == 0 {
            ran(buf, st)
        } else if continued(line) {
            ReplView { pending: Some(buf + line.drop_last() + "\n"@), ..quiet }
        } else {
            ran(buf + line, st)
        },
    }
}

/// The input collected so far, as text.
pub open spec fn pending_view(p: Option<String>) -> Option<Seq<char>> {
    match p {
        Some(s) => Some(s@),
        None => None,
    }
}

/// The model of a session and a reply.
pub open spec fn view_of(r: Repl, reply: ReplReply) -> ReplView {
    ReplView {
        pending: pending_view(r.pending),
        state: r.evaluator.state(),
        src: r.evaluator.src(),
        stdout: reply.stdout@,
        stderr: reply.stderr@,
        exit: reply.exit,
    }
}

impl Repl {
    /// A fresh session: no variables, no functions, nothing collected.
    pub fn new() -> (r: Self)
        ensures
            r.pending is None,
            r.evaluator.state() == (State { env: seq![Frame::<Val>::empty()], funcs: Seq::empty(), out: Seq::empty() }),
            r.evaluator.src() == Seq::<u8>::empty(),
    {
        Repl { evaluator: Evaluator::new(Environment::new(), String::new()), pending: None }
    }

    /// The prompt before the next line: `> ` on a fresh line, `... ` on a
    /// continued one.
    pub fn prompt(&self) -> (r: &'static str)
        ensures
            r@ == (if self.pending is None {
                "> "@
            } else {
                "... "@
            }),
    {
        match &self.pending {
            None => "> ",
            Some(_) => "... ",
        }
    }

    /// Takes one line of input (without its line ending), and says what to
    /// write and whether to stop.
    pub fn feed(&mut self, line: &str) -> (r: ReplReply)
        ensures
            view_of(*final(self), r) == repl_step(
                pending_view(old(self).pending),
                old(self).evaluator.state(),
                old(self).evaluator.src(),
                line@,
            ),
    {
        let n = line.unicode_len();
        let is_continued = n > 0 && line.get_char(n - 1) == '\\';
        let head = if n > 0 {
            line.substring_char(0, n - 1)
        } else {
            line
        };
        assert(n > 0 ==> head@ == line@.drop_last());
        let pending = self.pending.take();
        match pending {
            None => {
                if n == 0 {
                    ReplReply { stdout: String::new(), stderr: String::new(), exit: false }
                } else if str_eq(line, "exit") {
                    ReplReply { stdout: String::new(), stderr: String::new(), exit: true }
                } else if str_eq(line, "clear") {
                    self.evaluator = Evaluator::new(Environment::new(), String::new());
                    let mut out = String::new();
                    out.append("环境已清除\n");
                    ReplReply { stdout: out, stderr: String::new(), exit: false }
                } else if str_eq(line, "dump") {
                    let mut out = String::new();
                    self.evaluator.dump_env_to_string(&mut out);
                    ReplReply { stdout: out, stderr: String::new(), exit: false }
                } else if is_continued {
                    let mut buf = String::new();
                    buf.append(head);
                    buf.append("\n");
                    self.pending = Some(buf);
                    ReplReply { stdout: String::new(), stderr: String::new(), exit: false }
                } else {
                    let mut buf = String::new();
                    buf.append(line);
                    self.run(buf)
                }
            },
            Some(mut buf) => {
                if n == 0 {
                    self.run(buf)
                } else if is_continued {
                    buf.append(head);
                    buf.append("\n");
                    self.pending = Some(buf);
                    ReplReply { stdout: String::new(), stderr: String::new(), exit: false }
                } else {
                    buf.append(line);
                    self.run(buf)
                }
            },
        }
    }

    /// Runs a complete input.
    fn run(&mut self, input: String) -> (r: ReplReply)
        requires
            old(self).pending is None,
        ensures
            view_of(*final(self), r) == ran(input@, old(self).evaluator.state()),
    {
        let (stdout, stderr, _) = run_in(&mut self.evaluator, input);
        ReplReply { stdout, stderr, exit: false }
    }
}

/// The exit status of a script run: 65 when it does not parse, 70 when it
/// stops on a runtime error, 0 otherwise.
pub open spec fn run_status(src: Seq<char>, st: State) -> u8 {
    match parse_outcome(src) {
        Err(_) => 65,
        Ok(stmts) => match sem_stmts(MAX_STEPS as nat, encode_utf8(src), st, stmts).1 {
            Flow::Normal(_) => 0,
            _ => 70,
        },
    }
}

/// Runs `source` on `ev`: gives what goes to the standard output, what
/// goes to the standard error, and the exit status.
fn run_in(ev: &mut Evaluator, source: String) -> (r: (String, String, u8))
    ensures
        (final(ev).state(), r.0@, r.1@) == run_source(source@, old(ev).state()),
        final(ev).src() == encode_utf8(source@),
        r.2 == run_status(source@, old(ev).state()),
{
    ev.set_source(source.clone());
    let mut out = String::new();
    let mut err = String::new();
    match parse_input(source.as_str()) {
        Ok(stmts) => {
            let res = ev.evaluate(&stmts);
            let printed = ev.take_output();
            out.append(printed.as_str());
            match res {
                Ok(v) => {
                    if !v.is_null() {
                        let shown = v.to_display_string();
                        out.append(shown.as_str());
                        out.append("\n");
                        assert(out@ =~= printed@ + (show(v.val()) + "\n"@));
                    } else {
                        assert(out@ =~= printed@ + Seq::<char>::empty());
                    }
                    (out, err, 0)
                },
                Err(e) => {
                    err.append("运行时错误: ");
                    let shown = e.to_display_string();
                    err.append(shown.as_str());
                    err.append("\n");
                    assert(out@ =~= printed@ + Seq::<char>::empty());
                    (out, err, 70)
                },
            }
        },
        Err(m) => {
            let printed = ev.take_output();
            out.append(printed.as_str());
            err.append("解析错误: ");
            err.append(m.as_str());
            err.append("\n");
            (out, err, 65)
        },
    }
}

/// The position of the first character from `i` on that is no byte order
/// mark.
pub open spec fn skip_marks(s: Seq<char>, i: int) -> int
    decreases s.len() - i,
{
    if 0 <= i < s.len() && s[i] == '\u{feff}' {
        skip_marks(s, i + 1)
    } else {
        i
    }
}

/// What a script run writes and how it exits.
pub struct ScriptReply {
    pub stdout: String,
    pub stderr: String,
    pub status: u8,
}

/// Runs a script file's text in a fresh interpreter, after dropping the
/// byte order marks at its start.
pub fn run_script(text: &str) -> (r: ScriptReply)
    ensures
        ({
            let src = text@.skip(skip_marks(text@, 0));
            let fresh = State { env: seq![Frame::<Val>::empty()], funcs: Seq::empty(), out: Seq::empty() };
            &&& r.stdout@ == run_source(src, fresh).1
            &&& r.stderr@ == run_source(src, fresh).2
            &&& r.status == run_status(src, fresh)
        }),
{
    let n = text.unicode_len();
    let mut k: usize = 0;
    while k < n && text.get_char(k) == '\u{feff}'
        invariant
            n == text@.len(),
            k <= n,
            skip_marks(text@, 0) == skip_marks(text@, k as int),
        decreases n - k,
    {
        k = k + 1;
    }
    let rest = text.substring_char(k, n);
    let mut source = String::new();
    source.append(rest);
    assert(source@ =~= text@.skip(skip_marks(text@, 0)));
    let mut ev = Evaluator::new(Environment::new(), source.clone());
    let (stdout, stderr, status) = run_in(&mut ev, source);
    ScriptReply { stdout, stderr, status }
}

/// A line that ends in `\` writes nothing and is kept; with the complete
/// line after it, both run as one input, joined by a line feed.
pub proof fn law_continued_lines_run_together(st: State, src: Seq<u8>, first: Seq<char>, second: Seq<char>)
    requires
        second.len() > 0,
        !continued(second),
    ensures
        ({
            let after_first = repl_step(None, st, src, first.push('\\'));
            &&& after_first.stdout.len() == 0
            &&& after_first.stderr.len() == 0
            &&& !after_first.exit
            &&& after_first.state == st
            &&& repl_step(after_first.pending, after_first.state, after_first.src, second) == ran(
                first + "\n"@ + second,
                st,
            )
        }),
{
    reveal_strlit("exit");
    reveal_strlit("clear");
    reveal_strlit("dump");
    let line = first.push('\\');
    assert(line != "exit"@) by {
        if line == "exit"@ {
            assert(line.last() == "exit"@.last());
        }
    }
    assert(line != "clear"@) by {
        if line == "clear"@ {
            assert(line.last() == "clear"@.last());
        }
    }
    assert(line != "dump"@) by {
        if line == "dump"@ {
            assert(line.last() == "dump"@.last());
        }
    }
    assert(line.drop_last() =~= first);
}

/// A complete input on a fresh line that is not a command is parsed and
/// run: what the program printed goes to the standard output, followed,
/// when it ends with a value that is not null, by that value and a line
/// feed, whatever its type; a parse error or runtime error goes to the
/// standard error, and nothing else to the standard output.
pub proof fn law_session_echoes_values(st: State, src: Seq<u8>, line: Seq<char>)
    requires
        line.len() > 0,
        line != "exit"@,
        line != "clear"@,
        line != "dump"@,
        !continued(line),
    ensures
        ({
            let after = repl_step(None, st, src, line);
            &&& !after.exit
            &&& after.pending is None
            &&& match parse_outcome(line) {
                Err(m) => after.stdout == st.out && after.stderr == "解析错误: "@ + m + "\n"@,
                Ok(stmts) => {
                    let (s2, flow) = sem_stmts(MAX_STEPS as nat, encode_utf8(line), st, stmts);
                    &&& after.state == (State { out: Seq::empty(), ..s2 })
                    &&& match flow {
                        Flow::Normal(Val::Null) => after.stdout == s2.out && after.stderr.len() == 0,
                        Flow::Normal(v) => after.stdout == s2.out + show(v) + "\n"@ && after.stderr.len() == 0,
                        Flow::Fail(m) => after.stdout == s2.out && after.stderr == "运行时错误: "@ + m + "\n"@,
                        Flow::Ret(v) => after.stdout == s2.out && after.stderr == "运行时错误: "@ + show(v) + "\n"@,
                    }
                },
            }
        }),
{
    if let Ok(stmts) = parse_outcome(line) {
        let (s2, flow) = sem_stmts(MAX_STEPS as nat, encode_utf8(line), st, stmts);
        if let Flow::Normal(v) = flow {
            if !(v is Null) {
                assert(s2.out + (show(v) + "\n"@) =~= s2.out + show(v) + "\n"@);
            } else {
                assert(s2.out + Seq::<char>::empty() =~= s2.out);
            }
        } else {
            assert(s2.out + Seq::<char>::empty() =~= s2.out);
        }
    }
}

/// On a fresh line: an empty line does nothing; `exit` ends the session
/// and changes nothing; `clear` forgets every variable and function and
/// says so; `dump` writes the variables and changes nothing.
pub proof fn law_session_commands(st: State, src: Seq<u8>)
    ensures
        ({
            let quiet = ReplView {
                pending: None,
                state: st,
                src,
                stdout: Seq::empty(),
                stderr: Seq::empty(),
                exit: false,
            };
            &&& repl_step(None, st, src, Seq::empty()) == quiet
            &&& repl_step(None, st, src, "exit"@) == ReplView { exit: true, ..quiet }
            &&& repl_step(None, st, src, "clear"@) == ReplView {
                state: State { env: seq![Frame::<Val>::empty()], funcs: Seq::empty(), out: Seq::empty() },
                src: Seq::empty(),
                stdout: "环境已清除\n"@,
                ..quiet
            }
            &&& repl_step(None, st, src, "dump"@) == ReplView {
                stdout: dump_text(st.env, Seq::empty()),
                ..quiet
            }
        }),
{
    reveal_strlit("exit");
    reveal_strlit("clear");
    reveal_strlit("dump");
    assert("clear"@ != "exit"@) by {
        assert("clear"@.len() != "exit"@.len());
    }
    assert("dump"@ != "exit"@) by {
        assert("dump"@[0] != "exit"@[0]);
    }
    assert("dump"@ != "clear"@) by {
        assert("dump"@.len() != "clear"@.len());
    }
}

} // verus!
