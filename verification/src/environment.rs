//! Variable environments with nested scopes.
//!
//! A scope is a list of named entries; the environment is a chain of scopes,
//! each one nested in its parent. Lookups search the innermost scope first.
use vstd::prelude::*;

use crate::text::{decimal, push_count, str_eq};
use crate::value::{show, Val, Value};

verus! {

/// A list of named entries, oldest first. Defining a name that is present
/// replaces its entry in place; otherwise the entry is added at the end.
pub type Frame<V> = Seq<(Seq<char>, V)>;

/// The position of the last entry named `name`, if there is one.
pub open spec fn frame_index<V>(f: Frame<V>, name: Seq<char>) -> Option<int>
    decreases f.len(),
{
    if f.len() == 0 {
        None
    } else if f.last().0 == name {
        Some(f.len() - 1)
    } else {
        frame_index(f.drop_last(), name)
    }
}

/// The value of the entry named `name`, if there is one.
pub open spec fn frame_get<V>(f: Frame<V>, name: Seq<char>) -> Option<V> {
    match frame_index(f, name) {
        Some(i) => Some(f[i].1),
        None => None,
    }
}

/// The frame after defining `name` as `v`.
pub open spec fn frame_set<V>(f: Frame<V>, name: Seq<char>, v: V) -> Frame<V> {
    match frame_index(f, name) {
        Some(i) => f.update(i, (name, v)),
        None => f.push((name, v)),
    }
}

/// No name occurs twice in a frame.
pub open spec fn names_unique<V>(f: Frame<V>) -> bool {
    forall|i: int, j: int| 0 <= i < f.len() && 0 <= j < f.len() && i != j ==> f[i].0 != f[j].0
}

/// What `frame_index` finds.
pub proof fn lemma_frame_index<V>(f: Frame<V>, name: Seq<char>)
    ensures
        frame_index(f, name) matches Some(i) ==> 0 <= i < f.len() && f[i].0 == name
            && forall|j: int| i < j < f.len() ==> f[j].0 != name,
        frame_index(f, name) is None ==> forall|j: int| 0 <= j < f.len() ==> f[j].0 != name,
    decreases f.len(),
{
    if f.len() > 0 {
        let g = f.drop_last();
        lemma_frame_index(g, name);
        assert forall|j: int| 0 <= j < g.len() implies g[j] == f[j] by {}
    }
}

/// Two frames whose entries carry `n` at the same positions find `n` at the
/// same position.
pub proof fn lemma_frame_index_same_keys<V>(f: Frame<V>, g: Frame<V>, n: Seq<char>)
    requires
        f.len() == g.len(),
        forall|j: int| 0 <= j < f.len() ==> (f[j].0 == n) == (g[j].0 == n),
    ensures
        frame_index(f, n) == frame_index(g, n),
    decreases f.len(),
{
    if f.len() > 0 {
        let f2 = f.drop_last();
        let g2 = g.drop_last();
        assert forall|j: int| 0 <= j < f2.len() implies (f2[j].0 == n) == (g2[j].0 == n) by {
            assert(f2[j] == f[j]);
            assert(g2[j] == g[j]);
        }
        lemma_frame_index_same_keys(f2, g2, n);
    }
}

/// Where a name is found after a definition.
pub proof fn lemma_frame_set_index<V>(f: Frame<V>, name: Seq<char>, v: V, other: Seq<char>)
    ensures
        other != name ==> frame_index(frame_set(f, name, v), other) == frame_index(f, other),
        frame_index(frame_set(f, name, v), name) matches Some(k) && frame_set(f, name, v)[k] == (name, v),
{
    let g = frame_set(f, name, v);
    lemma_frame_index(f, name);
    match frame_index(f, name) {
        Some(i) => {
            assert forall|j: int| 0 <= j < f.len() implies (f[j].0 == other) == (g[j].0 == other) by {
                if j == i && other != name {
                }
            }
            if other != name {
                lemma_frame_index_same_keys(f, g, other);
            }
            assert forall|j: int| 0 <= j < f.len() implies (f[j].0 == name) == (g[j].0 == name) by {}
            lemma_frame_index_same_keys(f, g, name);
        },
        None => {
            assert(g.drop_last() =~= f);
        },
    }
}

/// A frame lookup after a definition.
pub proof fn lemma_frame_set_get<V>(f: Frame<V>, name: Seq<char>, v: V, other: Seq<char>)
    ensures
        frame_get(frame_set(f, name, v), other) == if other == name {
            Some(v)
        } else {
            frame_get(f, other)
        },
        frame_index(frame_set(f, name, v), other) is Some <==> (other == name || frame_index(f, other) is Some),
{
    let g = frame_set(f, name, v);
    lemma_frame_set_index(f, name, v, other);
    lemma_frame_index(f, name);
    lemma_frame_index(f, other);
    if other != name {
        match frame_index(f, other) {
            Some(k) => {
                match frame_index(f, name) {
                    Some(i) => {
                        assert(k != i);
                    },
                    None => {},
                }
                assert(g[k] == f[k]);
            },
            None => {},
        }
    }
}

/// Defining a name keeps the names of a frame distinct.
pub proof fn lemma_frame_set_unique<V>(f: Frame<V>, name: Seq<char>, v: V)
    requires
        names_unique(f),
    ensures
        names_unique(frame_set(f, name, v)),
{
    lemma_frame_index(f, name);
}

/// The value of `name` in a chain of scopes, innermost scope first.
pub open spec fn env_get(sc: Seq<Frame<Val>>, name: Seq<char>) -> Option<Val>
    decreases sc.len(),
{
    if sc.len() == 0 {
        None
    } else if frame_index(sc.last(), name) is Some {
        frame_get(sc.last(), name)
    } else {
        env_get(sc.drop_last(), name)
    }
}

/// The chain of scopes after `name` is defined as `v` in the innermost one.
pub open spec fn env_define(sc: Seq<Frame<Val>>, name: Seq<char>, v: Val) -> Seq<Frame<Val>> {
    if sc.len() == 0 {
        sc
    } else {
        sc.update(sc.len() - 1, frame_set(sc.last(), name, v))
    }
}

/// The chain of scopes after the innermost scope that holds `name` gives it
/// the value `v`; `None` when no scope holds `name`.
pub open spec fn env_assign(sc: Seq<Frame<Val>>, name: Seq<char>, v: Val) -> Option<Seq<Frame<Val>>>
    decreases sc.len(),
{
    if sc.len() == 0 {
        None
    } else if frame_index(sc.last(), name) is Some {
        Some(sc.update(sc.len() - 1, frame_set(sc.last(), name, v)))
    } else {
        match env_assign(sc.drop_last(), name, v) {
            Some(inner) => Some(inner.push(sc.last())),
            None => None,
        }
    }
}

/// The message of a failed assignment to an undefined variable.
pub open spec fn undefined_variable_message(name: Seq<char>) -> Seq<char> {
    "变量 '"@ + name + "' 未定义"@
}

/// The model of one entry of a scope.
pub open spec fn entry_view(e: (String, Value)) -> (Seq<char>, Val) {
    (e.0@, e.1.val())
}

/// The model of a scope.
pub open spec fn frame_of(vars: Seq<(String, Value)>) -> Frame<Val> {
    vars.map_values(|e: (String, Value)| entry_view(e))
}

/// A scope of variables, nested in an optional parent scope. The variables
/// of a scope are a list of name-value pairs in the order they were first
/// defined, searched by name; a name occurs in it at most once.
pub struct Environment {
    variables: Vec<(String, Value)>,
    parent: Option<Box<Environment>>,
}

impl View for Environment {
    type V = Seq<Frame<Val>>;

    /// The scopes of this environment, outermost first; the last one is this
    /// environment's own scope.
    closed spec fn view(&self) -> Seq<Frame<Val>> {
        self.scopes()
    }
}

impl Environment {
    spec fn scopes(&self) -> Seq<Frame<Val>>
        decreases self,
    {
        match self.parent {
            Some(p) => (*p).scopes().push(frame_of(self.variables@)),
            None => seq![frame_of(self.variables@)],
        }
    }

    proof fn lemma_shape(&self)
        ensures
            self@.len() >= 1,
            self@.last() == frame_of(self.variables@),
            self.parent matches Some(p) ==> self@.drop_last() == (*p)@ && self@ == (*p)@.push(frame_of(self.variables@)),
            self.parent is None ==> self@.len() == 1,
        decreases self,
    {
        match self.parent {
            Some(p) => {
                (*p).lemma_shape();
                assert(self@.drop_last() =~= (*p)@);
            },
            None => {},
        }
    }
}

proof fn lemma_frame_of_push(vars: Seq<(String, Value)>, e: (String, Value))
    ensures
        frame_of(vars.push(e)) == frame_of(vars).push(entry_view(e)),
{
    assert(frame_of(vars.push(e)) =~= frame_of(vars).push(entry_view(e)));
}

proof fn lemma_frame_of_update(vars: Seq<(String, Value)>, i: int, e: (String, Value))
    requires
        0 <= i < vars.len(),
    ensures
        frame_of(vars.update(i, e)) == frame_of(vars).update(i, entry_view(e)),
{
    assert(frame_of(vars.update(i, e)) =~= frame_of(vars).update(i, entry_view(e)));
}

/// Finds the last entry named `name`.
fn find_entry(vars: &Vec<(String, Value)>, name: &str) -> (r: Option<usize>)
    ensures
        r matches Some(i) ==> frame_index(frame_of(vars@), name@) == Some(i as int),
        r is None ==> frame_index(frame_of(vars@), name@) is None,
{
    let mut i: usize = vars.len();
    proof {
        assert(frame_of(vars@).take(vars@.len() as int) =~= frame_of(vars@));
    }
    while i > 0
        invariant
            i <= vars.len(),
            frame_index(frame_of(vars@), name@) == frame_index(frame_of(vars@).take(i as int), name@),
        decreases i,
    {
        let ghost f = frame_of(vars@).take(i as int);
        proof {
            assert(f.drop_last() =~= frame_of(vars@).take(i - 1));
        }
        if str_eq(vars[i - 1].0.as_str(), name) {
            return Some(i - 1);
        }
        i = i - 1;
    }
    None
}

/// The scopes left after the innermost one is left; a single scope stays.
pub open spec fn pop_env(sc: Seq<Frame<Val>>) -> Seq<Frame<Val>> {
    if sc.len() > 1 {
        sc.drop_last()
    } else {
        sc
    }
}

/// The scope model after an `Environment` is built with a given parent.
pub open spec fn nested(parent: Seq<Frame<Val>>) -> Seq<Frame<Val>> {
    parent.push(Seq::empty())
}

impl Environment {
    /// The scope count is never zero.
    pub proof fn lemma_view_nonempty(&self)
        ensures
            self@.len() >= 1,
    {
        self.lemma_shape();
    }

    /// A global environment with no variables.
    pub fn new() -> (r: Environment)
        ensures
            r@ == seq![Frame::<Val>::empty()],
    {
        let r = Environment { variables: Vec::new(), parent: None };
        proof {
            assert(frame_of(r.variables@) =~= Frame::<Val>::empty());
        }
        r
    }

    /// A new empty scope nested in `parent`.
    pub fn new_with_parent(parent: Environment) -> (r: Environment)
        ensures
            r@ == nested(parent@),
    {
        let r = Environment { variables: Vec::new(), parent: Some(Box::new(parent)) };
        proof {
            assert(frame_of(r.variables@) =~= Frame::<Val>::empty());
        }
        r
    }

    /// A copy of this environment, with the same scopes.
    pub fn deep_copy(&self) -> (r: Environment)
        ensures
            r@ == self@,
        decreases self@.len(),
    {
        proof {
            self.lemma_shape();
        }
        let mut vars: Vec<(String, Value)> = Vec::new();
        let mut i: usize = 0;
        while i < self.variables.len()
            invariant
                i <= self.variables@.len(),
                vars@.len() == i,
                forall|j: int| 0 <= j < i ==> #[trigger] entry_view(vars@[j]) == entry_view(self.variables@[j]),
            decreases self.variables@.len() - i,
        {
            let e = (self.variables[i].0.clone(), self.variables[i].1.deep_copy());
            vars.push(e);
            i = i + 1;
        }
        proof {
            assert(frame_of(vars@) =~= frame_of(self.variables@));
        }
        let parent = match &self.parent {
            Some(p) => {
                proof {
                    (**p).lemma_shape();
                }
                Some(Box::new(p.deep_copy()))
            },
            None => None,
        };
        let r = Environment { variables: vars, parent };
        proof {
            r.lemma_shape();
        }
        r
    }

    /// Enters a new empty scope nested in the current one.
    pub fn push_scope(&mut self)
        ensures
            final(self)@ == nested(old(self)@),
    {
        let mut outer = Environment::new();
        std::mem::swap(&mut outer, self);
        *self = Environment::new_with_parent(outer);
    }

    /// Leaves the innermost scope, dropping its variables; an environment
    /// with a single scope stays as it is.
    pub fn pop_scope(&mut self)
        ensures
            final(self)@ == pop_env(old(self)@),
    {
        proof {
            self.lemma_shape();
        }
        if self.parent.is_some() {
            let p = self.parent.take();
            match p {
                Some(b) => {
                    proof {
                        (*b).lemma_shape();
                    }
                    *self = *b;
                },
                None => {},
            }
        }
    }

    /// Defines `name` in this scope with `value`, replacing an earlier
    /// definition of `name` in this scope.
    pub fn define(&mut self, name: &str, value: Value)
        ensures
            final(self)@ == env_define(old(self)@, name@, value.val()),
    {
        let ghost old_vars = self.variables@;
        proof {
            self.lemma_shape();
            lemma_frame_index(frame_of(old_vars), name@);
        }
        match find_entry(&self.variables, name) {
            Some(i) => {
                let key = self.variables[i].0.clone();
                let e = (key, value);
                proof {
                    lemma_frame_of_update(old_vars, i as int, e);
                }
                self.variables.set(i, e);
            },
            None => {
                let e = (name.to_owned(), value);
                proof {
                    lemma_frame_of_push(old_vars, e);
                }
                self.variables.push(e);
            },
        }
        proof {
            assert(frame_of(self.variables@) == frame_set(frame_of(old_vars), name@, value.val()));
            self.lemma_shape();
            assert(self@ =~= env_define(old(self)@, name@, value.val()));
        }
    }

    /// The value of `name` in the innermost scope that holds it.
    pub fn get(&self, name: &str) -> (r: Option<Value>)
        ensures
            opt_val(r) == env_get(self@, name@),
        decreases self@.len(),
    {
        proof {
            self.lemma_shape();
        }
        match find_entry(&self.variables, name) {
            Some(i) => {
                proof {
                    lemma_frame_index(frame_of(self.variables@), name@);
                    assert(frame_of(self.variables@)[i as int] == entry_view(self.variables@[i as int]));
                }
                let v = self.variables[i].1.deep_copy();
                proof {
                    assert(env_get(self@, name@) == Some(self.variables@[i as int].1.val()));
                    assert(opt_val(Some(v)) == env_get(self@, name@));
                }
                Some(v)
            },
            None => {
                match &self.parent {
                    Some(p) => {
                        proof {
                            (**p).lemma_shape();
                            assert(env_get(self@, name@) == env_get((**p)@, name@));
                        }
                        let r = p.get(name);
                        assert(opt_val(r) == env_get(self@, name@));
                        r
                    },
                    None => {
                        assert(self@.drop_last().len() == 0);
                        assert(env_get(self@.drop_last(), name@) is None);
                        assert(env_get(self@, name@) is None);
                        None
                    },
                }
            },
        }
    }

    /// Gives `name` the value `value` in the innermost scope that holds it;
    /// fails when no scope holds `name`.
    pub fn assign(&mut self, name: &str, value: Value) -> (r: Result<(), String>)
        ensures
            match env_assign(old(self)@, name@, value.val()) {
                Some(sc) => r is Ok && final(self)@ == sc,
                None => r matches Err(msg) && msg@ == undefined_variable_message(name@)
                    && final(self)@ == old(self)@,
            },
        decreases old(self)@.len(),
    {
        let ghost old_vars = self.variables@;
        proof {
            self.lemma_shape();
            lemma_frame_index(frame_of(old_vars), name@);
        }
        match find_entry(&self.variables, name) {
            Some(i) => {
                let key = self.variables[i].0.clone();
                let e = (key, value);
                proof {
                    lemma_frame_index(frame_of(old_vars), name@);
                    lemma_frame_of_update(old_vars, i as int, e);
                }
                self.variables.set(i, e);
                proof {
                    self.lemma_shape();
                    assert(frame_of(self.variables@) == frame_set(frame_of(old_vars), name@, value.val()));
                    assert(self@ =~= old(self)@.update(old(self)@.len() - 1, frame_set(frame_of(old_vars), name@, value.val())));
                }
                Ok(())
            },
            None => {
                match self.parent.take() {
                    Some(mut p) => {
                        let ghost old_pv = (*p)@;
                        let r = (*p).assign(name, value);
                        self.parent = Some(p);
                        proof {
                            self.lemma_shape();
                            assert(self.variables@ == old_vars);
                            match env_assign(old_pv, name@, value.val()) {
                                Some(sc) => {
                                    assert(self@ =~= sc.push(frame_of(old_vars)));
                                },
                                None => {
                                    assert(self@ =~= old(self)@);
                                },
                            }
                        }
                        r
                    },
                    None => {
                        proof {
                            self.lemma_shape();
                            assert(old(self)@.drop_last().len() == 0);
                            assert(env_assign(old(self)@.drop_last(), name@, value.val()) is None);
                        }
                        let mut msg = String::new();
                        msg.append("变量 '");
                        msg.append(name);
                        msg.append("' 未定义");
                        proof {
                            assert(self@ =~= old(self)@);
                            assert(msg@ =~= undefined_variable_message(name@));
                        }
                        Err(msg)
                    },
                }
            },
        }
    }

    /// The value of `name` in this environment's own scope only.
    pub fn get_local(&self, name: &str) -> (r: Option<Value>)
        ensures
            opt_val(r) == frame_get(self@.last(), name@),
    {
        proof {
            self.lemma_shape();
        }
        proof {
            lemma_frame_index(frame_of(self.variables@), name@);
        }
        match find_entry(&self.variables, name) {
            Some(i) => {
                proof {
                    assert(frame_of(self.variables@)[i as int] == entry_view(self.variables@[i as int]));
                }
                Some(self.variables[i].1.deep_copy())
            },
            None => None,
        }
    }

    /// Whether `name` is defined in this environment's own scope.
    pub fn defined_local(&self, name: &str) -> (r: bool)
        ensures
            r == (frame_index(self@.last(), name@) is Some),
    {
        proof {
            self.lemma_shape();
        }
        match find_entry(&self.variables, name) {
            Some(_) => true,
            None => false,
        }
    }
}

/// `k` levels of indentation, two spaces each.
pub open spec fn indent_pad(k: nat) -> Seq<char>
    decreases k,
{
    if k == 0 {
        Seq::empty()
    } else {
        indent_pad((k - 1) as nat) + "  "@
    }
}

/// One printed line per variable of a scope, in the scope's order: the
/// indentation, two spaces, the name, `" = "`, the printed value.
pub open spec fn dump_entries(f: Frame<Val>, pad: Seq<char>) -> Seq<char>
    decreases f.len(),
{
    if f.len() == 0 {
        Seq::empty()
    } else {
        dump_entries(f.drop_last(), pad) + pad + "  "@ + f.last().0 + " = "@ + show(f.last().1) + "\n"@
    }
}

/// The printed form of a chain of scopes, innermost first: for each scope a
/// header with its variable count and its variables, then, where there is
/// an enclosing scope, a `parent:` line and that scope indented two more
/// spaces.
pub open spec fn dump_text(sc: Seq<Frame<Val>>, pad: Seq<char>) -> Seq<char>
    decreases sc.len(),
{
    if sc.len() == 0 {
        Seq::empty()
    } else {
        let own = pad + "Environment ("@ + decimal(sc.last().len() as int) + " variables):\n"@
            + dump_entries(sc.last(), pad);
        if sc.len() == 1 {
            own
        } else {
            own + pad + "parent:\n"@ + dump_text(sc.drop_last(), pad + "  "@)
        }
    }
}

impl Environment {
    /// Appends the printed form of this environment to `output`.
    pub fn dump_to_string(&self, output: &mut String)
        ensures
            final(output)@ == old(output)@ + dump_text(self@, Seq::empty()),
    {
        let pad = String::new();
        self.dump_with_pad(&pad, output);
    }

    /// Appends the printed form of this environment to `output`, indented by
    /// `indent` levels of two spaces.
    pub fn dump_to_string_with_indent(&self, indent: usize, output: &mut String)
        ensures
            final(output)@ == old(output)@ + dump_text(self@, indent_pad(indent as nat)),
    {
        let mut pad = String::new();
        let mut k: usize = 0;
        while k < indent
            invariant
                k <= indent,
                pad@ == indent_pad(k as nat),
            decreases indent - k,
        {
            pad.append("  ");
            k = k + 1;
        }
        self.dump_with_pad(&pad, output);
    }

    fn dump_with_pad(&self, pad: &String, output: &mut String)
        ensures
            final(output)@ == old(output)@ + dump_text(self@, pad@),
        decreases self@.len(),
    {
        proof {
            self.lemma_shape();
            reveal_strlit("  ");
        }
        output.append(pad.as_str());
        output.append("Environment (");
        push_count(output, self.variables.len());
        output.append(" variables):\n");
        let ghost head = output@;
        let mut i: usize = 0;
        while i < self.variables.len()
            invariant
                i <= self.variables@.len(),
                output@ == head + dump_entries(frame_of(self.variables@).take(i as int), pad@),
            decreases self.variables@.len() - i,
        {
            let ghost before = output@;
            output.append(pad.as_str());
            output.append("  ");
            output.append(self.variables[i].0.as_str());
            output.append(" = ");
            self.variables[i].1.write_to(output);
            output.append("\n");
            proof {
                let f = frame_of(self.variables@);
                assert(f.take(i + 1).drop_last() =~= f.take(i as int));
                assert(f.take(i + 1).last() == entry_view(self.variables@[i as int]));
                assert(output@ =~= head + dump_entries(f.take(i + 1), pad@));
            }
            i = i + 1;
        }
        proof {
            assert(frame_of(self.variables@).take(self.variables@.len() as int) =~= frame_of(self.variables@));
        }
        match &self.parent {
            Some(p) => {
                output.append(pad.as_str());
                output.append("parent:\n");
                let mut inner = pad.clone();
                inner.append("  ");
                proof {
                    (**p).lemma_shape();
                }
                p.dump_with_pad(&inner, output);
                proof {
                    assert(output@ =~= old(output)@ + dump_text(self@, pad@));
                }
            },
            None => {
                proof {
                    assert(output@ =~= old(output)@ + dump_text(self@, pad@));
                }
            },
        }
    }
}

/// A name defined in the innermost scope is found with the value it was
/// given, whatever outer scopes hold.
pub proof fn law_get_after_define(sc: Seq<Frame<Val>>, name: Seq<char>, v: Val)
    requires
        sc.len() >= 1,
    ensures
        env_get(env_define(sc, name, v), name) == Some(v),
{
    lemma_frame_set_get(sc.last(), name, v, name);
}

/// Defining a name leaves what every other name refers to as it was.
pub proof fn law_define_keeps_others(sc: Seq<Frame<Val>>, name: Seq<char>, other: Seq<char>, v: Val)
    requires
        sc.len() >= 1,
        other != name,
    ensures
        env_get(env_define(sc, name, v), other) == env_get(sc, other),
{
    let d = env_define(sc, name, v);
    lemma_frame_set_get(sc.last(), name, v, other);
    assert(d.drop_last() =~= sc.drop_last());
}

/// A new nested scope sees exactly what its parent sees.
pub proof fn law_nested_sees_parent(sc: Seq<Frame<Val>>, name: Seq<char>)
    ensures
        env_get(nested(sc), name) == env_get(sc, name),
{
    assert(nested(sc).drop_last() =~= sc);
}

/// Leaving a nested scope forgets every definition made in it and gives
/// back the enclosing scopes unchanged.
pub proof fn law_leaving_forgets(sc: Seq<Frame<Val>>, name: Seq<char>, v: Val)
    requires
        sc.len() >= 1,
    ensures
        pop_env(env_define(nested(sc), name, v)) == sc,
{
    assert(env_define(nested(sc), name, v).drop_last() =~= sc);
}

/// An assignment succeeds exactly when the name is visible.
pub proof fn law_assign_needs_definition(sc: Seq<Frame<Val>>, name: Seq<char>, v: Val)
    ensures
        (env_assign(sc, name, v) is Some) == (env_get(sc, name) is Some),
    decreases sc.len(),
{
    if sc.len() > 0 {
        law_assign_needs_definition(sc.drop_last(), name, v);
        lemma_frame_index(sc.last(), name);
    }
}

/// After an assignment the name refers to the new value, every other name
/// to what it referred to before, and the number of scopes is the same.
pub proof fn law_get_after_assign(sc: Seq<Frame<Val>>, name: Seq<char>, other: Seq<char>, v: Val)
    requires
        env_assign(sc, name, v) is Some,
    ensures
        env_get(env_assign(sc, name, v)->0, name) == Some(v),
        other != name ==> env_get(env_assign(sc, name, v)->0, other) == env_get(sc, other),
        env_assign(sc, name, v)->0.len() == sc.len(),
    decreases sc.len(),
{
    let r = env_assign(sc, name, v)->0;
    if frame_index(sc.last(), name) is Some {
        lemma_frame_set_get(sc.last(), name, v, name);
        lemma_frame_set_get(sc.last(), name, v, other);
        assert(r.drop_last() =~= sc.drop_last());
    } else {
        law_get_after_assign(sc.drop_last(), name, other, v);
        let inner = env_assign(sc.drop_last(), name, v)->0;
        assert(r.drop_last() =~= inner);
        assert(r.last() == sc.last());
    }
}

/// Defining names keeps the names of each scope distinct.
pub proof fn law_define_keeps_names_distinct(sc: Seq<Frame<Val>>, name: Seq<char>, v: Val)
    requires
        forall|i: int| 0 <= i < sc.len() ==> names_unique(#[trigger] sc[i]),
    ensures
        forall|i: int| 0 <= i < sc.len() ==> names_unique(#[trigger] env_define(sc, name, v)[i]),
{
    if sc.len() > 0 {
        lemma_frame_set_unique(sc.last(), name, v);
    }
}

/// The model of an optional value.
pub open spec fn opt_val(o: Option<Value>) -> Option<Val> {
    match o {
        Some(v) => Some(v.val()),
        None => None,
    }
}

} // verus!
