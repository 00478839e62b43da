//! The variable store and the textual variable substitution it exposes to
//! the command processor.
use vstd::prelude::*;

use crate::command::chain_view;
use crate::command::parse_command;
use crate::command::parse_command_spec;
use crate::command::Invocation;
use crate::command::InvocationChain;
use crate::command::InvocationView;
use crate::command::SyntaxError;
use crate::text::alnum_end;
use crate::text::is_alnum;
use crate::text::lemma_alnum_end;
use crate::text::lemma_ws_end;
use crate::text::push_char;
use crate::text::scan_alnum;
use crate::text::scan_ws;
use crate::text::str_eq;
use crate::text::ws_end;

verus! {

/// Value bound to `name` in the store, or the empty string when unset.
pub open spec fn lookup(env: Map<Seq<char>, Seq<char>>, name: Seq<char>) -> Seq<char> {
    if env.dom().contains(name) {
        env[name]
    } else {
        Seq::empty()
    }
}

/// One left-to-right pass over `s` from position `i`.  Each `$NAME`
/// reference (NAME a nonempty run of letters and digits) and each
/// `${ NAME }` reference (whitespace around the name allowed inside the
/// braces) is replaced by the stored value, the empty string when unset.
/// Substitution is textual and non-recursive: a substituted value is not
/// scanned again.
pub open spec fn subst_from(env: Map<Seq<char>, Seq<char>>, s: Seq<char>, i: int) -> Seq<char>
    decreases s.len() - i,
    via subst_from_decreases
{
    if i < 0 || i >= s.len() {
        Seq::empty()
    } else if s[i] == '$' {
        let a = alnum_end(s, i + 1);
        if a > i + 1 {
            lookup(env, s.subrange(i + 1, a)) + subst_from(env, s, a)
        } else if i + 1 < s.len() && s[i + 1] == '{' {
            let b = ws_end(s, i + 2);
            let c = alnum_end(s, b);
            let d = ws_end(s, c);
            if c > b && d < s.len() && s[d] == '}' {
                lookup(env, s.subrange(b, c)) + subst_from(env, s, d + 1)
            } else {
                seq!['$'] + subst_from(env, s, i + 1)
            }
        } else {
            seq!['$'] + subst_from(env, s, i + 1)
        }
    } else {
        seq![s[i]] + subst_from(env, s, i + 1)
    }
}

#[via_fn]
proof fn subst_from_decreases(env: Map<Seq<char>, Seq<char>>, s: Seq<char>, i: int) {
    if 0 <= i && i < s.len() {
        lemma_alnum_end(s, i + 1);
        if i + 1 < s.len() {
            lemma_ws_end(s, i + 2);
            lemma_alnum_end(s, ws_end(s, i + 2));
            lemma_ws_end(s, alnum_end(s, ws_end(s, i + 2)));
        }
    }
}

/// Substitution applied to one whole token text.
pub open spec fn subst_spec(env: Map<Seq<char>, Seq<char>>, s: Seq<char>) -> Seq<char> {
    subst_from(env, s, 0)
}

/// No two entries of the association list carry the same name.
spec fn keys_unique(s: Seq<(String, String)>) -> bool {
    forall|i: int, j: int| 0 <= i < j < s.len() ==> s[i].0@ != s[j].0@
}

/// The mapping an association list denotes; later entries win, which is
/// immaterial once the names are unique.
spec fn assoc_map(s: Seq<(String, String)>) -> Map<Seq<char>, Seq<char>>
    decreases s.len(),
{
    if s.len() == 0 {
        Map::empty()
    } else {
        assoc_map(s.drop_last()).insert(s.last().0@, s.last().1@)
    }
}

proof fn lemma_unique_drop_last(s: Seq<(String, String)>)
    requires
        keys_unique(s),
        s.len() > 0,
    ensures
        keys_unique(s.drop_last()),
{
    assert forall|i: int, j: int| 0 <= i < j < s.drop_last().len() implies s.drop_last()[i].0@
        != s.drop_last()[j].0@ by {
        assert(s[i].0@ != s[j].0@);
    }
}

proof fn lemma_assoc_contains(s: Seq<(String, String)>, name: Seq<char>)
    ensures
        assoc_map(s).dom().contains(name) <==> (exists|i: int|
            0 <= i < s.len() && s[i].0@ == name),
    decreases s.len(),
{
    if s.len() > 0 {
        lemma_assoc_contains(s.drop_last(), name);
        if s.last().0@ == name {
            assert(s[s.len() - 1].0@ == name);
        } else {
            if assoc_map(s).dom().contains(name) {
                let i = choose|i: int| 0 <= i < s.drop_last().len() && s.drop_last()[i].0@ == name;
                assert(s[i].0@ == name);
            }
            if exists|i: int| 0 <= i < s.len() && s[i].0@ == name {
                let i = choose|i: int| 0 <= i < s.len() && s[i].0@ == name;
                assert(i < s.len() - 1);
                assert(s.drop_last()[i].0@ == name);
            }
        }
    }
}

proof fn lemma_assoc_get(s: Seq<(String, String)>, i: int, name: Seq<char>)
    requires
        keys_unique(s),
        0 <= i < s.len(),
        s[i].0@ == name,
    ensures
        assoc_map(s).dom().contains(name),
        assoc_map(s)[name] == s[i].1@,
    decreases s.len(),
{
    if i == s.len() - 1 {
    } else {
        assert(s.last().0@ != name);
        lemma_unique_drop_last(s);
        assert(s.drop_last()[i].0@ == name);
        lemma_assoc_get(s.drop_last(), i, name);
    }
}

proof fn lemma_assoc_remove(s: Seq<(String, String)>, i: int)
    requires
        keys_unique(s),
        0 <= i < s.len(),
    ensures
        assoc_map(s.remove(i)) == assoc_map(s).remove(s[i].0@),
    decreases s.len(),
{
    let name = s[i].0@;
    if i == s.len() - 1 {
        assert(s.remove(i) =~= s.drop_last());
        lemma_assoc_contains(s.drop_last(), name);
        assert forall|j: int| 0 <= j < s.drop_last().len() implies s.drop_last()[j].0@
            != name by {
            assert(s[j].0@ != s[i].0@);
        }
        assert(!assoc_map(s.drop_last()).dom().contains(name));
        assert(assoc_map(s.remove(i)) =~= assoc_map(s).remove(name));
    } else {
        assert(s.remove(i).drop_last() =~= s.drop_last().remove(i));
        assert(s.remove(i).last() == s.last());
        lemma_unique_drop_last(s);
        assert(s.drop_last()[i].0@ == name);
        lemma_assoc_remove(s.drop_last(), i);
        assert(s.last().0@ != name);
        assert(s.remove(i).len() > 0);
        assert(assoc_map(s.remove(i)) == assoc_map(s.remove(i).drop_last()).insert(
            s.last().0@,
            s.last().1@,
        ));
        assert(assoc_map(s.remove(i)) =~= assoc_map(s).remove(name));
    }
}

proof fn lemma_unique_remove(s: Seq<(String, String)>, i: int)
    requires
        keys_unique(s),
        0 <= i < s.len(),
    ensures
        keys_unique(s.remove(i)),
        forall|j: int| 0 <= j < s.remove(i).len() ==> s.remove(i)[j].0@ != s[i].0@,
{
    assert forall|a: int, b: int| 0 <= a < b < s.remove(i).len() implies s.remove(i)[a].0@
        != s.remove(i)[b].0@ by {
        let a0 = if a < i {
            a
        } else {
            a + 1
        };
        let b0 = if b < i {
            b
        } else {
            b + 1
        };
        assert(s.remove(i)[a] == s[a0]);
        assert(s.remove(i)[b] == s[b0]);
        assert(s[a0].0@ != s[b0].0@);
    }
    assert forall|j: int| 0 <= j < s.remove(i).len() implies s.remove(i)[j].0@ != s[i].0@ by {
        let j0 = if j < i {
            j
        } else {
            j + 1
        };
        assert(s.remove(i)[j] == s[j0]);
        assert(s[j0].0@ != s[i].0@);
    }
}

/// The store of shell variables: a mapping from alphanumeric names to string
/// values, read by the command processor only through substitution.
pub struct ExecContext {
    strings: Vec<(String, String)>,
}

impl View for ExecContext {
    type V = Map<Seq<char>, Seq<char>>;

    closed spec fn view(&self) -> Map<Seq<char>, Seq<char>> {
        assoc_map(self.strings@)
    }
}

impl ExecContext {
    /// Well-formedness: no variable name is stored twice.  `new` establishes
    /// it and every method preserves it.
    pub closed spec fn wf(self) -> bool {
        keys_unique(self.strings@)
    }

    pub fn new() -> (r: ExecContext)
        ensures
            r@ == Map::<Seq<char>, Seq<char>>::empty(),
            r.wf(),
    {
        ExecContext { strings: Vec::new() }
    }

    /// Index of the entry bound to `name`, if any.
    fn find_key(&self, name: &str) -> (r: Option<usize>)
        ensures
            match r {
                Some(i) => i < self.strings@.len() && self.strings@[i as int].0@ == name@,
                None => forall|j: int| 0 <= j < self.strings@.len() ==> self.strings@[j].0@ != name@,
            },
    {
        let mut i: usize = 0;
        let n = self.strings.len();
        while i < n
            invariant
                n == self.strings@.len(),
                i <= n,
                forall|j: int| 0 <= j < i ==> self.strings@[j].0@ != name@,
            decreases n - i,
        {
            if str_eq(self.strings[i].0.as_str(), name) {
                return Some(i);
            }
            i = i + 1;
        }
        None
    }

    /// Value of `name`, or the empty string when unset.
    fn get_var(&self, name: &str) -> (r: String)
        requires
            self.wf(),
        ensures
            r@ == lookup(self@, name@),
    {
        match self.find_key(name) {
            Some(i) => {
                proof {
                    lemma_assoc_get(self.strings@, i as int, name@);
                }
                self.strings[i].1.clone()
            },
            None => {
                proof {
                    lemma_assoc_contains(self.strings@, name@);
                }
                String::new()
            },
        }
    }

    /// Binds `variable` to `expression` with substitution already applied to
    /// the expression; rebinding a name overwrites its value.
    pub fn exec_assignment(&mut self, variable: String, expression: String)
        requires
            old(self).wf(),
        ensures
            final(self)@ == old(self)@.insert(
                variable@,
                subst_spec(old(self)@, expression@),
            ),
            final(self).wf(),
    {
        let value = self.perform_substitution(expression.as_str());
        let ghost m0 = self@;
        if let Some(i) = self.find_key(variable.as_str()) {
            proof {
                lemma_assoc_remove(self.strings@, i as int);
                lemma_unique_remove(self.strings@, i as int);
            }
            self.strings.remove(i);
        }
        let ghost s1 = self.strings@;
        proof {
            lemma_assoc_contains(s1, variable@);
            assert(!assoc_map(s1).dom().contains(variable@));
        }
        self.strings.push((variable, value));
        proof {
            assert(self.strings@.drop_last() =~= s1);
            assert(self.strings@.last() == (variable, value));
            assert(self@ == assoc_map(s1).insert(variable@, value@));
            assert(self@ =~= m0.insert(variable@, value@));
            assert forall|a: int, b: int| 0 <= a < b < self.strings@.len() implies self.strings@[a].0@
                != self.strings@[b].0@ by {
                if b < self.strings@.len() - 1 {
                    assert(s1[a].0@ != s1[b].0@);
                } else {
                    assert(s1[a].0@ != variable@);
                }
            }
        }
    }

    /// Replaces every `$NAME` and `${ NAME }` reference in `source` by the
    /// stored value, the empty string when unset; the replacement is textual
    /// and non-recursive.
    pub fn perform_substitution(&self, source: &str) -> (r: String)
        requires
            self.wf(),
        ensures
            r@ == subst_spec(self@, source@),
    {
        let ghost s = source@;
        let ghost env = self@;
        let n = source.unicode_len();
        let mut out = String::new();
        let mut i: usize = 0;
        while i < n
            invariant
                self.wf(),
                env == self@,
                s == source@,
                n == s.len(),
                i <= n,
                subst_from(env, s, 0) == out@ + subst_from(env, s, i as int),
            decreases n - i,
        {
            let c = source.get_char(i);
            if c == '$' {
                let a = scan_alnum(source, i + 1);
                if a > i + 1 {
                    let name = source.substring_char(i + 1, a);
                    let val = self.get_var(name);
                    out.append(val.as_str());
                    proof {
                        assert(subst_from(env, s, i as int) == lookup(env, s.subrange(i + 1, a as int))
                            + subst_from(env, s, a as int));
                        assert(subst_from(env, s, 0) =~= out@ + subst_from(env, s, a as int));
                    }
                    i = a;
                } else {
                    let mut braced = false;
                    if i + 1 < n {
                        if source.get_char(i + 1) == '{' {
                            let b = scan_ws(source, i + 2);
                            let cpos = scan_alnum(source, b);
                            let d = scan_ws(source, cpos);
                            if cpos > b && d < n {
                                if source.get_char(d) == '}' {
                                    braced = true;
                                    let name = source.substring_char(b, cpos);
                                    let val = self.get_var(name);
                                    out.append(val.as_str());
                                    proof {
                                        assert(subst_from(env, s, i as int) == lookup(
                                            env,
                                            s.subrange(b as int, cpos as int),
                                        ) + subst_from(env, s, d + 1));
                                        assert(subst_from(env, s, 0) =~= out@ + subst_from(
                                            env,
                                            s,
                                            d + 1,
                                        ));
                                    }
                                    i = d + 1;
                                }
                            }
                        }
                    }
                    if !braced {
                        push_char(&mut out, '$');
                        proof {
                            assert(subst_from(env, s, i as int) == seq!['$'] + subst_from(
                                env,
                                s,
                                i + 1,
                            ));
                            assert(subst_from(env, s, 0) =~= out@ + subst_from(env, s, i + 1));
                        }
                        i = i + 1;
                    }
                }
            } else {
                push_char(&mut out, c);
                proof {
                    assert(subst_from(env, s, i as int) == seq![s[i as int]] + subst_from(
                        env,
                        s,
                        i + 1,
                    ));
                    assert(subst_from(env, s, 0) =~= out@ + subst_from(env, s, i + 1));
                }
                i = i + 1;
            }
        }
        proof {
            assert(subst_from(env, s, n as int) =~= Seq::<char>::empty());
            assert(out@ =~= out@ + subst_from(env, s, n as int));
        }
        out
    }
}

/// One statement of the surrounding script language, as the statement parser
/// hands it over: the command processor reads only the `Command` payloads.
#[derive(Debug)]
pub enum Statement {
    /// Binds a variable to an expression.
    Assignment(String, String),
    /// One command line for the tokenizer, parser and orchestrator.
    Command(String),
    /// A conditional with its condition, `if` block and `else` block.
    If(String, Vec<Statement>, Vec<Statement>),
}

/// What the interactive loop must do for one processed statement.
#[derive(Debug)]
pub enum ExecAction {
    /// Run this parsed chain against the OS.
    Run(Vec<(Invocation, Option<InvocationChain>)>),
    /// Report this error for a command line that did not parse.
    Report(SyntaxError),
    /// A conditional statement, which the orchestrator does not evaluate:
    /// handed back as it stands.
    IfStub(String, Vec<Statement>, Vec<Statement>),
}

/// Mathematical model of one action.
pub enum ActionView {
    Run(Seq<(InvocationView, Option<InvocationChain>)>),
    Report(SyntaxError),
    IfStub(Seq<char>, Seq<Statement>, Seq<Statement>),
}

impl View for ExecAction {
    type V = ActionView;

    open spec fn view(&self) -> ActionView {
        match self {
            ExecAction::Run(v) => ActionView::Run(chain_view(v@)),
            ExecAction::Report(e) => ActionView::Report(*e),
            ExecAction::IfStub(c, a, b) => ActionView::IfStub(c@, a@, b@),
        }
    }
}

/// The action a command statement yields: its parsed chain, or the syntax
/// error to report.
pub open spec fn command_action(env: Map<Seq<char>, Seq<char>>, c: Seq<char>) -> ActionView {
    match parse_command_spec(env, c) {
        Ok(ch) => ActionView::Run(ch),
        Err(e) => ActionView::Report(e),
    }
}

/// Processing a statement list in order: an assignment updates the store at
/// its position, a command is parsed against the store as of its position,
/// and a conditional is handed back unevaluated.  The pair is the final
/// store and the actions in order.
pub open spec fn execute_spec(env: Map<Seq<char>, Seq<char>>, stmts: Seq<Statement>) -> (
    Map<Seq<char>, Seq<char>>,
    Seq<ActionView>,
)
    decreases stmts.len(),
{
    if stmts.len() == 0 {
        (env, Seq::empty())
    } else {
        let rest = stmts.drop_first();
        match stmts[0] {
            Statement::Assignment(v, e) => execute_spec(env.insert(v@, subst_spec(env, e@)), rest),
            Statement::Command(c) => {
                let sub = execute_spec(env, rest);
                (sub.0, seq![command_action(env, c@)] + sub.1)
            },
            Statement::If(c, a, b) => {
                let sub = execute_spec(env, rest);
                (sub.0, seq![ActionView::IfStub(c@, a@, b@)] + sub.1)
            },
        }
    }
}

/// The views of an action vector, in order.
pub open spec fn actions_view(v: Seq<ExecAction>) -> Seq<ActionView> {
    v.map_values(|a: ExecAction| a@)
}

impl ExecContext {
    /// Processes the statements in order: assignments mutate the store,
    /// command lines are parsed with the store as of their position, and the
    /// resulting actions are returned for the interactive loop to perform.
    pub fn execute(&mut self, statements: Vec<Statement>) -> (r: Vec<ExecAction>)
        requires
            old(self).wf(),
        ensures
            final(self)@ == execute_spec(old(self)@, statements@).0,
            actions_view(r@) == execute_spec(old(self)@, statements@).1,
            final(self).wf(),
    {
        let ghost env0 = self@;
        let ghost stmts0 = statements@;
        let mut statements = statements;
        let mut out: Vec<ExecAction> = Vec::new();
        proof {
            assert(actions_view(out@) =~= Seq::<ActionView>::empty());
            assert(actions_view(out@) + execute_spec(self@, statements@).1 =~= execute_spec(
                self@,
                statements@,
            ).1);
        }
        while statements.len() > 0
            invariant
                self.wf(),
                execute_spec(env0, stmts0).0 == execute_spec(self@, statements@).0,
                execute_spec(env0, stmts0).1 == actions_view(out@) + execute_spec(
                    self@,
                    statements@,
                ).1,
            decreases statements@.len(),
        {
            let ghost sts_before = statements@;
            let ghost env_before = self@;
            let ghost out_before = out@;
            let st = statements.remove(0);
            proof {
                assert(statements@ =~= sts_before.drop_first());
            }
            match st {
                Statement::Assignment(v, e) => {
                    self.exec_assignment(v, e);
                },
                Statement::Command(c) => {
                    let act = match parse_command(self, c.as_str()) {
                        Ok(ch) => ExecAction::Run(ch),
                        Err(e) => ExecAction::Report(e),
                    };
                    proof {
                        assert(act@ == command_action(env_before, c@));
                    }
                    out.push(act);
                    proof {
                        assert(actions_view(out@) =~= actions_view(out_before) + seq![
                            out@.last()@,
                        ]);
                        assert(actions_view(out_before) + (seq![out@.last()@] + execute_spec(
                            self@,
                            statements@,
                        ).1) =~= actions_view(out@) + execute_spec(self@, statements@).1);
                    }
                },
                Statement::If(c, a, b) => {
                    let act = ExecAction::IfStub(c, a, b);
                    out.push(act);
                    proof {
                        assert(actions_view(out@) =~= actions_view(out_before) + seq![
                            out@.last()@,
                        ]);
                        assert(actions_view(out_before) + (seq![out@.last()@] + execute_spec(
                            self@,
                            statements@,
                        ).1) =~= actions_view(out@) + execute_spec(self@, statements@).1);
                    }
                },
            }
        }
        proof {
            assert(actions_view(out@) + Seq::<ActionView>::empty() =~= actions_view(out@));
        }
        out
    }
}

proof fn lemma_alnum_end_all(s: Seq<char>, i: int)
    requires
        0 <= i <= s.len(),
        forall|j: int| i <= j < s.len() ==> is_alnum(s[j]),
    ensures
        alnum_end(s, i) == s.len(),
    decreases s.len() - i,
{
    if i < s.len() {
        lemma_alnum_end_all(s, i + 1);
    }
}

/// An unset variable reference substitutes to the empty string, never to the
/// literal token text: for any nonempty alphanumeric `name` that the store
/// does not bind, the token `$name` substitutes to the empty string.
pub proof fn lemma_unset_variable_empty(env: Map<Seq<char>, Seq<char>>, name: Seq<char>)
    requires
        name.len() > 0,
        forall|j: int| 0 <= j < name.len() ==> is_alnum(name[j]),
        !env.dom().contains(name),
    ensures
        subst_spec(env, seq!['$'] + name) == Seq::<char>::empty(),
{
    let s = seq!['$'] + name;
    assert forall|j: int| 1 <= j < s.len() implies is_alnum(s[j]) by {
        assert(s[j] == name[j - 1]);
    }
    lemma_alnum_end_all(s, 1);
    let a = alnum_end(s, 1);
    assert(s[0] == '$');
    assert(!is_alnum('$'));
    assert(s.subrange(1, a) =~= name);
    assert(subst_from(env, s, a) == Seq::<char>::empty());
    assert(subst_spec(env, s) =~= Seq::<char>::empty());
}

} // verus!
