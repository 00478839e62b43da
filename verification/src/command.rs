//! The invocation-chain parser and the chain-operator decision logic of the
//! process orchestrator.
use vstd::prelude::*;

use crate::context::ExecContext;
use crate::context::subst_spec;
use crate::token::CommandToken;
use crate::token::TokenView;
use crate::token::tokenize;
use crate::token::tokens_from;
use crate::token::tokens_view;

verus! {

/// How an invocation relates to the next one in the chain.
#[derive(Clone, Copy, Debug, PartialEq, Eq, Structural)]
pub enum InvocationChain {
    And,
    Or,
    Semicolon,
    Pipe,
}

/// The error kinds of the command processor: the first two abort parsing of
/// the whole line, the last two abort the remaining chain at run time.
#[derive(Debug, PartialEq, Eq)]
pub enum SyntaxError {
    /// An operator or end of input stood where a command, argument or
    /// redirect target was required.
    ExpectedString,
    /// A character matched no token during tokenization.
    InvalidSyntax,
    /// The named executable could not be spawned.
    CommandNotFound(String),
    /// The named redirect file could not be opened or created.
    RedirectIOError(String),
}

/// Mathematical model of one invocation: executable name, arguments, and up
/// to one redirect target of each kind, all post-substitution.
pub struct InvocationView {
    pub executable: Seq<char>,
    pub args: Seq<Seq<char>>,
    pub input_file: Option<Seq<char>>,
    pub output_file: Option<Seq<char>>,
    pub stderr_file: Option<Seq<char>>,
}

/// One executable name plus arguments and redirect targets: the unit the
/// orchestrator spawns.
#[derive(Debug, PartialEq, Eq)]
pub struct Invocation {
    pub executable: String,
    pub args: Vec<String>,
    pub input_file: Option<String>,
    pub output_file: Option<String>,
    pub stderr_file: Option<String>,
}

/// The view of an optional string.
pub open spec fn opt_view(o: Option<String>) -> Option<Seq<char>> {
    match o {
        Some(s) => Some(s@),
        None => None,
    }
}

impl View for Invocation {
    type V = InvocationView;

    open spec fn view(&self) -> InvocationView {
        InvocationView {
            executable: self.executable@,
            args: self.args.deep_view(),
            input_file: opt_view(self.input_file),
            output_file: opt_view(self.output_file),
            stderr_file: opt_view(self.stderr_file),
        }
    }
}

impl Invocation {
    pub fn new(executable: &str) -> (r: Invocation)
        ensures
            r@ == (InvocationView {
                executable: executable@,
                args: Seq::empty(),
                input_file: None,
                output_file: None,
                stderr_file: None,
            }),
    {
        let r = Invocation {
            executable: executable.to_owned(),
            args: Vec::new(),
            input_file: None,
            output_file: None,
            stderr_file: None,
        };
        proof {
            assert(r@.args =~= Seq::<Seq<char>>::empty());
        }
        r
    }

    pub fn arg(self, arg: &str) -> (r: Invocation)
        ensures
            r@ == (InvocationView { args: self@.args.push(arg@), ..self@ }),
    {
        let ghost s0 = self@;
        let mut r = self;
        r.args.push(arg.to_owned());
        proof {
            assert(r@.args =~= s0.args.push(arg@));
        }
        r
    }

    pub fn input_file(self, input_file: &str) -> (r: Invocation)
        ensures
            r@ == (InvocationView { input_file: Some(input_file@), ..self@ }),
    {
        let mut r = self;
        r.input_file = Some(input_file.to_owned());
        r
    }

    pub fn output_file(self, output_file: &str) -> (r: Invocation)
        ensures
            r@ == (InvocationView { output_file: Some(output_file@), ..self@ }),
    {
        let mut r = self;
        r.output_file = Some(output_file.to_owned());
        r
    }

    pub fn stderr_file(self, stderr_file: &str) -> (r: Invocation)
        ensures
            r@ == (InvocationView { stderr_file: Some(stderr_file@), ..self@ }),
    {
        let mut r = self;
        r.stderr_file = Some(stderr_file.to_owned());
        r
    }
}

/// Whether the token carries text (a word or a quoted string).
pub open spec fn is_text(t: TokenView) -> bool {
    match t {
        TokenView::Word(_) => true,
        TokenView::Str(_) => true,
        _ => false,
    }
}

/// The text a word or quoted-string token carries.
pub open spec fn text_of(t: TokenView) -> Seq<char>
    recommends
        is_text(t),
{
    match t {
        TokenView::Word(w) => w,
        TokenView::Str(c) => c,
        _ => Seq::empty(),
    }
}

/// The chain operator an operator token denotes.
pub open spec fn chain_of(t: TokenView) -> Option<InvocationChain> {
    match t {
        TokenView::And => Some(InvocationChain::And),
        TokenView::Or => Some(InvocationChain::Or),
        TokenView::Semicolon => Some(InvocationChain::Semicolon),
        TokenView::Pipe => Some(InvocationChain::Pipe),
        _ => None,
    }
}

/// Whether the token is a redirect operator.
pub open spec fn is_redirect(t: TokenView) -> bool {
    match t {
        TokenView::InputRedirect => true,
        TokenView::OutputRedirect => true,
        TokenView::StderrRedirect => true,
        _ => false,
    }
}

/// Parsing one string: the first token must carry text, which is substituted.
pub open spec fn parse_string_spec(env: Map<Seq<char>, Seq<char>>, toks: Seq<TokenView>) -> Result<
    Seq<char>,
    SyntaxError,
> {
    if toks.len() == 0 {
        Err(SyntaxError::ExpectedString)
    } else if is_text(toks[0]) {
        Ok(subst_spec(env, text_of(toks[0])))
    } else {
        Err(SyntaxError::ExpectedString)
    }
}

/// The invocation with `f` set as the target of the redirect kind `t`.
pub open spec fn set_redirect(inv: InvocationView, t: TokenView, f: Seq<char>) -> InvocationView {
    match t {
        TokenView::InputRedirect => InvocationView { input_file: Some(f), ..inv },
        TokenView::OutputRedirect => InvocationView { output_file: Some(f), ..inv },
        _ => InvocationView { stderr_file: Some(f), ..inv },
    }
}

/// Consumes the tokens after an invocation's executable: words and strings
/// become arguments, a redirect consumes exactly one following string as its
/// target (repeated redirects overwrite), a chain operator terminates the
/// invocation, and end of input terminates it with no operator.
pub open spec fn parse_args_spec(
    env: Map<Seq<char>, Seq<char>>,
    inv: InvocationView,
    toks: Seq<TokenView>,
) -> Result<(InvocationView, Option<InvocationChain>, Seq<TokenView>), SyntaxError>
    decreases toks.len(),
{
    if toks.len() == 0 {
        Ok((inv, None, toks))
    } else {
        let t = toks[0];
        if is_text(t) {
            parse_args_spec(
                env,
                InvocationView { args: inv.args.push(subst_spec(env, text_of(t))), ..inv },
                toks.drop_first(),
            )
        } else if is_redirect(t) {
            let rest = toks.drop_first();
            if rest.len() == 0 {
                Err(SyntaxError::ExpectedString)
            } else if is_text(rest[0]) {
                parse_args_spec(
                    env,
                    set_redirect(inv, t, subst_spec(env, text_of(rest[0]))),
                    rest.drop_first(),
                )
            } else {
                Err(SyntaxError::ExpectedString)
            }
        } else {
            Ok((inv, chain_of(t), toks.drop_first()))
        }
    }
}

/// Parsing one invocation: the executable, then arguments and redirects up
/// to a chain operator or the end of the input.
pub open spec fn parse_invocation_spec(
    env: Map<Seq<char>, Seq<char>>,
    toks: Seq<TokenView>,
) -> Result<(InvocationView, Option<InvocationChain>, Seq<TokenView>), SyntaxError> {
    match parse_string_spec(env, toks) {
        Err(e) => Err(e),
        Ok(exe) => parse_args_spec(
            env,
            InvocationView {
                executable: exe,
                args: Seq::empty(),
                input_file: None,
                output_file: None,
                stderr_file: None,
            },
            toks.drop_first(),
        ),
    }
}

proof fn lemma_parse_args_len(
    env: Map<Seq<char>, Seq<char>>,
    inv: InvocationView,
    toks: Seq<TokenView>,
)
    ensures
        match parse_args_spec(env, inv, toks) {
            Ok(r) => {
                &&& r.2.len() <= toks.len()
                &&& (r.1 is Some ==> r.2.len() < toks.len())
                &&& r.2 == toks.subrange(toks.len() - r.2.len(), toks.len() as int)
            },
            Err(_) => true,
        },
    decreases toks.len(),
{
    if toks.len() == 0 {
        assert(toks.subrange(0, 0) =~= toks);
    } else {
        let t = toks[0];
        if is_text(t) {
            let inv2 = InvocationView { args: inv.args.push(subst_spec(env, text_of(t))), ..inv };
            lemma_parse_args_len(env, inv2, toks.drop_first());
            if let Ok(r) = parse_args_spec(env, inv2, toks.drop_first()) {
                assert(toks.drop_first().subrange(
                    toks.drop_first().len() - r.2.len(),
                    toks.drop_first().len() as int,
                ) =~= toks.subrange(toks.len() - r.2.len(), toks.len() as int));
            }
        } else if is_redirect(t) {
            let rest = toks.drop_first();
            if rest.len() > 0 && is_text(rest[0]) {
                let inv2 = set_redirect(inv, t, subst_spec(env, text_of(rest[0])));
                lemma_parse_args_len(env, inv2, rest.drop_first());
                if let Ok(r) = parse_args_spec(env, inv2, rest.drop_first()) {
                    assert(rest.drop_first().subrange(
                        rest.drop_first().len() - r.2.len(),
                        rest.drop_first().len() as int,
                    ) =~= toks.subrange(toks.len() - r.2.len(), toks.len() as int));
                }
            }
        } else {
            assert(toks.drop_first() =~= toks.subrange(
                toks.len() - toks.drop_first().len(),
                toks.len() as int,
            ));
        }
    }
}

proof fn lemma_parse_invocation_len(env: Map<Seq<char>, Seq<char>>, toks: Seq<TokenView>)
    ensures
        match parse_invocation_spec(env, toks) {
            Ok(r) => {
                &&& r.2.len() < toks.len()
                &&& r.2 == toks.subrange(toks.len() - r.2.len(), toks.len() as int)
            },
            Err(_) => true,
        },
{
    if toks.len() > 0 && is_text(toks[0]) {
        let inv0 = InvocationView {
            executable: subst_spec(env, text_of(toks[0])),
            args: Seq::empty(),
            input_file: None,
            output_file: None,
            stderr_file: None,
        };
        lemma_parse_args_len(env, inv0, toks.drop_first());
        if let Ok(r) = parse_args_spec(env, inv0, toks.drop_first()) {
            assert(toks.drop_first().subrange(
                toks.drop_first().len() - r.2.len(),
                toks.drop_first().len() as int,
            ) =~= toks.subrange(toks.len() - r.2.len(), toks.len() as int));
        }
    }
}

/// Parsing a whole chain: invocations joined by chain operators, evaluated
/// strictly left to right with no precedence or grouping.  A trailing
/// operator with nothing after it is a syntax error.
pub open spec fn parse_chain_spec(env: Map<Seq<char>, Seq<char>>, toks: Seq<TokenView>) -> Result<
    Seq<(InvocationView, Option<InvocationChain>)>,
    SyntaxError,
>
    decreases toks.len(),
    via parse_chain_spec_decreases
{
    match parse_invocation_spec(env, toks) {
        Err(e) => Err(e),
        Ok(r) => {
            if r.1 is None {
                Ok(seq![(r.0, None)])
            } else {
                match parse_chain_spec(env, r.2) {
                    Err(e) => Err(e),
                    Ok(ch) => Ok(seq![(r.0, r.1)] + ch),
                }
            }
        },
    }
}

#[via_fn]
proof fn parse_chain_spec_decreases(env: Map<Seq<char>, Seq<char>>, toks: Seq<TokenView>) {
    lemma_parse_invocation_len(env, toks);
}

/// The full contract of `parse_command`: tokenize, then parse the chain with
/// substitution from the given store.
pub open spec fn parse_command_spec(env: Map<Seq<char>, Seq<char>>, s: Seq<char>) -> Result<
    Seq<(InvocationView, Option<InvocationChain>)>,
    SyntaxError,
> {
    parse_chain_spec(env, tokens_from(s, 0))
}

/// The views of a parsed chain, in order.
pub open spec fn chain_view(v: Seq<(Invocation, Option<InvocationChain>)>) -> Seq<
    (InvocationView, Option<InvocationChain>),
> {
    v.map_values(|p: (Invocation, Option<InvocationChain>)| (p.0@, p.1))
}

/// The token-stream suffix from position `p` on.
pub open spec fn suffix_of(tv: Seq<TokenView>, p: int) -> Seq<TokenView>
    recommends
        0 <= p <= tv.len(),
{
    tv.subrange(p, tv.len() as int)
}

/// Parses one string: the next token must be a word or a quoted string, and
/// substitution is applied to its text.
pub fn parse_string(context: &ExecContext, tokens: &Vec<CommandToken>, pos: &mut usize) -> (r:
    Result<String, SyntaxError>)
    requires
        context.wf(),
        *old(pos) <= tokens@.len(),
    ensures
        *final(pos) <= tokens@.len(),
        match r {
            Ok(v) => parse_string_spec(context@, suffix_of(tokens_view(tokens@), *old(pos) as int))
                == Ok::<Seq<char>, SyntaxError>(v@) && *final(pos) == *old(pos) + 1,
            Err(e) => parse_string_spec(
                context@,
                suffix_of(tokens_view(tokens@), *old(pos) as int),
            ) == Err::<Seq<char>, SyntaxError>(e),
        },
{
    let ghost tv = tokens_view(tokens@);
    proof {
        assert(tv.len() == tokens@.len());
    }
    let ghost sfx = suffix_of(tv, *pos as int);
    if *pos >= tokens.len() {
        proof {
            assert(sfx.len() == 0);
        }
        return Err(SyntaxError::ExpectedString);
    }
    proof {
        assert(sfx[0] == tokens@[*pos as int]@);
    }
    let t = &tokens[*pos];
    match t {
        CommandToken::Word(w) => {
            let v = context.perform_substitution(w.as_str());
            *pos = *pos + 1;
            Ok(v)
        },
        CommandToken::Str(w) => {
            let v = context.perform_substitution(w.as_str());
            *pos = *pos + 1;
            Ok(v)
        },
        _ => {
            *pos = *pos + 1;
            Err(SyntaxError::ExpectedString)
        },
    }
}

/// Parses one invocation and the chain operator that terminates it, if any.
pub fn parse_single_invocation(
    context: &ExecContext,
    tokens: &Vec<CommandToken>,
    pos: &mut usize,
) -> (r: Result<(Invocation, Option<InvocationChain>), SyntaxError>)
    requires
        context.wf(),
        *old(pos) <= tokens@.len(),
    ensures
        *final(pos) <= tokens@.len(),
        match r {
            Ok(p) => parse_invocation_spec(
                context@,
                suffix_of(tokens_view(tokens@), *old(pos) as int),
            ) == Ok::<(InvocationView, Option<InvocationChain>, Seq<TokenView>), SyntaxError>(
                (p.0@, p.1, suffix_of(tokens_view(tokens@), *final(pos) as int)),
            ),
            Err(e) => parse_invocation_spec(
                context@,
                suffix_of(tokens_view(tokens@), *old(pos) as int),
            ) == Err::<(InvocationView, Option<InvocationChain>, Seq<TokenView>), SyntaxError>(e),
        },
{
    let ghost tv = tokens_view(tokens@);
    proof {
        assert(tv.len() == tokens@.len());
    }
    let ghost p0 = *pos as int;
    let executable = match parse_string(context, tokens, pos) {
        Ok(s) => s,
        Err(e) => {
            return Err(e);
        },
    };
    let mut invocation = Invocation::new(executable.as_str());
    proof {
        assert(suffix_of(tv, p0).drop_first() =~= suffix_of(tv, p0 + 1));
    }
    loop
        invariant
            context.wf(),
            tv == tokens_view(tokens@),
            tv.len() == tokens@.len(),
            p0 == *old(pos) as int,
            0 <= p0 <= tv.len(),
            *pos <= tokens@.len(),
            parse_invocation_spec(context@, suffix_of(tv, p0)) == parse_args_spec(
                context@,
                invocation@,
                suffix_of(tv, *pos as int),
            ),
        decreases tokens@.len() - *pos,
    {
        if *pos >= tokens.len() {
            proof {
                assert(suffix_of(tv, *pos as int).len() == 0);
            }
            return Ok((invocation, None));
        }
        let ghost pc = *pos as int;
        let ghost sfx = suffix_of(tv, pc);
        proof {
            assert(sfx[0] == tokens@[pc]@);
            assert(sfx.drop_first() =~= suffix_of(tv, pc + 1));
        }
        let t = &tokens[*pos];
        match t {
            CommandToken::Word(w) => {
                let v = context.perform_substitution(w.as_str());
                let ghost inv0 = invocation@;
                invocation.args.push(v);
                *pos = *pos + 1;
                proof {
                    assert(invocation@.args =~= inv0.args.push(subst_spec(context@, w@)));
                }
            },
            CommandToken::Str(w) => {
                let v = context.perform_substitution(w.as_str());
                let ghost inv0 = invocation@;
                invocation.args.push(v);
                *pos = *pos + 1;
                proof {
                    assert(invocation@.args =~= inv0.args.push(subst_spec(context@, w@)));
                }
            },
            CommandToken::InputRedirect => {
                *pos = *pos + 1;
                let ghost rest = suffix_of(tv, *pos as int);
                match parse_string(context, tokens, pos) {
                    Ok(f) => {
                        invocation.input_file = Some(f);
                        proof {
                            assert(rest.drop_first() =~= suffix_of(tv, *pos as int));
                        }
                    },
                    Err(e) => {
                        return Err(e);
                    },
                }
            },
            CommandToken::OutputRedirect => {
                *pos = *pos + 1;
                let ghost rest = suffix_of(tv, *pos as int);
                match parse_string(context, tokens, pos) {
                    Ok(f) => {
                        invocation.output_file = Some(f);
                        proof {
                            assert(rest.drop_first() =~= suffix_of(tv, *pos as int));
                        }
                    },
                    Err(e) => {
                        return Err(e);
                    },
                }
            },
            CommandToken::StderrRedirect => {
                *pos = *pos + 1;
                let ghost rest = suffix_of(tv, *pos as int);
                match parse_string(context, tokens, pos) {
                    Ok(f) => {
                        invocation.stderr_file = Some(f);
                        proof {
                            assert(rest.drop_first() =~= suffix_of(tv, *pos as int));
                        }
                    },
                    Err(e) => {
                        return Err(e);
                    },
                }
            },
            CommandToken::And => {
                *pos = *pos + 1;
                return Ok((invocation, Some(InvocationChain::And)));
            },
            CommandToken::Or => {
                *pos = *pos + 1;
                return Ok((invocation, Some(InvocationChain::Or)));
            },
            CommandToken::Semicolon => {
                *pos = *pos + 1;
                return Ok((invocation, Some(InvocationChain::Semicolon)));
            },
            CommandToken::Pipe => {
                *pos = *pos + 1;
                return Ok((invocation, Some(InvocationChain::Pipe)));
            },
        }
    }
}

/// Parses a whole command line into its ordered chain of invocations; the
/// result is exactly what the specification-level parser yields, and a
/// successful parse always holds at least one invocation.
pub fn parse_command(context: &ExecContext, source: &str) -> (r: Result<
    Vec<(Invocation, Option<InvocationChain>)>,
    SyntaxError,
>)
    requires
        context.wf(),
    ensures
        match r {
            Ok(v) => parse_command_spec(context@, source@) == Ok::<
                Seq<(InvocationView, Option<InvocationChain>)>,
                SyntaxError,
            >(chain_view(v@)) && v@.len() >= 1,
            Err(e) => parse_command_spec(context@, source@) == Err::<
                Seq<(InvocationView, Option<InvocationChain>)>,
                SyntaxError,
            >(e),
        },
{
    let tokens = tokenize(source);
    let ghost tv = tokens_view(tokens@);
    proof {
        assert(tv.len() == tokens@.len());
        assert(suffix_of(tv, 0) =~= tv);
    }
    let mut pos: usize = 0;
    let mut invocations: Vec<(Invocation, Option<InvocationChain>)> = Vec::new();
    proof {
        assert(chain_view(invocations@) =~= Seq::<(InvocationView, Option<InvocationChain>)>::empty());
    }
    loop
        invariant
            context.wf(),
            tv == tokens_view(tokens@),
            tv == tokens_from(source@, 0),
            tv.len() == tokens@.len(),
            pos <= tokens@.len(),
            parse_chain_spec(context@, tv) == (match parse_chain_spec(
                context@,
                suffix_of(tv, pos as int),
            ) {
                Ok(ch) => Ok::<Seq<(InvocationView, Option<InvocationChain>)>, SyntaxError>(
                    chain_view(invocations@) + ch,
                ),
                Err(e) => Err::<Seq<(InvocationView, Option<InvocationChain>)>, SyntaxError>(e),
            }),
        decreases tokens@.len() - pos,
    {
        let ghost pos0 = pos as int;
        let ghost invs0 = invocations@;
        match parse_single_invocation(context, &tokens, &mut pos) {
            Err(e) => {
                return Err(e);
            },
            Ok((inv, chain)) => {
                let stop = chain.is_none();
                proof {
                    lemma_parse_invocation_len(context@, suffix_of(tv, pos0));
                }
                invocations.push((inv, chain));
                proof {
                    assert(chain_view(invocations@) =~= chain_view(invs0) + seq![(inv@, chain)]);
                    if chain is None {
                        assert(parse_chain_spec(context@, suffix_of(tv, pos0)) == Ok::<
                            Seq<(InvocationView, Option<InvocationChain>)>,
                            SyntaxError,
                        >(seq![(inv@, chain)]));
                        assert(chain_view(invs0) + seq![(inv@, chain)] =~= chain_view(
                            invocations@,
                        ));
                    } else {
                        if let Ok(ch) = parse_chain_spec(context@, suffix_of(tv, pos as int)) {
                            assert(chain_view(invs0) + (seq![(inv@, chain)] + ch) =~= chain_view(
                                invocations@,
                            ) + ch);
                        }
                    }
                }
                if stop {
                    return Ok(invocations);
                }
            },
        }
    }
}

/// The observable outcome of one spawned process: its exit code when it
/// exited, or the distinct outcome of having been killed by a signal.
#[derive(Clone, Copy, Debug, PartialEq, Eq, Structural)]
pub enum ProcessStatus {
    Exited(i32),
    Signaled,
}

/// Success means exiting with code 0.
pub open spec fn is_success(st: ProcessStatus) -> bool {
    st == ProcessStatus::Exited(0)
}

/// Whether this element's output is piped to the next element.
pub open spec fn is_pipe(op: Option<InvocationChain>) -> bool {
    op == Some(InvocationChain::Pipe)
}

/// Decision after one synchronously run element reports `st`: `Some` stops
/// the chain with that status as its result, `None` continues.  `And` stops
/// on failure, `Or` stops on success, `Sequence` always continues, and the
/// terminal element (no operator) always stops with its own status.
pub open spec fn spec_chain_decision(op: Option<InvocationChain>, st: ProcessStatus) -> Option<
    ProcessStatus,
> {
    match op {
        Some(InvocationChain::And) => if is_success(st) {
            None
        } else {
            Some(st)
        },
        Some(InvocationChain::Or) => if is_success(st) {
            Some(st)
        } else {
            None
        },
        Some(InvocationChain::Semicolon) => None,
        Some(InvocationChain::Pipe) => None,
        None => Some(st),
    }
}

pub fn is_success_status(st: &ProcessStatus) -> (r: bool)
    ensures
        r == is_success(*st),
{
    match st {
        ProcessStatus::Exited(c) => *c == 0,
        ProcessStatus::Signaled => false,
    }
}

/// Whether this element must be spawned with its output bound to a pipe and
/// left running, its output becoming the next element's pending input.
pub fn pipes_output(op: &Option<InvocationChain>) -> (r: bool)
    ensures
        r == is_pipe(*op),
{
    matches!(op, Some(InvocationChain::Pipe))
}

/// After waiting on a synchronously run element, decides whether the chain
/// stops — with the returned status as its final result — or continues to
/// the next element.
pub fn chain_decision(op: &Option<InvocationChain>, status: ProcessStatus) -> (r: Option<
    ProcessStatus,
>)
    requires
        !is_pipe(*op),
    ensures
        r == spec_chain_decision(*op, status),
{
    match op {
        Some(InvocationChain::And) => {
            if is_success_status(&status) {
                None
            } else {
                Some(status)
            }
        },
        Some(InvocationChain::Or) => {
            if is_success_status(&status) {
                Some(status)
            } else {
                None
            }
        },
        Some(InvocationChain::Semicolon) => None,
        Some(InvocationChain::Pipe) => None,
        None => Some(status),
    }
}

/// The outcome of running a chain from element `i` on, given the operator of
/// each element and the status each element would report if waited on: the
/// chain's final status and how many of its elements are spawned.  A piped
/// element is spawned without waiting; an empty chain ends with success.
pub open spec fn chain_run(
    ops: Seq<Option<InvocationChain>>,
    sts: Seq<ProcessStatus>,
    i: int,
) -> (ProcessStatus, int)
    recommends
        ops.len() == sts.len(),
    decreases ops.len() - i,
{
    if i < 0 || i >= ops.len() || i >= sts.len() {
        (ProcessStatus::Exited(0), 0)
    } else if is_pipe(ops[i]) {
        let r = chain_run(ops, sts, i + 1);
        (r.0, r.1 + 1)
    } else {
        match spec_chain_decision(ops[i], sts[i]) {
            Some(st) => (st, 1),
            None => {
                let r = chain_run(ops, sts, i + 1);
                (r.0, r.1 + 1)
            },
        }
    }
}

/// `And` short circuit: when the first element of an `And` chain exits
/// unsuccessfully, only that one element is ever spawned — the second is not
/// — and the chain's result is the first element's status.
pub proof fn lemma_and_short_circuit(ops: Seq<Option<InvocationChain>>, sts: Seq<ProcessStatus>)
    requires
        ops.len() == sts.len(),
        ops.len() >= 2,
        ops[0] == Some(InvocationChain::And),
        !is_success(sts[0]),
    ensures
        chain_run(ops, sts, 0) == (sts[0], 1int),
{
}

/// `Or` short circuit: when the first element of an `Or` chain exits
/// successfully, only that one element is ever spawned — the second is not —
/// and the chain's result is the first element's status.
pub proof fn lemma_or_short_circuit(ops: Seq<Option<InvocationChain>>, sts: Seq<ProcessStatus>)
    requires
        ops.len() == sts.len(),
        ops.len() >= 2,
        ops[0] == Some(InvocationChain::Or),
        is_success(sts[0]),
    ensures
        chain_run(ops, sts, 0) == (sts[0], 1int),
{
}

/// The substituted texts of a run of word or string tokens, in order.
pub open spec fn texts_substituted(env: Map<Seq<char>, Seq<char>>, toks: Seq<TokenView>) -> Seq<
    Seq<char>,
> {
    toks.map_values(|t: TokenView| subst_spec(env, text_of(t)))
}

proof fn lemma_parse_args_all_text(
    env: Map<Seq<char>, Seq<char>>,
    inv: InvocationView,
    toks: Seq<TokenView>,
)
    requires
        forall|j: int| 0 <= j < toks.len() ==> is_text(toks[j]),
    ensures
        parse_args_spec(env, inv, toks) == Ok::<
            (InvocationView, Option<InvocationChain>, Seq<TokenView>),
            SyntaxError,
        >(
            (
                InvocationView { args: inv.args + texts_substituted(env, toks), ..inv },
                None,
                Seq::empty(),
            ),
        ),
    decreases toks.len(),
{
    if toks.len() == 0 {
        assert(inv.args + texts_substituted(env, toks) =~= inv.args);
        assert(toks =~= Seq::<TokenView>::empty());
    } else {
        let t = toks[0];
        let inv2 = InvocationView { args: inv.args.push(subst_spec(env, text_of(t))), ..inv };
        lemma_parse_args_all_text(env, inv2, toks.drop_first());
        assert(inv2.args + texts_substituted(env, toks.drop_first()) =~= inv.args
            + texts_substituted(env, toks));
    }
}

/// A line with no operators: a run of words and strings alone parses to one
/// single invocation whose executable is the first word and whose arguments
/// are the remaining words in order, all post-substitution, with all three
/// redirect fields absent.
pub proof fn lemma_words_only_parse(env: Map<Seq<char>, Seq<char>>, toks: Seq<TokenView>)
    requires
        toks.len() > 0,
        forall|j: int| 0 <= j < toks.len() ==> is_text(toks[j]),
    ensures
        parse_chain_spec(env, toks) == Ok::<
            Seq<(InvocationView, Option<InvocationChain>)>,
            SyntaxError,
        >(
            seq![
                (
                    InvocationView {
                        executable: subst_spec(env, text_of(toks[0])),
                        args: texts_substituted(env, toks.drop_first()),
                        input_file: None,
                        output_file: None,
                        stderr_file: None,
                    },
                    None,
                ),
            ],
        ),
{
    let inv0 = InvocationView {
        executable: subst_spec(env, text_of(toks[0])),
        args: Seq::empty(),
        input_file: None,
        output_file: None,
        stderr_file: None,
    };
    lemma_parse_args_all_text(env, inv0, toks.drop_first());
    assert(inv0.args + texts_substituted(env, toks.drop_first()) =~= texts_substituted(
        env,
        toks.drop_first(),
    ));
}

proof fn lemma_parse_args_trailing(
    env: Map<Seq<char>, Seq<char>>,
    inv: InvocationView,
    toks: Seq<TokenView>,
)
    requires
        toks.len() > 0,
        chain_of(toks.last()) is Some,
    ensures
        match parse_args_spec(env, inv, toks) {
            Ok(r) => r.1 is Some,
            Err(_) => true,
        },
    decreases toks.len(),
{
    let t = toks[0];
    if is_text(t) {
        assert(toks.len() >= 2);
        assert(toks.drop_first().last() == toks.last());
        lemma_parse_args_trailing(
            env,
            InvocationView { args: inv.args.push(subst_spec(env, text_of(t))), ..inv },
            toks.drop_first(),
        );
    } else if is_redirect(t) {
        let rest = toks.drop_first();
        if rest.len() > 0 && is_text(rest[0]) {
            assert(toks.len() >= 3);
            assert(rest.drop_first().last() == toks.last());
            lemma_parse_args_trailing(
                env,
                set_redirect(inv, t, subst_spec(env, text_of(rest[0]))),
                rest.drop_first(),
            );
        }
    }
}

/// A trailing operator is an error: a token stream that ends with a chain
/// operator never parses to a chain, partial or otherwise.
pub proof fn lemma_trailing_operator(env: Map<Seq<char>, Seq<char>>, toks: Seq<TokenView>)
    requires
        toks.len() > 0,
        chain_of(toks.last()) is Some,
    ensures
        parse_chain_spec(env, toks) is Err,
    decreases toks.len(),
{
    match parse_invocation_spec(env, toks) {
        Err(_) => {},
        Ok(r) => {
            assert(is_text(toks[0]));
            assert(toks.len() >= 2);
            let inv0 = InvocationView {
                executable: subst_spec(env, text_of(toks[0])),
                args: Seq::empty(),
                input_file: None,
                output_file: None,
                stderr_file: None,
            };
            assert(toks.drop_first().last() == toks.last());
            lemma_parse_args_trailing(env, inv0, toks.drop_first());
            assert(r.1 is Some);
            lemma_parse_invocation_len(env, toks);
            if r.2.len() == 0 {
                reveal_with_fuel(parse_chain_spec, 2);
                assert(parse_string_spec(env, r.2) == Err::<Seq<char>, SyntaxError>(
                    SyntaxError::ExpectedString,
                ));
                assert(parse_chain_spec(env, r.2) is Err);
            } else {
                assert(r.2.last() == toks.last());
                lemma_trailing_operator(env, r.2);
            }
        },
    }
}

} // verus!
