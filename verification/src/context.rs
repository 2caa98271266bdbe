use vstd::prelude::*;

use crate::errors::{ErrorView, ParseError};
use crate::flags::Flags;
use crate::model::{
    decl_view, find_cmd, find_cmd_from, new_opt, register_step, wf_state, CmdMetaView, DeclView,
    OptView, RunResult, RunState, ScopeView,
};
use crate::registry::LocalContext;
use crate::token::{prep_args, seq_tokens, tokenize_args, RawArg, Token};
use crate::value::OptValue;

verus! {

/// A handle to one registered option: the scope it lives in (0 is the top
/// level, `k + 1` is command `k`) and its slot index there. Handles stay valid
/// and keep their meaning however the registry grows afterwards.
#[derive(Clone, Copy, PartialEq, Eq, Structural, Debug)]
pub struct Opt {
    pub scope: usize,
    pub idx: usize,
}

/// A handle to one registered command, for declaring its options.
#[derive(Clone, Copy, PartialEq, Eq, Structural, Debug)]
pub struct Cmd {
    pub idx: usize,
}

/// A handle to one registered command's selection flag.
#[derive(Clone, Copy, PartialEq, Eq, Structural, Debug)]
pub struct CmdRes {
    pub idx: usize,
}

/// One registered command: its name, whether it was selected, and (through the
/// scope it owns) its private option set.
pub(crate) struct CmdEntry {
    pub(crate) name: String,
    pub(crate) selected: bool,
}

impl View for CmdEntry {
    type V = CmdMetaView;

    closed spec fn view(&self) -> CmdMetaView {
        CmdMetaView { name: self.name@, selected: self.selected }
    }
}

/// The mathematical shape of a `Context`: the tokens not yet consumed, the
/// scopes (0 is the top level, `k + 1` belongs to command `k`), the commands,
/// and the leftover arguments collected so far.
#[verifier::ext_equal]
pub struct CtxView {
    pub tokens: Seq<Token>,
    pub scopes: Seq<ScopeView>,
    pub cmds: Seq<CmdMetaView>,
    pub residual: Seq<Seq<char>>,
}

/// The views of a sequence of scopes.
pub open spec fn scopes_view(v: Seq<LocalContext>) -> Seq<ScopeView> {
    v.map_values(|s: LocalContext| s@)
}

pub(crate) open spec fn cmds_view(v: Seq<CmdEntry>) -> Seq<CmdMetaView> {
    v.map_values(|c: CmdEntry| c@)
}

/// The top-level parsing context: it owns the token stream, the top-level
/// scope, the commands with their scopes, and the leftover argument list.
pub struct Context {
    raw_args: Vec<RawArg>,
    next_arg: usize,
    residual_args: Vec<String>,
    scopes: Vec<LocalContext>,
    commands: Vec<CmdEntry>,
}

impl View for Context {
    type V = CtxView;

    closed spec fn view(&self) -> CtxView {
        CtxView {
            tokens: seq_tokens(self.raw_args@).skip(self.next_arg as int),
            scopes: scopes_view(self.scopes@),
            cmds: cmds_view(self.commands@),
            residual: self.residual_args.deep_view(),
        }
    }
}

/// Every occurrence count leaves room for `margin` more occurrences without
/// overflowing its counter.
pub open spec fn counts_bounded(v: CtxView, margin: int) -> bool {
    forall|s: int, j: int|
        0 <= s < v.scopes.len() && 0 <= j < v.scopes[s].opts.len()
            ==> (#[trigger] v.scopes[s].opts[j].passed) + margin <= usize::MAX
}

/// A structurally sound context view: one scope per command plus the top
/// level, and counts that cannot overflow while the remaining tokens are
/// consumed.
pub open spec fn view_wf(v: CtxView) -> bool {
    &&& v.scopes.len() == v.cmds.len() + 1
    &&& counts_bounded(v, v.tokens.len() as int)
}

/// `b` equals `a` everywhere except possibly in the options of scope `s`.
pub open spec fn frame_except_opts(a: CtxView, b: CtxView, s: int) -> bool {
    &&& b.tokens == a.tokens
    &&& b.cmds == a.cmds
    &&& b.residual == a.residual
    &&& b.scopes.len() == a.scopes.len()
    &&& forall|i: int| 0 <= i < a.scopes.len() && i != s ==> b.scopes[i] == a.scopes[i]
    &&& 0 <= s < a.scopes.len() ==> b.scopes[s].descr == a.scopes[s].descr
}

impl Context {
    /// Well-formedness: the consumed-token cursor is in range and the view is
    /// structurally sound.
    pub closed spec fn wf(&self) -> bool {
        &&& self.next_arg <= self.raw_args.len()
        &&& view_wf(self@)
    }

    /// A fresh context: tokenize `args` (whose first element is the program
    /// name), and set up an empty top-level scope described by `description`.
    pub fn new(description: &str, args: Vec<String>) -> (c: Context)
        ensures
            c.wf(),
            c@.tokens == tokenize_args(args.deep_view()),
            c@.scopes.len() == 1,
            c@.scopes[0].descr == description@,
            c@.scopes[0].opts == Seq::<OptView>::empty(),
            c@.cmds == Seq::<CmdMetaView>::empty(),
            c@.residual == Seq::<Seq<char>>::empty(),
    {
        let raw = prep_args(&args);
        let top = LocalContext::new(description);
        let mut scopes: Vec<LocalContext> = Vec::new();
        scopes.push(top);
        let c = Context {
            raw_args: raw,
            next_arg: 0,
            residual_args: Vec::new(),
            scopes,
            commands: Vec::new(),
        };
        proof {
            assert(seq_tokens(c.raw_args@).skip(0) =~= seq_tokens(c.raw_args@));
            assert(c@.cmds =~= Seq::<CmdMetaView>::empty());
            assert(c@.residual =~= Seq::<Seq<char>>::empty());
            assert(c@.scopes.len() == 1);
            assert(c@.scopes[0].opts =~= Seq::<OptView>::empty());
        }
        c
    }

    /// The leftover arguments: bare values that matched no command and were
    /// consumed by no option, in input order.
    pub fn get_args(&self) -> (r: &Vec<String>)
        ensures
            r.deep_view() == self@.residual,
    {
        &self.residual_args
    }

    /// The index of the first command named `name`, if any.
    pub(crate) fn find_command(&self, name: &String) -> (r: Option<usize>)
        ensures
            match r {
                Some(k) => find_cmd(self@.cmds, name@) == Some(k as int) && k < self@.cmds.len(),
                None => find_cmd(self@.cmds, name@) is None,
            },
    {
        let mut i: usize = 0;
        while i < self.commands.len()
            invariant
                0 <= i <= self.commands.len(),
                find_cmd_from(self@.cmds, name@, 0) == find_cmd_from(self@.cmds, name@, i as int),
            decreases self.commands.len() - i,
        {
            if self.commands[i].name.eq(name) {
                return Some(i);
            }
            i = i + 1;
        }
        None
    }

    /// Register a command under a fresh name, with its own empty option scope.
    /// Fails with `DuplicateName` exactly when the name is already a command's.
    pub fn add_command(&mut self, name: &str, description: &str) -> (r: Result<
        (CmdRes, Cmd),
        ParseError,
    >)
        requires
            old(self).wf(),
        ensures
            final(self).wf(),
            final(self)@.tokens == old(self)@.tokens,
            final(self)@.residual == old(self)@.residual,
            match r {
                Ok((res, cmd)) => {
                    &&& find_cmd(old(self)@.cmds, name@) is None
                    &&& res.idx == old(self)@.cmds.len()
                    &&& cmd.idx == old(self)@.cmds.len()
                    &&& final(self)@.cmds == old(self)@.cmds.push(
                        (CmdMetaView { name: name@, selected: false }),
                    )
                    &&& final(self)@.scopes == old(self)@.scopes.push(
                        (ScopeView { descr: description@, opts: Seq::empty() }),
                    )
                },
                Err(e) => {
                    &&& find_cmd(old(self)@.cmds, name@) is Some
                    &&& e@ == ErrorView::DuplicateName
                    &&& final(self)@ == old(self)@
                },
            },
    {
        let name_s = name.to_owned();
        if self.find_command(&name_s).is_some() {
            return Err(ParseError::DuplicateName);
        }
        let k = self.commands.len();
        self.commands.push(CmdEntry { name: name_s, selected: false });
        self.scopes.push(LocalContext::new(description));
        proof {
            assert(final(self)@.cmds =~~= old(self)@.cmds.push(
                (CmdMetaView { name: name@, selected: false }),
            ));
            assert(final(self)@.scopes =~~= old(self)@.scopes.push(
                (ScopeView { descr: description@, opts: Seq::empty() }),
            ));
            assert(final(self)@.tokens == old(self)@.tokens);
        }
        Ok((CmdRes { idx: k }, Cmd { idx: k }))
    }

    /// Register one option in scope `s`, as `register_step` describes.
    pub(crate) fn scope_add_option(
        &mut self,
        s: usize,
        long: Option<&str>,
        short: Option<char>,
        descr: Option<&str>,
        flags: Flags,
    ) -> (r: Result<usize, ParseError>)
        requires
            old(self).wf(),
            s < old(self)@.scopes.len(),
        ensures
            final(self).wf(),
            frame_except_opts(old(self)@, final(self)@, s as int),
            ({
                let step = register_step(
                    old(self)@.scopes[s as int].opts,
                    decl_view(long, short, descr, flags),
                );
                &&& final(self)@.scopes[s as int].opts == step.opts
                &&& match (r, step.result) {
                    (Ok(j), Ok(i)) => j as int == i,
                    (Err(e), Err(ev)) => e@ == ev,
                    _ => false,
                }
            }),
    {
        let mut lc = self.scopes.remove(s);
        let r = lc.add_option(long, short, descr, flags);
        self.scopes.insert(s, lc);
        proof {
            assert(self.scopes@.len() == old(self).scopes@.len());
            assert(forall|i: int|
                0 <= i < self.scopes@.len() && i != s ==> self.scopes@[i]
                    == old(self).scopes@[i]);
            assert(self@.scopes =~= scopes_view(self.scopes@));
            assert(forall|i: int|
                0 <= i < self@.scopes.len() && i != s ==> self@.scopes[i] == old(self)@.scopes[i]);
            assert(self@.tokens == old(self)@.tokens);
            assert(self@.cmds =~= old(self)@.cmds);
        }
        r
    }
}

/// The state a fresh validation pass starts from: the context's scopes,
/// commands and leftovers, with the top level active.
pub open spec fn start_state(v: CtxView) -> RunState {
    RunState { scopes: v.scopes, cmds: v.cmds, residual: v.residual, active: None }
}

/// The view a finished validation pass leaves behind.
pub open spec fn apply_run(v: CtxView, r: RunResult) -> CtxView {
    CtxView {
        tokens: r.rest,
        scopes: r.state.scopes,
        cmds: r.state.cmds,
        residual: r.state.residual,
    }
}

/// The ghost counterpart of the validator's active-command variable.
pub open spec fn active_view(a: Option<usize>) -> Option<int> {
    match a {
        None => None,
        Some(k) => Some(k as int),
    }
}

/// The interpreter state the context is in mid-validation, with `active` the
/// selected command, if any.
pub open spec fn cur_state(v: CtxView, active: Option<usize>) -> RunState {
    RunState { scopes: v.scopes, cmds: v.cmds, residual: v.residual, active: active_view(active) }
}

/// The integer view of an optional index.
pub open spec fn opt_index_view(o: Option<usize>) -> Option<int> {
    match o {
        None => None,
        Some(j) => Some(j as int),
    }
}

proof fn lemma_counts_bump(a: CtxView, b: CtxView, s: int, j: int, m: int)
    requires
        counts_bounded(a, m),
        m >= 1,
        0 <= s < a.scopes.len(),
        0 <= j < a.scopes[s].opts.len(),
        b.scopes.len() == a.scopes.len(),
        forall|i: int| 0 <= i < a.scopes.len() && i != s ==> b.scopes[i] == a.scopes[i],
        b.scopes[s].opts.len() == a.scopes[s].opts.len(),
        forall|i: int|
            0 <= i < a.scopes[s].opts.len() && i != j ==> b.scopes[s].opts[i] == a.scopes[s].opts[i],
        b.scopes[s].opts[j].passed <= a.scopes[s].opts[j].passed + 1,
    ensures
        counts_bounded(b, m - 1),
{
    assert forall|s2: int, j2: int|
        0 <= s2 < b.scopes.len() && 0 <= j2 < b.scopes[s2].opts.len() implies (#[trigger] b.scopes[s2].opts[j2].passed)
        + (m - 1) <= usize::MAX by {
        assert(a.scopes[s2].opts[j2].passed + m <= usize::MAX);
        if s2 == s && j2 == j {
        } else if s2 == s {
            assert(b.scopes[s2].opts[j2] == a.scopes[s2].opts[j2]);
        } else {
            assert(b.scopes[s2] == a.scopes[s2]);
        }
    }
}

proof fn lemma_counts_mono(a: CtxView, b: CtxView, m: int, m2: int)
    requires
        counts_bounded(a, m),
        b.scopes == a.scopes,
        m2 <= m,
    ensures
        counts_bounded(b, m2),
{
    assert forall|s2: int, j2: int|
        0 <= s2 < b.scopes.len() && 0 <= j2 < b.scopes[s2].opts.len() implies (#[trigger] b.scopes[s2].opts[j2].passed)
        + m2 <= usize::MAX by {
        assert(a.scopes[s2].opts[j2].passed + m <= usize::MAX);
    }
}

impl Context {
    /// Record one more occurrence of option `j` in scope `s`.
    fn scope_bump(&mut self, s: usize, j: usize)
        requires
            s < old(self)@.scopes.len(),
            j < old(self)@.scopes[s as int].opts.len(),
            old(self)@.scopes[s as int].opts[j as int].passed < usize::MAX,
        ensures
            frame_except_opts(old(self)@, final(self)@, s as int),
            final(self)@.scopes[s as int].opts == old(self)@.scopes[s as int].opts.update(
                j as int,
                crate::model::bump_opt(old(self)@.scopes[s as int].opts[j as int]),
            ),
            final(self).next_arg == old(self).next_arg,
            final(self).raw_args == old(self).raw_args,
    {
        let mut lc = self.scopes.remove(s);
        lc.bump(j);
        self.scopes.insert(s, lc);
        proof {
            assert(forall|i: int|
                0 <= i < self@.scopes.len() && i != s ==> self@.scopes[i] == old(self)@.scopes[i]);
            assert(self@.cmds =~= old(self)@.cmds);
        }
    }

    /// Append one captured value to option `j` in scope `s`.
    fn scope_push_value(&mut self, s: usize, j: usize, v: String)
        requires
            s < old(self)@.scopes.len(),
            j < old(self)@.scopes[s as int].opts.len(),
        ensures
            frame_except_opts(old(self)@, final(self)@, s as int),
            final(self)@.scopes[s as int].opts == old(self)@.scopes[s as int].opts.update(
                j as int,
                crate::model::add_value(old(self)@.scopes[s as int].opts[j as int], v@),
            ),
            final(self).next_arg == old(self).next_arg,
            final(self).raw_args == old(self).raw_args,
    {
        let mut lc = self.scopes.remove(s);
        lc.push_value(j, v);
        self.scopes.insert(s, lc);
        proof {
            assert(forall|i: int|
                0 <= i < self@.scopes.len() && i != s ==> self@.scopes[i] == old(self)@.scopes[i]);
            assert(self@.cmds =~= old(self)@.cmds);
        }
    }

    /// Mark command `k` selected.
    fn set_selected(&mut self, k: usize)
        requires
            k < old(self)@.cmds.len(),
        ensures
            final(self)@.tokens == old(self)@.tokens,
            final(self)@.scopes == old(self)@.scopes,
            final(self)@.residual == old(self)@.residual,
            final(self)@.cmds == old(self)@.cmds.update(
                k as int,
                (CmdMetaView { selected: true, ..old(self)@.cmds[k as int] }),
            ),
            final(self).next_arg == old(self).next_arg,
            final(self).raw_args == old(self).raw_args,
    {
        let mut c = self.commands.remove(k);
        c.selected = true;
        self.commands.insert(k, c);
        proof {
            assert(final(self)@.cmds =~= old(self)@.cmds.update(
                k as int,
                (CmdMetaView { selected: true, ..old(self)@.cmds[k as int] }),
            ));
            assert(final(self)@.scopes =~= old(self)@.scopes);
        }
    }

    /// Whether command `k` has been selected.
    fn cmd_selected(&self, k: usize) -> (r: bool)
        requires
            k < self@.cmds.len(),
        ensures
            r == self@.cmds[k as int].selected,
    {
        self.commands[k].selected
    }

    /// Whether command `k` is named `v`.
    fn cmd_name_eq(&self, k: usize, v: &String) -> (r: bool)
        requires
            k < self@.cmds.len(),
        ensures
            r == (self@.cmds[k as int].name == v@),
    {
        self.commands[k].name.eq(v)
    }

    /// The first pending leftover argument, cloned for an error report.
    fn first_residual(&self) -> (r: String)
        requires
            self@.residual.len() > 0,
        ensures
            r@ == self@.residual[0],
    {
        let r = self.residual_args[0].clone();
        proof {
            assert(self@.residual[0] == self.residual_args@[0]@);
        }
        r
    }

    /// Process one flag token whose lookup in the active scope gave `found`.
    /// The token itself is already consumed; `st` is the interpreter state it
    /// was consumed in.
    fn step_flag(
        &mut self,
        Ghost(st): Ghost<RunState>,
        s: usize,
        found: Option<usize>,
        name: String,
    ) -> (r: Result<(), ParseError>)
        requires
            old(self).wf(),
            counts_bounded(old(self)@, old(self)@.tokens.len() as int + 1),
            wf_state(st),
            st.scopes == old(self)@.scopes,
            st.cmds == old(self)@.cmds,
            st.residual == old(self)@.residual,
            crate::model::scope_index(st) == s as int,
            match found {
                Some(j) => j < old(self)@.scopes[s as int].opts.len(),
                None => true,
            },
        ensures
            final(self).wf(),
            final(self)@.cmds == old(self)@.cmds,
            final(self)@.tokens.len() <= old(self)@.tokens.len(),
            ({
                let out = crate::model::run_flag(
                    old(self)@.tokens,
                    st,
                    opt_index_view(found),
                    name@,
                );
                match r {
                    Ok(()) => out == crate::model::run(
                        final(self)@.tokens,
                        cur_state_with(final(self)@, st.active),
                    ),
                    Err(e) => out == (RunResult {
                        state: cur_state_with(final(self)@, st.active),
                        rest: final(self)@.tokens,
                        err: Some(e@),
                    }),
                }
            }),
    {
        let ghost m = old(self)@.tokens.len() as int;
        let ghost tks = old(self)@.tokens;
        let ghost out = crate::model::run_flag(tks, st, opt_index_view(found), name@);
        match found {
            None => {
                if self.residual_args.len() > 0 {
                    let v = self.first_residual();
                    proof {
                        assert(cur_state_with(self@, st.active) =~= st);
                        assert(out == (RunResult {
                            state: st,
                            rest: tks,
                            err: Some(ErrorView::UnexpectedArgument(st.residual[0])),
                        }));
                    }
                    Err(ParseError::UnexpectedArgument(v))
                } else {
                    proof {
                        assert(cur_state_with(self@, st.active) =~= st);
                        assert(out == (RunResult {
                            state: st,
                            rest: tks,
                            err: Some(ErrorView::UnknownOption(name@)),
                        }));
                    }
                    Err(ParseError::UnknownOption(name))
                }
            },
            Some(j) => {
                let ghost o = crate::model::active_opts(st)[j as int];
                let ghost st1 = crate::model::with_opt(
                    st,
                    s as int,
                    j as int,
                    crate::model::bump_opt(o),
                );
                proof {
                    assert(counts_bounded(self@, m + 1));
                    assert(self@.scopes[s as int].opts[j as int].passed + (m + 1) <= usize::MAX);
                    assert(o == old(self)@.scopes[s as int].opts[j as int]);
                }
                let ghost pre = self@;
                self.scope_bump(s, j);
                proof {
                    lemma_counts_bump(pre, self@, s as int, j as int, m + 1);
                    assert(cur_state_with(self@, st.active) =~= st1);
                }
                if self.residual_args.len() > 0 {
                    let v = self.first_residual();
                    proof {
                        assert(st1.residual == st.residual);
                        assert(out == (RunResult {
                            state: st1,
                            rest: tks,
                            err: Some(ErrorView::UnexpectedArgument(st1.residual[0])),
                        }));
                    }
                    return Err(ParseError::UnexpectedArgument(v));
                }
                let flags = self.scopes[s].opt_flags(j);
                let passed = self.scopes[s].opt_passed(j);
                proof {
                    assert(flags == o.flags);
                    assert(passed == o.passed + 1);
                }
                if flags.unique && passed > 1 {
                    proof {
                        assert(out == (RunResult {
                            state: st1,
                            rest: tks,
                            err: Some(ErrorView::DuplicateOption(name@)),
                        }));
                    }
                    return Err(ParseError::DuplicateOption(name));
                }
                if flags.takes_arg || flags.takes_optional_arg {
                    let i = self.next_arg;
                    let can_take = i < self.raw_args.len() && !self.raw_args[i].option();
                    proof {
                        assert(tks.len() == self.raw_args@.len() - i);
                        if i < self.raw_args@.len() {
                            assert(tks[0] == seq_tokens(self.raw_args@)[i as int]);
                            assert(tks[0] == self.raw_args@[i as int]@);
                        }
                        assert(can_take == (tks.len() > 0 && tks[0] is Value));
                    }
                    if can_take {
                        let varg = self.raw_args[i].clone();
                        self.next_arg = i + 1;
                        let v = varg.value();
                        proof {
                            assert(self@.tokens =~= tks.drop_first());
                            assert(v@ == crate::token::token_text(tks[0]));
                        }
                        let ghost mid = self@;
                        self.scope_push_value(s, j, v);
                        proof {
                            assert(self@.scopes[s as int].opts =~= pre.scopes[s as int].opts.update(
                                j as int,
                                crate::model::add_value(crate::model::bump_opt(o), v@),
                            ));
                            lemma_counts_bump(mid, self@, s as int, j as int, m);
                            let st2 = crate::model::with_opt(
                                st,
                                s as int,
                                j as int,
                                crate::model::add_value(crate::model::bump_opt(o), v@),
                            );
                            assert(cur_state_with(self@, st.active) =~= st2);
                            assert(self@.tokens == tks.drop_first());
                            assert(out == crate::model::run(tks.drop_first(), st2));
                        }
                        Ok(())
                    } else if flags.takes_arg {
                        proof {
                            assert(out == (RunResult {
                                state: st1,
                                rest: tks,
                                err: Some(ErrorView::MissingArgument(name@)),
                            }));
                        }
                        Err(ParseError::MissingArgument(name))
                    } else {
                        proof {
                            assert(out == crate::model::run(tks, st1));
                        }
                        Ok(())
                    }
                } else {
                    proof {
                        assert(out == crate::model::run(tks, st1));
                    }
                    Ok(())
                }
            },
        }
    }
}

/// The interpreter state built from a view and a ghost active marker.
pub open spec fn cur_state_with(v: CtxView, active: Option<int>) -> RunState {
    RunState { scopes: v.scopes, cmds: v.cmds, residual: v.residual, active }
}

impl Context {
    /// Validate the argument tokens against the declared options and commands,
    /// exactly as the interpreter `run` describes: occurrence counts and
    /// captured values are updated in place, bare values are collected as
    /// leftovers or select a command, and the first error stops the pass.
    /// State already accumulated before a failure is kept, not rolled back.
    #[verifier::loop_isolation(false)]
    pub fn validate(&mut self) -> (r: Result<(), ParseError>)
        requires
            old(self).wf(),
        ensures
            final(self).wf(),
            ({
                let res = crate::model::run(old(self)@.tokens, start_state(old(self)@));
                &&& final(self)@ == apply_run(old(self)@, res)
                &&& match r {
                    Ok(()) => res.err is None,
                    Err(e) => res.err == Some(e@),
                }
            }),
    {
        let ghost full = crate::model::run(old(self)@.tokens, start_state(old(self)@));
        let mut active: Option<usize> = None;
        proof {
            assert(cur_state(self@, active) =~= start_state(old(self)@));
        }
        loop
            invariant
                self.wf(),
                wf_state(cur_state(self@, active)),
                crate::model::run(self@.tokens, cur_state(self@, active)) == full,
            decreases self@.tokens.len(),
        {
            let ghost stv = cur_state(self@, active);
            let ghost t_pre = self@.tokens;
            if self.next_arg >= self.raw_args.len() {
                proof {
                    assert(t_pre.len() == 0);
                    assert(full == (RunResult { state: stv, rest: t_pre, err: None }));
                    assert(self@ =~= apply_run(old(self)@, full));
                }
                return Ok(());
            }
            let i = self.next_arg;
            let tok = self.raw_args[i].clone();
            self.next_arg = i + 1;
            proof {
                assert(t_pre[0] == seq_tokens(self.raw_args@)[i as int]);
                assert(tok@ == t_pre[0]);
                assert(self@.tokens =~= t_pre.drop_first());
                assert(self@.scopes == stv.scopes);
                assert(counts_bounded(self@, self@.tokens.len() as int + 1));
                assert(wf_state(stv));
            }
            match tok {
                RawArg::Short(c) => {
                    let s = self.active_scope(Ghost(stv), &active);
                    let found = self.scopes[s].find_short(c);
                    let name = crate::token::char_string(c);
                    proof {
                        assert(self@.scopes[s as int] == stv.scopes[s as int]);
                        assert(opt_index_view(found) == crate::model::find_short(
                            crate::model::active_opts(stv),
                            c,
                        ));
                    }
                    let res = self.step_flag(Ghost(stv), s, found, name);
                    proof {
                        assert(full == crate::model::run_flag(
                            t_pre.drop_first(),
                            stv,
                            opt_index_view(found),
                            seq![c],
                        ));
                    }
                    match res {
                        Ok(()) => {
                            proof {
                                assert(cur_state_with(self@, stv.active) == cur_state(
                                    self@,
                                    active,
                                ));
                                assert(crate::model::run(self@.tokens, cur_state(self@, active))
                                    == full);
                            }
                        },
                        Err(e) => {
                            proof {
                                assert(full == (RunResult {
                                    state: cur_state(self@, active),
                                    rest: self@.tokens,
                                    err: Some(e@),
                                }));
                                assert(self@ =~= apply_run(old(self)@, full));
                            }
                            return Err(e);
                        },
                    }
                },
                RawArg::Long(nm) => {
                    let s = self.active_scope(Ghost(stv), &active);
                    let found = self.scopes[s].find_long(&nm);
                    proof {
                        assert(self@.scopes[s as int] == stv.scopes[s as int]);
                        assert(opt_index_view(found) == crate::model::find_long(
                            crate::model::active_opts(stv),
                            nm@,
                        ));
                    }
                    let res = self.step_flag(Ghost(stv), s, found, nm);
                    proof {
                        assert(full == crate::model::run_flag(
                            t_pre.drop_first(),
                            stv,
                            opt_index_view(found),
                            tok@->Long_0,
                        ));
                    }
                    match res {
                        Ok(()) => {
                            proof {
                                assert(cur_state_with(self@, stv.active) == cur_state(
                                    self@,
                                    active,
                                ));
                                assert(crate::model::run(self@.tokens, cur_state(self@, active))
                                    == full);
                            }
                        },
                        Err(e) => {
                            proof {
                                assert(full == (RunResult {
                                    state: cur_state(self@, active),
                                    rest: self@.tokens,
                                    err: Some(e@),
                                }));
                                assert(self@ =~= apply_run(old(self)@, full));
                            }
                            return Err(e);
                        },
                    }
                },
                RawArg::Neither(v) => {
                    proof {
                        assert(full == crate::model::run_value(t_pre.drop_first(), stv, v@));
                    }
                    match active {
                        None => {
                            match self.find_command(&v) {
                                Some(k) => {
                                    if self.residual_args.len() > 0 {
                                        let rv = self.first_residual();
                                        proof {
                                            assert(full == (RunResult {
                                                state: cur_state(self@, active),
                                                rest: self@.tokens,
                                                err: Some(
                                                    ErrorView::UnexpectedArgument(stv.residual[0]),
                                                ),
                                            }));
                                            assert(self@ =~= apply_run(old(self)@, full));
                                        }
                                        return Err(ParseError::UnexpectedArgument(rv));
                                    }
                                    if self.cmd_selected(k) {
                                        proof {
                                            assert(full == (RunResult {
                                                state: cur_state(self@, active),
                                                rest: self@.tokens,
                                                err: Some(ErrorView::UnexpectedCommand(v@)),
                                            }));
                                            assert(self@ =~= apply_run(old(self)@, full));
                                        }
                                        return Err(ParseError::UnexpectedCommand(v));
                                    }
                                    let ghost before = self@;
                                    self.set_selected(k);
                                    active = Some(k);
                                    proof {
                                        assert(cur_state(self@, active)
                                            =~= crate::model::select_cmd(stv, k as int));
                                        lemma_counts_mono(
                                            before,
                                            self@,
                                            before.tokens.len() as int,
                                            self@.tokens.len() as int,
                                        );
                                        assert(crate::model::run(
                                            self@.tokens,
                                            cur_state(self@, active),
                                        ) == full);
                                    }
                                },
                                None => {
                                    let ghost before = self@;
                                    self.residual_args.push(v);
                                    proof {
                                        assert(self@.residual =~= before.residual.push(v@));
                                        assert(self@.tokens == before.tokens);
                                        assert(self@.scopes == before.scopes);
                                        assert(self@.cmds =~= before.cmds);
                                        assert(cur_state(self@, active)
                                            =~= crate::model::push_residual(stv, v@));
                                        lemma_counts_mono(
                                            before,
                                            self@,
                                            before.tokens.len() as int,
                                            self@.tokens.len() as int,
                                        );
                                        assert(crate::model::run(
                                            self@.tokens,
                                            cur_state(self@, active),
                                        ) == full);
                                    }
                                },
                            }
                        },
                        Some(k) => {
                            if self.cmd_name_eq(k, &v) {
                                if self.residual_args.len() > 0 {
                                    let rv = self.first_residual();
                                    proof {
                                        assert(full == (RunResult {
                                            state: cur_state(self@, active),
                                            rest: self@.tokens,
                                            err: Some(
                                                ErrorView::UnexpectedArgument(stv.residual[0]),
                                            ),
                                        }));
                                        assert(self@ =~= apply_run(old(self)@, full));
                                    }
                                    return Err(ParseError::UnexpectedArgument(rv));
                                }
                                proof {
                                    assert(full == (RunResult {
                                        state: cur_state(self@, active),
                                        rest: self@.tokens,
                                        err: Some(ErrorView::UnexpectedCommand(v@)),
                                    }));
                                    assert(self@ =~= apply_run(old(self)@, full));
                                }
                                return Err(ParseError::UnexpectedCommand(v));
                            } else {
                                let ghost before = self@;
                                self.residual_args.push(v);
                                proof {
                                    assert(self@.residual =~= before.residual.push(v@));
                                    assert(self@.tokens == before.tokens);
                                    assert(self@.scopes == before.scopes);
                                    assert(self@.cmds =~= before.cmds);
                                    assert(cur_state(self@, active) =~= crate::model::push_residual(
                                        stv,
                                        v@,
                                    ));
                                    lemma_counts_mono(
                                        before,
                                        self@,
                                        before.tokens.len() as int,
                                        self@.tokens.len() as int,
                                    );
                                    assert(crate::model::run(self@.tokens, cur_state(self@, active))
                                        == full);
                                }
                            }
                        },
                    }
                },
            }
        }
    }

    /// The index of the scope the active command resolves flags in.
    fn active_scope(&self, Ghost(stv): Ghost<RunState>, active: &Option<usize>) -> (s: usize)
        requires
            self.wf(),
            wf_state(stv),
            stv.cmds == self@.cmds,
            stv.active == active_view(*active),
        ensures
            s as int == crate::model::scope_index(stv),
            s < self@.scopes.len(),
    {
        proof {
            assert(self@.cmds.len() == self.commands.len());
            assert(self@.scopes.len() == self.scopes.len());
        }
        match active {
            None => 0,
            Some(k) => *k + 1,
        }
    }
}

/// One option declaration, for registering a command together with all of its
/// options in one call.
pub struct OptDecl {
    pub long_name: Option<String>,
    pub short_name: Option<char>,
    pub description: Option<String>,
    pub flags: Flags,
}

impl View for OptDecl {
    type V = DeclView;

    open spec fn view(&self) -> DeclView {
        DeclView {
            long: crate::model::view_opt_string(self.long_name),
            short: self.short_name,
            descr: crate::model::view_opt_string(self.description),
            flags: self.flags,
        }
    }
}

/// The views of a sequence of declarations.
pub open spec fn decls_view(v: Seq<OptDecl>) -> Seq<DeclView> {
    v.map_values(|d: OptDecl| d@)
}

impl Context {
    /// Register a command and then its options, in declaration order. The
    /// command name must be fresh. Option registration stops at the first
    /// failing declaration, whose error is returned; the command and the
    /// options registered before it stay registered.
    pub fn add_cmd_with(&mut self, name: &str, description: &str, decls: Vec<OptDecl>) -> (r:
        Result<(CmdRes, Vec<Opt>), ParseError>)
        requires
            old(self).wf(),
            find_cmd(old(self)@.cmds, name@) is None,
        ensures
            final(self).wf(),
            final(self)@.tokens == old(self)@.tokens,
            final(self)@.residual == old(self)@.residual,
            final(self)@.cmds == old(self)@.cmds.push(
                (CmdMetaView { name: name@, selected: false }),
            ),
            ({
                let reg = crate::model::register_all(Seq::empty(), decls_view(decls@));
                &&& final(self)@.scopes == old(self)@.scopes.push(
                    (ScopeView { descr: description@, opts: reg.opts }),
                )
                &&& match r {
                    Ok((res, handles)) => {
                        &&& reg.err is None
                        &&& res.idx == old(self)@.cmds.len()
                        &&& handles@.len() == decls@.len()
                        &&& forall|i: int|
                            0 <= i < handles@.len() ==> (#[trigger] handles@[i]).scope == old(
                                self,
                            )@.scopes.len() && handles@[i].idx as int == reg.handles[i]
                    },
                    Err(e) => reg.err == Some(e@),
                }
            }),
    {
        let ghost dv = decls_view(decls@);
        let ghost full = crate::model::register_all(Seq::empty(), dv);
        let r0 = self.add_command(name, description);
        let (res, cmd) = match r0 {
            Ok(p) => p,
            Err(_) => vstd::pervasive::unreached(),
        };
        proof {
            assert(self@.scopes.len() == self.scopes.len());
        }
        let s = cmd.idx + 1;
        let ghost base = self@;
        let mut handles: Vec<Opt> = Vec::new();
        let n = decls.len();
        let mut i: usize = 0;
        proof {
            assert(base.scopes[s as int].opts =~= Seq::<OptView>::empty());
            assert(dv.skip(0) =~= dv);
            assert(frame_except_opts(base, self@, s as int));
        }
        #[verifier::loop_isolation(false)]
        loop
            invariant
                0 <= i <= n,
                n == decls@.len(),
                s == base.scopes.len() - 1,
                s == cmd.idx + 1,
                self.wf(),
                frame_except_opts(base, self@, s as int),
                handles@.len() == i,
                forall|k: int|
                    0 <= k < i ==> (#[trigger] handles@[k]).scope == s && handles@[k].idx as int
                        == full.handles[k],
                ({
                    let sub = crate::model::register_all(
                        self@.scopes[s as int].opts,
                        dv.skip(i as int),
                    );
                    &&& full.opts == sub.opts
                    &&& full.err == sub.err
                    &&& full.handles.len() == i + sub.handles.len()
                    &&& forall|k: int|
                        0 <= k < sub.handles.len() ==> full.handles[i + k] == #[trigger] sub.handles[k]
                }),
            decreases n - i,
        {
            if i >= n {
                proof {
                    assert(dv.skip(i as int) =~= Seq::<DeclView>::empty());
                    assert(full.opts == self@.scopes[s as int].opts);
                    assert(full.err is None);
                    assert(self@.scopes =~= old(self)@.scopes.push(
                        (ScopeView { descr: description@, opts: full.opts }),
                    ));
                }
                return Ok((res, handles));
            }
            let d_long: Option<&str> = match &decls[i].long_name {
                Some(l) => Some(l.as_str()),
                None => None,
            };
            let d_descr: Option<&str> = match &decls[i].description {
                Some(t) => Some(t.as_str()),
                None => None,
            };
            let d_short = decls[i].short_name;
            let d_flags = decls[i].flags;
            let ghost cur = self@.scopes[s as int].opts;
            proof {
                assert(decl_view(d_long, d_short, d_descr, d_flags) == dv[i as int]);
                assert(dv.skip(i as int)[0] == dv[i as int]);
                assert(dv.skip(i as int).drop_first() =~= dv.skip(i as int + 1));
                assert(dv.skip(i as int).len() == n - i);
            }
            let rr = self.scope_add_option(s, d_long, d_short, d_descr, d_flags);
            match rr {
                Ok(j) => {
                    proof {
                        let step = register_step(cur, dv[i as int]);
                        let sub_pre = crate::model::register_all(cur, dv.skip(i as int));
                        let sub_next = crate::model::register_all(
                            step.opts,
                            dv.skip(i as int + 1),
                        );
                        assert(self@.scopes[s as int].opts == step.opts);
                        assert(step.result == Ok::<int, ErrorView>(j as int));
                        assert(sub_pre.opts == sub_next.opts);
                        assert(sub_pre.err == sub_next.err);
                        assert(sub_pre.handles =~= seq![j as int] + sub_next.handles);
                        assert(full.handles[i as int] == sub_pre.handles[0]);
                        assert(full.handles[i as int] == j as int);
                        assert forall|k: int| 0 <= k < sub_next.handles.len() implies full.handles[
                            i as int + 1 + k
                        ] == #[trigger] sub_next.handles[k] by {
                            assert(full.handles[i as int + (k + 1)] == sub_pre.handles[k + 1]);
                            assert(sub_pre.handles[k + 1] == sub_next.handles[k]);
                        }
                    }
                    handles.push(Opt { scope: s, idx: j });
                    i = i + 1;
                },
                Err(e) => {
                    proof {
                        assert(full.err == Some(e@));
                        assert(full.opts == self@.scopes[s as int].opts);
                        assert(self@.scopes =~= old(self)@.scopes.push(
                            (ScopeView { descr: description@, opts: full.opts }),
                        ));
                    }
                    return Err(e);
                },
            }
        }
    }
}

impl Context {
    /// The top-level scope, for display.
    pub fn top_scope(&self) -> (lc: &LocalContext)
        requires
            self.wf(),
        ensures
            lc@ == self@.scopes[0],
    {
        proof {
            assert(self@.scopes.len() == self.scopes.len());
        }
        &self.scopes[0]
    }

    /// How many commands are registered.
    pub fn command_count(&self) -> (n: usize)
        ensures
            n == self@.cmds.len(),
    {
        self.commands.len()
    }

    /// The name of command `k`.
    pub fn command_name(&self, k: usize) -> (n: &String)
        requires
            k < self@.cmds.len(),
        ensures
            n@ == self@.cmds[k as int].name,
    {
        &self.commands[k].name
    }

    /// The scope of command `k`, for display.
    pub fn command_scope(&self, k: usize) -> (lc: &LocalContext)
        requires
            self.wf(),
            k < self@.cmds.len(),
        ensures
            lc@ == self@.scopes[k as int + 1],
    {
        proof {
            assert(self@.scopes.len() == self.scopes.len());
            assert(self@.cmds.len() == self.commands.len());
        }
        &self.scopes[k + 1]
    }
}

/// Whether `o` refers to a registered option of `v`.
pub open spec fn valid_opt(v: CtxView, o: Opt) -> bool {
    &&& o.scope < v.scopes.len()
    &&& o.idx < v.scopes[o.scope as int].opts.len()
}

/// The option record `o` refers to.
pub open spec fn opt_view_of(v: CtxView, o: Opt) -> OptView {
    v.scopes[o.scope as int].opts[o.idx as int]
}

proof fn lemma_counts_values(a: CtxView, b: CtxView, s: int, j: int, m: int)
    requires
        counts_bounded(a, m),
        0 <= s < a.scopes.len(),
        0 <= j < a.scopes[s].opts.len(),
        b.scopes.len() == a.scopes.len(),
        forall|i: int| 0 <= i < a.scopes.len() && i != s ==> b.scopes[i] == a.scopes[i],
        b.scopes[s].opts.len() == a.scopes[s].opts.len(),
        forall|i: int|
            0 <= i < a.scopes[s].opts.len() && i != j ==> b.scopes[s].opts[i] == a.scopes[s].opts[i],
        b.scopes[s].opts[j].passed == a.scopes[s].opts[j].passed,
    ensures
        counts_bounded(b, m),
{
    assert forall|s2: int, j2: int|
        0 <= s2 < b.scopes.len() && 0 <= j2 < b.scopes[s2].opts.len() implies (#[trigger] b.scopes[s2].opts[j2].passed)
        + m <= usize::MAX by {
        assert(a.scopes[s2].opts[j2].passed + m <= usize::MAX);
        if s2 == s && j2 == j {
        } else if s2 == s {
            assert(b.scopes[s2].opts[j2] == a.scopes[s2].opts[j2]);
        } else {
            assert(b.scopes[s2] == a.scopes[s2]);
        }
    }
}

impl Opt {
    /// Whether the option was seen at all during validation.
    pub fn check(&self, ctx: &Context) -> (r: bool)
        requires
            valid_opt(ctx@, *self),
        ensures
            r == (opt_view_of(ctx@, *self).passed > 0),
    {
        proof {
            assert(ctx@.scopes.len() == ctx.scopes.len());
        }
        self.count(ctx) > 0
    }

    /// How many times the option was seen; repeated flags accumulate.
    pub fn count(&self, ctx: &Context) -> (n: usize)
        requires
            valid_opt(ctx@, *self),
        ensures
            n == opt_view_of(ctx@, *self).passed,
    {
        proof {
            assert(ctx@.scopes.len() == ctx.scopes.len());
        }
        ctx.scopes[self.scope].opt_passed(self.idx)
    }

    /// Remove the most recently captured value and parse it as `T`. `Ok(None)`
    /// means a value was captured but does not parse; `Err(true)` that the
    /// option was passed yet no value was ever captured; `Err(false)` that the
    /// option was never passed.
    pub fn take_value<T: OptValue>(&self, ctx: &mut Context) -> (r: Result<Option<T>, bool>)
        requires
            old(ctx).wf(),
            valid_opt(old(ctx)@, *self),
        ensures
            final(ctx).wf(),
            valid_opt(final(ctx)@, *self),
            frame_except_opts(old(ctx)@, final(ctx)@, self.scope as int),
            ({
                let o = opt_view_of(old(ctx)@, *self);
                if o.values.len() > 0 {
                    &&& final(ctx)@.scopes[self.scope as int].opts == old(ctx)@.scopes[
                        self.scope as int
                    ].opts.update(self.idx as int, (OptView { values: o.values.drop_last(), ..o }))
                    &&& match r {
                        Ok(p) => (p is Some) == T::parseable(o.values.last()) && (match p {
                            Some(v) => T::parses_to(o.values.last(), v),
                            None => true,
                        }),
                        Err(_) => false,
                    }
                } else {
                    &&& final(ctx)@ == old(ctx)@
                    &&& match r {
                        Ok(_) => false,
                        Err(passed) => passed == (o.passed > 0),
                    }
                }
            }),
    {
        proof {
            assert(old(ctx)@.scopes.len() == old(ctx).scopes.len());
        }
        let mut lc = ctx.scopes.remove(self.scope);
        let popped = lc.pop_value(self.idx);
        let was_passed = lc.opt_passed(self.idx) > 0;
        ctx.scopes.insert(self.scope, lc);
        proof {
            assert(forall|i: int|
                0 <= i < ctx@.scopes.len() && i != self.scope ==> ctx@.scopes[i] == old(
                    ctx,
                )@.scopes[i]);
            assert(ctx@.cmds =~= old(ctx)@.cmds);
            assert(ctx@.tokens == old(ctx)@.tokens);
            let o = opt_view_of(old(ctx)@, *self);
            if o.values.len() > 0 {
                lemma_counts_values(
                    old(ctx)@,
                    ctx@,
                    self.scope as int,
                    self.idx as int,
                    old(ctx)@.tokens.len() as int,
                );
            } else {
                assert(ctx@.scopes[self.scope as int].opts =~= old(ctx)@.scopes[
                    self.scope as int
                ].opts);
                assert(ctx@ =~= old(ctx)@);
            }
        }
        match popped {
            Some(v) => Ok(T::parse_opt(v.as_str())),
            None => Err(was_passed),
        }
    }

    /// Parse every captured value as `T`, in capture order, without consuming
    /// them. When no value was captured, hand back the occurrence count
    /// instead.
    pub fn take_values<T: OptValue>(&self, ctx: &Context) -> (r: Result<Vec<Option<T>>, usize>)
        requires
            valid_opt(ctx@, *self),
        ensures
            ({
                let o = opt_view_of(ctx@, *self);
                if o.values.len() == 0 {
                    match r {
                        Ok(_) => false,
                        Err(n) => n == o.passed,
                    }
                } else {
                    match r {
                        Ok(vs) => vs@.len() == o.values.len() && forall|i: int|
                            0 <= i < o.values.len() ==> (((#[trigger] vs@[i]) is Some)
                                == T::parseable(o.values[i]) && (match vs@[i] {
                                Some(v) => T::parses_to(o.values[i], v),
                                None => true,
                            })),
                        Err(_) => false,
                    }
                }
            }),
    {
        proof {
            assert(ctx@.scopes.len() == ctx.scopes.len());
        }
        let lc = &ctx.scopes[self.scope];
        let n = lc.value_len(self.idx);
        if n == 0 {
            return Err(lc.opt_passed(self.idx));
        }
        let mut vs: Vec<Option<T>> = Vec::new();
        let mut i: usize = 0;
        while i < n
            invariant
                0 <= i <= n,
                valid_opt(ctx@, *self),
                n == opt_view_of(ctx@, *self).values.len(),
                lc@.opts == ctx@.scopes[self.scope as int].opts,
                vs@.len() == i,
                forall|k: int|
                    0 <= k < i ==> (((#[trigger] vs@[k]) is Some) == T::parseable(
                        opt_view_of(ctx@, *self).values[k],
                    ) && (match vs@[k] {
                        Some(v) => T::parses_to(opt_view_of(ctx@, *self).values[k], v),
                        None => true,
                    })),
            decreases n - i,
        {
            let v = lc.value_at(self.idx, i);
            vs.push(T::parse_opt(v.as_str()));
            i = i + 1;
        }
        Ok(vs)
    }

    /// The first captured value parsed as `T`, or `default` when none was
    /// captured. The first value, when present, must parse.
    pub fn value_or<T: OptValue>(&self, ctx: &Context, default: T) -> (r: T)
        requires
            valid_opt(ctx@, *self),
            opt_view_of(ctx@, *self).values.len() > 0 ==> T::parseable(
                opt_view_of(ctx@, *self).values[0],
            ),
        ensures
            ({
                let o = opt_view_of(ctx@, *self);
                if o.values.len() > 0 {
                    T::parses_to(o.values[0], r)
                } else {
                    r == default
                }
            }),
    {
        proof {
            assert(ctx@.scopes.len() == ctx.scopes.len());
        }
        let lc = &ctx.scopes[self.scope];
        if lc.value_len(self.idx) == 0 {
            return default;
        }
        let v = lc.value_at(self.idx, 0);
        match T::parse_opt(v.as_str()) {
            Some(t) => t,
            None => vstd::pervasive::unreached(),
        }
    }
}

impl CmdRes {
    /// Whether the command was selected during validation.
    pub fn check(&self, ctx: &Context) -> (r: bool)
        requires
            self.idx < ctx@.cmds.len(),
        ensures
            r == ctx@.cmds[self.idx as int].selected,
    {
        ctx.cmd_selected(self.idx)
    }
}

/// Anything options can be registered in: the top-level context directly, or a
/// command's scope through its handle.
pub trait OptGroup: Sized {
    /// The scope options added through this value land in.
    spec fn group_scope(&self) -> int;

    /// The options of that scope.
    spec fn group_opts(&self) -> Seq<OptView>;

    /// Whether the value is well formed.
    spec fn group_inv(&self) -> bool;

    /// Whether `other` differs from this value at most in that scope's options.
    spec fn group_frame(&self, other: &Self) -> bool;

    /// Register one option, as `register_step` describes: reject a nameless or
    /// ill-formed declaration with `InvalidDefinition`, a name collision with
    /// `DuplicateName`; otherwise append a fresh result record and hand back a
    /// handle to it.
    fn add_option(
        &mut self,
        long: Option<&str>,
        short: Option<char>,
        descr: Option<&str>,
        flags: Flags,
    ) -> (r: Result<Opt, ParseError>)
        requires
            old(self).group_inv(),
        ensures
            final(self).group_inv(),
            old(self).group_frame(final(self)),
            final(self).group_scope() == old(self).group_scope(),
            ({
                let step = register_step(
                    old(self).group_opts(),
                    decl_view(long, short, descr, flags),
                );
                &&& final(self).group_opts() == step.opts
                &&& match (r, step.result) {
                    (Ok(o), Ok(i)) => o.scope as int == old(self).group_scope() && o.idx as int
                        == i,
                    (Err(e), Err(ev)) => e@ == ev,
                    _ => false,
                }
            }),
    ;

    /// Register an option that has only a long name, with default flags. The
    /// declaration must be fresh and well formed.
    fn add_lopt(&mut self, name: &str, descr: &str) -> (o: Opt)
        requires
            old(self).group_inv(),
            register_step(
                old(self).group_opts(),
                decl_view(Some(name), None, Some(descr), crate::flags::default_flags()),
            ).result is Ok,
        ensures
            final(self).group_inv(),
            old(self).group_frame(final(self)),
            final(self).group_opts() == old(self).group_opts().push(
                new_opt(decl_view(Some(name), None, Some(descr), crate::flags::default_flags())),
            ),
            o.scope as int == old(self).group_scope(),
            o.idx == old(self).group_opts().len(),
    {
        let r = self.add_option(Some(name), None, Some(descr), Flags::defaults());
        match r {
            Ok(o) => o,
            Err(_) => vstd::pervasive::unreached(),
        }
    }

    /// Register an option that has only a short name, with default flags. The
    /// declaration must be fresh.
    fn add_sopt(&mut self, name: char, descr: &str) -> (o: Opt)
        requires
            old(self).group_inv(),
            register_step(
                old(self).group_opts(),
                decl_view(None, Some(name), Some(descr), crate::flags::default_flags()),
            ).result is Ok,
        ensures
            final(self).group_inv(),
            old(self).group_frame(final(self)),
            final(self).group_opts() == old(self).group_opts().push(
                new_opt(decl_view(None, Some(name), Some(descr), crate::flags::default_flags())),
            ),
            o.scope as int == old(self).group_scope(),
            o.idx == old(self).group_opts().len(),
    {
        let r = self.add_option(None, Some(name), Some(descr), Flags::defaults());
        match r {
            Ok(o) => o,
            Err(_) => vstd::pervasive::unreached(),
        }
    }

    /// Register an option that has both a long and a short name, with default
    /// flags. The declaration must be fresh and well formed.
    fn add_opt(&mut self, lname: &str, sname: char, descr: &str) -> (o: Opt)
        requires
            old(self).group_inv(),
            register_step(
                old(self).group_opts(),
                decl_view(Some(lname), Some(sname), Some(descr), crate::flags::default_flags()),
            ).result is Ok,
        ensures
            final(self).group_inv(),
            old(self).group_frame(final(self)),
            final(self).group_opts() == old(self).group_opts().push(
                new_opt(
                    decl_view(
                        Some(lname),
                        Some(sname),
                        Some(descr),
                        crate::flags::default_flags(),
                    ),
                ),
            ),
            o.scope as int == old(self).group_scope(),
            o.idx == old(self).group_opts().len(),
    {
        let r = self.add_option(Some(lname), Some(sname), Some(descr), Flags::defaults());
        match r {
            Ok(o) => o,
            Err(_) => vstd::pervasive::unreached(),
        }
    }
}

impl OptGroup for Context {
    open spec fn group_scope(&self) -> int {
        0
    }

    open spec fn group_opts(&self) -> Seq<OptView> {
        self@.scopes[0].opts
    }

    open spec fn group_inv(&self) -> bool {
        self.wf()
    }

    open spec fn group_frame(&self, other: &Context) -> bool {
        frame_except_opts(self@, other@, 0)
    }

    fn add_option(
        &mut self,
        long: Option<&str>,
        short: Option<char>,
        descr: Option<&str>,
        flags: Flags,
    ) -> (r: Result<Opt, ParseError>) {
        match self.scope_add_option(0, long, short, descr, flags) {
            Ok(j) => Ok(Opt { scope: 0, idx: j }),
            Err(e) => Err(e),
        }
    }
}

impl Cmd {
    /// Register one option in this command's scope, as `register_step`
    /// describes.
    pub fn add_option(
        &self,
        ctx: &mut Context,
        long: Option<&str>,
        short: Option<char>,
        descr: Option<&str>,
        flags: Flags,
    ) -> (r: Result<Opt, ParseError>)
        requires
            old(ctx).wf(),
            self.idx < old(ctx)@.cmds.len(),
        ensures
            final(ctx).wf(),
            frame_except_opts(old(ctx)@, final(ctx)@, self.idx + 1),
            ({
                let step = register_step(
                    old(ctx)@.scopes[self.idx + 1].opts,
                    decl_view(long, short, descr, flags),
                );
                &&& final(ctx)@.scopes[self.idx + 1].opts == step.opts
                &&& match (r, step.result) {
                    (Ok(o), Ok(i)) => o.scope == self.idx + 1 && o.idx as int == i,
                    (Err(e), Err(ev)) => e@ == ev,
                    _ => false,
                }
            }),
    {
        proof {
            assert(old(ctx)@.scopes.len() == old(ctx).scopes.len());
        }
        let s = self.idx + 1;
        match ctx.scope_add_option(s, long, short, descr, flags) {
            Ok(j) => Ok(Opt { scope: s, idx: j }),
            Err(e) => Err(e),
        }
    }

    /// Register an option with only a long name and default flags in this
    /// command's scope. The declaration must be fresh and well formed.
    pub fn add_lopt(&self, ctx: &mut Context, name: &str, descr: &str) -> (o: Opt)
        requires
            old(ctx).wf(),
            self.idx < old(ctx)@.cmds.len(),
            register_step(
                old(ctx)@.scopes[self.idx + 1].opts,
                decl_view(Some(name), None, Some(descr), crate::flags::default_flags()),
            ).result is Ok,
        ensures
            final(ctx).wf(),
            frame_except_opts(old(ctx)@, final(ctx)@, self.idx + 1),
            final(ctx)@.scopes[self.idx + 1].opts == old(ctx)@.scopes[self.idx + 1].opts.push(
                new_opt(decl_view(Some(name), None, Some(descr), crate::flags::default_flags())),
            ),
            o.scope == self.idx + 1,
            o.idx == old(ctx)@.scopes[self.idx + 1].opts.len(),
    {
        let r = self.add_option(ctx, Some(name), None, Some(descr), Flags::defaults());
        match r {
            Ok(o) => o,
            Err(_) => vstd::pervasive::unreached(),
        }
    }

    /// Register an option with only a short name and default flags in this
    /// command's scope. The declaration must be fresh.
    pub fn add_sopt(&self, ctx: &mut Context, name: char, descr: &str) -> (o: Opt)
        requires
            old(ctx).wf(),
            self.idx < old(ctx)@.cmds.len(),
            register_step(
                old(ctx)@.scopes[self.idx + 1].opts,
                decl_view(None, Some(name), Some(descr), crate::flags::default_flags()),
            ).result is Ok,
        ensures
            final(ctx).wf(),
            frame_except_opts(old(ctx)@, final(ctx)@, self.idx + 1),
            final(ctx)@.scopes[self.idx + 1].opts == old(ctx)@.scopes[self.idx + 1].opts.push(
                new_opt(decl_view(None, Some(name), Some(descr), crate::flags::default_flags())),
            ),
            o.scope == self.idx + 1,
            o.idx == old(ctx)@.scopes[self.idx + 1].opts.len(),
    {
        let r = self.add_option(ctx, None, Some(name), Some(descr), Flags::defaults());
        match r {
            Ok(o) => o,
            Err(_) => vstd::pervasive::unreached(),
        }
    }

    /// Register an option with both names and default flags in this command's
    /// scope. The declaration must be fresh and well formed.
    pub fn add_opt(&self, ctx: &mut Context, lname: &str, sname: char, descr: &str) -> (o: Opt)
        requires
            old(ctx).wf(),
            self.idx < old(ctx)@.cmds.len(),
            register_step(
                old(ctx)@.scopes[self.idx + 1].opts,
                decl_view(Some(lname), Some(sname), Some(descr), crate::flags::default_flags()),
            ).result is Ok,
        ensures
            final(ctx).wf(),
            frame_except_opts(old(ctx)@, final(ctx)@, self.idx + 1),
            final(ctx)@.scopes[self.idx + 1].opts == old(ctx)@.scopes[self.idx + 1].opts.push(
                new_opt(
                    decl_view(
                        Some(lname),
                        Some(sname),
                        Some(descr),
                        crate::flags::default_flags(),
                    ),
                ),
            ),
            o.scope == self.idx + 1,
            o.idx == old(ctx)@.scopes[self.idx + 1].opts.len(),
    {
        let r = self.add_option(ctx, Some(lname), Some(sname), Some(descr), Flags::defaults());
        match r {
            Ok(o) => o,
            Err(_) => vstd::pervasive::unreached(),
        }
    }
}

} // verus!
