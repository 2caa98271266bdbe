use vstd::prelude::*;

use crate::errors::ErrorView;
use crate::flags::Flags;
use crate::token::{token_text, Token};

verus! {

/// The mathematical shape of one registered option together with its result
/// record: occurrence count and captured values.
#[verifier::ext_equal]
pub struct OptView {
    pub long: Option<Seq<char>>,
    pub short: Option<char>,
    pub descr: Option<Seq<char>>,
    pub flags: Flags,
    pub passed: nat,
    pub values: Seq<Seq<char>>,
}

/// One scope: its usage text and its options in registration order.
#[verifier::ext_equal]
pub struct ScopeView {
    pub descr: Seq<char>,
    pub opts: Seq<OptView>,
}

/// One registered command: its name and whether it has been selected.
#[verifier::ext_equal]
pub struct CmdMetaView {
    pub name: Seq<char>,
    pub selected: bool,
}

/// The validator state. Scope 0 is the top level; scope `k + 1` belongs to
/// command `k`. `active` is the command whose scope currently resolves flags,
/// or `None` while the top level does.
#[verifier::ext_equal]
pub struct RunState {
    pub scopes: Seq<ScopeView>,
    pub cmds: Seq<CmdMetaView>,
    pub residual: Seq<Seq<char>>,
    pub active: Option<int>,
}

/// What one run of the validator leaves behind: the final state, the tokens it
/// did not consume, and the error it stopped at, if any.
#[verifier::ext_equal]
pub struct RunResult {
    pub state: RunState,
    pub rest: Seq<Token>,
    pub err: Option<ErrorView>,
}

/// The index of the first option at or after `i` whose short name is `c`.
pub open spec fn find_short_from(opts: Seq<OptView>, c: char, i: int) -> Option<int>
    decreases opts.len() - i,
{
    if i < 0 || i >= opts.len() {
        None
    } else if opts[i].short == Some(c) {
        Some(i)
    } else {
        find_short_from(opts, c, i + 1)
    }
}

/// The index of the first option whose short name is `c`.
pub open spec fn find_short(opts: Seq<OptView>, c: char) -> Option<int> {
    find_short_from(opts, c, 0)
}

/// The index of the first option at or after `i` whose long name is `name`.
pub open spec fn find_long_from(opts: Seq<OptView>, name: Seq<char>, i: int) -> Option<int>
    decreases opts.len() - i,
{
    if i < 0 || i >= opts.len() {
        None
    } else if opts[i].long == Some(name) {
        Some(i)
    } else {
        find_long_from(opts, name, i + 1)
    }
}

/// The index of the first option whose long name is `name`.
pub open spec fn find_long(opts: Seq<OptView>, name: Seq<char>) -> Option<int> {
    find_long_from(opts, name, 0)
}

/// The index of the first command at or after `i` named `name`.
pub open spec fn find_cmd_from(cmds: Seq<CmdMetaView>, name: Seq<char>, i: int) -> Option<int>
    decreases cmds.len() - i,
{
    if i < 0 || i >= cmds.len() {
        None
    } else if cmds[i].name == name {
        Some(i)
    } else {
        find_cmd_from(cmds, name, i + 1)
    }
}

/// The index of the first command named `name`.
pub open spec fn find_cmd(cmds: Seq<CmdMetaView>, name: Seq<char>) -> Option<int> {
    find_cmd_from(cmds, name, 0)
}

/// The scope that currently resolves flag tokens.
pub open spec fn scope_index(st: RunState) -> int {
    match st.active {
        None => 0,
        Some(k) => k + 1,
    }
}

/// The options of the scope that currently resolves flag tokens.
pub open spec fn active_opts(st: RunState) -> Seq<OptView> {
    st.scopes[scope_index(st)].opts
}

/// A structurally sound state: one scope per command plus the top level, and an
/// active command that exists.
pub open spec fn wf_state(st: RunState) -> bool {
    &&& st.scopes.len() == st.cmds.len() + 1
    &&& match st.active {
        None => true,
        Some(k) => 0 <= k < st.cmds.len(),
    }
}

/// `st` with option `j` of scope `s` replaced by `o`.
pub open spec fn with_opt(st: RunState, s: int, j: int, o: OptView) -> RunState {
    RunState {
        scopes: st.scopes.update(
            s,
            ScopeView { opts: st.scopes[s].opts.update(j, o), ..st.scopes[s] },
        ),
        ..st
    }
}

/// `o` seen one more time.
pub open spec fn bump_opt(o: OptView) -> OptView {
    OptView { passed: o.passed + 1, ..o }
}

/// `o` with one more captured value.
pub open spec fn add_value(o: OptView, v: Seq<char>) -> OptView {
    OptView { values: o.values.push(v), ..o }
}

/// `st` with command `k` selected and its scope made active.
pub open spec fn select_cmd(st: RunState, k: int) -> RunState {
    RunState {
        cmds: st.cmds.update(k, CmdMetaView { selected: true, ..st.cmds[k] }),
        active: Some(k),
        ..st
    }
}

/// `st` with one more leftover argument.
pub open spec fn push_residual(st: RunState, v: Seq<char>) -> RunState {
    RunState { residual: st.residual.push(v), ..st }
}

/// Stop with error `e`, unless leftover arguments are pending: a pending
/// leftover ahead of any match is itself the error that is reported.
pub open spec fn fail_with(st: RunState, rest: Seq<Token>, e: ErrorView) -> RunResult {
    if st.residual.len() > 0 {
        RunResult { state: st, rest, err: Some(ErrorView::UnexpectedArgument(st.residual[0])) }
    } else {
        RunResult { state: st, rest, err: Some(e) }
    }
}

/// The validator: consume tokens one at a time against the active scope until
/// the stream is exhausted or an error stops it.
pub open spec fn run(tokens: Seq<Token>, st: RunState) -> RunResult
    decreases tokens.len(), 1int,
{
    if tokens.len() == 0 {
        RunResult { state: st, rest: tokens, err: None }
    } else {
        let rest = tokens.drop_first();
        match tokens[0] {
            Token::Short(c) => run_flag(rest, st, find_short(active_opts(st), c), seq![c]),
            Token::Long(n) => run_flag(rest, st, find_long(active_opts(st), n), n),
            Token::Value(v) => run_value(rest, st, v),
        }
    }
}

/// One flag token, already looked up in the active scope: count the occurrence,
/// then consume a following bare value when the option takes one.
pub open spec fn run_flag(
    rest: Seq<Token>,
    st: RunState,
    found: Option<int>,
    name: Seq<char>,
) -> RunResult
    decreases rest.len(), 2int,
{
    match found {
        None => fail_with(st, rest, ErrorView::UnknownOption(name)),
        Some(j) => {
            let s = scope_index(st);
            let o = active_opts(st)[j];
            let st1 = with_opt(st, s, j, bump_opt(o));
            if st1.residual.len() > 0 {
                RunResult {
                    state: st1,
                    rest,
                    err: Some(ErrorView::UnexpectedArgument(st1.residual[0])),
                }
            } else if o.flags.unique && o.passed + 1 > 1 {
                RunResult { state: st1, rest, err: Some(ErrorView::DuplicateOption(name)) }
            } else if o.flags.takes_value() {
                if rest.len() > 0 && rest[0] is Value {
                    run(
                        rest.drop_first(),
                        with_opt(st, s, j, add_value(bump_opt(o), token_text(rest[0]))),
                    )
                } else if o.flags.takes_arg {
                    RunResult { state: st1, rest, err: Some(ErrorView::MissingArgument(name)) }
                } else {
                    run(rest, st1)
                }
            } else {
                run(rest, st1)
            }
        },
    }
}

/// One bare value: at the top level it may select a command; anywhere it may
/// repeat the selected command's name, which is an error; otherwise it joins
/// the leftover arguments.
pub open spec fn run_value(rest: Seq<Token>, st: RunState, v: Seq<char>) -> RunResult
    decreases rest.len(), 2int,
{
    match st.active {
        None => match find_cmd(st.cmds, v) {
            Some(k) => if st.residual.len() > 0 {
                RunResult {
                    state: st,
                    rest,
                    err: Some(ErrorView::UnexpectedArgument(st.residual[0])),
                }
            } else if st.cmds[k].selected {
                RunResult { state: st, rest, err: Some(ErrorView::UnexpectedCommand(v)) }
            } else {
                run(rest, select_cmd(st, k))
            },
            None => run(rest, push_residual(st, v)),
        },
        Some(k) => if v == st.cmds[k].name {
            if st.residual.len() > 0 {
                RunResult {
                    state: st,
                    rest,
                    err: Some(ErrorView::UnexpectedArgument(st.residual[0])),
                }
            } else {
                RunResult { state: st, rest, err: Some(ErrorView::UnexpectedCommand(v)) }
            }
        } else {
            run(rest, push_residual(st, v))
        },
    }
}

/// What one registration declares.
#[verifier::ext_equal]
pub struct DeclView {
    pub long: Option<Seq<char>>,
    pub short: Option<char>,
    pub descr: Option<Seq<char>>,
    pub flags: Flags,
}

/// A fresh result record for a declaration: never passed, no values.
pub open spec fn new_opt(d: DeclView) -> OptView {
    OptView {
        long: d.long,
        short: d.short,
        descr: d.descr,
        flags: d.flags,
        passed: 0,
        values: Seq::empty(),
    }
}

/// A declaration names the option and respects the name length rules: a long
/// name, when present, has at least two characters, and at least one name is
/// present. A short name is one character by construction.
pub open spec fn decl_ok(d: DeclView) -> bool {
    &&& d.long is Some || d.short is Some
    &&& (d.long matches Some(l) ==> l.len() >= 2)
}

/// Whether a declaration collides with a name already registered in `opts`.
pub open spec fn decl_dup(opts: Seq<OptView>, d: DeclView) -> bool {
    ||| (d.long matches Some(l) && find_long(opts, l) is Some)
    ||| (d.short matches Some(c) && find_short(opts, c) is Some)
}

/// The outcome of one registration: the new option list, and the slot index or
/// the error.
#[verifier::ext_equal]
pub struct RegResult {
    pub opts: Seq<OptView>,
    pub result: Result<int, ErrorView>,
}

/// Register one declaration: reject a nameless or ill-formed declaration, then
/// a name collision; otherwise append a fresh record and hand back its index.
pub open spec fn register_step(opts: Seq<OptView>, d: DeclView) -> RegResult {
    if !decl_ok(d) {
        RegResult { opts, result: Err(ErrorView::InvalidDefinition) }
    } else if decl_dup(opts, d) {
        RegResult { opts, result: Err(ErrorView::DuplicateName) }
    } else {
        RegResult { opts: opts.push(new_opt(d)), result: Ok(opts.len() as int) }
    }
}

/// The outcome of registering a list of declarations in order: the option list
/// after the registrations that succeeded, the slot indices handed out, and
/// the error of the first failing registration, if any, at which the rest of
/// the list is abandoned.
#[verifier::ext_equal]
pub struct RegAllResult {
    pub opts: Seq<OptView>,
    pub handles: Seq<int>,
    pub err: Option<ErrorView>,
}

/// Register a list of declarations, one after the other, stopping at the
/// first failure.
pub open spec fn register_all(opts: Seq<OptView>, decls: Seq<DeclView>) -> RegAllResult
    decreases decls.len(),
{
    if decls.len() == 0 {
        RegAllResult { opts, handles: Seq::empty(), err: None }
    } else {
        let step = register_step(opts, decls[0]);
        match step.result {
            Ok(i) => {
                let rest = register_all(step.opts, decls.drop_first());
                RegAllResult { opts: rest.opts, handles: seq![i] + rest.handles, err: rest.err }
            },
            Err(e) => RegAllResult { opts: step.opts, handles: Seq::empty(), err: Some(e) },
        }
    }
}

/// The view of an optional borrowed string.
pub open spec fn view_opt_str(o: Option<&str>) -> Option<Seq<char>> {
    match o {
        Some(s) => Some(s@),
        None => None,
    }
}

/// The view of an optional owned string.
pub open spec fn view_opt_string(o: Option<String>) -> Option<Seq<char>> {
    match o {
        Some(s) => Some(s@),
        None => None,
    }
}

/// The declaration the exec-level registration arguments stand for.
pub open spec fn decl_view(
    long: Option<&str>,
    short: Option<char>,
    descr: Option<&str>,
    flags: Flags,
) -> DeclView {
    DeclView { long: view_opt_str(long), short, descr: view_opt_str(descr), flags }
}

} // verus!
