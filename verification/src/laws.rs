use vstd::prelude::*;

use crate::errors::ErrorView;
use crate::model::{
    active_opts, add_value, bump_opt, decl_dup, decl_ok, find_cmd, find_cmd_from, find_long,
    find_long_from, find_short, find_short_from, new_opt, register_step, run, select_cmd,
    wf_state, with_opt, CmdMetaView, DeclView, OptView, RunResult, RunState, ScopeView,
};
use crate::token::{first_eq_from, token_text, tokenize, tokens_of_arg, Token};

verus! {

proof fn lemma_find_short_from_none(opts: Seq<OptView>, c: char, i: int, j: int)
    requires
        find_short_from(opts, c, i) is None,
        i <= j < opts.len(),
        0 <= i,
    ensures
        opts[j].short != Some(c),
    decreases j - i,
{
    if i < j {
        lemma_find_short_from_none(opts, c, i + 1, j);
    }
}

proof fn lemma_find_long_from_none(opts: Seq<OptView>, name: Seq<char>, i: int, j: int)
    requires
        find_long_from(opts, name, i) is None,
        i <= j < opts.len(),
        0 <= i,
    ensures
        opts[j].long != Some(name),
    decreases j - i,
{
    if i < j {
        lemma_find_long_from_none(opts, name, i + 1, j);
    }
}

proof fn lemma_find_short_same_names(a: Seq<OptView>, b: Seq<OptView>, c: char, i: int)
    requires
        a.len() == b.len(),
        forall|k: int| 0 <= k < a.len() ==> a[k].short == b[k].short,
        0 <= i,
    ensures
        find_short_from(a, c, i) == find_short_from(b, c, i),
    decreases a.len() - i,
{
    if i < a.len() {
        lemma_find_short_same_names(a, b, c, i + 1);
    }
}

proof fn lemma_find_long_same_names(a: Seq<OptView>, b: Seq<OptView>, name: Seq<char>, i: int)
    requires
        a.len() == b.len(),
        forall|k: int| 0 <= k < a.len() ==> a[k].long == b[k].long,
        0 <= i,
    ensures
        find_long_from(a, name, i) == find_long_from(b, name, i),
    decreases a.len() - i,
{
    if i < a.len() {
        lemma_find_long_same_names(a, b, name, i + 1);
    }
}

proof fn lemma_find_short_from_range(opts: Seq<OptView>, c: char, i: int)
    requires
        0 <= i,
    ensures
        match find_short_from(opts, c, i) {
            Some(j) => i <= j < opts.len(),
            None => true,
        },
    decreases opts.len() - i,
{
    if i < opts.len() && opts[i].short != Some(c) {
        lemma_find_short_from_range(opts, c, i + 1);
    }
}

proof fn lemma_find_long_from_range(opts: Seq<OptView>, name: Seq<char>, i: int)
    requires
        0 <= i,
    ensures
        match find_long_from(opts, name, i) {
            Some(j) => i <= j < opts.len(),
            None => true,
        },
    decreases opts.len() - i,
{
    if i < opts.len() && opts[i].long != Some(name) {
        lemma_find_long_from_range(opts, name, i + 1);
    }
}

proof fn lemma_find_cmd_found(cmds: Seq<CmdMetaView>, name: Seq<char>, i: int, k: int)
    requires
        0 <= i,
        find_cmd_from(cmds, name, i) == Some(k),
    ensures
        i <= k < cmds.len(),
        cmds[k].name == name,
    decreases cmds.len() - i,
{
    if i < cmds.len() && cmds[i].name != name {
        lemma_find_cmd_found(cmds, name, i + 1, k);
    }
}

/// Whether flag token `t` resolves to option `j` of the active scope.
pub open spec fn flag_resolves(st: RunState, t: Token, j: int) -> bool {
    match t {
        Token::Short(c) => find_short(active_opts(st), c) == Some(j),
        Token::Long(n) => find_long(active_opts(st), n) == Some(j),
        Token::Value(_) => false,
    }
}

/// Two registrations that share a long or a short name cannot both succeed:
/// whichever of the two is registered second is rejected with
/// `DuplicateName`, in either order.
pub proof fn lemma_duplicate_name_rejected(opts: Seq<OptView>, a: DeclView, b: DeclView)
    requires
        decl_ok(a),
        decl_ok(b),
        (a.long is Some && a.long == b.long) || (a.short is Some && a.short == b.short),
        !decl_dup(opts, a),
        !decl_dup(opts, b),
    ensures
        register_step(register_step(opts, a).opts, b).result == Err::<int, ErrorView>(
            ErrorView::DuplicateName,
        ),
        register_step(register_step(opts, b).opts, a).result == Err::<int, ErrorView>(
            ErrorView::DuplicateName,
        ),
{
    lemma_second_of_pair_rejected(opts, a, b);
    lemma_second_of_pair_rejected(opts, b, a);
}

proof fn lemma_second_of_pair_rejected(opts: Seq<OptView>, a: DeclView, b: DeclView)
    requires
        decl_ok(a),
        decl_ok(b),
        (a.long is Some && a.long == b.long) || (a.short is Some && a.short == b.short),
        !decl_dup(opts, a),
        !decl_dup(opts, b),
    ensures
        register_step(register_step(opts, a).opts, b).result == Err::<int, ErrorView>(
            ErrorView::DuplicateName,
        ),
{
    let pushed = opts.push(new_opt(a));
    assert(register_step(opts, a).opts == pushed);
    assert(decl_dup(pushed, b)) by {
        if a.long is Some && a.long == b.long {
            let l = b.long->0;
            assert(pushed[opts.len() as int].long == Some(l));
            if find_long(pushed, l) is None {
                lemma_find_long_from_none(pushed, l, 0, opts.len() as int);
            }
        } else {
            let c = b.short->0;
            assert(pushed[opts.len() as int].short == Some(c));
            if find_short(pushed, c) is None {
                lemma_find_short_from_none(pushed, c, 0, opts.len() as int);
            }
        }
    }
}

proof fn lemma_tokenize_append(a: Seq<Seq<char>>, b: Seq<Seq<char>>)
    ensures
        tokenize(a + b) == tokenize(a) + tokenize(b),
    decreases a.len(),
{
    if a.len() == 0 {
        assert(a + b =~= b);
        assert(tokenize(a) + tokenize(b) =~= tokenize(b));
    } else {
        lemma_tokenize_append(a.drop_first(), b);
        assert((a + b).drop_first() =~= a.drop_first() + b);
        assert((a + b)[0] == a[0]);
        assert(tokenize(a) + tokenize(b) =~= tokens_of_arg(a[0]) + (tokenize(a.drop_first())
            + tokenize(b)));
    }
}

proof fn lemma_first_eq_at(s: Seq<char>, i: int, p: int)
    requires
        0 <= i <= p < s.len(),
        forall|k: int| i <= k < p ==> s[k] != '=',
        s[p] == '=',
    ensures
        first_eq_from(s, i) == Some(p),
    decreases p - i,
{
    if i < p {
        lemma_first_eq_at(s, i + 1, p);
    }
}

proof fn lemma_first_eq_absent(s: Seq<char>, i: int)
    requires
        0 <= i,
        forall|k: int| i <= k < s.len() ==> s[k] != '=',
    ensures
        first_eq_from(s, i) is None,
    decreases s.len() - i,
{
    if i < s.len() {
        lemma_first_eq_absent(s, i + 1);
    }
}

/// `--name=value` and `--name value` tokenize identically, in any surrounding
/// argument list, for a long name without `=` and a value that does not start
/// with `-`. Validation is a function of the token stream alone, so the two
/// spellings register the same occurrence and the same captured value.
pub proof fn lemma_long_inline_value_equiv(
    pre: Seq<Seq<char>>,
    name: Seq<char>,
    value: Seq<char>,
    post: Seq<Seq<char>>,
)
    requires
        forall|i: int| 0 <= i < name.len() ==> name[i] != '=',
        value.len() > 0 ==> value[0] != '-',
    ensures
        tokenize(pre + seq![seq!['-', '-'] + name + seq!['='] + value] + post) == tokenize(
            pre + seq![seq!['-', '-'] + name, value] + post,
        ),
{
    let inline_arg = seq!['-', '-'] + name + seq!['='] + value;
    let flag_arg = seq!['-', '-'] + name;
    let p = 2 + name.len() as int;
    assert(inline_arg[0] == '-');
    assert(inline_arg[1] == '-');
    assert(inline_arg[p] == '=');
    assert(forall|k: int| 2 <= k < p ==> inline_arg[k] == name[k - 2]);
    lemma_first_eq_at(inline_arg, 2, p);
    assert(inline_arg.subrange(2, p) =~= name);
    assert(inline_arg.subrange(p + 1, inline_arg.len() as int) =~= value);
    assert(tokens_of_arg(inline_arg) =~= seq![Token::Long(name), Token::Value(value)]);

    assert(flag_arg[0] == '-');
    assert(flag_arg[1] == '-');
    assert(forall|k: int| 2 <= k < flag_arg.len() ==> flag_arg[k] != '=');
    lemma_first_eq_absent(flag_arg, 2);
    assert(flag_arg.subrange(2, flag_arg.len() as int) =~= name);
    assert(tokens_of_arg(flag_arg) =~= seq![Token::Long(name)]);

    assert(tokens_of_arg(value) =~= seq![Token::Value(value)]);

    let mid1 = seq![inline_arg];
    let mid2 = seq![flag_arg, value];
    assert(tokenize(mid1) =~= tokens_of_arg(inline_arg) + tokenize(Seq::<Seq<char>>::empty())) by {
        assert(mid1.drop_first() =~= Seq::<Seq<char>>::empty());
    }
    assert(tokenize(mid2) =~= tokens_of_arg(flag_arg) + tokenize(seq![value])) by {
        assert(mid2.drop_first() =~= seq![value]);
    }
    assert(tokenize(seq![value]) =~= tokens_of_arg(value) + tokenize(Seq::<Seq<char>>::empty()))
        by {
        assert(seq![value].drop_first() =~= Seq::<Seq<char>>::empty());
    }
    assert(tokenize(mid1) =~= tokenize(mid2));

    lemma_tokenize_append(pre, mid1 + post);
    lemma_tokenize_append(mid1, post);
    lemma_tokenize_append(pre, mid2 + post);
    lemma_tokenize_append(mid2, post);
    assert(pre + seq![inline_arg] + post =~= pre + (mid1 + post));
    assert(pre + seq![flag_arg, value] + post =~= pre + (mid2 + post));
}

/// A unique option passed twice makes validation fail with `DuplicateOption`,
/// and the occurrence count still shows both attempts: nothing is rolled
/// back.
pub proof fn lemma_unique_rejected_twice(t: Token, st: RunState, j: int)
    requires
        wf_state(st),
        st.active is None,
        st.residual.len() == 0,
        flag_resolves(st, t, j),
        0 <= j < active_opts(st).len(),
        active_opts(st)[j].flags.unique,
        !active_opts(st)[j].flags.takes_arg,
        active_opts(st)[j].passed == 0,
    ensures
        run(seq![t, t], st).err == Some(ErrorView::DuplicateOption(token_text(t))),
        run(seq![t, t], st).state.scopes[0].opts[j].passed == 2,
{
    let o = active_opts(st)[j];
    let st1 = with_opt(st, 0, j, bump_opt(o));
    let toks = seq![t, t];
    assert(toks.drop_first() =~= seq![t]);
    assert(seq![t].drop_first() =~= Seq::<Token>::empty());
    assert(active_opts(st1).len() == active_opts(st).len());
    assert(forall|k: int|
        0 <= k < active_opts(st).len() && k != j ==> active_opts(st1)[k] == active_opts(st)[k]);
    let o1 = active_opts(st1)[j];
    assert(o1 == bump_opt(o));
    let st2 = with_opt(st1, 0, j, bump_opt(o1));
    let end = (RunResult {
        state: st2,
        rest: Seq::<Token>::empty(),
        err: Some(ErrorView::DuplicateOption(token_text(t))),
    });
    match t {
        Token::Short(c) => {
            lemma_find_short_same_names(active_opts(st), active_opts(st1), c, 0);
            assert(run(toks, st) == crate::model::run_flag(seq![t], st, Some(j), seq![c]));
            assert(crate::model::run_flag(seq![t], st, Some(j), seq![c]) == run(seq![t], st1));
            assert(run(seq![t], st1) == crate::model::run_flag(
                Seq::<Token>::empty(),
                st1,
                Some(j),
                seq![c],
            ));
            assert(crate::model::run_flag(Seq::<Token>::empty(), st1, Some(j), seq![c]) == end);
        },
        Token::Long(n) => {
            lemma_find_long_same_names(active_opts(st), active_opts(st1), n, 0);
            assert(run(toks, st) == crate::model::run_flag(seq![t], st, Some(j), n));
            assert(crate::model::run_flag(seq![t], st, Some(j), n) == run(seq![t], st1));
            assert(run(seq![t], st1) == crate::model::run_flag(
                Seq::<Token>::empty(),
                st1,
                Some(j),
                n,
            ));
            assert(crate::model::run_flag(Seq::<Token>::empty(), st1, Some(j), n) == end);
        },
        Token::Value(_) => {},
    }
    assert(run(toks, st) == end);
    assert(st2.scopes[0].opts[j].passed == 2);
}

/// An optional-value option passed with no following bare value is counted
/// but captures nothing: its count becomes positive while its value list is
/// untouched, and any other option is untouched entirely. `take_value` on the
/// first then answers "passed without a value" (`Err(true)`); on an option
/// the tokens never named, whose count stayed zero, it answers "never passed"
/// (`Err(false)`) — two distinguishable outcomes of the same call.
pub proof fn lemma_optional_without_value(t: Token, st: RunState, j: int, j2: int)
    requires
        wf_state(st),
        st.active is None,
        st.residual.len() == 0,
        flag_resolves(st, t, j),
        0 <= j < active_opts(st).len(),
        active_opts(st)[j].flags.takes_optional_arg,
        !active_opts(st)[j].flags.takes_arg,
        active_opts(st)[j].passed == 0,
        0 <= j2 < active_opts(st).len(),
        j2 != j,
    ensures
        run(seq![t], st).err is None,
        run(seq![t], st).state.scopes[0].opts[j].passed > 0,
        run(seq![t], st).state.scopes[0].opts[j].values == active_opts(st)[j].values,
        run(seq![t], st).state.scopes[0].opts[j2] == active_opts(st)[j2],
{
    let o = active_opts(st)[j];
    let st1 = with_opt(st, 0, j, bump_opt(o));
    assert(seq![t].drop_first() =~= Seq::<Token>::empty());
    match t {
        Token::Short(c) => {
            assert(run(seq![t], st) == crate::model::run_flag(
                Seq::<Token>::empty(),
                st,
                Some(j),
                seq![c],
            ));
        },
        Token::Long(n) => {
            assert(run(seq![t], st) == crate::model::run_flag(
                Seq::<Token>::empty(),
                st,
                Some(j),
                n,
            ));
        },
        Token::Value(_) => {},
    }
    assert(run(seq![t], st) == run(Seq::<Token>::empty(), st1));
}

/// A command name seen as a bare argument at the top level selects the
/// command.
pub proof fn lemma_command_selects(v: Seq<char>, st: RunState, k: int)
    requires
        wf_state(st),
        st.active is None,
        st.residual.len() == 0,
        find_cmd(st.cmds, v) == Some(k),
        !st.cmds[k].selected,
    ensures
        run(seq![Token::Value(v)], st).err is None,
        run(seq![Token::Value(v)], st).state.cmds[k].selected,
        run(seq![Token::Value(v)], st).state.scopes == st.scopes,
        forall|i: int|
            0 <= i < st.cmds.len() && i != k ==> run(seq![Token::Value(v)], st).state.cmds[i]
                == st.cmds[i],
{
    lemma_find_cmd_found(st.cmds, v, 0, k);
    assert(seq![Token::Value(v)].drop_first() =~= Seq::<Token>::empty());
    assert(run(seq![Token::Value(v)], st) == run(Seq::<Token>::empty(), select_cmd(st, k)));
}

/// A selection, once made, stays: no later token can clear a command's
/// selection flag, whatever else happens.
pub proof fn lemma_selected_stays(tokens: Seq<Token>, st: RunState, k: int)
    requires
        wf_state(st),
        0 <= k < st.cmds.len(),
        st.cmds[k].selected,
    ensures
        run(tokens, st).state.cmds.len() == st.cmds.len(),
        run(tokens, st).state.cmds[k].selected,
    decreases tokens.len(), 2int,
{
    if tokens.len() == 0 {
    } else {
        let rest = tokens.drop_first();
        match tokens[0] {
            Token::Short(c) => {
                lemma_selected_stays_flag(rest, st, find_short(active_opts(st), c), seq![c], k);
            },
            Token::Long(n) => {
                lemma_selected_stays_flag(rest, st, find_long(active_opts(st), n), n, k);
            },
            Token::Value(v) => {
                match st.active {
                    None => {
                        match find_cmd(st.cmds, v) {
                            Some(k2) => {
                                if st.residual.len() == 0 && !st.cmds[k2].selected {
                                    lemma_find_cmd_found(st.cmds, v, 0, k2);
                                    lemma_selected_stays(rest, select_cmd(st, k2), k);
                                }
                            },
                            None => {
                                lemma_selected_stays(
                                    rest,
                                    crate::model::push_residual(st, v),
                                    k,
                                );
                            },
                        }
                    },
                    Some(k2) => {
                        if v != st.cmds[k2].name {
                            lemma_selected_stays(rest, crate::model::push_residual(st, v), k);
                        }
                    },
                }
            },
        }
    }
}

proof fn lemma_selected_stays_flag(
    rest: Seq<Token>,
    st: RunState,
    found: Option<int>,
    name: Seq<char>,
    k: int,
)
    requires
        wf_state(st),
        0 <= k < st.cmds.len(),
        st.cmds[k].selected,
    ensures
        crate::model::run_flag(rest, st, found, name).state.cmds.len() == st.cmds.len(),
        crate::model::run_flag(rest, st, found, name).state.cmds[k].selected,
    decreases rest.len(), 3int,
{
    match found {
        None => {},
        Some(j) => {
            let s = crate::model::scope_index(st);
            let o = active_opts(st)[j];
            let st1 = with_opt(st, s, j, bump_opt(o));
            assert(st1.cmds == st.cmds);
            if st1.residual.len() > 0 {
            } else if o.flags.unique && o.passed + 1 > 1 {
            } else if o.flags.takes_value() {
                if rest.len() > 0 && rest[0] is Value {
                    let st2 = with_opt(st, s, j, add_value(bump_opt(o), token_text(rest[0])));
                    assert(st2.cmds == st.cmds);
                    assert(wf_state(st2));
                    lemma_selected_stays(rest.drop_first(), st2, k);
                } else if o.flags.takes_arg {
                } else {
                    assert(wf_state(st1));
                    lemma_selected_stays(rest, st1, k);
                }
            } else {
                assert(wf_state(st1));
                lemma_selected_stays(rest, st1, k);
            }
        },
    }
}

/// Repeating a command's name after it was selected makes validation fail
/// with `UnexpectedCommand`; the selection flag was set by the first
/// occurrence and stays set.
pub proof fn lemma_command_selected_once(v: Seq<char>, st: RunState, k: int)
    requires
        wf_state(st),
        st.active is None,
        st.residual.len() == 0,
        find_cmd(st.cmds, v) == Some(k),
        !st.cmds[k].selected,
    ensures
        run(seq![Token::Value(v), Token::Value(v)], st).err == Some(
            ErrorView::UnexpectedCommand(v),
        ),
        run(seq![Token::Value(v), Token::Value(v)], st).state.cmds[k].selected,
{
    lemma_find_cmd_found(st.cmds, v, 0, k);
    let toks = seq![Token::Value(v), Token::Value(v)];
    assert(toks.drop_first() =~= seq![Token::Value(v)]);
    assert(seq![Token::Value(v)].drop_first() =~= Seq::<Token>::empty());
    let st1 = select_cmd(st, k);
    assert(st1.cmds[k].name == v);
    assert(st1.active == Some(k));
    assert(run(toks, st) == crate::model::run_value(seq![Token::Value(v)], st, v));
    assert(crate::model::run_value(seq![Token::Value(v)], st, v) == run(
        seq![Token::Value(v)],
        st1,
    ));
    assert(run(seq![Token::Value(v)], st1) == crate::model::run_value(
        Seq::<Token>::empty(),
        st1,
        v,
    ));
    assert(crate::model::run_value(Seq::<Token>::empty(), st1, v) == (RunResult {
        state: st1,
        rest: Seq::<Token>::empty(),
        err: Some(ErrorView::UnexpectedCommand(v)),
    }));
}

/// A mandatory-value option invoked any number of times captures exactly the
/// given values, in input order, appended to whatever it already held, and
/// its count grows by the number of invocations.
pub proof fn lemma_mandatory_round_trip(t: Token, st: RunState, j: int, vs: Seq<Seq<char>>)
    requires
        wf_state(st),
        st.active is None,
        st.residual.len() == 0,
        flag_resolves(st, t, j),
        0 <= j < active_opts(st).len(),
        active_opts(st)[j].flags.takes_arg,
        !active_opts(st)[j].flags.unique,
    ensures
        run(flag_value_pairs(t, vs), st).err is None,
        run(flag_value_pairs(t, vs), st).state == with_opt(
            st,
            0,
            j,
            (OptView {
                passed: active_opts(st)[j].passed + vs.len(),
                values: active_opts(st)[j].values + vs,
                ..active_opts(st)[j]
            }),
        ),
    decreases vs.len(),
{
    let o = active_opts(st)[j];
    if vs.len() == 0 {
        assert(flag_value_pairs(t, vs) =~= Seq::<Token>::empty());
        let tgt = with_opt(
            st,
            0,
            j,
            (OptView { passed: o.passed + 0, values: o.values + vs, ..o }),
        );
        assert((OptView { passed: o.passed + 0, values: o.values + vs, ..o }) =~~= o);
        assert(tgt.scopes =~~= st.scopes);
        assert(tgt =~~= st);
        assert(run(flag_value_pairs(t, vs), st).state == tgt);
    } else {
        let toks = flag_value_pairs(t, vs);
        let tail = flag_value_pairs(t, vs.drop_first());
        assert(toks =~= seq![t, Token::Value(vs[0])] + tail);
        assert(toks[0] == t);
        assert(toks.drop_first() =~= seq![Token::Value(vs[0])] + tail);
        let rest = toks.drop_first();
        assert(rest[0] == Token::Value(vs[0]));
        assert(rest.len() > 0 && rest[0] is Value);
        assert(rest.drop_first() =~= tail);
        let o2 = add_value(bump_opt(o), vs[0]);
        let st2 = with_opt(st, 0, j, o2);
        assert(wf_state(st2));
        assert(st2.active is None);
        assert(st2.residual.len() == 0);
        assert(active_opts(st2).len() == active_opts(st).len());
        assert(forall|k: int|
            0 <= k < active_opts(st).len() && k != j ==> active_opts(st2)[k] == active_opts(
                st,
            )[k]);
        match t {
            Token::Short(c) => {
                lemma_find_short_same_names(active_opts(st), active_opts(st2), c, 0);
            },
            Token::Long(n) => {
                lemma_find_long_same_names(active_opts(st), active_opts(st2), n, 0);
            },
            Token::Value(_) => {},
        }
        assert(run(toks, st) == run(tail, st2));
        lemma_mandatory_round_trip(t, st2, j, vs.drop_first());
        let inner = active_opts(st2)[j];
        assert(inner == o2);
        let end_inner = (OptView {
            passed: inner.passed + vs.drop_first().len(),
            values: inner.values + vs.drop_first(),
            ..inner
        });
        let end_outer = (OptView { passed: o.passed + vs.len(), values: o.values + vs, ..o });
        assert(end_inner =~~= end_outer) by {
            assert(inner.values + vs.drop_first() =~= o.values + vs) by {
                assert(inner.values =~= o.values.push(vs[0]));
            }
        }
        assert(with_opt(st2, 0, j, end_inner).scopes =~~= with_opt(st, 0, j, end_outer).scopes);
        assert(with_opt(st2, 0, j, end_inner) =~~= with_opt(st, 0, j, end_outer));
    }
}

/// Whether `b` keeps the registry shape of `a`: the same scopes and commands,
/// each option under the same names, description and flags, and each command
/// under the same name. Validation only ever changes counts, captured values,
/// selection flags and leftovers, so handles stay valid and keep their
/// meaning.
pub open spec fn same_shape(a: RunState, b: RunState) -> bool {
    &&& b.scopes.len() == a.scopes.len()
    &&& b.cmds.len() == a.cmds.len()
    &&& forall|s: int|
        0 <= s < a.scopes.len() ==> (#[trigger] b.scopes[s]).descr == a.scopes[s].descr
            && b.scopes[s].opts.len() == a.scopes[s].opts.len()
    &&& forall|s: int, j: int|
        0 <= s < a.scopes.len() && 0 <= j < a.scopes[s].opts.len() ==> {
            let oa = a.scopes[s].opts[j];
            let ob = #[trigger] b.scopes[s].opts[j];
            ob.long == oa.long && ob.short == oa.short && ob.descr == oa.descr && ob.flags
                == oa.flags
        }
    &&& forall|k: int| 0 <= k < a.cmds.len() ==> (#[trigger] b.cmds[k]).name == a.cmds[k].name
}

proof fn lemma_same_shape_trans(a: RunState, b: RunState, c: RunState)
    requires
        same_shape(a, b),
        same_shape(b, c),
    ensures
        same_shape(a, c),
{
}

proof fn lemma_with_opt_same_shape(st: RunState, s: int, j: int, o: OptView)
    requires
        0 <= s < st.scopes.len(),
        0 <= j < st.scopes[s].opts.len(),
        o.long == st.scopes[s].opts[j].long,
        o.short == st.scopes[s].opts[j].short,
        o.descr == st.scopes[s].opts[j].descr,
        o.flags == st.scopes[s].opts[j].flags,
    ensures
        same_shape(st, with_opt(st, s, j, o)),
{
}

/// Validation never reshapes the registries: whatever the tokens, the run
/// keeps every scope, every option's names, description and flags, and every
/// command's name. Option and command handles therefore stay valid across
/// `validate`, and still refer to the same declarations.
pub proof fn lemma_run_keeps_shape(tokens: Seq<Token>, st: RunState)
    requires
        wf_state(st),
    ensures
        same_shape(st, run(tokens, st).state),
    decreases tokens.len(), 2int,
{
    if tokens.len() == 0 {
    } else {
        let rest = tokens.drop_first();
        match tokens[0] {
            Token::Short(c) => {
                lemma_find_short_from_range(active_opts(st), c, 0);
                lemma_run_flag_keeps_shape(rest, st, find_short(active_opts(st), c), seq![c]);
            },
            Token::Long(n) => {
                lemma_find_long_from_range(active_opts(st), n, 0);
                lemma_run_flag_keeps_shape(rest, st, find_long(active_opts(st), n), n);
            },
            Token::Value(v) => {
                match st.active {
                    None => {
                        match find_cmd(st.cmds, v) {
                            Some(k) => {
                                if st.residual.len() == 0 && !st.cmds[k].selected {
                                    lemma_find_cmd_found(st.cmds, v, 0, k);
                                    lemma_run_keeps_shape(rest, select_cmd(st, k));
                                }
                            },
                            None => {
                                lemma_run_keeps_shape(rest, crate::model::push_residual(st, v));
                            },
                        }
                    },
                    Some(k) => {
                        if v != st.cmds[k].name {
                            lemma_run_keeps_shape(rest, crate::model::push_residual(st, v));
                        }
                    },
                }
            },
        }
    }
}

proof fn lemma_run_flag_keeps_shape(
    rest: Seq<Token>,
    st: RunState,
    found: Option<int>,
    name: Seq<char>,
)
    requires
        wf_state(st),
        match found {
            Some(j) => 0 <= j < active_opts(st).len(),
            None => true,
        },
    ensures
        same_shape(st, crate::model::run_flag(rest, st, found, name).state),
    decreases rest.len(), 3int,
{
    match found {
        None => {},
        Some(j) => {
            let s = crate::model::scope_index(st);
            let o = active_opts(st)[j];
            let st1 = with_opt(st, s, j, bump_opt(o));
            lemma_with_opt_same_shape(st, s, j, bump_opt(o));
            assert(wf_state(st1));
            if st1.residual.len() > 0 {
            } else if o.flags.unique && o.passed + 1 > 1 {
            } else if o.flags.takes_value() {
                if rest.len() > 0 && rest[0] is Value {
                    let o2 = add_value(bump_opt(o), token_text(rest[0]));
                    let st2 = with_opt(st, s, j, o2);
                    lemma_with_opt_same_shape(st, s, j, o2);
                    assert(wf_state(st2));
                    lemma_run_keeps_shape(rest.drop_first(), st2);
                    lemma_same_shape_trans(st, st2, run(rest.drop_first(), st2).state);
                } else if o.flags.takes_arg {
                } else {
                    lemma_run_keeps_shape(rest, st1);
                    lemma_same_shape_trans(st, st1, run(rest, st1).state);
                }
            } else {
                lemma_run_keeps_shape(rest, st1);
                lemma_same_shape_trans(st, st1, run(rest, st1).state);
            }
        },
    }
}

/// The token list that invokes flag `t` once per value, each time followed by
/// that value.
pub open spec fn flag_value_pairs(t: Token, vs: Seq<Seq<char>>) -> Seq<Token>
    decreases vs.len(),
{
    if vs.len() == 0 {
        Seq::empty()
    } else {
        seq![t, Token::Value(vs[0])] + flag_value_pairs(t, vs.drop_first())
    }
}





} // verus!
