//! The resolution engine: one parse session over a token list.
//!
//! Resolution runs five phases in order: environment fallbacks, the
//! left-to-right option scan, assignment of postponed positional tokens,
//! the all-or-nothing batch conversion of accumulated list values, and the
//! required-variable check.  The first phase to fail stops the run.

use vstd::prelude::*;
use vstd::string::*;

use crate::action::{
    Action, ActionView, DestValue, DestView, FlagOp, FlagOpView, Outcome, ParseResult,
    spec_apply_flag, spec_convert_batch, spec_store_token, apply_flag, convert_batch, store_token,
};
use crate::parser::{ArgumentParser, EnvView, OptView, ParserView, spec_parser_wf};
use crate::tokens::{
    ArgKind, spec_classify, spec_dash_start, spec_eq_split, classify, dash_start, eq_split,
    str_eq,
};

verus! {

// ---------------------------------------------------------------------------
// Error and warning texts
// ---------------------------------------------------------------------------

/// The `["-a", "--all"]` rendering of an option's spellings.
pub open spec fn spec_names_debug_from(names: Seq<Seq<char>>, k: int) -> Seq<char>
    decreases names.len() - k,
{
    if k < 0 || k >= names.len() {
        Seq::empty()
    } else {
        let quoted = seq!['"'].add(names[k]).push('"');
        if k + 1 < names.len() {
            quoted.push(',').push(' ').add(spec_names_debug_from(names, k + 1))
        } else {
            quoted
        }
    }
}

/// The `["-a", "--all"]` rendering of an option's spellings.
pub open spec fn spec_names_debug(names: Seq<Seq<char>>) -> Seq<char> {
    seq!['['].add(spec_names_debug_from(names, 0)).push(']')
}

/// The message for a long option that is not declared.
pub open spec fn spec_msg_unknown_option(tok: Seq<char>) -> Seq<char> {
    "Unknown option "@.add(tok)
}

/// The message for a short option character that is not declared.
pub open spec fn spec_msg_unknown_short(c: char) -> Seq<char> {
    "Unknown short option \""@.push(c).push('"')
}

/// The message for a flag given an attached value.
pub open spec fn spec_msg_no_arg(name: Seq<char>) -> Seq<char> {
    "Option "@.add(name).add(" does not accept an argument"@)
}

/// The message for a value-taking option at the end of the input.
pub open spec fn spec_msg_requires_arg(names: Seq<Seq<char>>) -> Seq<char> {
    "Option "@.add(spec_names_debug(names)).add(" requires an argument"@)
}

/// The message for a token that does not convert.
pub open spec fn spec_msg_bad_value(tok: Seq<char>) -> Seq<char> {
    "Bad value "@.add(tok)
}

/// The message for a positional token with no slot left.
pub open spec fn spec_msg_unexpected(tok: Seq<char>) -> Seq<char> {
    "Unexpected argument "@.add(tok)
}

/// The message for an unset required variable bound to a positional.
pub open spec fn spec_msg_arg_required(name: Seq<char>) -> Seq<char> {
    "Argument "@.add(name).add(" is required"@)
}

/// The message for an unset required variable bound to one option.
pub open spec fn spec_msg_opt_required(names: Seq<Seq<char>>) -> Seq<char> {
    "Option "@.add(spec_names_debug(names)).add(" is required"@)
}

/// The message for an unset required variable bound to several options.
pub open spec fn spec_msg_one_of_required(names: Seq<Seq<char>>) -> Seq<char> {
    "One of the options "@.add(spec_names_debug(names)).add(" is required"@)
}

/// The message for an unset required variable bound to an environment
/// fallback.
pub open spec fn spec_msg_env_required(name: Seq<char>) -> Seq<char> {
    "Environment var "@.add(name).add(" is required"@)
}

/// The warning written when an environment value does not convert.
pub open spec fn spec_env_warning(name: Seq<char>, msg: Seq<char>) -> Seq<char> {
    "WARNING: Environment variable "@.add(name).add(": "@).add(msg).push('\n')
}

/// Render an option's spellings as `["-a", "--all"]`.
fn names_debug(names: &Vec<String>) -> (m: String)
    ensures
        m@ == spec_names_debug(names.deep_view()),
{
    let ghost dv = names.deep_view();
    let mut m = String::from_str("[");
    proof {
        reveal_strlit("[");
        assert(m@ =~= seq!['[']);
    }
    let mut k: usize = 0;
    while k < names.len()
        invariant
            dv == names.deep_view(),
            dv.len() == names@.len(),
            k <= names@.len(),
            m@ == seq!['['].add(spec_names_debug_from(dv, 0)).subrange(
                0,
                m@.len() as int,
            ),
            m@.len() <= seq!['['].add(spec_names_debug_from(dv, 0)).len(),
            seq!['['].add(spec_names_debug_from(dv, 0)) == m@.add(
                spec_names_debug_from(dv, k as int),
            ),
        decreases names@.len() - k,
    {
        let ghost m0 = m@;
        m.append("\"");
        m.append(names[k].as_str());
        m.append("\"");
        proof {
            reveal_strlit("\"");
        }
        if k + 1 < names.len() {
            m.append(", ");
            proof {
                reveal_strlit(", ");
                assert(m@ =~= m0.add(
                    seq!['"'].add(dv[k as int]).push('"').push(',').push(' '),
                ));
            }
        } else {
            proof {
                assert(m@ =~= m0.add(seq!['"'].add(dv[k as int]).push('"')));
            }
        }
        proof {
            assert(seq!['['].add(spec_names_debug_from(dv, 0)) =~= m@.add(
                spec_names_debug_from(dv, k + 1),
            ));
            assert(m@ =~= seq!['['].add(spec_names_debug_from(dv, 0)).subrange(
                0,
                m@.len() as int,
            ));
        }
        k += 1;
    }
    m.append("]");
    proof {
        reveal_strlit("]");
        assert(m@ =~= spec_names_debug(dv));
    }
    m
}

// ---------------------------------------------------------------------------
// Option lookup
// ---------------------------------------------------------------------------

/// Whether the option declares this long spelling.
pub open spec fn spec_opt_has_long(o: OptView, name: Seq<char>) -> bool {
    exists|j: int|
        0 <= j < o.names.len() && spec_classify(#[trigger] o.names[j]) == ArgKind::LongOption
            && o.names[j] == name
}

/// Whether the option declares this short option character.
pub open spec fn spec_opt_has_short(o: OptView, c: char) -> bool {
    exists|j: int|
        0 <= j < o.names.len() && spec_classify(#[trigger] o.names[j]) == ArgKind::ShortOption
            && o.names[j].len() == 2 && o.names[j][1] == c
}

/// The option a long spelling resolves to: the last declaration wins, as a
/// later declaration of the same spelling overrides an earlier one.
pub open spec fn spec_find_long(opts: Seq<OptView>, name: Seq<char>) -> Option<int>
    decreases opts.len(),
{
    if opts.len() == 0 {
        None
    } else if spec_opt_has_long(opts.last(), name) {
        Some(opts.len() - 1)
    } else {
        spec_find_long(opts.drop_last(), name)
    }
}

/// The option a short character resolves to: the last declaration wins.
pub open spec fn spec_find_short(opts: Seq<OptView>, c: char) -> Option<int>
    decreases opts.len(),
{
    if opts.len() == 0 {
        None
    } else if spec_opt_has_short(opts.last(), c) {
        Some(opts.len() - 1)
    } else {
        spec_find_short(opts.drop_last(), c)
    }
}

/// Whether the option declares this long spelling.
fn opt_has_long(o: &crate::parser::OptionDecl, name: &str) -> (r: bool)
    ensures
        r == spec_opt_has_long(o@, name@),
{
    let ghost ov = o@;
    let mut j: usize = 0;
    while j < o.names.len()
        invariant
            ov == o@,
            ov.names.len() == o.names@.len(),
            j <= o.names@.len(),
            forall|x: int|
                0 <= x < j ==> !(spec_classify(#[trigger] ov.names[x]) == ArgKind::LongOption
                    && ov.names[x] == name@),
        decreases o.names@.len() - j,
    {
        let nm: &str = o.names[j].as_str();
        assert(nm@ == ov.names[j as int]);
        if matches!(classify(nm), ArgKind::LongOption) && str_eq(nm, name) {
            assert(spec_opt_has_long(ov, name@));
            return true;
        }
        j += 1;
    }
    false
}

/// Whether the option declares this short option character.
fn opt_has_short(o: &crate::parser::OptionDecl, c: char) -> (r: bool)
    ensures
        r == spec_opt_has_short(o@, c),
{
    let ghost ov = o@;
    let mut j: usize = 0;
    while j < o.names.len()
        invariant
            ov == o@,
            ov.names.len() == o.names@.len(),
            j <= o.names@.len(),
            forall|x: int|
                0 <= x < j ==> !(spec_classify(#[trigger] ov.names[x]) == ArgKind::ShortOption
                    && ov.names[x].len() == 2 && ov.names[x][1] == c),
        decreases o.names@.len() - j,
    {
        let nm: &str = o.names[j].as_str();
        assert(nm@ == ov.names[j as int]);
        if matches!(classify(nm), ArgKind::ShortOption) && nm.unicode_len() == 2 && nm.get_char(1)
            == c {
            assert(spec_opt_has_short(ov, c));
            return true;
        }
        j += 1;
    }
    false
}

/// Look a long spelling up among the declared options.
fn find_long(parser: &ArgumentParser, name: &str) -> (r: Option<usize>)
    ensures
        spec_find_long(parser@.options, name@) == match r {
            Some(i) => Some(i as int),
            None => None::<int>,
        },
        match r {
            Some(i) => i < parser@.options.len(),
            None => true,
        },
{
    let ghost opts = parser@.options;
    let mut i: usize = parser.options.len();
    proof {
        assert(opts.subrange(0, opts.len() as int) =~= opts);
    }
    while i > 0
        invariant
            opts == parser@.options,
            opts.len() == parser.options@.len(),
            i <= parser.options@.len(),
            spec_find_long(opts, name@) == spec_find_long(opts.subrange(0, i as int), name@),
        decreases i,
    {
        i -= 1;
        let ghost pre = opts.subrange(0, i + 1);
        proof {
            assert(pre.last() == opts[i as int]);
            assert(pre.drop_last() =~= opts.subrange(0, i as int));
        }
        if opt_has_long(&parser.options[i], name) {
            return Some(i);
        }
    }
    assert(spec_find_long(opts.subrange(0, 0), name@) is None);
    None
}

/// Look a short option character up among the declared options.
fn find_short(parser: &ArgumentParser, c: char) -> (r: Option<usize>)
    ensures
        spec_find_short(parser@.options, c) == match r {
            Some(i) => Some(i as int),
            None => None::<int>,
        },
        match r {
            Some(i) => i < parser@.options.len(),
            None => true,
        },
{
    let ghost opts = parser@.options;
    let mut i: usize = parser.options.len();
    proof {
        assert(opts.subrange(0, opts.len() as int) =~= opts);
    }
    while i > 0
        invariant
            opts == parser@.options,
            opts.len() == parser.options@.len(),
            i <= parser.options@.len(),
            spec_find_short(opts, c) == spec_find_short(opts.subrange(0, i as int), c),
        decreases i,
    {
        i -= 1;
        let ghost pre = opts.subrange(0, i + 1);
        proof {
            assert(pre.last() == opts[i as int]);
            assert(pre.drop_last() =~= opts.subrange(0, i as int));
        }
        if opt_has_short(&parser.options[i], c) {
            return Some(i);
        }
    }
    assert(spec_find_short(opts.subrange(0, 0), c) is None);
    None
}

// ---------------------------------------------------------------------------
// The session model
// ---------------------------------------------------------------------------

/// The state of one resolution run: which variables are satisfied, the raw
/// values accumulated per option and for the catch-all, the postponed
/// positional tokens, the destination table, and the output written so far.
#[verifier::ext_equal]
pub ghost struct Session {
    pub set_vars: Seq<bool>,
    pub opt_accum: Seq<Seq<Seq<char>>>,
    pub catch_accum: Seq<Seq<char>>,
    pub pending: Seq<Seq<char>>,
    pub dests: Seq<DestView>,
    pub out: Seq<char>,
    pub err: Seq<char>,
}

/// The session a run starts from: nothing satisfied, nothing accumulated,
/// the destinations at their initial values, and the two output buffers as
/// the caller handed them over.
pub open spec fn spec_init_session(
    p: ParserView,
    dests0: Seq<DestView>,
    out0: Seq<char>,
    err0: Seq<char>,
) -> Session {
    Session {
        set_vars: Seq::new(p.vars.len(), |i: int| false),
        opt_accum: Seq::new(p.options.len(), |i: int| Seq::empty()),
        catch_accum: Seq::empty(),
        pending: Seq::empty(),
        dests: dests0,
        out: out0,
        err: err0,
    }
}

/// Every declaration's variable identity is in range, and every surface
/// that stores or accumulates values serves some variable.  This is the
/// part of well-formedness the resolution engine relies on; it does not
/// mention the destination table, which the engine updates as it runs.
pub open spec fn spec_ids_ok(p: ParserView) -> bool {
    &&& forall|i: int| 0 <= i < p.options.len() ==> (#[trigger] p.options[i]).names.len() >= 1
    &&& forall|i: int|
        0 <= i < p.options.len() ==> match (#[trigger] p.options[i]).varid {
            Some(v) => v < p.vars.len(),
            None => p.options[i].action matches ActionView::Flag(_),
        }
    &&& forall|i: int|
        0 <= i < p.arguments.len() ==> (#[trigger] p.arguments[i]).varid < p.vars.len()
    &&& match p.catchall {
        Some(ca) => ca.varid < p.vars.len(),
        None => true,
    }
    &&& forall|i: int|
        0 <= i < p.env_vars.len() ==> (#[trigger] p.env_vars[i]).varid < p.vars.len()
}

/// A fully well-formed registry satisfies the engine's identity
/// conditions.
pub proof fn lemma_wf_ids_ok(p: ParserView)
    requires
        spec_parser_wf(p),
    ensures
        spec_ids_ok(p),
{
    assert forall|i: int| 0 <= i < p.options.len() implies (#[trigger] p.options[i]).names.len()
        >= 1 && match p.options[i].varid {
        Some(v) => v < p.vars.len(),
        None => p.options[i].action matches ActionView::Flag(_),
    } by {
        assert(crate::parser::spec_opt_wf(p.options[i], p.vars.len() as int, p.dests));
    }
    assert forall|i: int|
        0 <= i < p.arguments.len() implies (#[trigger] p.arguments[i]).varid < p.vars.len() by {
        assert(crate::parser::spec_arg_wf(p.arguments[i], p.vars.len() as int, p.dests));
    }
    assert forall|i: int|
        0 <= i < p.env_vars.len() implies (#[trigger] p.env_vars[i]).varid < p.vars.len() by {
        assert(crate::parser::spec_env_wf(p.env_vars[i], p.vars.len() as int, p.dests));
    }
}

/// Mark a variable satisfied, when the surface serves one.
pub open spec fn spec_set_var(st: Session, varid: Option<usize>) -> Session {
    match varid {
        Some(v) => Session { set_vars: st.set_vars.update(v as int, true), ..st },
        None => st,
    }
}

// ---------------------------------------------------------------------------
// Environment phase
// ---------------------------------------------------------------------------

/// The first value bound to this name in the environment list.
pub open spec fn spec_env_lookup(env: Seq<(Seq<char>, Seq<char>)>, name: Seq<char>) -> Option<
    Seq<char>,
>
    decreases env.len(),
{
    if env.len() == 0 {
        None
    } else if env[0].0 == name {
        Some(env[0].1)
    } else {
        spec_env_lookup(env.drop_first(), name)
    }
}

/// One environment fallback: a present value is converted and applied,
/// marking the variable satisfied; a conversion failure only writes a
/// warning, so a later source may still satisfy the variable.
pub open spec fn spec_env_step(ev: EnvView, env: Seq<(Seq<char>, Seq<char>)>, st: Session) -> Session {
    match spec_env_lookup(env, ev.name) {
        None => st,
        Some(val) => match spec_store_token(st.dests[ev.varid as int], val) {
            Some(nd) => Session {
                dests: st.dests.update(ev.varid as int, nd),
                set_vars: st.set_vars.update(ev.varid as int, true),
                ..st
            },
            None => Session {
                err: st.err.add(spec_env_warning(ev.name, spec_msg_bad_value(val))),
                ..st
            },
        },
    }
}

/// The session after the first `n` environment fallbacks.
pub open spec fn spec_env_phase(
    p: ParserView,
    env: Seq<(Seq<char>, Seq<char>)>,
    st0: Session,
    n: int,
) -> Session
    decreases n,
{
    if n <= 0 {
        st0
    } else {
        spec_env_step(p.env_vars[n - 1], env, spec_env_phase(p, env, st0, n - 1))
    }
}

// ---------------------------------------------------------------------------
// Option-scan phase
// ---------------------------------------------------------------------------

/// Where a greedy list run ends: the first position at or after `j` whose
/// token starts with a dash, or the end of the input.
pub open spec fn spec_greedy_end(args: Seq<Seq<char>>, j: int) -> int
    decreases args.len() - j,
{
    if j < 0 || j >= args.len() {
        args.len() as int
    } else if spec_dash_start(args[j]) {
        j
    } else {
        spec_greedy_end(args, j + 1)
    }
}

/// Fire one flag: destination-writing operations update the bound
/// destination, the help request and `Print` short-circuit the run.
pub open spec fn spec_dispatch_flag(p: ParserView, oi: int, op: FlagOpView, st: Session) -> (
    Outcome,
    Session,
) {
    let st1 = spec_set_var(st, p.options[oi].varid);
    match op {
        FlagOpView::ShowHelp => (Outcome::Help, st1),
        FlagOpView::PrintText(t) => (
            Outcome::Exit,
            Session {
                out: if t.len() > 0 && t.last() == '\n' {
                    st1.out.add(t)
                } else {
                    st1.out.add(t).push('\n')
                },
                ..st1
            },
        ),
        _ => match p.options[oi].varid {
            Some(v) => (
                Outcome::Parsed,
                Session {
                    dests: st1.dests.update(v as int, spec_apply_flag(op, st1.dests[v as int])),
                    ..st1
                },
            ),
            None => (Outcome::Parsed, st1),
        },
    }
}

/// Resolve one value-taking option occurrence: take the attached value if
/// present, else the next token; store it for `Single`, accumulate it for
/// `Push` and `Many`; `Many` without an attached value then swallows the
/// following run of dash-free tokens.  A `Many` at the very end of the
/// input is allowed to match nothing.
pub open spec fn spec_parse_option(
    p: ParserView,
    args: Seq<Seq<char>>,
    j: int,
    oi: int,
    optarg: Option<Seq<char>>,
    st: Session,
) -> (Outcome, Session, int) {
    let o = p.options[oi];
    if optarg is None && j >= args.len() {
        if o.action == ActionView::Many {
            (Outcome::Parsed, st, j)
        } else {
            (Outcome::Error(spec_msg_requires_arg(o.names)), st, j)
        }
    } else {
        let value = match optarg {
            Some(v) => v,
            None => args[j],
        };
        let j1: int = match optarg {
            Some(v) => j,
            None => j + 1,
        };
        let st1 = spec_set_var(st, o.varid);
        match o.action {
            ActionView::Single => {
                let v = o.varid->0;
                match spec_store_token(st1.dests[v as int], value) {
                    Some(nd) => (
                        Outcome::Parsed,
                        Session { dests: st1.dests.update(v as int, nd), ..st1 },
                        j1,
                    ),
                    None => (Outcome::Error(spec_msg_bad_value(value)), st1, j1),
                }
            },
            ActionView::Push => (
                Outcome::Parsed,
                Session {
                    opt_accum: st1.opt_accum.update(oi, st1.opt_accum[oi].push(value)),
                    ..st1
                },
                j1,
            ),
            ActionView::Many => {
                let st2 = Session {
                    opt_accum: st1.opt_accum.update(oi, st1.opt_accum[oi].push(value)),
                    ..st1
                };
                match optarg {
                    Some(v) => (Outcome::Parsed, st2, j1),
                    None => {
                        let k = spec_greedy_end(args, j1);
                        (
                            Outcome::Parsed,
                            Session {
                                opt_accum: st2.opt_accum.update(
                                    oi,
                                    st2.opt_accum[oi].add(args.subrange(j1, k)),
                                ),
                                ..st2
                            },
                            k,
                        )
                    },
                }
            },
            ActionView::Flag(_) => (Outcome::Parsed, st1, j1),
        }
    }
}

/// Resolve one long-option token: split off an attached value, look the
/// name up, and either fire the flag or consume a value.
pub open spec fn spec_handle_long(
    p: ParserView,
    args: Seq<Seq<char>>,
    i: int,
    st: Session,
) -> (Outcome, Session, int) {
    let tok = args[i];
    let (name, attached) = spec_eq_split(tok);
    match spec_find_long(p.options, name) {
        None => (Outcome::Error(spec_msg_unknown_option(tok)), st, i + 1),
        Some(oi) => match p.options[oi].action {
            ActionView::Flag(op) => match attached {
                Some(v) => (Outcome::Error(spec_msg_no_arg(name)), st, i + 1),
                None => {
                    let (oc, st1) = spec_dispatch_flag(p, oi, op, st);
                    (oc, st1, i + 1)
                },
            },
            _ => spec_parse_option(p, args, i + 1, oi, attached, st),
        },
    }
}

/// Resolve the short-option characters of one token from position `ci` on:
/// flags fire and bundling continues; a value-taking option takes the rest
/// of the token as its value if any characters remain, else the next token,
/// and ends the bundle.
pub open spec fn spec_scan_shorts(
    p: ParserView,
    args: Seq<Seq<char>>,
    i: int,
    tok: Seq<char>,
    ci: int,
    st: Session,
) -> (Outcome, Session, int)
    decreases tok.len() - ci,
{
    if ci < 0 || ci >= tok.len() {
        (Outcome::Parsed, st, i + 1)
    } else {
        match spec_find_short(p.options, tok[ci]) {
            None => (Outcome::Error(spec_msg_unknown_short(tok[ci])), st, i + 1),
            Some(oi) => match p.options[oi].action {
                ActionView::Flag(op) => {
                    let (oc, st1) = spec_dispatch_flag(p, oi, op, st);
                    if oc == Outcome::Parsed {
                        spec_scan_shorts(p, args, i, tok, ci + 1, st1)
                    } else {
                        (oc, st1, i + 1)
                    }
                },
                _ => {
                    let optarg: Option<Seq<char>> = if ci + 1 < tok.len() {
                        Some(tok.subrange(ci + 1, tok.len() as int))
                    } else {
                        None
                    };
                    spec_parse_option(p, args, i + 1, oi, optarg, st)
                },
            },
        }
    }
}

/// Clamp a handler's next position into the scanned range.
pub open spec fn spec_next_i(i2: int, lo: int, hi: int) -> int {
    if i2 < lo {
        lo
    } else if i2 > hi {
        hi
    } else {
        i2
    }
}

/// The option scan from token `i` on.  Positional tokens are postponed;
/// with `stop_on_first` set, the first one ends the scan and everything
/// from it on is postponed verbatim.  A bare `--` ends the scan, itself
/// postponed only when `silence_dd` is off.
pub open spec fn spec_scan(p: ParserView, args: Seq<Seq<char>>, i: int, st: Session) -> (
    Outcome,
    Session,
)
    decreases args.len() - i,
{
    if i < 0 || i >= args.len() {
        (Outcome::Parsed, st)
    } else {
        let tok = args[i];
        match spec_classify(tok) {
            ArgKind::Positional => {
                if p.stop_on_first {
                    (
                        Outcome::Parsed,
                        Session {
                            pending: st.pending.add(args.subrange(i, args.len() as int)),
                            ..st
                        },
                    )
                } else {
                    spec_scan(p, args, i + 1, Session { pending: st.pending.push(tok), ..st })
                }
            },
            ArgKind::Delimiter => (
                Outcome::Parsed,
                Session {
                    pending: if p.silence_dd {
                        st.pending.add(args.subrange(i + 1, args.len() as int))
                    } else {
                        st.pending.push(tok).add(args.subrange(i + 1, args.len() as int))
                    },
                    ..st
                },
            ),
            ArgKind::LongOption => {
                let (oc, st1, i2) = spec_handle_long(p, args, i, st);
                if oc == Outcome::Parsed {
                    spec_scan(p, args, spec_next_i(i2, i + 1, args.len() as int), st1)
                } else {
                    (oc, st1)
                }
            },
            ArgKind::ShortOption => {
                let (oc, st1, i2) = spec_scan_shorts(p, args, i, tok, 1, st);
                if oc == Outcome::Parsed {
                    spec_scan(p, args, spec_next_i(i2, i + 1, args.len() as int), st1)
                } else {
                    (oc, st1)
                }
            },
        }
    }
}

// ---------------------------------------------------------------------------
// Positional-assignment phase
// ---------------------------------------------------------------------------

/// The next declared positional slot at or after `ai` whose variable is
/// not yet satisfied.
pub open spec fn spec_next_eligible(p: ParserView, sv: Seq<bool>, ai: int) -> int
    decreases p.arguments.len() - ai,
{
    if ai < 0 || ai >= p.arguments.len() {
        p.arguments.len() as int
    } else if !sv[p.arguments[ai].varid as int] {
        ai
    } else {
        spec_next_eligible(p, sv, ai + 1)
    }
}

/// Assign the postponed positional tokens from index `ti` on, with `ai`
/// the positional-slot cursor: each token goes to the next eligible fixed
/// slot (converted at once) or, when those are exhausted, accumulates on
/// the catch-all; a token with no slot at all is an error.
pub open spec fn spec_assign_pos(p: ParserView, st: Session, ti: int, ai: int) -> (
    Outcome,
    Session,
)
    decreases st.pending.len() - ti,
{
    if ti < 0 || ti >= st.pending.len() {
        (Outcome::Parsed, st)
    } else {
        let tok = st.pending[ti];
        let a = spec_next_eligible(p, st.set_vars, ai);
        if a < p.arguments.len() {
            let arg = p.arguments[a];
            let st1 = Session { set_vars: st.set_vars.update(arg.varid as int, true), ..st };
            match spec_store_token(st1.dests[arg.varid as int], tok) {
                Some(nd) => spec_assign_pos(
                    p,
                    Session { dests: st1.dests.update(arg.varid as int, nd), ..st1 },
                    ti + 1,
                    a + 1,
                ),
                None => (Outcome::Error(spec_msg_bad_value(tok)), st1),
            }
        } else {
            match p.catchall {
                Some(ca) => spec_assign_pos(
                    p,
                    Session {
                        catch_accum: st.catch_accum.push(tok),
                        set_vars: st.set_vars.update(ca.varid as int, true),
                        ..st
                    },
                    ti + 1,
                    a,
                ),
                None => (Outcome::Error(spec_msg_unexpected(tok)), st),
            }
        }
    }
}

// ---------------------------------------------------------------------------
// Batch-conversion phase
// ---------------------------------------------------------------------------

/// Convert one option's accumulated batch, if it accumulated anything.
pub open spec fn spec_batch_opt_step(p: ParserView, oi: int, st: Session) -> (Outcome, Session) {
    let o = p.options[oi];
    if (o.action == ActionView::Push || o.action == ActionView::Many) && st.opt_accum[oi].len()
        > 0 {
        let v = o.varid->0;
        match spec_convert_batch(st.dests[v as int], st.opt_accum[oi]) {
            Ok(nd) => (Outcome::Parsed, Session { dests: st.dests.update(v as int, nd), ..st }),
            Err(ix) => (Outcome::Error(spec_msg_bad_value(st.opt_accum[oi][ix])), st),
        }
    } else {
        (Outcome::Parsed, st)
    }
}

/// Convert the batches of the first `n` options, in declaration order,
/// stopping at the first failure.
pub open spec fn spec_batch_opts(p: ParserView, st: Session, n: int) -> (Outcome, Session)
    decreases n,
{
    if n <= 0 {
        (Outcome::Parsed, st)
    } else {
        let (oc, st1) = spec_batch_opts(p, st, n - 1);
        if oc == Outcome::Parsed {
            spec_batch_opt_step(p, n - 1, st1)
        } else {
            (oc, st1)
        }
    }
}

/// A batch failure among the first `k` options decides the whole option
/// fold: later options are not reached.
proof fn lemma_batch_opts_stops(p: ParserView, st: Session, k: int, n: int)
    requires
        0 <= k <= n,
        spec_batch_opts(p, st, k).0 != Outcome::Parsed,
    ensures
        spec_batch_opts(p, st, n) == spec_batch_opts(p, st, k),
    decreases n - k,
{
    if k < n {
        lemma_batch_opts_stops(p, st, k, n - 1);
    }
}

/// A required-check failure among the first `k` variables decides the
/// whole check.
proof fn lemma_check_required_stops(p: ParserView, st: Session, k: int, n: int)
    requires
        0 <= k <= n,
        spec_check_required(p, st, k) != Outcome::Parsed,
    ensures
        spec_check_required(p, st, n) == spec_check_required(p, st, k),
    decreases n - k,
{
    if k < n {
        lemma_check_required_stops(p, st, k, n - 1);
    }
}

/// The whole batch-conversion phase: every option's accumulated batch in
/// declaration order, then the catch-all's.
pub open spec fn spec_batch_phase(p: ParserView, st: Session) -> (Outcome, Session) {
    let (oc, st1) = spec_batch_opts(p, st, p.options.len() as int);
    if oc != Outcome::Parsed {
        (oc, st1)
    } else {
        spec_batch_catch(p, st1)
    }
}

/// Convert the catch-all's accumulated batch, if it accumulated anything.
pub open spec fn spec_batch_catch(p: ParserView, st: Session) -> (Outcome, Session) {
    match p.catchall {
        Some(ca) => {
            if st.catch_accum.len() > 0 {
                match spec_convert_batch(st.dests[ca.varid as int], st.catch_accum) {
                    Ok(nd) => (
                        Outcome::Parsed,
                        Session { dests: st.dests.update(ca.varid as int, nd), ..st },
                    ),
                    Err(ix) => (Outcome::Error(spec_msg_bad_value(st.catch_accum[ix])), st),
                }
            } else {
                (Outcome::Parsed, st)
            }
        },
        None => (Outcome::Parsed, st),
    }
}

// ---------------------------------------------------------------------------
// Required-check phase
// ---------------------------------------------------------------------------

/// The name of the first positional slot bound to this variable, the
/// catch-all included.
pub open spec fn spec_arg_surface_from(p: ParserView, v: int, k: int) -> Option<Seq<char>>
    decreases p.arguments.len() - k,
{
    if k < 0 || k >= p.arguments.len() {
        match p.catchall {
            Some(ca) => if ca.varid == v {
                Some(ca.name)
            } else {
                None
            },
            None => None,
        }
    } else if p.arguments[k].varid == v {
        Some(p.arguments[k].name)
    } else {
        spec_arg_surface_from(p, v, k + 1)
    }
}

/// All spellings of the options bound to this variable, in declaration
/// order.
pub open spec fn spec_var_opt_names_upto(p: ParserView, v: int, n: int) -> Seq<Seq<char>>
    decreases n,
{
    if n <= 0 {
        Seq::empty()
    } else {
        let rest = spec_var_opt_names_upto(p, v, n - 1);
        if p.options[n - 1].varid == Some(v as usize) {
            rest.add(p.options[n - 1].names)
        } else {
            rest
        }
    }
}

/// The name of the first environment fallback bound to this variable.
pub open spec fn spec_env_surface_from(p: ParserView, v: int, k: int) -> Option<Seq<char>>
    decreases p.env_vars.len() - k,
{
    if k < 0 || k >= p.env_vars.len() {
        None
    } else if p.env_vars[k].varid == v {
        Some(p.env_vars[k].name)
    } else {
        spec_env_surface_from(p, v, k + 1)
    }
}

/// The error reported for an unsatisfied required variable: its most
/// relevant surface, positional name first, then option spellings, then
/// the environment-variable name.  A variable with no surface at all
/// reports nothing.
pub open spec fn spec_required_msg(p: ParserView, v: int) -> Option<Seq<char>> {
    match spec_arg_surface_from(p, v, 0) {
        Some(name) => Some(spec_msg_arg_required(name)),
        None => {
            let names = spec_var_opt_names_upto(p, v, p.options.len() as int);
            if names.len() > 1 {
                Some(spec_msg_one_of_required(names))
            } else if names.len() == 1 {
                Some(spec_msg_opt_required(names))
            } else {
                match spec_env_surface_from(p, v, 0) {
                    Some(name) => Some(spec_msg_env_required(name)),
                    None => None,
                }
            }
        },
    }
}

/// The required check over the first `n` variables: the first required,
/// unsatisfied variable with a surface yields its error.
pub open spec fn spec_check_required(p: ParserView, st: Session, n: int) -> Outcome
    decreases n,
{
    if n <= 0 {
        Outcome::Parsed
    } else {
        let prev = spec_check_required(p, st, n - 1);
        if prev == Outcome::Parsed {
            let i = n - 1;
            if p.vars[i].required && !st.set_vars[i] {
                match spec_required_msg(p, i) {
                    Some(m) => Outcome::Error(m),
                    None => Outcome::Parsed,
                }
            } else {
                Outcome::Parsed
            }
        } else {
            prev
        }
    }
}

// ---------------------------------------------------------------------------
// The whole run
// ---------------------------------------------------------------------------

/// One whole resolution run over a token list: the five phases in order,
/// stopped by the first outcome that is not `Parsed`.  Token zero is the
/// command name and is never scanned.
pub open spec fn spec_session_run(
    p: ParserView,
    dests0: Seq<DestView>,
    args: Seq<Seq<char>>,
    env: Seq<(Seq<char>, Seq<char>)>,
    out0: Seq<char>,
    err0: Seq<char>,
) -> (Outcome, Session) {
    let st0 = spec_env_phase(
        p,
        env,
        spec_init_session(p, dests0, out0, err0),
        p.env_vars.len() as int,
    );
    let (oc1, st1) = spec_scan(p, args, 1, st0);
    if oc1 != Outcome::Parsed {
        (oc1, st1)
    } else {
        let (oc2, st2) = spec_assign_pos(p, st1, 0, 0);
        if oc2 != Outcome::Parsed {
            (oc2, st2)
        } else {
            let (oc3, st3) = spec_batch_phase(p, st2);
            if oc3 != Outcome::Parsed {
                (oc3, st3)
            } else {
                (spec_check_required(p, st3, p.vars.len() as int), st3)
            }
        }
    }
}

// ---------------------------------------------------------------------------
// The executable session
// ---------------------------------------------------------------------------

/// The transient state of one resolution run, created fresh per `parse`
/// call and discarded at its end.
pub struct Context {
    pub set_vars: Vec<bool>,
    pub opt_accum: Vec<Vec<String>>,
    pub catch_accum: Vec<String>,
    pub pending: Vec<String>,
}

/// The session a context stands for, together with the destination table
/// and the two output buffers.
pub open spec fn spec_sess(c: Context, dests: Vec<DestValue>, out: Seq<char>, err: Seq<char>) -> Session {
    Session {
        set_vars: c.set_vars@,
        opt_accum: c.opt_accum.deep_view(),
        catch_accum: c.catch_accum.deep_view(),
        pending: c.pending.deep_view(),
        dests: dests.deep_view(),
        out,
        err,
    }
}

/// The context sizes the phases rely on.
pub open spec fn spec_ctx_sized(c: Context, p: ParserView) -> bool {
    &&& c.set_vars@.len() == p.vars.len()
    &&& c.opt_accum@.len() == p.options.len()
}

/// The environment handed to a parse, as name-value pairs of character
/// sequences.
pub open spec fn spec_env_pairs(env: Vec<(String, String)>) -> Seq<(Seq<char>, Seq<char>)> {
    Seq::new(env@.len(), |i: int| (env@[i].0@, env@[i].1@))
}

/// Look a name up in the environment pairs; the first binding wins.
fn env_lookup(env: &Vec<(String, String)>, name: &str) -> (r: Option<String>)
    ensures
        match r {
            Some(v) => spec_env_lookup(spec_env_pairs(*env), name@) == Some(v@),
            None => spec_env_lookup(spec_env_pairs(*env), name@) is None,
        },
{
    let ghost ev = spec_env_pairs(*env);
    let mut k: usize = 0;
    proof {
        assert(ev.skip(0) =~= ev);
    }
    while k < env.len()
        invariant
            ev == spec_env_pairs(*env),
            ev.len() == env@.len(),
            k <= env@.len(),
            spec_env_lookup(ev, name@) == spec_env_lookup(ev.skip(k as int), name@),
        decreases env@.len() - k,
    {
        let ghost rest = ev.skip(k as int);
        proof {
            assert(rest[0] == ev[k as int]);
            assert(rest.drop_first() =~= ev.skip(k + 1));
        }
        if str_eq(env[k].0.as_str(), name) {
            return Some(env[k].1.clone());
        }
        k += 1;
    }
    proof {
        assert(ev.skip(ev.len() as int).len() == 0);
    }
    None
}

impl Context {
    /// Fire one flag option: mark its variable satisfied and apply its
    /// operation.
    fn dispatch_flag(
        &mut self,
        parser: &ArgumentParser,
        oi: usize,
        op: &FlagOp,
        dests: &mut Vec<DestValue>,
        stdout: &mut String,
        stderr: &String,
    ) -> (r: ParseResult)
        requires
            spec_ids_ok(parser@),
            oi < parser@.options.len(),
            parser@.options[oi as int].action == ActionView::Flag(op@),
            spec_ctx_sized(*old(self), parser@),
            old(dests)@.len() == parser@.vars.len(),
        ensures
            spec_ctx_sized(*final(self), parser@),
            final(dests)@.len() == parser@.vars.len(),
            ({
                let (oc, st) = spec_dispatch_flag(
                    parser@,
                    oi as int,
                    op@,
                    spec_sess(*old(self), *old(dests), (*old(stdout))@, stderr@),
                );
                r@ == oc && spec_sess(*final(self), *final(dests), (*final(stdout))@, stderr@)
                    == st
            }),
    {
        let ghost st0 = spec_sess(*old(self), *old(dests), (*old(stdout))@, stderr@);
        match &parser.options[oi].varid {
            Some(v) => {
                self.set_vars[*v] = true;
            },
            None => {},
        }
        let ghost st1 = spec_set_var(st0, parser@.options[oi as int].varid);
        proof {
            assert(spec_sess(*self, *dests, stdout@, stderr@) =~= st1);
        }
        match op {
            FlagOp::ShowHelp => ParseResult::Help,
            FlagOp::PrintText(t) => {
                stdout.append(t.as_str());
                let n = t.unicode_len();
                if n == 0 || t.get_char(n - 1) != '\n' {
                    stdout.append("\n");
                    proof {
                        reveal_strlit("\n");
                        assert(stdout@ =~= st1.out.add(t@).push('\n'));
                    }
                }
                proof {
                    assert(spec_sess(*self, *dests, stdout@, stderr@) =~= Session {
                        out: stdout@,
                        ..st1
                    });
                }
                ParseResult::Exit
            },
            _ => {
                match &parser.options[oi].varid {
                    Some(v) => {
                        apply_flag(op, &mut dests[*v]);
                        proof {
                            assert(dests.deep_view() =~= st1.dests.update(
                                *v as int,
                                spec_apply_flag(op@, st1.dests[*v as int]),
                            ));
                            assert(spec_sess(*self, *dests, stdout@, stderr@) =~= Session {
                                dests: st1.dests.update(
                                    *v as int,
                                    spec_apply_flag(op@, st1.dests[*v as int]),
                                ),
                                ..st1
                            });
                        }
                    },
                    None => {},
                }
                ParseResult::Parsed
            },
        }
    }

    /// Resolve one value-taking option occurrence, as the scan met it at
    /// token position `j - 1`: `j` is the first position not yet consumed.
    fn parse_option(
        &mut self,
        parser: &ArgumentParser,
        args: &Vec<String>,
        j: usize,
        oi: usize,
        optarg: Option<String>,
        dests: &mut Vec<DestValue>,
        stdout: &String,
        stderr: &String,
    ) -> (res: (ParseResult, usize))
        requires
            spec_ids_ok(parser@),
            oi < parser@.options.len(),
            !(parser@.options[oi as int].action matches ActionView::Flag(_)),
            spec_ctx_sized(*old(self), parser@),
            old(dests)@.len() == parser@.vars.len(),
            j <= args@.len(),
        ensures
            spec_ctx_sized(*final(self), parser@),
            final(dests)@.len() == parser@.vars.len(),
            j <= res.1 <= args@.len(),
            ({
                let (oc, st, j2) = spec_parse_option(
                    parser@,
                    args.deep_view(),
                    j as int,
                    oi as int,
                    match optarg {
                        Some(s) => Some(s@),
                        None => None,
                    },
                    spec_sess(*old(self), *old(dests), stdout@, stderr@),
                );
                res.0@ == oc && res.1 as int == j2 && spec_sess(
                    *final(self),
                    *final(dests),
                    stdout@,
                    stderr@,
                ) == st
            }),
    {
        let ghost av = args.deep_view();
        let ghost st0 = spec_sess(*old(self), *old(dests), stdout@, stderr@);
        let ghost ov = parser@.options[oi as int];
        let had_attached = optarg.is_some();
        let (value, j1): (String, usize) = match optarg {
            Some(v) => (v, j),
            None => {
                if j >= args.len() {
                    let many = matches!(&parser.options[oi].action, Action::Many);
                    if many {
                        return (ParseResult::Parsed, j);
                    } else {
                        let m = names_debug(&parser.options[oi].names);
                        let mut full = String::from_str("Option ");
                        full.append(m.as_str());
                        full.append(" requires an argument");
                        proof {
                            assert(full@ =~= spec_msg_requires_arg(ov.names));
                        }
                        return (ParseResult::Error(full), j);
                    }
                } else {
                    (args[j].clone(), j + 1)
                }
            },
        };
        proof {
            assert(value@ == match (match optarg {
                Some(s) => Some(s@),
                None => None::<Seq<char>>,
            }) {
                Some(v) => v,
                None => av[j as int],
            });
        }
        match &parser.options[oi].varid {
            Some(v) => {
                self.set_vars[*v] = true;
            },
            None => {},
        }
        let ghost st1 = spec_set_var(st0, ov.varid);
        proof {
            assert(spec_sess(*self, *dests, stdout@, stderr@) =~= st1);
        }
        match &parser.options[oi].action {
            Action::Single => {
                let v: usize = match &parser.options[oi].varid {
                    Some(v) => *v,
                    None => 0,
                };
                assert(ov.varid == Some(v));
                let ok = store_token(&mut dests[v], value.as_str());
                if ok {
                    proof {
                        assert(spec_sess(*self, *dests, stdout@, stderr@) =~= Session {
                            dests: st1.dests.update(
                                v as int,
                                spec_store_token(st1.dests[v as int], value@)->0,
                            ),
                            ..st1
                        });
                    }
                    (ParseResult::Parsed, j1)
                } else {
                    let mut m = String::from_str("Bad value ");
                    m.append(value.as_str());
                    proof {
                        assert(m@ =~= spec_msg_bad_value(value@));
                        assert(spec_sess(*self, *dests, stdout@, stderr@) =~= st1);
                    }
                    (ParseResult::Error(m), j1)
                }
            },
            Action::Push => {
                self.opt_accum[oi].push(value);
                proof {
                    assert(self.opt_accum.deep_view() =~~= st1.opt_accum.update(
                        oi as int,
                        st1.opt_accum[oi as int].push(value@),
                    ));
                    assert(spec_sess(*self, *dests, stdout@, stderr@) =~= Session {
                        opt_accum: st1.opt_accum.update(
                            oi as int,
                            st1.opt_accum[oi as int].push(value@),
                        ),
                        ..st1
                    });
                }
                (ParseResult::Parsed, j1)
            },
            Action::Many => {
                let ghost val_v = value@;
                self.opt_accum[oi].push(value);
                let ghost st2 = Session {
                    opt_accum: st1.opt_accum.update(
                        oi as int,
                        st1.opt_accum[oi as int].push(val_v),
                    ),
                    ..st1
                };
                proof {
                    assert(self.opt_accum.deep_view() =~~= st2.opt_accum);
                    assert(spec_sess(*self, *dests, stdout@, stderr@) =~= st2);
                }
                if had_attached {
                    (ParseResult::Parsed, j1)
                } else {
                    {
                        let ghost acc2 = st2.opt_accum[oi as int];
                        let mut k: usize = j1;
                        while k < args.len() && !dash_start(args[k].as_str())
                            invariant
                                av == args.deep_view(),
                                av.len() == args@.len(),
                                j1 <= k <= args@.len(),
                                oi < self.opt_accum@.len(),
                                spec_greedy_end(av, j1 as int) == spec_greedy_end(av, k as int),
                                self.opt_accum.deep_view() =~~= st2.opt_accum.update(
                                    oi as int,
                                    acc2.add(av.subrange(j1 as int, k as int)),
                                ),
                                self.set_vars@ == st2.set_vars,
                                self.catch_accum.deep_view() == st2.catch_accum,
                                self.pending.deep_view() == st2.pending,
                                dests.deep_view() == st2.dests,
                                self.opt_accum@.len() == st2.opt_accum.len(),
                            decreases args@.len() - k,
                        {
                            let ghost acck = acc2.add(av.subrange(j1 as int, k as int));
                            let ghost prev_accum = self.opt_accum.deep_view();
                            self.opt_accum[oi].push(args[k].clone());
                            proof {
                                assert(prev_accum[oi as int] == acck);
                                assert(self.opt_accum.deep_view() =~~= prev_accum.update(
                                    oi as int,
                                    acck.push(av[k as int]),
                                ));
                                assert(acck.push(av[k as int]) =~= acc2.add(
                                    av.subrange(j1 as int, k + 1),
                                ));
                                assert(prev_accum.update(
                                    oi as int,
                                    acck.push(av[k as int]),
                                ) =~~= st2.opt_accum.update(
                                    oi as int,
                                    acc2.add(av.subrange(j1 as int, k + 1)),
                                ));
                            }
                            k += 1;
                        }
                        proof {
                            assert(spec_greedy_end(av, k as int) == k);
                            assert(spec_sess(*self, *dests, stdout@, stderr@) =~= Session {
                                opt_accum: st2.opt_accum.update(
                                    oi as int,
                                    acc2.add(av.subrange(j1 as int, k as int)),
                                ),
                                ..st2
                            });
                        }
                        (ParseResult::Parsed, k)
                    }
                }
            },
            Action::Flag(_) => (ParseResult::Parsed, j1),
        }
    }

    /// Resolve one long-option token.
    fn parse_long_option(
        &mut self,
        parser: &ArgumentParser,
        args: &Vec<String>,
        i: usize,
        dests: &mut Vec<DestValue>,
        stdout: &mut String,
        stderr: &String,
    ) -> (res: (ParseResult, usize))
        requires
            spec_ids_ok(parser@),
            spec_ctx_sized(*old(self), parser@),
            old(dests)@.len() == parser@.vars.len(),
            i < args@.len(),
        ensures
            spec_ctx_sized(*final(self), parser@),
            final(dests)@.len() == parser@.vars.len(),
            i < res.1 <= args@.len(),
            ({
                let (oc, st, i2) = spec_handle_long(
                    parser@,
                    args.deep_view(),
                    i as int,
                    spec_sess(*old(self), *old(dests), (*old(stdout))@, stderr@),
                );
                res.0@ == oc && res.1 as int == i2 && spec_sess(
                    *final(self),
                    *final(dests),
                    (*final(stdout))@,
                    stderr@,
                ) == st
            }),
    {
        let ghost av = args.deep_view();
        let total = args.len();
        proof {
            assert(i < total);
        }
        let tok: &String = &args[i];
        proof {
            assert(tok@ == av[i as int]);
        }
        let (name, attached) = eq_split(tok.as_str());
        match find_long(parser, name.as_str()) {
            None => {
                let mut m = String::from_str("Unknown option ");
                m.append(tok.as_str());
                proof {
                    assert(m@ =~= spec_msg_unknown_option(av[i as int]));
                }
                (ParseResult::Error(m), i + 1)
            },
            Some(oi) => {
                let is_flag = matches!(&parser.options[oi].action, Action::Flag(_));
                if is_flag {
                    match attached {
                        Some(_) => {
                            let mut m = String::from_str("Option ");
                            m.append(name.as_str());
                            m.append(" does not accept an argument");
                            proof {
                                assert(m@ =~= spec_msg_no_arg(name@));
                            }
                            (ParseResult::Error(m), i + 1)
                        },
                        None => {
                            let r = match &parser.options[oi].action {
                                Action::Flag(op) => self.dispatch_flag(
                                    parser,
                                    oi,
                                    op,
                                    dests,
                                    stdout,
                                    stderr,
                                ),
                                _ => ParseResult::Parsed,
                            };
                            (r, i + 1)
                        },
                    }
                } else {
                    self.parse_option(parser, args, i + 1, oi, attached, dests, stdout, stderr)
                }
            },
        }
    }

    /// Resolve one short-option token: its characters in order, bundling
    /// flags, until a value-taking option ends the bundle.
    fn parse_short_options(
        &mut self,
        parser: &ArgumentParser,
        args: &Vec<String>,
        i: usize,
        dests: &mut Vec<DestValue>,
        stdout: &mut String,
        stderr: &String,
    ) -> (res: (ParseResult, usize))
        requires
            spec_ids_ok(parser@),
            spec_ctx_sized(*old(self), parser@),
            old(dests)@.len() == parser@.vars.len(),
            i < args@.len(),
        ensures
            spec_ctx_sized(*final(self), parser@),
            final(dests)@.len() == parser@.vars.len(),
            i < res.1 <= args@.len(),
            ({
                let (oc, st, i2) = spec_scan_shorts(
                    parser@,
                    args.deep_view(),
                    i as int,
                    args.deep_view()[i as int],
                    1,
                    spec_sess(*old(self), *old(dests), (*old(stdout))@, stderr@),
                );
                res.0@ == oc && res.1 as int == i2 && spec_sess(
                    *final(self),
                    *final(dests),
                    (*final(stdout))@,
                    stderr@,
                ) == st
            }),
    {
        let ghost av = args.deep_view();
        let ghost st0 = spec_sess(*old(self), *old(dests), (*old(stdout))@, stderr@);
        let tok: &String = &args[i];
        proof {
            assert(tok@ == av[i as int]);
        }
        let n = tok.as_str().unicode_len();
        let total = args.len();
        let mut ci: usize = 1;
        loop
            invariant
                av == args.deep_view(),
                av.len() == args@.len(),
                args@.len() == total,
                i < args@.len(),
                tok@ == av[i as int],
                n == tok@.len(),
                1 <= ci,
                spec_ids_ok(parser@),
                spec_ctx_sized(*self, parser@),
                dests@.len() == parser@.vars.len(),
                spec_scan_shorts(parser@, av, i as int, av[i as int], 1, st0)
                    == spec_scan_shorts(
                    parser@,
                    av,
                    i as int,
                    av[i as int],
                    ci as int,
                    spec_sess(*self, *dests, stdout@, stderr@),
                ),
                spec_sess(*old(self), *old(dests), (*old(stdout))@, stderr@) == st0,
            decreases n - ci,
        {
            if ci >= n {
                return (ParseResult::Parsed, i + 1);
            }
            let c = tok.as_str().get_char(ci);
            match find_short(parser, c) {
                None => {
                    let mut m = String::from_str("Unknown short option \"");
                    m.append(tok.as_str().substring_char(ci, ci + 1));
                    m.append("\"");
                    proof {
                        reveal_strlit("\"");
                        assert(m@ =~= spec_msg_unknown_short(av[i as int][ci as int]));
                    }
                    return (ParseResult::Error(m), i + 1);
                },
                Some(oi) => {
                    let is_flag = matches!(&parser.options[oi].action, Action::Flag(_));
                    if is_flag {
                        let r = match &parser.options[oi].action {
                            Action::Flag(op) => self.dispatch_flag(
                                parser,
                                oi,
                                op,
                                dests,
                                stdout,
                                stderr,
                            ),
                            _ => ParseResult::Parsed,
                        };
                        match r {
                            ParseResult::Parsed => {
                                ci += 1;
                            },
                            _ => {
                                return (r, i + 1);
                            },
                        }
                    } else {
                        let optarg: Option<String> = if ci + 1 < n {
                            Some(tok.as_str().substring_char(ci + 1, n).to_owned())
                        } else {
                            None
                        };
                        let res = self.parse_option(
                            parser,
                            args,
                            i + 1,
                            oi,
                            optarg,
                            dests,
                            stdout,
                            stderr,
                        );
                        return res;
                    }
                },
            }
        }
    }

    /// Postpone one positional token.
    fn postpone_argument(&mut self, arg: &String)
        ensures
            final(self).pending@ == old(self).pending@.push(*arg),
            final(self).pending.deep_view() =~= old(self).pending.deep_view().push(arg@),
            final(self).set_vars == old(self).set_vars,
            final(self).opt_accum == old(self).opt_accum,
            final(self).catch_accum == old(self).catch_accum,
    {
        self.pending.push(arg.clone());
    }

    /// Postpone every token from position `from` on, verbatim.
    fn postpone_rest(&mut self, args: &Vec<String>, from: usize)
        requires
            from <= args@.len(),
        ensures
            final(self).pending.deep_view() =~= old(self).pending.deep_view().add(
                args.deep_view().subrange(from as int, args.deep_view().len() as int),
            ),
            final(self).set_vars == old(self).set_vars,
            final(self).opt_accum == old(self).opt_accum,
            final(self).catch_accum == old(self).catch_accum,
    {
        let ghost av = args.deep_view();
        let mut k: usize = from;
        while k < args.len()
            invariant
                av == args.deep_view(),
                av.len() == args@.len(),
                from <= k <= args@.len(),
                self.pending.deep_view() =~= old(self).pending.deep_view().add(
                    av.subrange(from as int, k as int),
                ),
                self.set_vars == old(self).set_vars,
                self.opt_accum == old(self).opt_accum,
                self.catch_accum == old(self).catch_accum,
            decreases args@.len() - k,
        {
            let ghost prev = self.pending.deep_view();
            self.pending.push(args[k].clone());
            proof {
                assert(self.pending.deep_view() =~= prev.push(av[k as int]));
                assert(prev.push(av[k as int]) =~= old(self).pending.deep_view().add(
                    av.subrange(from as int, k + 1),
                ));
            }
            k += 1;
        }
        proof {
            assert(av.subrange(from as int, av.len() as int) =~= av.subrange(
                from as int,
                args@.len() as int,
            ));
        }
    }

    /// The option scan: consume the tokens after the command name from
    /// left to right, dispatching options and postponing positionals.
    fn parse_options(
        &mut self,
        parser: &ArgumentParser,
        args: &Vec<String>,
        dests: &mut Vec<DestValue>,
        stdout: &mut String,
        stderr: &String,
    ) -> (r: ParseResult)
        requires
            spec_ids_ok(parser@),
            spec_ctx_sized(*old(self), parser@),
            old(dests)@.len() == parser@.vars.len(),
        ensures
            spec_ctx_sized(*final(self), parser@),
            final(dests)@.len() == parser@.vars.len(),
            ({
                let (oc, st) = spec_scan(
                    parser@,
                    args.deep_view(),
                    1,
                    spec_sess(*old(self), *old(dests), (*old(stdout))@, stderr@),
                );
                r@ == oc && spec_sess(*final(self), *final(dests), (*final(stdout))@, stderr@)
                    == st
            }),
    {
        let ghost av = args.deep_view();
        let ghost st0 = spec_sess(*old(self), *old(dests), (*old(stdout))@, stderr@);
        let total = args.len();
        let mut i: usize = 1;
        loop
            invariant
                av == args.deep_view(),
                av.len() == args@.len(),
                args@.len() == total,
                1 <= i,
                spec_ids_ok(parser@),
                spec_ctx_sized(*self, parser@),
                dests@.len() == parser@.vars.len(),
                spec_scan(parser@, av, 1, st0) == spec_scan(
                    parser@,
                    av,
                    i as int,
                    spec_sess(*self, *dests, stdout@, stderr@),
                ),
                st0 == spec_sess(*old(self), *old(dests), (*old(stdout))@, stderr@),
            decreases args@.len() - i,
        {
            if i >= total {
                return ParseResult::Parsed;
            }
            let ghost cur = spec_sess(*self, *dests, stdout@, stderr@);
            let kind = classify(args[i].as_str());
            match kind {
                ArgKind::Positional => {
                    if parser.stop_on_first {
                        self.postpone_rest(args, i);
                        proof {
                            assert(spec_sess(*self, *dests, stdout@, stderr@) =~= Session {
                                pending: cur.pending.add(av.subrange(i as int, av.len() as int)),
                                ..cur
                            });
                        }
                        return ParseResult::Parsed;
                    } else {
                        self.postpone_argument(&args[i]);
                        proof {
                            assert(spec_sess(*self, *dests, stdout@, stderr@) =~= Session {
                                pending: cur.pending.push(av[i as int]),
                                ..cur
                            });
                        }
                        i += 1;
                    }
                },
                ArgKind::Delimiter => {
                    if !parser.silence_dd {
                        self.postpone_argument(&args[i]);
                    }
                    self.postpone_rest(args, i + 1);
                    proof {
                        if parser@.silence_dd {
                            assert(spec_sess(*self, *dests, stdout@, stderr@) =~= Session {
                                pending: cur.pending.add(
                                    av.subrange(i + 1, av.len() as int),
                                ),
                                ..cur
                            });
                        } else {
                            assert(spec_sess(*self, *dests, stdout@, stderr@) =~= Session {
                                pending: cur.pending.push(av[i as int]).add(
                                    av.subrange(i + 1, av.len() as int),
                                ),
                                ..cur
                            });
                        }
                    }
                    return ParseResult::Parsed;
                },
                ArgKind::LongOption => {
                    let (r, i2) = self.parse_long_option(parser, args, i, dests, stdout, stderr);
                    match r {
                        ParseResult::Parsed => {
                            proof {
                                let (oc, st, si2) = spec_handle_long(parser@, av, i as int, cur);
                                assert(spec_next_i(si2, i + 1, av.len() as int) == i2 as int);
                            }
                            i = i2;
                        },
                        _ => {
                            return r;
                        },
                    }
                },
                ArgKind::ShortOption => {
                    let (r, i2) = self.parse_short_options(
                        parser,
                        args,
                        i,
                        dests,
                        stdout,
                        stderr,
                    );
                    match r {
                        ParseResult::Parsed => {
                            proof {
                                let (oc, st, si2) = spec_scan_shorts(
                                    parser@,
                                    av,
                                    i as int,
                                    av[i as int],
                                    1,
                                    cur,
                                );
                                assert(spec_next_i(si2, i + 1, av.len() as int) == i2 as int);
                            }
                            i = i2;
                        },
                        _ => {
                            return r;
                        },
                    }
                },
            }
        }
    }

    /// The environment phase: each declared fallback in order, before any
    /// token is consumed.
    fn parse_env_vars(
        &mut self,
        parser: &ArgumentParser,
        env: &Vec<(String, String)>,
        dests: &mut Vec<DestValue>,
        stdout: &String,
        stderr: &mut String,
    ) -> (r: ParseResult)
        requires
            spec_ids_ok(parser@),
            spec_ctx_sized(*old(self), parser@),
            old(dests)@.len() == parser@.vars.len(),
        ensures
            spec_ctx_sized(*final(self), parser@),
            final(dests)@.len() == parser@.vars.len(),
            r@ == Outcome::Parsed,
            spec_sess(*final(self), *final(dests), stdout@, (*final(stderr))@)
                == spec_env_phase(
                parser@,
                spec_env_pairs(*env),
                spec_sess(*old(self), *old(dests), stdout@, (*old(stderr))@),
                parser@.env_vars.len() as int,
            ),
    {
        let ghost ev = spec_env_pairs(*env);
        let ghost st0 = spec_sess(*old(self), *old(dests), stdout@, (*old(stderr))@);
        let mut k: usize = 0;
        while k < parser.env_vars.len()
            invariant
                spec_ids_ok(parser@),
                spec_ctx_sized(*self, parser@),
                dests@.len() == parser@.vars.len(),
                k <= parser@.env_vars.len(),
                parser@.env_vars.len() == parser.env_vars@.len(),
                ev == spec_env_pairs(*env),
                st0 == spec_sess(*old(self), *old(dests), stdout@, (*old(stderr))@),
                spec_sess(*self, *dests, stdout@, stderr@) == spec_env_phase(
                    parser@,
                    ev,
                    st0,
                    k as int,
                ),
            decreases parser@.env_vars.len() - k,
        {
            let ghost cur = spec_sess(*self, *dests, stdout@, stderr@);
            let varid = parser.env_vars[k].varid;
            proof {
                assert(parser@.env_vars[k as int].varid == varid);
            }
            match env_lookup(env, parser.env_vars[k].name.as_str()) {
                None => {},
                Some(val) => {
                    let ok = store_token(&mut dests[varid], val.as_str());
                    if ok {
                        self.set_vars[varid] = true;
                        proof {
                            assert(spec_sess(*self, *dests, stdout@, stderr@) =~= spec_env_step(
                                parser@.env_vars[k as int],
                                ev,
                                cur,
                            ));
                        }
                    } else {
                        stderr.append("WARNING: Environment variable ");
                        stderr.append(parser.env_vars[k].name.as_str());
                        stderr.append(": ");
                        stderr.append("Bad value ");
                        stderr.append(val.as_str());
                        stderr.append("\n");
                        proof {
                            reveal_strlit("\n");
                            assert(stderr@ =~= cur.err.add(
                                spec_env_warning(
                                    parser@.env_vars[k as int].name,
                                    spec_msg_bad_value(val@),
                                ),
                            ));
                            assert(spec_sess(*self, *dests, stdout@, stderr@) =~= spec_env_step(
                                parser@.env_vars[k as int],
                                ev,
                                cur,
                            ));
                        }
                    }
                },
            }
            k += 1;
        }
        ParseResult::Parsed
    }

    /// The positional-assignment phase: walk the postponed tokens against
    /// the ordered positional slots, skipping slots whose variable some
    /// earlier source already satisfied.
    fn parse_arguments(
        &mut self,
        parser: &ArgumentParser,
        dests: &mut Vec<DestValue>,
        stdout: &String,
        stderr: &String,
    ) -> (r: ParseResult)
        requires
            spec_ids_ok(parser@),
            spec_ctx_sized(*old(self), parser@),
            old(dests)@.len() == parser@.vars.len(),
        ensures
            spec_ctx_sized(*final(self), parser@),
            final(dests)@.len() == parser@.vars.len(),
            ({
                let (oc, st) = spec_assign_pos(
                    parser@,
                    spec_sess(*old(self), *old(dests), stdout@, stderr@),
                    0,
                    0,
                );
                r@ == oc && spec_sess(*final(self), *final(dests), stdout@, stderr@) == st
            }),
    {
        let ghost st0 = spec_sess(*old(self), *old(dests), stdout@, stderr@);
        let nargs = parser.arguments.len();
        let mut ti: usize = 0;
        let mut ai: usize = 0;
        loop
            invariant
                spec_ids_ok(parser@),
                spec_ctx_sized(*self, parser@),
                dests@.len() == parser@.vars.len(),
                parser@.arguments.len() == nargs,
                ti <= self.pending@.len(),
                ai <= nargs,
                st0 == spec_sess(*old(self), *old(dests), stdout@, stderr@),
                spec_assign_pos(parser@, st0, 0, 0) == spec_assign_pos(
                    parser@,
                    spec_sess(*self, *dests, stdout@, stderr@),
                    ti as int,
                    ai as int,
                ),
            decreases self.pending@.len() - ti,
        {
            if ti >= self.pending.len() {
                return ParseResult::Parsed;
            }
            let ghost cur = spec_sess(*self, *dests, stdout@, stderr@);
            let ghost sv = self.set_vars@;
            let ghost ai0 = ai as int;
            // advance to the next slot whose variable is still unsatisfied
            while ai < nargs && self.set_vars[parser.arguments[ai].varid]
                invariant
                    spec_ids_ok(parser@),
                    parser@.arguments.len() == nargs,
                    nargs == parser.arguments@.len(),
                    ai0 <= ai as int <= nargs,
                    sv == self.set_vars@,
                    sv.len() == parser@.vars.len(),
                    spec_next_eligible(parser@, sv, ai0) == spec_next_eligible(
                        parser@,
                        sv,
                        ai as int,
                    ),
                decreases nargs - ai,
            {
                ai += 1;
            }
            proof {
                assert(spec_next_eligible(parser@, sv, ai0) == ai as int);
            }
            if ai < nargs {
                let varid = parser.arguments[ai].varid;
                self.set_vars[varid] = true;
                let ghost st1 = Session { set_vars: cur.set_vars.update(varid as int, true), ..cur };
                proof {
                    assert(spec_sess(*self, *dests, stdout@, stderr@) =~= st1);
                }
                let tok = self.pending[ti].clone();
                let ok = store_token(&mut dests[varid], tok.as_str());
                if ok {
                    proof {
                        assert(spec_sess(*self, *dests, stdout@, stderr@) =~= Session {
                            dests: st1.dests.update(
                                varid as int,
                                spec_store_token(st1.dests[varid as int], tok@)->0,
                            ),
                            ..st1
                        });
                    }
                    ti += 1;
                    ai += 1;
                } else {
                    let mut m = String::from_str("Bad value ");
                    m.append(tok.as_str());
                    proof {
                        assert(m@ =~= spec_msg_bad_value(tok@));
                        assert(spec_sess(*self, *dests, stdout@, stderr@) =~= st1);
                    }
                    return ParseResult::Error(m);
                }
            } else {
                match &parser.catchall {
                    Some(ca) => {
                        let cvarid = ca.varid;
                        self.set_vars[cvarid] = true;
                        let tok = self.pending[ti].clone();
                        self.catch_accum.push(tok);
                        proof {
                            assert(spec_sess(*self, *dests, stdout@, stderr@) =~= Session {
                                catch_accum: cur.catch_accum.push(
                                    cur.pending[ti as int],
                                ),
                                set_vars: cur.set_vars.update(cvarid as int, true),
                                ..cur
                            });
                        }
                        ti += 1;
                    },
                    None => {
                        let tok = self.pending[ti].clone();
                        let mut m = String::from_str("Unexpected argument ");
                        m.append(tok.as_str());
                        proof {
                            assert(m@ =~= spec_msg_unexpected(cur.pending[ti as int]));
                        }
                        return ParseResult::Error(m);
                    },
                }
            }
        }
    }

    /// The batch-conversion phase: every option that accumulated raw
    /// values converts them all or nothing, then the catch-all does.
    fn parse_list_vars(
        &mut self,
        parser: &ArgumentParser,
        dests: &mut Vec<DestValue>,
        stdout: &String,
        stderr: &String,
    ) -> (r: ParseResult)
        requires
            spec_ids_ok(parser@),
            spec_ctx_sized(*old(self), parser@),
            old(dests)@.len() == parser@.vars.len(),
        ensures
            spec_ctx_sized(*final(self), parser@),
            final(dests)@.len() == parser@.vars.len(),
            ({
                let (oc, st) = spec_batch_phase(
                    parser@,
                    spec_sess(*old(self), *old(dests), stdout@, stderr@),
                );
                r@ == oc && spec_sess(*final(self), *final(dests), stdout@, stderr@) == st
            }),
    {
        let ghost st0 = spec_sess(*old(self), *old(dests), stdout@, stderr@);
        let nopts = parser.options.len();
        let mut oi: usize = 0;
        while oi < nopts
            invariant
                spec_ids_ok(parser@),
                spec_ctx_sized(*self, parser@),
                dests@.len() == parser@.vars.len(),
                parser@.options.len() == nopts,
                oi <= nopts,
                st0 == spec_sess(*old(self), *old(dests), stdout@, stderr@),
                spec_batch_opts(parser@, st0, oi as int) == (
                    Outcome::Parsed,
                    spec_sess(*self, *dests, stdout@, stderr@),
                ),
            decreases nopts - oi,
        {
            let ghost cur = spec_sess(*self, *dests, stdout@, stderr@);
            let is_list = matches!(&parser.options[oi].action, Action::Push | Action::Many);
            if is_list && self.opt_accum[oi].len() > 0 {
                let v: usize = match &parser.options[oi].varid {
                    Some(v) => *v,
                    None => 0,
                };
                proof {
                    assert(parser@.options[oi as int].varid == Some(v));
                }
                match convert_batch(&mut dests[v], &self.opt_accum[oi]) {
                    None => {
                        proof {
                            assert(spec_sess(*self, *dests, stdout@, stderr@) =~= Session {
                                dests: cur.dests.update(
                                    v as int,
                                    spec_convert_batch(
                                        cur.dests[v as int],
                                        cur.opt_accum[oi as int],
                                    )->Ok_0,
                                ),
                                ..cur
                            });
                        }
                    },
                    Some(ix) => {
                        let mut m = String::from_str("Bad value ");
                        m.append(self.opt_accum[oi][ix].as_str());
                        proof {
                            assert(m@ =~= spec_msg_bad_value(cur.opt_accum[oi as int][ix as int]));
                            assert(spec_sess(*self, *dests, stdout@, stderr@) =~= cur);
                            assert(spec_batch_opts(parser@, st0, oi + 1).0 != Outcome::Parsed);
                            lemma_batch_opts_stops(parser@, st0, oi + 1, nopts as int);
                        }
                        return ParseResult::Error(m);
                    },
                }
            }
            oi += 1;
        }
        let ghost cur = spec_sess(*self, *dests, stdout@, stderr@);
        match &parser.catchall {
            Some(ca) => {
                if self.catch_accum.len() > 0 {
                    let cvarid = ca.varid;
                    match convert_batch(&mut dests[cvarid], &self.catch_accum) {
                        None => {
                            proof {
                                assert(spec_sess(*self, *dests, stdout@, stderr@) =~= Session {
                                    dests: cur.dests.update(
                                        cvarid as int,
                                        spec_convert_batch(
                                            cur.dests[cvarid as int],
                                            cur.catch_accum,
                                        )->Ok_0,
                                    ),
                                    ..cur
                                });
                            }
                            ParseResult::Parsed
                        },
                        Some(ix) => {
                            let mut m = String::from_str("Bad value ");
                            m.append(self.catch_accum[ix].as_str());
                            proof {
                                assert(m@ =~= spec_msg_bad_value(cur.catch_accum[ix as int]));
                                assert(spec_sess(*self, *dests, stdout@, stderr@) =~= cur);
                            }
                            ParseResult::Error(m)
                        },
                    }
                } else {
                    ParseResult::Parsed
                }
            },
            None => ParseResult::Parsed,
        }
    }

    /// The required check: the first required variable no source
    /// satisfied yields an error naming its most relevant surface.
    fn check_required(
        &self,
        parser: &ArgumentParser,
        dests: &Vec<DestValue>,
        stdout: &String,
        stderr: &String,
    ) -> (r: ParseResult)
        requires
            spec_ids_ok(parser@),
            spec_ctx_sized(*self, parser@),
        ensures
            r@ == spec_check_required(
                parser@,
                spec_sess(*self, *dests, stdout@, stderr@),
                parser@.vars.len() as int,
            ),
    {
        let ghost pv = parser@;
        let ghost sess = spec_sess(*self, *dests, stdout@, stderr@);
        let nvars = parser.vars.len();
        let mut v: usize = 0;
        while v < nvars
            invariant
                spec_ids_ok(pv),
                pv == parser@,
                sess == spec_sess(*self, *dests, stdout@, stderr@),
                spec_ctx_sized(*self, pv),
                pv.vars.len() == nvars,
                nvars == parser.vars@.len(),
                v <= nvars,
                spec_check_required(pv, sess, v as int) == Outcome::Parsed,
            decreases nvars - v,
        {
            if parser.vars[v].required && !self.set_vars[v] {
                // positional-name surface first
                let nargs = parser.arguments.len();
                let mut k: usize = 0;
                while k < nargs
                    invariant
                        pv == parser@,
                        pv.arguments.len() == nargs,
                        nargs == parser.arguments@.len(),
                        k <= nargs,
                        v < nvars,
                        nvars == parser.vars@.len(),
                        spec_arg_surface_from(pv, v as int, 0) == spec_arg_surface_from(
                            pv,
                            v as int,
                            k as int,
                        ),
                        sess == spec_sess(*self, *dests, stdout@, stderr@),
                        pv.vars.len() == nvars,
                        spec_check_required(pv, sess, v as int) == Outcome::Parsed,
                        pv.vars[v as int].required,
                        !sess.set_vars[v as int],
                    decreases nargs - k,
                {
                    if parser.arguments[k].varid == v {
                        let mut m = String::from_str("Argument ");
                        m.append(parser.arguments[k].name.as_str());
                        m.append(" is required");
                        proof {
                            assert(m@ =~= spec_msg_arg_required(pv.arguments[k as int].name));
                            assert(spec_check_required(pv, sess, v + 1) == Outcome::Error(m@));
                            lemma_check_required_stops(pv, sess, v + 1, nvars as int);
                        }
                        return ParseResult::Error(m);
                    }
                    k += 1;
                }
                let mut ca_name: Option<String> = None;
                match &parser.catchall {
                    Some(ca) => {
                        if ca.varid == v {
                            ca_name = Some(ca.name.clone());
                        }
                    },
                    None => {},
                }
                match ca_name {
                    Some(name) => {
                        let mut m = String::from_str("Argument ");
                        m.append(name.as_str());
                        m.append(" is required");
                        proof {
                            assert(m@ =~= spec_msg_arg_required(pv.catchall->0.name));
                            assert(spec_check_required(pv, sess, v + 1) == Outcome::Error(m@));
                            lemma_check_required_stops(pv, sess, v + 1, nvars as int);
                        }
                        return ParseResult::Error(m);
                    },
                    None => {},
                }
                // then option spellings
                let nopts = parser.options.len();
                let mut all_names: Vec<String> = Vec::new();
                let mut oi: usize = 0;
                while oi < nopts
                    invariant
                        pv == parser@,
                        pv.options.len() == nopts,
                        nopts == parser.options@.len(),
                        oi <= nopts,
                        v < nvars,
                        all_names.deep_view() =~~= spec_var_opt_names_upto(
                            pv,
                            v as int,
                            oi as int,
                        ),
                    decreases nopts - oi,
                {
                    let is_mine = match &parser.options[oi].varid {
                        Some(ov) => *ov == v,
                        None => false,
                    };
                    if is_mine {
                        let ghost before = all_names.deep_view();
                        let nnames = parser.options[oi].names.len();
                        let mut j: usize = 0;
                        while j < nnames
                            invariant
                                pv == parser@,
                                oi < pv.options.len(),
                                pv.options.len() == parser.options@.len(),
                                pv.options[oi as int].names.len() == nnames,
                                nnames == parser.options@[oi as int].names@.len(),
                                j <= nnames,
                                all_names.deep_view() =~~= before.add(
                                    pv.options[oi as int].names.subrange(0, j as int),
                                ),
                            decreases nnames - j,
                        {
                            let ghost sofar = all_names.deep_view();
                            all_names.push(parser.options[oi].names[j].clone());
                            proof {
                                assert(all_names.deep_view() =~~= sofar.push(
                                    pv.options[oi as int].names[j as int],
                                ));
                                assert(sofar.push(pv.options[oi as int].names[j as int])
                                    =~~= before.add(
                                    pv.options[oi as int].names.subrange(0, j + 1),
                                ));
                            }
                            j += 1;
                        }
                        proof {
                            assert(pv.options[oi as int].names.subrange(
                                0,
                                pv.options[oi as int].names.len() as int,
                            ) =~= pv.options[oi as int].names);
                            assert(all_names.deep_view() =~~= spec_var_opt_names_upto(
                                pv,
                                v as int,
                                oi + 1,
                            ));
                        }
                    }
                    oi += 1;
                }
                if all_names.len() > 1 {
                    let nd = names_debug(&all_names);
                    let mut m = String::from_str("One of the options ");
                    m.append(nd.as_str());
                    m.append(" is required");
                    proof {
                        assert(m@ =~= spec_msg_one_of_required(
                            spec_var_opt_names_upto(pv, v as int, pv.options.len() as int),
                        ));
                            assert(spec_check_required(pv, sess, v + 1) == Outcome::Error(m@));
                            lemma_check_required_stops(pv, sess, v + 1, nvars as int);
                    }
                    return ParseResult::Error(m);
                } else if all_names.len() == 1 {
                    let nd = names_debug(&all_names);
                    let mut m = String::from_str("Option ");
                    m.append(nd.as_str());
                    m.append(" is required");
                    proof {
                        assert(m@ =~= spec_msg_opt_required(
                            spec_var_opt_names_upto(pv, v as int, pv.options.len() as int),
                        ));
                            assert(spec_check_required(pv, sess, v + 1) == Outcome::Error(m@));
                            lemma_check_required_stops(pv, sess, v + 1, nvars as int);
                    }
                    return ParseResult::Error(m);
                }
                // then the environment-variable name
                let nenv = parser.env_vars.len();
                let mut e: usize = 0;
                while e < nenv
                    invariant
                        pv == parser@,
                        pv.env_vars.len() == nenv,
                        nenv == parser.env_vars@.len(),
                        e <= nenv,
                        v < nvars,
                        spec_env_surface_from(pv, v as int, 0) == spec_env_surface_from(
                            pv,
                            v as int,
                            e as int,
                        ),
                        sess == spec_sess(*self, *dests, stdout@, stderr@),
                        pv.vars.len() == nvars,
                        spec_check_required(pv, sess, v as int) == Outcome::Parsed,
                        pv.vars[v as int].required,
                        !sess.set_vars[v as int],
                        spec_arg_surface_from(pv, v as int, 0) is None,
                        spec_var_opt_names_upto(pv, v as int, pv.options.len() as int).len()
                            == 0,
                    decreases nenv - e,
                {
                    if parser.env_vars[e].varid == v {
                        let mut m = String::from_str("Environment var ");
                        m.append(parser.env_vars[e].name.as_str());
                        m.append(" is required");
                        proof {
                            assert(m@ =~= spec_msg_env_required(pv.env_vars[e as int].name));
                            assert(spec_check_required(pv, sess, v + 1) == Outcome::Error(m@));
                            lemma_check_required_stops(pv, sess, v + 1, nvars as int);
                        }
                        return ParseResult::Error(m);
                    }
                    e += 1;
                }
                proof {
                    assert(spec_required_msg(pv, v as int) is None);
                }
            }
            v += 1;
        }
        ParseResult::Parsed
    }

    /// One whole resolution run: the five phases in order, stopping at
    /// the first outcome that is not `Parsed`.
    pub fn parse(
        parser: &ArgumentParser,
        args: &Vec<String>,
        env: &Vec<(String, String)>,
        dests: &mut Vec<DestValue>,
        stdout: &mut String,
        stderr: &mut String,
    ) -> (r: ParseResult)
        requires
            spec_ids_ok(parser@),
            old(dests)@.len() == parser@.vars.len(),
        ensures
            final(dests)@.len() == parser@.vars.len(),
            ({
                let (oc, st) = spec_session_run(
                    parser@,
                    old(dests).deep_view(),
                    args.deep_view(),
                    spec_env_pairs(*env),
                    (*old(stdout))@,
                    (*old(stderr))@,
                );
                r@ == oc && final(dests).deep_view() == st.dests && (*final(stdout))@ == st.out
                    && (*final(stderr))@ == st.err
            }),
    {
        let nvars = parser.vars.len();
        let nopts = parser.options.len();
        let mut set_vars: Vec<bool> = Vec::new();
        let mut k: usize = 0;
        while k < nvars
            invariant
                k <= nvars,
                set_vars@ =~= Seq::new(k as nat, |i: int| false),
            decreases nvars - k,
        {
            set_vars.push(false);
            proof {
                assert(set_vars@ =~= Seq::new((k + 1) as nat, |i: int| false));
            }
            k += 1;
        }
        let mut opt_accum: Vec<Vec<String>> = Vec::new();
        let mut k2: usize = 0;
        while k2 < nopts
            invariant
                k2 <= nopts,
                opt_accum.deep_view() =~~= Seq::new(k2 as nat, |i: int| Seq::<Seq<char>>::empty()),
            decreases nopts - k2,
        {
            let ghost before = opt_accum.deep_view();
            opt_accum.push(Vec::new());
            proof {
                assert(opt_accum.deep_view() =~~= before.push(Seq::<Seq<char>>::empty()));
                assert(before.push(Seq::<Seq<char>>::empty()) =~~= Seq::new(
                    (k2 + 1) as nat,
                    |i: int| Seq::<Seq<char>>::empty(),
                ));
            }
            k2 += 1;
        }
        let mut ctx = Context { set_vars, opt_accum, catch_accum: Vec::new(), pending: Vec::new() };
        proof {
            assert(spec_sess(ctx, *dests, stdout@, stderr@) =~= spec_init_session(
                parser@,
                old(dests).deep_view(),
                (*old(stdout))@,
                (*old(stderr))@,
            ));
        }
        let r1 = ctx.parse_env_vars(parser, env, dests, &*stdout, stderr);
        let r2 = ctx.parse_options(parser, args, dests, stdout, &*stderr);
        match r2 {
            ParseResult::Parsed => {},
            _ => {
                return r2;
            },
        }
        let r3 = ctx.parse_arguments(parser, dests, &*stdout, &*stderr);
        match r3 {
            ParseResult::Parsed => {},
            _ => {
                return r3;
            },
        }
        let r4 = ctx.parse_list_vars(parser, dests, &*stdout, &*stderr);
        match r4 {
            ParseResult::Parsed => {},
            _ => {
                return r4;
            },
        }
        ctx.check_required(parser, dests, &*stdout, &*stderr)
    }
}

impl ArgumentParser {
    /// Resolve one token list against the declarations.  Token zero is the
    /// command name.  On success the destinations hold their resolved
    /// values; a help request renders the help text to `stdout` and yields
    /// exit code 0, as does an explicit early exit; any parse error renders
    /// the usage synopsis and the message to `stderr` and yields exit
    /// code 2.
    pub fn parse(
        &mut self,
        args: &Vec<String>,
        env: &Vec<(String, String)>,
        stdout: &mut String,
        stderr: &mut String,
    ) -> (r: Result<(), i32>)
        requires
            old(self).wf(),
        ensures
            ({
                let name = if args@.len() > 0 {
                    args.deep_view()[0]
                } else {
                    "unknown"@
                };
                let (oc, st) = spec_session_run(
                    old(self)@,
                    old(self)@.dests,
                    args.deep_view(),
                    spec_env_pairs(*env),
                    (*old(stdout))@,
                    (*old(stderr))@,
                );
                let fv = (ParserView { dests: st.dests, ..old(self)@ });
                final(self)@ == fv && match oc {
                    Outcome::Parsed => r == Ok::<(), i32>(()) && (*final(stdout))@ == st.out && (
                    *final(stderr))@ == st.err,
                    Outcome::Exit => r == Err::<(), i32>(0) && (*final(stdout))@ == st.out && (
                    *final(stderr))@ == st.err,
                    Outcome::Help => r == Err::<(), i32>(0) && (*final(stdout))@ == st.out.add(
                        crate::usage::spec_help_text(fv, name),
                    ) && (*final(stderr))@ == st.err,
                    Outcome::Error(m) => r == Err::<(), i32>(2) && (*final(stdout))@ == st.out && (
                    *final(stderr))@ == st.err.add(crate::usage::spec_usage_text(fv, name)).add(
                        name,
                    ).add(": "@).add(m).push('\n'),
                }
            }),
    {
        let ghost pv0 = self@;
        let name: String = if args.len() > 0 {
            args[0].clone()
        } else {
            String::from_str("unknown")
        };
        let mut dests: Vec<DestValue> = Vec::new();
        core::mem::swap(&mut self.dests, &mut dests);
        proof {
            lemma_wf_ids_ok(pv0);
            assert(self@ =~= ParserView { dests: Seq::empty(), ..pv0 });
            assert(spec_ids_ok(self@));
            assert(dests.deep_view() == pv0.dests);
        }
        let res = Context::parse(&*self, args, env, &mut dests, stdout, stderr);
        core::mem::swap(&mut self.dests, &mut dests);
        proof {
            let (oc, st) = spec_session_run(
                pv0,
                pv0.dests,
                args.deep_view(),
                spec_env_pairs(*env),
                (*old(stdout))@,
                (*old(stderr))@,
            );
            assert(spec_session_run(
                ParserView { dests: Seq::empty(), ..pv0 },
                pv0.dests,
                args.deep_view(),
                spec_env_pairs(*env),
                (*old(stdout))@,
                (*old(stderr))@,
            ) == spec_session_run(
                pv0,
                pv0.dests,
                args.deep_view(),
                spec_env_pairs(*env),
                (*old(stdout))@,
                (*old(stderr))@,
            )) by {
                lemma_session_run_ignores_dests_field(
                    pv0,
                    args.deep_view(),
                    spec_env_pairs(*env),
                    (*old(stdout))@,
                    (*old(stderr))@,
                );
            }
            assert(self@ =~= ParserView { dests: st.dests, ..pv0 });
        }
        match res {
            ParseResult::Parsed => Ok(()),
            ParseResult::Help => {
                let h = self.print_help(name.as_str());
                stdout.append(h.as_str());
                Err(0)
            },
            ParseResult::Exit => Err(0),
            ParseResult::Error(message) => {
                let u = self.print_usage(name.as_str());
                stderr.append(u.as_str());
                stderr.append(name.as_str());
                stderr.append(": ");
                stderr.append(message.as_str());
                stderr.append("\n");
                proof {
                    reveal_strlit("\n");
                }
                Err(2)
            },
        }
    }
}

/// Two registry views that agree on everything but the `dests` field.
pub open spec fn spec_same_decls(p1: ParserView, p2: ParserView) -> bool {
    &&& p1.description == p2.description
    &&& p1.vars == p2.vars
    &&& p1.options == p2.options
    &&& p1.arguments == p2.arguments
    &&& p1.catchall == p2.catchall
    &&& p1.env_vars == p2.env_vars
    &&& p1.stop_on_first == p2.stop_on_first
    &&& p1.silence_dd == p2.silence_dd
}

/// The environment phase reads only the declarations.
proof fn lemma_env_phase_same(
    p1: ParserView,
    p2: ParserView,
    env: Seq<(Seq<char>, Seq<char>)>,
    st0: Session,
    n: int,
)
    requires
        spec_same_decls(p1, p2),
    ensures
        spec_env_phase(p1, env, st0, n) == spec_env_phase(p2, env, st0, n),
    decreases n,
{
    if n > 0 {
        lemma_env_phase_same(p1, p2, env, st0, n - 1);
    }
}

/// The short-option bundle reads only the declarations.
proof fn lemma_scan_shorts_same(
    p1: ParserView,
    p2: ParserView,
    args: Seq<Seq<char>>,
    i: int,
    tok: Seq<char>,
    ci: int,
    st: Session,
)
    requires
        spec_same_decls(p1, p2),
    ensures
        spec_scan_shorts(p1, args, i, tok, ci, st) == spec_scan_shorts(p2, args, i, tok, ci, st),
    decreases tok.len() - ci,
{
    if 0 <= ci < tok.len() {
        match spec_find_short(p1.options, tok[ci]) {
            None => {},
            Some(oi) => {
                match p1.options[oi].action {
                    ActionView::Flag(op) => {
                        let (oc, st1) = spec_dispatch_flag(p1, oi, op, st);
                        if oc == Outcome::Parsed {
                            lemma_scan_shorts_same(p1, p2, args, i, tok, ci + 1, st1);
                        }
                    },
                    _ => {},
                }
            },
        }
    }
}

/// The option scan reads only the declarations.
proof fn lemma_scan_same(
    p1: ParserView,
    p2: ParserView,
    args: Seq<Seq<char>>,
    i: int,
    st: Session,
)
    requires
        spec_same_decls(p1, p2),
    ensures
        spec_scan(p1, args, i, st) == spec_scan(p2, args, i, st),
    decreases args.len() - i,
{
    if 0 <= i < args.len() {
        let tok = args[i];
        match spec_classify(tok) {
            ArgKind::Positional => {
                if !p1.stop_on_first {
                    lemma_scan_same(p1, p2, args, i + 1, Session { pending: st.pending.push(tok), ..st });
                }
            },
            ArgKind::Delimiter => {},
            ArgKind::LongOption => {
                let (oc, st1, i2) = spec_handle_long(p1, args, i, st);
                assert(spec_handle_long(p2, args, i, st) == (oc, st1, i2));
                if oc == Outcome::Parsed {
                    lemma_scan_same(p1, p2, args, spec_next_i(i2, i + 1, args.len() as int), st1);
                }
            },
            ArgKind::ShortOption => {
                lemma_scan_shorts_same(p1, p2, args, i, tok, 1, st);
                let (oc, st1, i2) = spec_scan_shorts(p1, args, i, tok, 1, st);
                if oc == Outcome::Parsed {
                    lemma_scan_same(p1, p2, args, spec_next_i(i2, i + 1, args.len() as int), st1);
                }
            },
        }
    }
}

/// The positional cursor reads only the declarations.
proof fn lemma_next_eligible_same(p1: ParserView, p2: ParserView, sv: Seq<bool>, ai: int)
    requires
        spec_same_decls(p1, p2),
    ensures
        spec_next_eligible(p1, sv, ai) == spec_next_eligible(p2, sv, ai),
    decreases p1.arguments.len() - ai,
{
    if 0 <= ai < p1.arguments.len() {
        if sv[p1.arguments[ai].varid as int] {
            lemma_next_eligible_same(p1, p2, sv, ai + 1);
        }
    }
}

/// The positional phase reads only the declarations.
proof fn lemma_assign_pos_same(p1: ParserView, p2: ParserView, st: Session, ti: int, ai: int)
    requires
        spec_same_decls(p1, p2),
    ensures
        spec_assign_pos(p1, st, ti, ai) == spec_assign_pos(p2, st, ti, ai),
    decreases st.pending.len() - ti,
{
    if 0 <= ti < st.pending.len() {
        let tok = st.pending[ti];
        lemma_next_eligible_same(p1, p2, st.set_vars, ai);
        let a = spec_next_eligible(p1, st.set_vars, ai);
        if a < p1.arguments.len() {
            let arg = p1.arguments[a];
            let st1 = Session { set_vars: st.set_vars.update(arg.varid as int, true), ..st };
            match spec_store_token(st1.dests[arg.varid as int], tok) {
                Some(nd) => {
                    lemma_assign_pos_same(
                        p1,
                        p2,
                        Session { dests: st1.dests.update(arg.varid as int, nd), ..st1 },
                        ti + 1,
                        a + 1,
                    );
                },
                None => {},
            }
        } else {
            match p1.catchall {
                Some(ca) => {
                    lemma_assign_pos_same(
                        p1,
                        p2,
                        Session {
                            catch_accum: st.catch_accum.push(tok),
                            set_vars: st.set_vars.update(ca.varid as int, true),
                            ..st
                        },
                        ti + 1,
                        a,
                    );
                },
                None => {},
            }
        }
    }
}

/// The batch fold reads only the declarations.
proof fn lemma_batch_opts_same(p1: ParserView, p2: ParserView, st: Session, n: int)
    requires
        spec_same_decls(p1, p2),
    ensures
        spec_batch_opts(p1, st, n) == spec_batch_opts(p2, st, n),
    decreases n,
{
    if n > 0 {
        lemma_batch_opts_same(p1, p2, st, n - 1);
    }
}

/// The positional surface search reads only the declarations.
proof fn lemma_arg_surface_same(p1: ParserView, p2: ParserView, v: int, k: int)
    requires
        spec_same_decls(p1, p2),
    ensures
        spec_arg_surface_from(p1, v, k) == spec_arg_surface_from(p2, v, k),
    decreases p1.arguments.len() - k,
{
    if 0 <= k < p1.arguments.len() {
        lemma_arg_surface_same(p1, p2, v, k + 1);
    }
}

/// The option-spelling collection reads only the declarations.
proof fn lemma_var_opt_names_same(p1: ParserView, p2: ParserView, v: int, n: int)
    requires
        spec_same_decls(p1, p2),
    ensures
        spec_var_opt_names_upto(p1, v, n) == spec_var_opt_names_upto(p2, v, n),
    decreases n,
{
    if n > 0 {
        lemma_var_opt_names_same(p1, p2, v, n - 1);
    }
}

/// The environment surface search reads only the declarations.
proof fn lemma_env_surface_same(p1: ParserView, p2: ParserView, v: int, k: int)
    requires
        spec_same_decls(p1, p2),
    ensures
        spec_env_surface_from(p1, v, k) == spec_env_surface_from(p2, v, k),
    decreases p1.env_vars.len() - k,
{
    if 0 <= k < p1.env_vars.len() {
        lemma_env_surface_same(p1, p2, v, k + 1);
    }
}

/// The required check reads only the declarations.
proof fn lemma_check_required_same(p1: ParserView, p2: ParserView, st: Session, n: int)
    requires
        spec_same_decls(p1, p2),
    ensures
        spec_check_required(p1, st, n) == spec_check_required(p2, st, n),
    decreases n,
{
    if n > 0 {
        lemma_check_required_same(p1, p2, st, n - 1);
        let i = n - 1;
        lemma_arg_surface_same(p1, p2, i, 0);
        lemma_var_opt_names_same(p1, p2, i, p1.options.len() as int);
        lemma_env_surface_same(p1, p2, i, 0);
    }
}

/// The run of a session depends on the declarations and the session's own
/// destination table, never on the registry's `dests` field.
proof fn lemma_session_run_ignores_dests_field(
    p: ParserView,
    args: Seq<Seq<char>>,
    env: Seq<(Seq<char>, Seq<char>)>,
    out0: Seq<char>,
    err0: Seq<char>,
)
    ensures
        spec_session_run(ParserView { dests: Seq::empty(), ..p }, p.dests, args, env, out0, err0)
            == spec_session_run(p, p.dests, args, env, out0, err0),
{
    let p2 = ParserView { dests: Seq::empty(), ..p };
    assert(spec_init_session(p2, p.dests, out0, err0) =~= spec_init_session(
        p,
        p.dests,
        out0,
        err0,
    ));
    lemma_env_phase_same(p2, p, env, spec_init_session(p, p.dests, out0, err0), p.env_vars.len() as int);
    let st0 = spec_env_phase(p, env, spec_init_session(p, p.dests, out0, err0), p.env_vars.len() as int);
    lemma_scan_same(p2, p, args, 1, st0);
    let (oc1, st1) = spec_scan(p, args, 1, st0);
    if oc1 == Outcome::Parsed {
        lemma_assign_pos_same(p2, p, st1, 0, 0);
        let (oc2, st2) = spec_assign_pos(p, st1, 0, 0);
        if oc2 == Outcome::Parsed {
            lemma_batch_opts_same(p2, p, st2, p.options.len() as int);
            let (oc3, st3) = spec_batch_phase(p, st2);
            if oc3 == Outcome::Parsed {
                lemma_check_required_same(p2, p, st3, p.vars.len() as int);
            }
        }
    }
}

} // verus!