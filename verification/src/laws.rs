//! Properties of the resolution engine, stated and proved once over the
//! specification model.

use vstd::prelude::*;

use crate::action::{ActionView, DestView, FlagOpView, Outcome, spec_apply_flag, spec_ints_of};
use crate::convert::spec_parse_int;
use crate::engine::{
    Session, spec_check_required, spec_find_short, spec_required_msg, spec_scan,
    spec_scan_shorts,
};
use crate::parser::ParserView;
use crate::tokens::{ArgKind, spec_classify};

verus! {

/// Accumulated list values keep their occurrence order: a batch that
/// converts yields exactly the parsed value of each token, in token order.
pub proof fn lemma_batch_keeps_order(toks: Seq<Seq<char>>, vs: Seq<i64>)
    requires
        spec_ints_of(toks) == Ok::<Seq<i64>, int>(vs),
    ensures
        vs.len() == toks.len(),
        forall|i: int|
            0 <= i < toks.len() ==> spec_parse_int(#[trigger] toks[i]) == Some(vs[i] as int),
    decreases toks.len(),
{
    if toks.len() > 0 {
        match spec_ints_of(toks.drop_last()) {
            Ok(prev) => {
                lemma_batch_keeps_order(toks.drop_last(), prev);
                assert(forall|i: int|
                    0 <= i < toks.len() - 1 ==> #[trigger] toks[i] == toks.drop_last()[i]);
            },
            Err(_) => {},
        }
    }
}

/// A failing token anywhere in a batch fails the whole batch at its first
/// failing token: every earlier token converts, and the reported index is
/// the first that does not.
pub proof fn lemma_batch_all_or_nothing(toks: Seq<Seq<char>>, i: int)
    requires
        spec_ints_of(toks) == Err::<Seq<i64>, int>(i),
    ensures
        0 <= i < toks.len(),
        spec_parse_int(toks[i]) is None,
        forall|j: int| 0 <= j < i ==> spec_parse_int(#[trigger] toks[j]) is Some,
    decreases toks.len(),
{
    if toks.len() > 0 {
        match spec_ints_of(toks.drop_last()) {
            Ok(prev) => {
                lemma_batch_keeps_order(toks.drop_last(), prev);
                assert(forall|j: int|
                    0 <= j < toks.len() - 1 ==> #[trigger] toks[j] == toks.drop_last()[j]);
            },
            Err(e) => {
                lemma_batch_all_or_nothing(toks.drop_last(), e);
                assert(forall|j: int|
                    0 <= j < toks.len() - 1 ==> #[trigger] toks[j] == toks.drop_last()[j]);
            },
        }
    }
}

/// With `stop_on_first_argument` set, the scanner postpones the first
/// token it classifies as positional and every later token verbatim,
/// whatever those later tokens look like.
pub proof fn lemma_stop_on_first(p: ParserView, args: Seq<Seq<char>>, i: int, st: Session)
    requires
        p.stop_on_first,
        0 <= i < args.len(),
        spec_classify(args[i]) == ArgKind::Positional,
    ensures
        spec_scan(p, args, i, st) == (
            Outcome::Parsed,
            Session { pending: st.pending.add(args.subrange(i, args.len() as int)), ..st },
        ),
{
}

/// Whether every character of the token from position `ci` on resolves to
/// a flag option that stores a boolean constant into variable `v`.
pub open spec fn spec_all_bool_flags(p: ParserView, tok: Seq<char>, ci: int, v: int) -> bool {
    forall|j: int|
        ci <= j < tok.len() ==> match spec_find_short(p.options, #[trigger] tok[j]) {
            Some(oi) => p.options[oi].varid == Some(v as usize) && (p.options[oi].action matches
            ActionView::Flag(FlagOpView::StoreBool(_))),
            None => false,
        }
}

/// The boolean constant the flag option behind a short character stores.
pub open spec fn spec_bool_const_of(p: ParserView, c: char) -> bool {
    match spec_find_short(p.options, c) {
        Some(oi) => match p.options[oi].action {
            ActionView::Flag(FlagOpView::StoreBool(b)) => b,
            _ => false,
        },
        None => false,
    }
}

/// The last flag to fire wins: scanning a bundle of short flags that all
/// store boolean constants into one boolean variable leaves that variable
/// holding the constant of the bundle's last character, so `-fffft`
/// reduces to the effect of its last character alone.
pub proof fn lemma_bundle_last_flag_wins(
    p: ParserView,
    args: Seq<Seq<char>>,
    i: int,
    tok: Seq<char>,
    ci: int,
    st: Session,
    v: int,
)
    requires
        1 <= ci <= tok.len(),
        0 <= v < st.dests.len(),
        v <= usize::MAX,
        st.dests[v] is Bool,
        spec_all_bool_flags(p, tok, ci, v),
    ensures
        ({
            let (oc, st1, i2) = spec_scan_shorts(p, args, i, tok, ci, st);
            &&& oc == Outcome::Parsed
            &&& st1.dests.len() == st.dests.len()
            &&& st1.dests[v] == (if ci < tok.len() {
                DestView::Bool(spec_bool_const_of(p, tok.last()))
            } else {
                st.dests[v]
            })
            &&& st1.dests[v] is Bool
            &&& forall|w: int| 0 <= w < st.dests.len() && w != v ==> st1.dests[w] == st.dests[w]
            &&& i2 == i + 1
        }),
    decreases tok.len() - ci,
{
    if ci < tok.len() {
        let oi = spec_find_short(p.options, tok[ci])->0;
        let op = match p.options[oi].action {
            ActionView::Flag(op) => op,
            _ => FlagOpView::ShowHelp,
        };
        let b = spec_bool_const_of(p, tok[ci]);
        let st0 = Session { set_vars: st.set_vars.update(v, true), ..st };
        let st1 = Session { dests: st0.dests.update(v, DestView::Bool(b)), ..st0 };
        assert(spec_apply_flag(op, st0.dests[v]) == DestView::Bool(b));
        let (ocd, std) = crate::engine::spec_dispatch_flag(p, oi, op, st);
        assert(ocd == Outcome::Parsed);
        assert(std =~= st1);
        lemma_bundle_last_flag_wins(p, args, i, tok, ci + 1, st1, v);
        assert(spec_scan_shorts(p, args, i, tok, ci, st) == spec_scan_shorts(
            p,
            args,
            i,
            tok,
            ci + 1,
            st1,
        ));
        if ci + 1 == tok.len() {
            assert(tok[ci] == tok.last());
        }
    }
}

/// Whether every token from position `i` on is a bundle of short flags
/// that store boolean constants into variable `v`.
pub open spec fn spec_all_bool_flag_tokens(
    p: ParserView,
    args: Seq<Seq<char>>,
    i: int,
    v: int,
) -> bool {
    forall|k: int|
        i <= k < args.len() ==> spec_classify(#[trigger] args[k]) == ArgKind::ShortOption
            && spec_all_bool_flags(p, args[k], 1, v)
}

/// The last flag to fire wins, across tokens too: scanning any run of
/// short-flag bundles over one boolean variable leaves it holding the
/// constant stored by the very last character of the very last token, so
/// `-fffft -f` reduces to the effect of the final `-f` alone.
pub proof fn lemma_last_flag_wins(
    p: ParserView,
    args: Seq<Seq<char>>,
    i: int,
    st: Session,
    v: int,
)
    requires
        0 <= i <= args.len(),
        0 <= v < st.dests.len(),
        v <= usize::MAX,
        st.dests[v] is Bool,
        spec_all_bool_flag_tokens(p, args, i, v),
    ensures
        ({
            let (oc, st1) = spec_scan(p, args, i, st);
            &&& oc == Outcome::Parsed
            &&& st1.dests.len() == st.dests.len()
            &&& st1.dests[v] == (if i < args.len() {
                DestView::Bool(spec_bool_const_of(p, args.last().last()))
            } else {
                st.dests[v]
            })
            &&& forall|w: int| 0 <= w < st.dests.len() && w != v ==> st1.dests[w] == st.dests[w]
        }),
    decreases args.len() - i,
{
    if i < args.len() {
        let tok = args[i];
        assert(spec_classify(tok) == ArgKind::ShortOption);
        assert(tok.len() >= 2);
        lemma_bundle_last_flag_wins(p, args, i, tok, 1, st, v);
        let (ocb, stb, i2) = spec_scan_shorts(p, args, i, tok, 1, st);
        assert(crate::engine::spec_next_i(i2, i + 1, args.len() as int) == i + 1);
        lemma_last_flag_wins(p, args, i + 1, stb, v);
        if i + 1 == args.len() {
            assert(tok == args.last());
        }
    }
}

/// A successful required check means every required variable with some
/// surface to report was satisfied by one of the sources.
pub proof fn lemma_required_satisfied(p: ParserView, st: Session, n: int, v: int)
    requires
        spec_check_required(p, st, n) == Outcome::Parsed,
        0 <= v < n,
        p.vars[v].required,
        spec_required_msg(p, v) is Some,
    ensures
        st.set_vars[v],
    decreases n,
{
    if v < n - 1 {
        lemma_required_satisfied(p, st, n - 1, v);
    }
}

/// A required variable that no source satisfied always fails the required
/// check, provided some surface exists to report it.
pub proof fn lemma_required_unset_fails(p: ParserView, st: Session, n: int, v: int)
    requires
        0 <= v < n,
        p.vars[v].required,
        !st.set_vars[v],
        spec_required_msg(p, v) is Some,
    ensures
        spec_check_required(p, st, n) != Outcome::Parsed,
{
    if spec_check_required(p, st, n) == Outcome::Parsed {
        lemma_required_satisfied(p, st, n, v);
    }
}

/// The first required, unsatisfied variable with a surface decides the
/// reported message: its most relevant surface.
pub proof fn lemma_required_first_message(p: ParserView, st: Session, n: int, v: int)
    requires
        0 <= v < n,
        p.vars[v].required,
        !st.set_vars[v],
        spec_required_msg(p, v) is Some,
        forall|w: int|
            0 <= w < v && #[trigger] p.vars[w].required && !st.set_vars[w]
                ==> spec_required_msg(p, w) is None,
    ensures
        spec_check_required(p, st, n) == Outcome::Error(spec_required_msg(p, v)->0),
    decreases n,
{
    if n - 1 > v {
        lemma_required_first_message(p, st, n - 1, v);
    } else {
        assert(spec_check_required(p, st, v) == Outcome::Parsed) by {
            lemma_required_prefix_parsed(p, st, v);
        }
    }
}

/// Setting every required variable through any one source satisfies the
/// requirement: the required check passes.
pub proof fn lemma_all_required_set_passes(p: ParserView, st: Session, n: int)
    requires
        forall|v: int| 0 <= v < n && #[trigger] p.vars[v].required ==> st.set_vars[v],
    ensures
        spec_check_required(p, st, n) == Outcome::Parsed,
    decreases n,
{
    if n > 0 {
        lemma_all_required_set_passes(p, st, n - 1);
    }
}

/// A prefix of variables in which every required, unsatisfied one lacks a
/// surface passes the required check.
proof fn lemma_required_prefix_parsed(p: ParserView, st: Session, n: int)
    requires
        forall|w: int|
            0 <= w < n && #[trigger] p.vars[w].required && !st.set_vars[w]
                ==> spec_required_msg(p, w) is None,
    ensures
        spec_check_required(p, st, n) == Outcome::Parsed,
    decreases n,
{
    if n > 0 {
        lemma_required_prefix_parsed(p, st, n - 1);
    }
}

} // verus!
