//! The registry: declared variables, options, positional arguments and
//! environment-variable fallbacks, together with the destination table the
//! resolution engine updates in place.

use vstd::prelude::*;
use vstd::string::*;

use crate::action::{
    Action, ActionView, DestValue, DestView, FlagOp, FlagOpView, IFlagAction, TypedAction,
    spec_action_compat, spec_kind_of,
};
use crate::tokens::{ArgKind, spec_classify};

verus! {

/// One logical destination the application cares about: its identity, its
/// display name for help and error text, and whether resolution must see it
/// set by some source.
pub struct Var {
    pub id: usize,
    pub metavar: String,
    pub required: bool,
}

/// The mathematical value of a `Var`.
pub ghost struct VarView {
    pub id: usize,
    pub metavar: Seq<char>,
    pub required: bool,
}

impl View for Var {
    type V = VarView;

    open spec fn view(&self) -> VarView {
        VarView { id: self.id, metavar: self.metavar@, required: self.required }
    }
}

impl DeepView for Var {
    type V = VarView;

    open spec fn deep_view(&self) -> VarView {
        self@
    }
}

/// A declared option: the variable it serves (if any), its spellings, its
/// help line, and the action that fires when it is used.
pub struct OptionDecl {
    pub varid: Option<usize>,
    pub names: Vec<String>,
    pub help: String,
    pub action: Action,
}

/// The mathematical value of an `OptionDecl`.
pub ghost struct OptView {
    pub varid: Option<usize>,
    pub names: Seq<Seq<char>>,
    pub help: Seq<char>,
    pub action: ActionView,
}

impl View for OptionDecl {
    type V = OptView;

    open spec fn view(&self) -> OptView {
        OptView {
            varid: self.varid,
            names: self.names.deep_view(),
            help: self.help@,
            action: self.action@,
        }
    }
}

impl DeepView for OptionDecl {
    type V = OptView;

    open spec fn deep_view(&self) -> OptView {
        self@
    }
}

/// A declared positional argument.
pub struct ArgumentDecl {
    pub varid: usize,
    pub name: String,
    pub help: String,
    pub action: Action,
}

/// The mathematical value of an `ArgumentDecl`.
pub ghost struct ArgView {
    pub varid: usize,
    pub name: Seq<char>,
    pub help: Seq<char>,
    pub action: ActionView,
}

impl View for ArgumentDecl {
    type V = ArgView;

    open spec fn view(&self) -> ArgView {
        ArgView {
            varid: self.varid,
            name: self.name@,
            help: self.help@,
            action: self.action@,
        }
    }
}

impl DeepView for ArgumentDecl {
    type V = ArgView;

    open spec fn deep_view(&self) -> ArgView {
        self@
    }
}

/// A declared environment-variable fallback: consulted before any token,
/// with the built-in single-token conversion of its destination.
pub struct EnvVarDecl {
    pub varid: usize,
    pub name: String,
}

/// The mathematical value of an `EnvVarDecl`.
pub ghost struct EnvView {
    pub varid: usize,
    pub name: Seq<char>,
}

impl View for EnvVarDecl {
    type V = EnvView;

    open spec fn view(&self) -> EnvView {
        EnvView { varid: self.varid, name: self.name@ }
    }
}

impl DeepView for EnvVarDecl {
    type V = EnvView;

    open spec fn deep_view(&self) -> EnvView {
        self@
    }
}

/// The mathematical value of an `ArgumentParser`.
#[verifier::ext_equal]
pub ghost struct ParserView {
    pub description: Seq<char>,
    pub vars: Seq<VarView>,
    pub dests: Seq<DestView>,
    pub options: Seq<OptView>,
    pub arguments: Seq<ArgView>,
    pub catchall: Option<ArgView>,
    pub env_vars: Seq<EnvView>,
    pub stop_on_first: bool,
    pub silence_dd: bool,
}

/// The registry.  It owns the declared surface and the destination table;
/// one `parse` call resolves a token list against it.
pub struct ArgumentParser {
    pub description: String,
    pub vars: Vec<Var>,
    pub dests: Vec<DestValue>,
    pub options: Vec<OptionDecl>,
    pub arguments: Vec<ArgumentDecl>,
    pub catchall: Option<ArgumentDecl>,
    pub env_vars: Vec<EnvVarDecl>,
    pub stop_on_first: bool,
    pub silence_dd: bool,
}

impl View for ArgumentParser {
    type V = ParserView;

    open spec fn view(&self) -> ParserView {
        ParserView {
            description: self.description@,
            vars: self.vars.deep_view(),
            dests: self.dests.deep_view(),
            options: self.options.deep_view(),
            arguments: self.arguments.deep_view(),
            catchall: match self.catchall {
                Some(ca) => Some(ca@),
                None => None,
            },
            env_vars: self.env_vars.deep_view(),
            stop_on_first: self.stop_on_first,
            silence_dd: self.silence_dd,
        }
    }
}

/// A well-shaped option spelling: a two-character short name or a long
/// name of at least three characters.
pub open spec fn spec_name_shape_ok(n: Seq<char>) -> bool {
    spec_classify(n) == ArgKind::LongOption || (spec_classify(n) == ArgKind::ShortOption && n.len()
        == 2)
}

/// A well-formed option declaration against the given variable table.
pub open spec fn spec_opt_wf(o: OptView, nvars: int, dests: Seq<DestView>) -> bool {
    &&& o.names.len() >= 1
    &&& forall|j: int| 0 <= j < o.names.len() ==> spec_name_shape_ok(#[trigger] o.names[j])
    &&& match o.varid {
        Some(v) => v < nvars && spec_action_compat(o.action, spec_kind_of(dests[v as int])),
        None => o.action == ActionView::Flag(FlagOpView::ShowHelp) || (o.action matches
        ActionView::Flag(FlagOpView::PrintText(_))),
    }
}

/// A well-formed positional argument declaration.
pub open spec fn spec_arg_wf(a: ArgView, nvars: int, dests: Seq<DestView>) -> bool {
    &&& a.varid < nvars
    &&& a.action == ActionView::Single
    &&& spec_action_compat(a.action, spec_kind_of(dests[a.varid as int]))
}

/// A well-formed catch-all declaration.
pub open spec fn spec_catchall_wf(a: ArgView, nvars: int, dests: Seq<DestView>) -> bool {
    &&& a.varid < nvars
    &&& (a.action == ActionView::Push || a.action == ActionView::Many)
    &&& spec_action_compat(a.action, spec_kind_of(dests[a.varid as int]))
}

/// A well-formed environment fallback: its destination takes the
/// single-token conversion.
pub open spec fn spec_env_wf(e: EnvView, nvars: int, dests: Seq<DestView>) -> bool {
    &&& e.varid < nvars
    &&& spec_action_compat(ActionView::Single, spec_kind_of(dests[e.varid as int]))
}

/// A well-formed registry: the variable and destination tables line up, and
/// every declaration is bound to an existing, compatible destination.
pub open spec fn spec_parser_wf(p: ParserView) -> bool {
    &&& p.vars.len() == p.dests.len()
    &&& forall|i: int| 0 <= i < p.vars.len() ==> (#[trigger] p.vars[i]).id == i
    &&& forall|i: int|
        0 <= i < p.options.len() ==> spec_opt_wf(
            #[trigger] p.options[i],
            p.vars.len() as int,
            p.dests,
        )
    &&& forall|i: int|
        0 <= i < p.arguments.len() ==> spec_arg_wf(
            #[trigger] p.arguments[i],
            p.vars.len() as int,
            p.dests,
        )
    &&& match p.catchall {
        Some(ca) => spec_catchall_wf(ca, p.vars.len() as int, p.dests),
        None => true,
    }
    &&& forall|i: int|
        0 <= i < p.env_vars.len() ==> spec_env_wf(
            #[trigger] p.env_vars[i],
            p.vars.len() as int,
            p.dests,
        )
}

impl ArgumentParser {
    /// Well-formedness of the registry.
    pub open spec fn wf(&self) -> bool {
        spec_parser_wf(self@)
    }
}

/// The upper-case counterpart of an ASCII letter; any other character is
/// unchanged.
pub open spec fn spec_upper_char(c: char) -> char {
    if c == 'a' {
        'A'
    } else if c == 'b' {
        'B'
    } else if c == 'c' {
        'C'
    } else if c == 'd' {
        'D'
    } else if c == 'e' {
        'E'
    } else if c == 'f' {
        'F'
    } else if c == 'g' {
        'G'
    } else if c == 'h' {
        'H'
    } else if c == 'i' {
        'I'
    } else if c == 'j' {
        'J'
    } else if c == 'k' {
        'K'
    } else if c == 'l' {
        'L'
    } else if c == 'm' {
        'M'
    } else if c == 'n' {
        'N'
    } else if c == 'o' {
        'O'
    } else if c == 'p' {
        'P'
    } else if c == 'q' {
        'Q'
    } else if c == 'r' {
        'R'
    } else if c == 's' {
        'S'
    } else if c == 't' {
        'T'
    } else if c == 'u' {
        'U'
    } else if c == 'v' {
        'V'
    } else if c == 'w' {
        'W'
    } else if c == 'x' {
        'X'
    } else if c == 'y' {
        'Y'
    } else if c == 'z' {
        'Z'
    } else {
        c
    }
}

/// A text with each character upper-cased.
pub open spec fn spec_upper_seq(s: Seq<char>) -> Seq<char> {
    s.map_values(|c: char| spec_upper_char(c))
}

/// The character a spelling character contributes to a derived display
/// name: letters are upper-cased and dashes become underscores.
pub open spec fn spec_metavar_char(c: char) -> char {
    if c == '-' {
        '_'
    } else {
        spec_upper_char(c)
    }
}

/// The first position at or after `i` holding a character other than a
/// dash, or the spelling's length.
pub open spec fn spec_dash_end(n: Seq<char>, i: int) -> int
    decreases n.len() - i,
{
    if i < 0 || i >= n.len() {
        n.len() as int
    } else if n[i] == '-' {
        spec_dash_end(n, i + 1)
    } else {
        i
    }
}

/// The display name derived from an option spelling: everything after the
/// leading dashes, upper-cased, with dashes turned to underscores.
pub open spec fn spec_metavar_of(name: Seq<char>) -> Seq<char> {
    name.subrange(spec_dash_end(name, 0), name.len() as int).map_values(
        |c: char| spec_metavar_char(c),
    )
}

/// The first longest spelling, scanning from position `k` with the best
/// candidate so far.
pub open spec fn spec_longest_from(names: Seq<Seq<char>>, k: int, best: Seq<char>) -> Seq<char>
    decreases names.len() - k,
{
    if k < 0 || k >= names.len() {
        best
    } else if names[k].len() > best.len() {
        spec_longest_from(names, k + 1, names[k])
    } else {
        spec_longest_from(names, k + 1, best)
    }
}

/// The first spelling of maximal length.
pub open spec fn spec_longest_name(names: Seq<Seq<char>>) -> Seq<char> {
    spec_longest_from(names, 1, names[0])
}

/// What an unset display name becomes when the variable is bound to these
/// option spellings: the name derived from the longest spelling.
pub open spec fn spec_auto_metavar(mv: Seq<char>, names: Seq<Seq<char>>) -> Seq<char> {
    if mv.len() == 0 {
        spec_metavar_of(spec_longest_name(names))
    } else {
        mv
    }
}

/// Append the display-name character derived from position `i` of an
/// option spelling.
fn append_metavar_char(out: &mut String, name: &str, i: usize)
    requires
        i < name@.len(),
        i < usize::MAX,
    ensures
        (*final(out))@ == (*old(out))@.push(spec_metavar_char(name@[i as int])),
{
    let c = name.get_char(i);
    if c == '-' {
        proof {
            reveal_strlit("_");
        }
        out.append("_");
    } else if c == 'a' {
        proof {
            reveal_strlit("A");
        }
        out.append("A");
    } else if c == 'b' {
        proof {
            reveal_strlit("B");
        }
        out.append("B");
    } else if c == 'c' {
        proof {
            reveal_strlit("C");
        }
        out.append("C");
    } else if c == 'd' {
        proof {
            reveal_strlit("D");
        }
        out.append("D");
    } else if c == 'e' {
        proof {
            reveal_strlit("E");
        }
        out.append("E");
    } else if c == 'f' {
        proof {
            reveal_strlit("F");
        }
        out.append("F");
    } else if c == 'g' {
        proof {
            reveal_strlit("G");
        }
        out.append("G");
    } else if c == 'h' {
        proof {
            reveal_strlit("H");
        }
        out.append("H");
    } else if c == 'i' {
        proof {
            reveal_strlit("I");
        }
        out.append("I");
    } else if c == 'j' {
        proof {
            reveal_strlit("J");
        }
        out.append("J");
    } else if c == 'k' {
        proof {
            reveal_strlit("K");
        }
        out.append("K");
    } else if c == 'l' {
        proof {
            reveal_strlit("L");
        }
        out.append("L");
    } else if c == 'm' {
        proof {
            reveal_strlit("M");
        }
        out.append("M");
    } else if c == 'n' {
        proof {
            reveal_strlit("N");
        }
        out.append("N");
    } else if c == 'o' {
        proof {
            reveal_strlit("O");
        }
        out.append("O");
    } else if c == 'p' {
        proof {
            reveal_strlit("P");
        }
        out.append("P");
    } else if c == 'q' {
        proof {
            reveal_strlit("Q");
        }
        out.append("Q");
    } else if c == 'r' {
        proof {
            reveal_strlit("R");
        }
        out.append("R");
    } else if c == 's' {
        proof {
            reveal_strlit("S");
        }
        out.append("S");
    } else if c == 't' {
        proof {
            reveal_strlit("T");
        }
        out.append("T");
    } else if c == 'u' {
        proof {
            reveal_strlit("U");
        }
        out.append("U");
    } else if c == 'v' {
        proof {
            reveal_strlit("V");
        }
        out.append("V");
    } else if c == 'w' {
        proof {
            reveal_strlit("W");
        }
        out.append("W");
    } else if c == 'x' {
        proof {
            reveal_strlit("X");
        }
        out.append("X");
    } else if c == 'y' {
        proof {
            reveal_strlit("Y");
        }
        out.append("Y");
    } else if c == 'z' {
        proof {
            reveal_strlit("Z");
        }
        out.append("Z");
    } else {
        let piece = name.substring_char(i, i + 1);
        out.append(piece);
        assert((*old(out))@.add(piece@) =~= (*old(out))@.push(name@[i as int]));
    }
}

/// Derive a display name from an option spelling.
fn metavar_from_name(name: &str) -> (r: String)
    ensures
        r@ == spec_metavar_of(name@),
{
    let n = name.unicode_len();
    let mut start: usize = 0;
    while start < n && name.get_char(start) == '-'
        invariant
            n == name@.len(),
            start <= n,
            spec_dash_end(name@, 0) == spec_dash_end(name@, start as int),
        decreases n - start,
    {
        start += 1;
    }
    assert(spec_dash_end(name@, 0) == start);
    let ghost s0 = start as int;
    let mut out = String::new();
    let mut i: usize = start;
    while i < n
        invariant
            s0 == spec_dash_end(name@, 0),
            start as int == s0,
            start <= i <= n,
            n == name@.len(),
            out@ == name@.subrange(s0, i as int).map_values(|c: char| spec_metavar_char(c)),
        decreases n - i,
    {
        let ghost prev = name@.subrange(s0, i as int);
        append_metavar_char(&mut out, name, i);
        proof {
            assert(name@.subrange(s0, i + 1) =~= prev.push(name@[i as int]));
            assert(name@.subrange(s0, i + 1).map_values(|c: char| spec_metavar_char(c)) =~= prev.map_values(
                |c: char| spec_metavar_char(c),
            ).push(spec_metavar_char(name@[i as int])));
        }
        i += 1;
    }
    assert(name@.subrange(s0, n as int) =~= name@.subrange(s0, name@.len() as int));
    out
}

/// The first longest spelling in a spelling list.
fn longest_name<'a>(names: &'a [&'a str]) -> (r: &'a str)
    requires
        names@.len() >= 1,
    ensures
        r@ == spec_longest_name(names.deep_view()),
{
    let ghost dv = names.deep_view();
    let mut best: &str = names[0];
    let mut k: usize = 1;
    while k < names.len()
        invariant
            dv == names.deep_view(),
            dv.len() == names@.len(),
            1 <= k <= names@.len(),
            spec_longest_from(dv, 1, dv[0]) == spec_longest_from(dv, k as int, best@),
        decreases names@.len() - k,
    {
        let cand: &str = names[k];
        assert(cand@ == dv[k as int]);
        if cand.unicode_len() > best.unicode_len() {
            best = cand;
        }
        k += 1;
    }
    best
}

/// A handle to one declared variable, returned by `refer`; the builder
/// methods declare options, positional arguments and environment fallbacks
/// against that variable.
pub struct Ref {
    varid: usize,
}

impl Ref {
    /// The identity of the variable this handle refers to.
    pub closed spec fn id(&self) -> int {
        self.varid as int
    }

    /// Declare an option bound to this handle's variable.  If the variable
    /// has no display name yet, one is derived from the longest spelling.
    pub fn add_option<A: TypedAction>(
        &self,
        parser: &mut ArgumentParser,
        names: &[&str],
        action: A,
        help: &str,
    )
        requires
            old(parser).wf(),
            0 <= self.id() < old(parser)@.vars.len(),
            names@.len() >= 1,
            forall|j: int|
                0 <= j < names@.len() ==> spec_name_shape_ok((#[trigger] names@[j])@),
            spec_action_compat(action.spec_bind(), spec_kind_of(old(parser)@.dests[self.id()])),
        ensures
            final(parser).wf(),
            final(parser)@ == (ParserView {
                vars: old(parser)@.vars.update(
                    self.id(),
                    VarView {
                        metavar: spec_auto_metavar(
                            old(parser)@.vars[self.id()].metavar,
                            names.deep_view(),
                        ),
                        ..old(parser)@.vars[self.id()]
                    },
                ),
                options: old(parser)@.options.push(
                    OptView {
                        varid: Some(self.id() as usize),
                        names: names.deep_view(),
                        help: help@,
                        action: action.spec_bind(),
                    },
                ),
                ..old(parser)@
            }),
    {
        let ghost pv0 = parser@;
        if parser.vars[self.varid].metavar.unicode_len() == 0 {
            let longest = longest_name(names);
            let mv = metavar_from_name(longest);
            parser.vars[self.varid].metavar = mv;
        }
        proof {
            assert(parser@.vars =~= pv0.vars.update(
                self.id(),
                VarView {
                    metavar: spec_auto_metavar(pv0.vars[self.id()].metavar, names.deep_view()),
                    ..pv0.vars[self.id()]
                },
            ));
            assert(parser@ =~= ParserView {
                vars: pv0.vars.update(
                    self.id(),
                    VarView {
                        metavar: spec_auto_metavar(pv0.vars[self.id()].metavar, names.deep_view()),
                        ..pv0.vars[self.id()]
                    },
                ),
                ..pv0
            });
        }
        parser.add_option_for(Some(self.varid), names, action.bind(), help);
    }

    /// Declare a positional argument bound to this handle's variable.  A
    /// `Push` or `Many` action declares the catch-all slot, which may exist
    /// only once; if the variable has no display name yet, the argument's
    /// name becomes it.
    pub fn add_argument<A: TypedAction>(
        &self,
        parser: &mut ArgumentParser,
        name: &str,
        action: A,
        help: &str,
    )
        requires
            old(parser).wf(),
            0 <= self.id() < old(parser)@.vars.len(),
            action.spec_bind() == ActionView::Single || action.spec_bind() == ActionView::Push
                || action.spec_bind() == ActionView::Many,
            spec_action_compat(action.spec_bind(), spec_kind_of(old(parser)@.dests[self.id()])),
            action.spec_bind() != ActionView::Single ==> (old(parser)@.catchall is None),
        ensures
            final(parser).wf(),
            final(parser)@ == (ParserView {
                vars: old(parser)@.vars.update(
                    self.id(),
                    VarView {
                        metavar: if old(parser)@.vars[self.id()].metavar.len() == 0 {
                            name@
                        } else {
                            old(parser)@.vars[self.id()].metavar
                        },
                        ..old(parser)@.vars[self.id()]
                    },
                ),
                arguments: if action.spec_bind() == ActionView::Single {
                    old(parser)@.arguments.push(
                        ArgView {
                            varid: self.id() as usize,
                            name: name@,
                            help: help@,
                            action: ActionView::Single,
                        },
                    )
                } else {
                    old(parser)@.arguments
                },
                catchall: if action.spec_bind() == ActionView::Single {
                    old(parser)@.catchall
                } else {
                    Some(
                        ArgView {
                            varid: self.id() as usize,
                            name: name@,
                            help: help@,
                            action: action.spec_bind(),
                        },
                    )
                },
                ..old(parser)@
            }),
    {
        let ghost pv0 = parser@;
        let act = action.bind();
        let decl = ArgumentDecl {
            varid: self.varid,
            name: name.to_owned(),
            help: help.to_owned(),
            action: act,
        };
        match &decl.action {
            Action::Single => {
                parser.arguments.push(decl);
                proof {
                    assert(parser@.arguments =~= pv0.arguments.push(
                        ArgView {
                            varid: self.varid,
                            name: name@,
                            help: help@,
                            action: ActionView::Single,
                        },
                    ));
                }
            },
            _ => {
                parser.catchall = Some(decl);
            },
        }
        if parser.vars[self.varid].metavar.unicode_len() == 0 {
            parser.vars[self.varid].metavar = name.to_owned();
        }
        proof {
            assert(parser@.vars =~= final(parser)@.vars);
            let target = ParserView {
                vars: pv0.vars.update(
                    self.id(),
                    VarView {
                        metavar: if pv0.vars[self.id()].metavar.len() == 0 {
                            name@
                        } else {
                            pv0.vars[self.id()].metavar
                        },
                        ..pv0.vars[self.id()]
                    },
                ),
                arguments: if action.spec_bind() == ActionView::Single {
                    pv0.arguments.push(
                        ArgView {
                            varid: self.varid,
                            name: name@,
                            help: help@,
                            action: ActionView::Single,
                        },
                    )
                } else {
                    pv0.arguments
                },
                catchall: if action.spec_bind() == ActionView::Single {
                    pv0.catchall
                } else {
                    Some(
                        ArgView {
                            varid: self.varid,
                            name: name@,
                            help: help@,
                            action: action.spec_bind(),
                        },
                    )
                },
                ..pv0
            };
            assert(parser@.vars =~= target.vars);
            assert(parser@ =~= target);
        }
    }

    /// Set the variable's display name explicitly.
    pub fn metavar(&self, parser: &mut ArgumentParser, name: &str)
        requires
            old(parser).wf(),
            0 <= self.id() < old(parser)@.vars.len(),
        ensures
            final(parser).wf(),
            final(parser)@ == (ParserView {
                vars: old(parser)@.vars.update(
                    self.id(),
                    VarView { metavar: name@, ..old(parser)@.vars[self.id()] },
                ),
                ..old(parser)@
            }),
    {
        let ghost pv0 = parser@;
        parser.vars[self.varid].metavar = name.to_owned();
        proof {
            assert(parser@.vars =~= pv0.vars.update(
                self.id(),
                VarView { metavar: name@, ..pv0.vars[self.id()] },
            ));
            assert(parser@ =~= ParserView {
                vars: pv0.vars.update(
                    self.id(),
                    VarView { metavar: name@, ..pv0.vars[self.id()] },
                ),
                ..pv0
            });
        }
    }

    /// Mark the variable required: resolution fails unless some source
    /// sets it.
    pub fn required(&self, parser: &mut ArgumentParser)
        requires
            old(parser).wf(),
            0 <= self.id() < old(parser)@.vars.len(),
        ensures
            final(parser).wf(),
            final(parser)@ == (ParserView {
                vars: old(parser)@.vars.update(
                    self.id(),
                    VarView { required: true, ..old(parser)@.vars[self.id()] },
                ),
                ..old(parser)@
            }),
    {
        let ghost pv0 = parser@;
        parser.vars[self.varid].required = true;
        proof {
            assert(parser@.vars =~= pv0.vars.update(
                self.id(),
                VarView { required: true, ..pv0.vars[self.id()] },
            ));
            assert(parser@ =~= ParserView {
                vars: pv0.vars.update(
                    self.id(),
                    VarView { required: true, ..pv0.vars[self.id()] },
                ),
                ..pv0
            });
        }
    }

    /// Declare an environment-variable fallback for this handle's
    /// variable.
    pub fn envvar(&self, parser: &mut ArgumentParser, varname: &str)
        requires
            old(parser).wf(),
            0 <= self.id() < old(parser)@.vars.len(),
            spec_action_compat(
                ActionView::Single,
                spec_kind_of(old(parser)@.dests[self.id()]),
            ),
        ensures
            final(parser).wf(),
            final(parser)@ == (ParserView {
                env_vars: old(parser)@.env_vars.push(
                    EnvView { varid: self.id() as usize, name: varname@ },
                ),
                ..old(parser)@
            }),
    {
        let ghost pv0 = parser@;
        parser.env_vars.push(EnvVarDecl { varid: self.varid, name: varname.to_owned() });
        proof {
            assert(parser@.env_vars =~= pv0.env_vars.push(
                EnvView { varid: self.varid, name: varname@ },
            ));
            assert(parser@ =~= ParserView {
                env_vars: pv0.env_vars.push(EnvView { varid: self.varid, name: varname@ }),
                ..pv0
            });
        }
    }
}

impl ArgumentParser {
    /// Create an empty registry; the built-in `-h`/`--help` option is
    /// already declared.
    pub fn new() -> (r: ArgumentParser)
        ensures
            r.wf(),
            r@ == spec_new_parser(),
    {
        let mut ap = ArgumentParser {
            description: String::new(),
            vars: Vec::new(),
            dests: Vec::new(),
            options: Vec::new(),
            arguments: Vec::new(),
            catchall: None,
            env_vars: Vec::new(),
            stop_on_first: false,
            silence_dd: true,
        };
        proof {
            reveal_strlit("-h");
            reveal_strlit("--help");
            assert(ap@.options =~= Seq::<OptView>::empty());
            assert(ap@.vars =~= Seq::<VarView>::empty());
            assert(ap@.dests =~= Seq::<DestView>::empty());
            assert(ap@.arguments =~= Seq::<ArgView>::empty());
            assert(ap@.env_vars =~= Seq::<EnvView>::empty());
        }
        let mut names: Vec<String> = Vec::new();
        names.push(String::from_str("-h"));
        names.push(String::from_str("--help"));
        proof {
            assert(names.deep_view() =~= seq!["-h"@, "--help"@]);
        }
        ap.options.push(
            OptionDecl {
                varid: None,
                names,
                help: String::from_str("Show this help message and exit"),
                action: Action::Flag(FlagOp::ShowHelp),
            },
        );
        proof {
            assert(ap@.options =~= spec_new_parser().options);
            assert(ap@ =~= spec_new_parser());
            assert(spec_name_shape_ok("-h"@) && spec_name_shape_ok("--help"@));
        }
        ap
    }

    /// Refer a fresh variable with its initial value; the returned handle
    /// declares surfaces against it.
    pub fn refer(&mut self, initial: DestValue) -> (r: Ref)
        requires
            old(self).wf(),
        ensures
            final(self).wf(),
            r.id() == old(self)@.vars.len(),
            final(self)@ == (ParserView {
                vars: old(self)@.vars.push(
                    VarView {
                        id: old(self)@.vars.len() as usize,
                        metavar: Seq::empty(),
                        required: false,
                    },
                ),
                dests: old(self)@.dests.push(initial@),
                ..old(self)@
            }),
    {
        let ghost pv0 = self@;
        let id = self.vars.len();
        proof {
            assert(pv0.vars.len() == id as int);
        }
        self.vars.push(Var { id, metavar: String::new(), required: false });
        self.dests.push(initial);
        proof {
            assert(self@.vars =~= pv0.vars.push(
                VarView { id: pv0.vars.len() as usize, metavar: Seq::empty(), required: false },
            ));
            assert(self@.dests =~= pv0.dests.push(initial@));
            assert(self@ =~= ParserView {
                vars: pv0.vars.push(
                    VarView {
                        id: pv0.vars.len() as usize,
                        metavar: Seq::empty(),
                        required: false,
                    },
                ),
                dests: pv0.dests.push(initial@),
                ..pv0
            });
            lemma_wf_after_refer(pv0, self@, initial@);
        }
        Ref { varid: id }
    }

    /// Declare an option not tied to any variable; only useful for flag
    /// actions with an effect of their own, such as `Print`.
    pub fn add_option<F: IFlagAction>(&mut self, names: &[&str], action: F, help: &str)
        requires
            old(self).wf(),
            names@.len() >= 1,
            forall|j: int|
                0 <= j < names@.len() ==> spec_name_shape_ok((#[trigger] names@[j])@),
            action.spec_flag_op() == FlagOpView::ShowHelp || (action.spec_flag_op() matches
                FlagOpView::PrintText(_)),
        ensures
            final(self).wf(),
            final(self)@ == (ParserView {
                options: old(self)@.options.push(
                    OptView {
                        varid: None,
                        names: names.deep_view(),
                        help: help@,
                        action: ActionView::Flag(action.spec_flag_op()),
                    },
                ),
                ..old(self)@
            }),
    {
        let op = action.flag_op();
        self.add_option_for(None, names, Action::Flag(op), help);
    }

    /// Set the description shown at the top of the help text.
    pub fn set_description(&mut self, descr: &str)
        ensures
            final(self)@ == (ParserView { description: descr@, ..old(self)@ }),
            old(self).wf() ==> final(self).wf(),
    {
        let ghost pv0 = self@;
        self.description = descr.to_owned();
        proof {
            assert(self@ =~= ParserView { description: descr@, ..pv0 });
        }
    }

    /// When set, the first token that is not an option ends option
    /// scanning; every later token is collected verbatim as a positional.
    pub fn stop_on_first_argument(&mut self, want_stop: bool)
        ensures
            final(self)@ == (ParserView { stop_on_first: want_stop, ..old(self)@ }),
            old(self).wf() ==> final(self).wf(),
    {
        let ghost pv0 = self@;
        self.stop_on_first = want_stop;
        proof {
            assert(self@ =~= ParserView { stop_on_first: want_stop, ..pv0 });
        }
    }

    /// When set (the default), a bare `--` delimiter is discarded rather
    /// than kept as a positional value.
    pub fn silence_double_dash(&mut self, silence: bool)
        ensures
            final(self)@ == (ParserView { silence_dd: silence, ..old(self)@ }),
            old(self).wf() ==> final(self).wf(),
    {
        let ghost pv0 = self@;
        self.silence_dd = silence;
        proof {
            assert(self@ =~= ParserView { silence_dd: silence, ..pv0 });
        }
    }

    /// Read a destination after a parse.
    pub fn value_of(&self, r: &Ref) -> (d: &DestValue)
        requires
            0 <= r.id() < self@.dests.len(),
        ensures
            d@ == self@.dests[r.id()],
    {
        &self.dests[r.varid]
    }

    /// Declare one option: the shared registrar behind `Ref::add_option`
    /// and the parser-level `add_option`.
    fn add_option_for(&mut self, var: Option<usize>, names: &[&str], action: Action, help: &str)
        requires
            old(self).wf(),
            names@.len() >= 1,
            forall|j: int|
                0 <= j < names@.len() ==> spec_name_shape_ok((#[trigger] names@[j])@),
            match var {
                Some(v) => v < old(self)@.vars.len() && spec_action_compat(
                    action@,
                    spec_kind_of(old(self)@.dests[v as int]),
                ),
                None => action@ == ActionView::Flag(FlagOpView::ShowHelp) || (action@ matches
                    ActionView::Flag(FlagOpView::PrintText(_))),
            },
        ensures
            final(self).wf(),
            final(self)@ == (ParserView {
                options: old(self)@.options.push(
                    OptView {
                        varid: var,
                        names: names.deep_view(),
                        help: help@,
                        action: action@,
                    },
                ),
                ..old(self)@
            }),
    {
        let ghost pv0 = self@;
        let mut owned: Vec<String> = Vec::new();
        let mut j: usize = 0;
        while j < names.len()
            invariant
                j <= names@.len(),
                owned.deep_view() =~= names.deep_view().subrange(0, j as int),
            decreases names@.len() - j,
        {
            let nm: &str = names[j];
            owned.push(nm.to_owned());
            proof {
                assert(owned.deep_view() =~= names.deep_view().subrange(0, j as int).push(
                    names.deep_view()[j as int],
                ));
                assert(owned.deep_view() =~= names.deep_view().subrange(0, j + 1));
            }
            j += 1;
        }
        proof {
            assert(owned.deep_view() =~= names.deep_view());
        }
        let decl = OptionDecl { varid: var, names: owned, help: help.to_owned(), action };
        self.options.push(decl);
        proof {
            assert(self@.options =~= pv0.options.push(
                OptView {
                    varid: var,
                    names: names.deep_view(),
                    help: help@,
                    action: action@,
                },
            ));
            assert(self@ =~= ParserView {
                options: pv0.options.push(
                    OptView {
                        varid: var,
                        names: names.deep_view(),
                        help: help@,
                        action: action@,
                    },
                ),
                ..pv0
            });
        }
    }
}

/// The view of a freshly created registry: empty but for the built-in
/// help option.
pub open spec fn spec_new_parser() -> ParserView {
    ParserView {
        description: Seq::empty(),
        vars: Seq::empty(),
        dests: Seq::empty(),
        options: seq![
            OptView {
                varid: None,
                names: seq!["-h"@, "--help"@],
                help: "Show this help message and exit"@,
                action: ActionView::Flag(FlagOpView::ShowHelp),
            },
        ],
        arguments: Seq::empty(),
        catchall: None,
        env_vars: Seq::empty(),
        stop_on_first: false,
        silence_dd: true,
    }
}

/// Adding a fresh variable and destination cell keeps the registry
/// well-formed: every existing declaration still points at its old,
/// unchanged destination.
proof fn lemma_wf_after_refer(pv0: ParserView, pv1: ParserView, nd: DestView)
    requires
        spec_parser_wf(pv0),
        pv1 == (ParserView {
            vars: pv0.vars.push(
                VarView { id: pv0.vars.len() as usize, metavar: Seq::empty(), required: false },
            ),
            dests: pv0.dests.push(nd),
            ..pv0
        }),
        pv0.vars.len() <= usize::MAX,
    ensures
        spec_parser_wf(pv1),
{
    assert forall|i: int| 0 <= i < pv1.options.len() implies spec_opt_wf(
        #[trigger] pv1.options[i],
        pv1.vars.len() as int,
        pv1.dests,
    ) by {
        assert(spec_opt_wf(pv0.options[i], pv0.vars.len() as int, pv0.dests));
    }
    assert forall|i: int| 0 <= i < pv1.arguments.len() implies spec_arg_wf(
        #[trigger] pv1.arguments[i],
        pv1.vars.len() as int,
        pv1.dests,
    ) by {
        assert(spec_arg_wf(pv0.arguments[i], pv0.vars.len() as int, pv0.dests));
    }
    assert forall|i: int| 0 <= i < pv1.env_vars.len() implies spec_env_wf(
        #[trigger] pv1.env_vars[i],
        pv1.vars.len() as int,
        pv1.dests,
    ) by {
        assert(spec_env_wf(pv0.env_vars[i], pv0.vars.len() as int, pv0.dests));
    }
}

/// Append the upper-cased character at position `i` of a text.
pub(crate) fn append_upper_char(out: &mut String, name: &str, i: usize)
    requires
        i < name@.len(),
        i < usize::MAX,
    ensures
        (*final(out))@ == (*old(out))@.push(spec_upper_char(name@[i as int])),
{
    let c = name.get_char(i);
    if c == 'a' {
        proof {
            reveal_strlit("A");
        }
        out.append("A");
    } else if c == 'b' {
        proof {
            reveal_strlit("B");
        }
        out.append("B");
    } else if c == 'c' {
        proof {
            reveal_strlit("C");
        }
        out.append("C");
    } else if c == 'd' {
        proof {
            reveal_strlit("D");
        }
        out.append("D");
    } else if c == 'e' {
        proof {
            reveal_strlit("E");
        }
        out.append("E");
    } else if c == 'f' {
        proof {
            reveal_strlit("F");
        }
        out.append("F");
    } else if c == 'g' {
        proof {
            reveal_strlit("G");
        }
        out.append("G");
    } else if c == 'h' {
        proof {
            reveal_strlit("H");
        }
        out.append("H");
    } else if c == 'i' {
        proof {
            reveal_strlit("I");
        }
        out.append("I");
    } else if c == 'j' {
        proof {
            reveal_strlit("J");
        }
        out.append("J");
    } else if c == 'k' {
        proof {
            reveal_strlit("K");
        }
        out.append("K");
    } else if c == 'l' {
        proof {
            reveal_strlit("L");
        }
        out.append("L");
    } else if c == 'm' {
        proof {
            reveal_strlit("M");
        }
        out.append("M");
    } else if c == 'n' {
        proof {
            reveal_strlit("N");
        }
        out.append("N");
    } else if c == 'o' {
        proof {
            reveal_strlit("O");
        }
        out.append("O");
    } else if c == 'p' {
        proof {
            reveal_strlit("P");
        }
        out.append("P");
    } else if c == 'q' {
        proof {
            reveal_strlit("Q");
        }
        out.append("Q");
    } else if c == 'r' {
        proof {
            reveal_strlit("R");
        }
        out.append("R");
    } else if c == 's' {
        proof {
            reveal_strlit("S");
        }
        out.append("S");
    } else if c == 't' {
        proof {
            reveal_strlit("T");
        }
        out.append("T");
    } else if c == 'u' {
        proof {
            reveal_strlit("U");
        }
        out.append("U");
    } else if c == 'v' {
        proof {
            reveal_strlit("V");
        }
        out.append("V");
    } else if c == 'w' {
        proof {
            reveal_strlit("W");
        }
        out.append("W");
    } else if c == 'x' {
        proof {
            reveal_strlit("X");
        }
        out.append("X");
    } else if c == 'y' {
        proof {
            reveal_strlit("Y");
        }
        out.append("Y");
    } else if c == 'z' {
        proof {
            reveal_strlit("Z");
        }
        out.append("Z");
    } else {
        let piece = name.substring_char(i, i + 1);
        out.append(piece);
        assert((*old(out))@.add(piece@) =~= (*old(out))@.push(name@[i as int]));
    }
}

/// A copy of the text with each character upper-cased.
pub(crate) fn upper_name(name: &str) -> (r: String)
    ensures
        r@ == spec_upper_seq(name@),
{
    let n = name.unicode_len();
    let mut out = String::new();
    let mut i: usize = 0;
    while i < n
        invariant
            i <= n,
            n == name@.len(),
            out@ == spec_upper_seq(name@.subrange(0, i as int)),
        decreases n - i,
    {
        let ghost prev = name@.subrange(0, i as int);
        append_upper_char(&mut out, name, i);
        proof {
            assert(name@.subrange(0, i + 1) =~= prev.push(name@[i as int]));
            assert(spec_upper_seq(name@.subrange(0, i + 1)) =~= spec_upper_seq(prev).push(
                spec_upper_char(name@[i as int]),
            ));
        }
        i += 1;
    }
    assert(name@.subrange(0, n as int) =~= name@);
    out
}

} // verus!
