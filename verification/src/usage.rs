//! The usage synopsis and the full help text.
//!
//! `print_usage` renders the one-line command synopsis; `print_help` adds
//! the word-wrapped description and one entry per positional and optional
//! argument, each left-padded to a fixed column and wrapped at a fixed
//! total width.

use vstd::prelude::*;
use vstd::string::*;

use crate::action::{Action, ActionView};
use crate::engine::spec_ids_ok;
use crate::help::{push_spaces, spec_spaces, spec_wrap_text, wrap_text};
use crate::parser::{
    ArgumentParser, ArgView, OptView, ParserView, spec_upper_seq, upper_name,
};
use crate::tokens::{ArgKind, spec_classify, classify, str_eq};

verus! {

/// The column where entry descriptions start.
pub const OPTION_WIDTH: usize = 24;

/// The total width help text is wrapped at.
pub const TOTAL_WIDTH: usize = 79;

/// Whether two distinct short option characters are declared.
pub open spec fn spec_two_distinct_shorts(opts: Seq<OptView>) -> bool {
    exists|i1: int, j1: int, i2: int, j2: int|
        {
            &&& 0 <= i1 < opts.len() && 0 <= j1 < opts[i1].names.len()
            &&& 0 <= i2 < opts.len() && 0 <= j2 < opts[i2].names.len()
            &&& spec_classify(#[trigger] opts[i1].names[j1]) == ArgKind::ShortOption
            &&& spec_classify(#[trigger] opts[i2].names[j2]) == ArgKind::ShortOption
            &&& opts[i1].names[j1][1] != opts[i2].names[j2][1]
        }
}

/// Whether two distinct long option spellings are declared.
pub open spec fn spec_two_distinct_longs(opts: Seq<OptView>) -> bool {
    exists|i1: int, j1: int, i2: int, j2: int|
        {
            &&& 0 <= i1 < opts.len() && 0 <= j1 < opts[i1].names.len()
            &&& 0 <= i2 < opts.len() && 0 <= j2 < opts[i2].names.len()
            &&& spec_classify(#[trigger] opts[i1].names[j1]) == ArgKind::LongOption
            &&& spec_classify(#[trigger] opts[i2].names[j2]) == ArgKind::LongOption
            &&& opts[i1].names[j1] != opts[i2].names[j2]
        }
}

/// Whether the synopsis shows the `[OPTIONS]` marker: more than one
/// distinct short option character, or more than one distinct long
/// spelling.
pub open spec fn spec_shows_options(opts: Seq<OptView>) -> bool {
    spec_two_distinct_shorts(opts) || spec_two_distinct_longs(opts)
}

/// One fixed positional in the synopsis: its upper-cased name, in square
/// brackets unless its variable is required.
pub open spec fn spec_usage_arg(p: ParserView, a: ArgView) -> Seq<char> {
    let nm = spec_upper_seq(a.name);
    if p.vars[a.varid as int].required {
        seq![' '].add(nm)
    } else {
        seq![' ', '['].add(nm).push(']')
    }
}

/// The fixed positionals of the synopsis from index `k` on.
pub open spec fn spec_usage_args(p: ParserView, k: int) -> Seq<char>
    decreases p.arguments.len() - k,
{
    if k < 0 || k >= p.arguments.len() {
        Seq::empty()
    } else {
        spec_usage_arg(p, p.arguments[k]).add(spec_usage_args(p, k + 1))
    }
}

/// The catch-all part of the synopsis: `NAME [...]` when required,
/// `[NAME ...]` otherwise.
pub open spec fn spec_usage_catch(p: ParserView) -> Seq<char> {
    match p.catchall {
        Some(ca) => {
            let nm = spec_upper_seq(ca.name);
            if p.vars[ca.varid as int].required {
                seq![' '].add(nm).add(" [...]"@)
            } else {
                seq![' ', '['].add(nm).add(" ...]"@)
            }
        },
        None => Seq::empty(),
    }
}

/// The one-line command synopsis.
pub open spec fn spec_usage_text(p: ParserView, name: Seq<char>) -> Seq<char> {
    let base = "Usage:\n  "@.add(name);
    if p.options.len() != 0 {
        base.add(
            if spec_shows_options(p.options) {
                " [OPTIONS]"@
            } else {
                Seq::empty()
            },
        ).add(spec_usage_args(p, 0)).add(spec_usage_catch(p)).push('\n')
    } else {
        base.push('\n')
    }
}

/// Decide whether the synopsis shows the `[OPTIONS]` marker.
fn shows_options(parser: &ArgumentParser) -> (r: bool)
    ensures
        r == spec_shows_options(parser@.options),
{
    let ghost opts = parser@.options;
    let mut first_short: Option<char> = None;
    let mut first_long: Option<&str> = None;
    let ghost mut wi1: int = 0;
    let ghost mut wj1: int = 0;
    let ghost mut li1: int = 0;
    let ghost mut lj1: int = 0;
    let mut oi: usize = 0;
    while oi < parser.options.len()
        invariant
            opts == parser@.options,
            opts.len() == parser.options@.len(),
            oi <= parser.options@.len(),
            match first_short {
                Some(c) => {
                    &&& 0 <= wi1 < opts.len() && 0 <= wj1 < opts[wi1].names.len()
                    &&& spec_classify(opts[wi1].names[wj1]) == ArgKind::ShortOption
                    &&& opts[wi1].names[wj1][1] == c
                    &&& forall|x: int, y: int|
                        0 <= x < oi && 0 <= y < opts[x].names.len() && spec_classify(
                            #[trigger] opts[x].names[y],
                        ) == ArgKind::ShortOption ==> opts[x].names[y][1] == c
                },
                None => forall|x: int, y: int|
                    0 <= x < oi && 0 <= y < opts[x].names.len() ==> spec_classify(
                        #[trigger] opts[x].names[y],
                    ) != ArgKind::ShortOption,
            },
            match first_long {
                Some(nm) => {
                    &&& 0 <= li1 < opts.len() && 0 <= lj1 < opts[li1].names.len()
                    &&& spec_classify(opts[li1].names[lj1]) == ArgKind::LongOption
                    &&& opts[li1].names[lj1] == nm@
                    &&& forall|x: int, y: int|
                        0 <= x < oi && 0 <= y < opts[x].names.len() && spec_classify(
                            #[trigger] opts[x].names[y],
                        ) == ArgKind::LongOption ==> opts[x].names[y] == nm@
                },
                None => forall|x: int, y: int|
                    0 <= x < oi && 0 <= y < opts[x].names.len() ==> spec_classify(
                        #[trigger] opts[x].names[y],
                    ) != ArgKind::LongOption,
            },
        decreases parser.options@.len() - oi,
    {
        let nnames = parser.options[oi].names.len();
        let mut j: usize = 0;
        while j < nnames
            invariant
                opts == parser@.options,
                opts.len() == parser.options@.len(),
                oi < parser.options@.len(),
                opts[oi as int].names.len() == nnames,
                nnames == parser.options@[oi as int].names@.len(),
                j <= nnames,
                match first_short {
                    Some(c) => {
                        &&& 0 <= wi1 < opts.len() && 0 <= wj1 < opts[wi1].names.len()
                        &&& spec_classify(opts[wi1].names[wj1]) == ArgKind::ShortOption
                        &&& opts[wi1].names[wj1][1] == c
                        &&& forall|x: int, y: int|
                            0 <= x < oi && 0 <= y < opts[x].names.len() && spec_classify(
                                #[trigger] opts[x].names[y],
                            ) == ArgKind::ShortOption ==> opts[x].names[y][1] == c
                        &&& forall|y: int|
                            0 <= y < j && spec_classify(
                                #[trigger] opts[oi as int].names[y],
                            ) == ArgKind::ShortOption ==> opts[oi as int].names[y][1] == c
                    },
                    None => {
                        &&& forall|x: int, y: int|
                            0 <= x < oi && 0 <= y < opts[x].names.len() ==> spec_classify(
                                #[trigger] opts[x].names[y],
                            ) != ArgKind::ShortOption
                        &&& forall|y: int|
                            0 <= y < j ==> spec_classify(#[trigger] opts[oi as int].names[y])
                                != ArgKind::ShortOption
                    },
                },
                match first_long {
                    Some(nm) => {
                        &&& 0 <= li1 < opts.len() && 0 <= lj1 < opts[li1].names.len()
                        &&& spec_classify(opts[li1].names[lj1]) == ArgKind::LongOption
                        &&& opts[li1].names[lj1] == nm@
                        &&& forall|x: int, y: int|
                            0 <= x < oi && 0 <= y < opts[x].names.len() && spec_classify(
                                #[trigger] opts[x].names[y],
                            ) == ArgKind::LongOption ==> opts[x].names[y] == nm@
                        &&& forall|y: int|
                            0 <= y < j && spec_classify(
                                #[trigger] opts[oi as int].names[y],
                            ) == ArgKind::LongOption ==> opts[oi as int].names[y] == nm@
                    },
                    None => {
                        &&& forall|x: int, y: int|
                            0 <= x < oi && 0 <= y < opts[x].names.len() ==> spec_classify(
                                #[trigger] opts[x].names[y],
                            ) != ArgKind::LongOption
                        &&& forall|y: int|
                            0 <= y < j ==> spec_classify(#[trigger] opts[oi as int].names[y])
                                != ArgKind::LongOption
                    },
                },
            decreases nnames - j,
        {
            let nm: &str = parser.options[oi].names[j].as_str();
            proof {
                assert(nm@ == opts[oi as int].names[j as int]);
            }
            match classify(nm) {
                ArgKind::ShortOption => {
                    let c = nm.get_char(1);
                    match first_short {
                        None => {
                            first_short = Some(c);
                            proof {
                                wi1 = oi as int;
                                wj1 = j as int;
                            }
                        },
                        Some(c1) => {
                            if c != c1 {
                                assert(spec_two_distinct_shorts(opts));
                                return true;
                            }
                        },
                    }
                },
                ArgKind::LongOption => {
                    match first_long {
                        None => {
                            first_long = Some(nm);
                            proof {
                                li1 = oi as int;
                                lj1 = j as int;
                            }
                        },
                        Some(nm1) => {
                            if !str_eq(nm, nm1) {
                                assert(spec_two_distinct_longs(opts));
                                return true;
                            }
                        },
                    }
                },
                _ => {},
            }
            j += 1;
        }
        oi += 1;
    }
    proof {
        if spec_two_distinct_shorts(opts) {
            let (i1, j1, i2, j2): (int, int, int, int) = choose|i1: int, j1: int, i2: int, j2: int|
                {
                    &&& 0 <= i1 < opts.len() && 0 <= j1 < opts[i1].names.len()
                    &&& 0 <= i2 < opts.len() && 0 <= j2 < opts[i2].names.len()
                    &&& spec_classify(#[trigger] opts[i1].names[j1]) == ArgKind::ShortOption
                    &&& spec_classify(#[trigger] opts[i2].names[j2]) == ArgKind::ShortOption
                    &&& opts[i1].names[j1][1] != opts[i2].names[j2][1]
                };
            assert(first_short is Some);
            assert(false);
        }
        if spec_two_distinct_longs(opts) {
            let (i1, j1, i2, j2): (int, int, int, int) = choose|i1: int, j1: int, i2: int, j2: int|
                {
                    &&& 0 <= i1 < opts.len() && 0 <= j1 < opts[i1].names.len()
                    &&& 0 <= i2 < opts.len() && 0 <= j2 < opts[i2].names.len()
                    &&& spec_classify(#[trigger] opts[i1].names[j1]) == ArgKind::LongOption
                    &&& spec_classify(#[trigger] opts[i2].names[j2]) == ArgKind::LongOption
                    &&& opts[i1].names[j1] != opts[i2].names[j2]
                };
            assert(first_long is Some);
            assert(false);
        }
    }
    false
}

impl ArgumentParser {
    /// Render the one-line usage synopsis for the given command name.
    pub fn print_usage(&self, name: &str) -> (r: String)
        requires
            spec_ids_ok(self@),
        ensures
            r@ == spec_usage_text(self@, name@),
    {
        let ghost pv = self@;
        let mut out = String::from_str("Usage:\n  ");
        out.append(name);
        if self.options.len() != 0 {
            if shows_options(self) {
                out.append(" [OPTIONS]");
            }
            let ghost with_marker = out@;
            let nargs = self.arguments.len();
            let mut k: usize = 0;
            while k < nargs
                invariant
                    pv == self@,
                    spec_ids_ok(pv),
                    pv.arguments.len() == nargs,
                    nargs == self.arguments@.len(),
                    k <= nargs,
                    with_marker.add(spec_usage_args(pv, 0)) == out@.add(
                        spec_usage_args(pv, k as int),
                    ),
                decreases nargs - k,
            {
                let ghost before = out@;
                let a = &self.arguments[k];
                proof {
                    assert(a@ == pv.arguments[k as int]);
                    assert(pv.arguments[k as int].varid < pv.vars.len());
                }
                let required = self.vars[a.varid].required;
                let un = upper_name(a.name.as_str());
                if required {
                    out.append(" ");
                    out.append(un.as_str());
                    proof {
                        reveal_strlit(" ");
                        assert(out@ =~= before.add(spec_usage_arg(pv, pv.arguments[k as int])));
                    }
                } else {
                    out.append(" [");
                    out.append(un.as_str());
                    out.append("]");
                    proof {
                        reveal_strlit(" [");
                        reveal_strlit("]");
                        assert(out@ =~= before.add(spec_usage_arg(pv, pv.arguments[k as int])));
                    }
                }
                proof {
                    assert(with_marker.add(spec_usage_args(pv, 0)) =~= out@.add(
                        spec_usage_args(pv, k + 1),
                    ));
                }
                k += 1;
            }
            let ghost with_args = out@;
            match &self.catchall {
                Some(ca) => {
                    proof {
                        assert(ca@ == pv.catchall->0);
                        assert(ca@.varid < pv.vars.len());
                    }
                    let required = self.vars[ca.varid].required;
                    let un = upper_name(ca.name.as_str());
                    if required {
                        out.append(" ");
                        out.append(un.as_str());
                        out.append(" [...]");
                        proof {
                            reveal_strlit(" ");
                            assert(out@ =~= with_args.add(spec_usage_catch(pv)));
                        }
                    } else {
                        out.append(" [");
                        out.append(un.as_str());
                        out.append(" ...]");
                        proof {
                            reveal_strlit(" [");
                            assert(out@ =~= with_args.add(spec_usage_catch(pv)));
                        }
                    }
                },
                None => {
                    proof {
                        assert(out@ =~= with_args.add(spec_usage_catch(pv)));
                    }
                },
            }
            out.append("\n");
            proof {
                reveal_strlit("\n");
                assert(out@ =~= spec_usage_text(pv, name@));
            }
            out
        } else {
            out.append("\n");
            proof {
                reveal_strlit("\n");
                assert(out@ =~= spec_usage_text(pv, name@));
            }
            out
        }
    }

    /// Render an error the way resolution itself reports one: the usage
    /// synopsis followed by `command: message`.
    pub fn error(&self, command: &str, message: &str) -> (r: String)
        requires
            spec_ids_ok(self@),
        ensures
            r@ == spec_usage_text(self@, command@).add(command@).add(": "@).add(
                message@,
            ).push('\n'),
    {
        let mut out = self.print_usage(command);
        out.append(command);
        out.append(": ");
        out.append(message);
        out.append("\n");
        proof {
            reveal_strlit("\n");
            assert(out@ =~= spec_usage_text(self@, command@).add(command@).add(": "@).add(
                message@,
            ).push('\n'));
        }
        out
    }
}

/// The left padding between an entry and its description: a fresh
/// indented line when the entry already reaches the description column,
/// the filling spaces otherwise.
pub open spec fn spec_pad(num: int) -> Seq<char> {
    if num >= OPTION_WIDTH {
        seq!['\n'].add(spec_spaces(OPTION_WIDTH as int))
    } else {
        spec_spaces(OPTION_WIDTH - num)
    }
}

/// One positional entry of the help text.
pub open spec fn spec_arg_line(a: ArgView) -> Seq<char> {
    "  "@.add(a.name).add(spec_pad(2 + a.name.len() as int)).add(
        spec_wrap_text(a.help, TOTAL_WIDTH as int, OPTION_WIDTH as int),
    ).push('\n')
}

/// The fixed positional entries from index `k` on.
pub open spec fn spec_arg_lines(p: ParserView, k: int) -> Seq<char>
    decreases p.arguments.len() - k,
{
    if k < 0 || k >= p.arguments.len() {
        Seq::empty()
    } else {
        spec_arg_line(p.arguments[k]).add(spec_arg_lines(p, k + 1))
    }
}

/// An option's spellings after the first, each preceded by a comma.
pub open spec fn spec_names_joined_from(names: Seq<Seq<char>>, k: int) -> Seq<char>
    decreases names.len() - k,
{
    if k < 0 || k >= names.len() {
        Seq::empty()
    } else {
        seq![','].add(names[k]).add(spec_names_joined_from(names, k + 1))
    }
}

/// An option's spellings joined with commas.
pub open spec fn spec_names_joined(names: Seq<Seq<char>>) -> Seq<char> {
    names[0].add(spec_names_joined_from(names, 1))
}

/// One option entry of the help text: the joined spellings, the bound
/// variable's display name when the option takes a value, the padding,
/// and the wrapped help line.
pub open spec fn spec_opt_line(p: ParserView, o: OptView) -> Seq<char> {
    let joined = spec_names_joined(o.names);
    let suffix: Seq<char> = match o.action {
        ActionView::Flag(_) => Seq::empty(),
        _ => seq![' '].add(p.vars[o.varid->0 as int].metavar),
    };
    "  "@.add(joined).add(suffix).add(spec_pad(2 + joined.len() as int + suffix.len() as int)).add(
        spec_wrap_text(o.help, TOTAL_WIDTH as int, OPTION_WIDTH as int),
    ).push('\n')
}

/// The option entries from index `k` on.
pub open spec fn spec_opt_lines(p: ParserView, k: int) -> Seq<char>
    decreases p.options.len() - k,
{
    if k < 0 || k >= p.options.len() {
        Seq::empty()
    } else {
        spec_opt_line(p, p.options[k]).add(spec_opt_lines(p, k + 1))
    }
}

/// The whole help text: the synopsis, the wrapped description, and one
/// entry per positional and optional argument.
pub open spec fn spec_help_text(p: ParserView, name: Seq<char>) -> Seq<char> {
    spec_usage_text(p, name).push('\n').add(
        if p.description.len() > 0 {
            spec_wrap_text(p.description, TOTAL_WIDTH as int, 0).push('\n')
        } else {
            Seq::empty()
        },
    ).add(
        if p.arguments.len() > 0 || (p.catchall is Some) {
            "\nPositional arguments:\n"@.add(spec_arg_lines(p, 0)).add(
                match p.catchall {
                    Some(ca) => spec_arg_line(ca),
                    None => Seq::empty(),
                },
            )
        } else {
            Seq::empty()
        },
    ).add(
        if p.options.len() > 0 {
            "\nOptional arguments:\n"@.add(spec_opt_lines(p, 0))
        } else {
            Seq::empty()
        },
    )
}

/// Append the padding for an entry that already occupies `num` columns.
fn append_pad(out: &mut String, num: u128)
    ensures
        (*final(out))@ == (*old(out))@.add(spec_pad(num as int)),
{
    if num >= 24 {
        out.append("\n");
        proof {
            reveal_strlit("\n");
        }
        push_spaces(out, OPTION_WIDTH);
        proof {
            assert(out@ =~= (*old(out))@.add(spec_pad(num as int)));
        }
    } else {
        push_spaces(out, (24 - num) as usize);
        proof {
            assert(out@ =~= (*old(out))@.add(spec_pad(num as int)));
        }
    }
}

impl ArgumentParser {
    /// Render the full help text for the given command name.
    #[verifier::rlimit(60)]
    pub fn print_help(&self, name: &str) -> (r: String)
        requires
            spec_ids_ok(self@),
        ensures
            r@ == spec_help_text(self@, name@),
    {
        let ghost pv = self@;
        let mut out = self.print_usage(name);
        out.append("\n");
        proof {
            reveal_strlit("\n");
        }
        if self.description.as_str().unicode_len() > 0 {
            wrap_text(&mut out, self.description.as_str(), TOTAL_WIDTH, 0);
            out.append("\n");
        }
        let ghost after_desc = out@;
        proof {
            assert(after_desc =~= spec_usage_text(pv, name@).push('\n').add(
                if pv.description.len() > 0 {
                    spec_wrap_text(pv.description, TOTAL_WIDTH as int, 0).push('\n')
                } else {
                    Seq::empty()
                },
            ));
        }
        let has_pos = self.arguments.len() > 0 || matches!(&self.catchall, Some(_));
        if has_pos {
            out.append("\nPositional arguments:\n");
            let ghost pos_base = out@;
            let nargs = self.arguments.len();
            let mut k: usize = 0;
            while k < nargs
                invariant
                    pv == self@,
                    pv.arguments.len() == nargs,
                    nargs == self.arguments@.len(),
                    k <= nargs,
                    pos_base.add(spec_arg_lines(pv, 0)) == out@.add(
                        spec_arg_lines(pv, k as int),
                    ),
                decreases nargs - k,
            {
                let ghost before = out@;
                self.append_argument_line(&mut out, k);
                proof {
                    assert(pos_base.add(spec_arg_lines(pv, 0)) =~= out@.add(
                        spec_arg_lines(pv, k + 1),
                    ));
                }
                k += 1;
            }
            match &self.catchall {
                Some(ca) => {
                    let ghost before = out@;
                    append_arg_entry(&mut out, ca);
                    proof {
                        assert(ca@ == pv.catchall->0);
                    }
                },
                None => {},
            }
        }
        let ghost after_pos = out@;
        proof {
            assert(after_pos =~= after_desc.add(
                if pv.arguments.len() > 0 || (pv.catchall is Some) {
                    "\nPositional arguments:\n"@.add(spec_arg_lines(pv, 0)).add(
                        match pv.catchall {
                            Some(ca) => spec_arg_line(ca),
                            None => Seq::empty(),
                        },
                    )
                } else {
                    Seq::empty()
                },
            ));
        }
        if self.options.len() > 0 {
            out.append("\nOptional arguments:\n");
            let ghost opt_base = out@;
            let nopts = self.options.len();
            let mut k: usize = 0;
            while k < nopts
                invariant
                    pv == self@,
                    spec_ids_ok(pv),
                    pv.options.len() == nopts,
                    nopts == self.options@.len(),
                    k <= nopts,
                    opt_base.add(spec_opt_lines(pv, 0)) == out@.add(
                        spec_opt_lines(pv, k as int),
                    ),
                decreases nopts - k,
            {
                self.append_option_line(&mut out, k);
                proof {
                    assert(opt_base.add(spec_opt_lines(pv, 0)) =~= out@.add(
                        spec_opt_lines(pv, k + 1),
                    ));
                }
                k += 1;
            }
        }
        proof {
            assert(out@ =~= spec_help_text(pv, name@));
        }
        out
    }

    /// Append one fixed positional entry.
    fn append_argument_line(&self, out: &mut String, k: usize)
        requires
            k < self@.arguments.len(),
        ensures
            (*final(out))@ == (*old(out))@.add(spec_arg_line(self@.arguments[k as int])),
    {
        let a = &self.arguments[k];
        proof {
            assert(a@ == self@.arguments[k as int]);
        }
        append_arg_entry(out, a);
    }

    /// Append one option entry.
    fn append_option_line(&self, out: &mut String, k: usize)
        requires
            spec_ids_ok(self@),
            k < self@.options.len(),
        ensures
            (*final(out))@ == (*old(out))@.add(spec_opt_line(self@, self@.options[k as int])),
    {
        let ghost pv = self@;
        let o = &self.options[k];
        proof {
            assert(o@ == pv.options[k as int]);
        }
        let mut joined = o.names[0].clone();
        let nnames = o.names.len();
        let mut j: usize = 1;
        while j < nnames
            invariant
                o@ == pv.options[k as int],
                o.names@.len() == nnames,
                pv.options[k as int].names.len() == nnames,
                1 <= j <= nnames,
                pv.options[k as int].names[0].add(
                    spec_names_joined_from(pv.options[k as int].names, 1),
                ) == joined@.add(spec_names_joined_from(pv.options[k as int].names, j as int)),
            decreases nnames - j,
        {
            let ghost before = joined@;
            joined.append(",");
            joined.append(o.names[j].as_str());
            proof {
                reveal_strlit(",");
                assert(joined@ =~= before.push(',').add(pv.options[k as int].names[j as int]));
                assert(pv.options[k as int].names[0].add(
                    spec_names_joined_from(pv.options[k as int].names, 1),
                ) =~= joined@.add(spec_names_joined_from(pv.options[k as int].names, j + 1)));
            }
            j += 1;
        }
        proof {
            assert(joined@ == spec_names_joined(pv.options[k as int].names));
        }
        let is_flag = matches!(&o.action, Action::Flag(_));
        let mut suffix = String::new();
        if !is_flag {
            let v: usize = match &o.varid {
                Some(v) => *v,
                None => 0,
            };
            proof {
                assert(pv.options[k as int].varid == Some(v));
            }
            suffix.append(" ");
            suffix.append(self.vars[v].metavar.as_str());
            proof {
                reveal_strlit(" ");
                assert(suffix@ =~= seq![' '].add(pv.vars[v as int].metavar));
            }
        }
        let ghost sufv: Seq<char> = match pv.options[k as int].action {
            ActionView::Flag(_) => Seq::empty(),
            _ => seq![' '].add(pv.vars[pv.options[k as int].varid->0 as int].metavar),
        };
        proof {
            assert(suffix@ =~= sufv);
        }
        let num: u128 = 2 + joined.as_str().unicode_len() as u128 + suffix.as_str().unicode_len()
            as u128;
        out.append("  ");
        out.append(joined.as_str());
        out.append(suffix.as_str());
        append_pad(out, num);
        wrap_text(out, o.help.as_str(), TOTAL_WIDTH, OPTION_WIDTH);
        out.append("\n");
        proof {
            reveal_strlit("  ");
            reveal_strlit("\n");
            assert((*final(out))@ =~= (*old(out))@.add(spec_opt_line(pv, pv.options[k as int])));
        }
    }
}

/// Append one positional entry: the name, the padding, and the wrapped
/// help line.
fn append_arg_entry(out: &mut String, a: &crate::parser::ArgumentDecl)
    ensures
        (*final(out))@ == (*old(out))@.add(spec_arg_line(a@)),
{
    let num: u128 = 2 + a.name.as_str().unicode_len() as u128;
    out.append("  ");
    out.append(a.name.as_str());
    append_pad(out, num);
    wrap_text(out, a.help.as_str(), TOTAL_WIDTH, OPTION_WIDTH);
    out.append("\n");
    proof {
        reveal_strlit("  ");
        reveal_strlit("\n");
        assert((*final(out))@ =~= (*old(out))@.add(spec_arg_line(a@)));
    }
}

} // verus!
