//! The help request and word-wrapped text.
//!
//! `wrap_text` lays a text's words out greedily: words stay in order, a
//! single space separates words on one line, and a word that would pass the
//! total width starts a new line indented to the hanging-indent column.

use vstd::prelude::*;
use vstd::string::*;

use crate::action::{FlagOp, FlagOpView, IFlagAction};

verus! {

/// The built-in help request: a flag action that short-circuits resolution.
pub struct HelpAction;

impl IFlagAction for HelpAction {
    open spec fn spec_flag_op(&self) -> FlagOpView {
        FlagOpView::ShowHelp
    }

    fn flag_op(&self) -> (op: FlagOp) {
        FlagOp::ShowHelp
    }
}

/// Whether a character separates words.
pub open spec fn spec_is_space(c: char) -> bool {
    c == ' ' || c == '\t' || c == '\r' || c == '\n'
}

/// The first position at or after `i` holding a non-space character, or the
/// text's length when only spaces remain.
pub open spec fn spec_skip_spaces(s: Seq<char>, i: int) -> int
    decreases s.len() - i,
{
    if i < 0 || i >= s.len() {
        s.len() as int
    } else if spec_is_space(s[i]) {
        spec_skip_spaces(s, i + 1)
    } else {
        i
    }
}

/// The first position at or after `i` holding a space, or the text's length.
pub open spec fn spec_word_end(s: Seq<char>, i: int) -> int
    decreases s.len() - i,
{
    if i < 0 || i >= s.len() {
        s.len() as int
    } else if spec_is_space(s[i]) {
        i
    } else {
        spec_word_end(s, i + 1)
    }
}

/// `spec_skip_spaces` and `spec_word_end` stay within the text, never move
/// backwards, and stop at a character of the opposite class.
pub proof fn lemma_scan_bounds(s: Seq<char>, i: int)
    requires
        0 <= i <= s.len(),
    ensures
        i <= spec_skip_spaces(s, i) <= s.len(),
        i <= spec_word_end(s, i) <= s.len(),
        spec_skip_spaces(s, i) < s.len() ==> !spec_is_space(s[spec_skip_spaces(s, i)]),
        spec_word_end(s, i) < s.len() ==> spec_is_space(s[spec_word_end(s, i)]),
    decreases s.len() - i,
{
    if i < s.len() {
        lemma_scan_bounds(s, i + 1);
    }
}

/// The words of the text from position `i` on: the maximal runs of
/// non-space characters, in order.
pub open spec fn spec_words_from(s: Seq<char>, i: int) -> Seq<Seq<char>>
    decreases s.len() - i when 0 <= i <= s.len() via spec_words_from_decreases
{
    let ws = spec_skip_spaces(s, i);
    if ws >= s.len() {
        Seq::empty()
    } else {
        let we = spec_word_end(s, ws);
        seq![s.subrange(ws, we)].add(spec_words_from(s, we))
    }
}

#[via_fn]
proof fn spec_words_from_decreases(s: Seq<char>, i: int) {
    lemma_scan_bounds(s, i);
    let ws = spec_skip_spaces(s, i);
    if ws < s.len() {
        lemma_scan_bounds(s, ws + 1);
        assert(spec_word_end(s, ws) == spec_word_end(s, ws + 1));
    }
}

/// The words of a text.
pub open spec fn spec_words(s: Seq<char>) -> Seq<Seq<char>> {
    spec_words_from(s, 0)
}

/// `n` spaces.
pub open spec fn spec_spaces(n: int) -> Seq<char>
    decreases n,
{
    if n <= 0 {
        Seq::empty()
    } else {
        spec_spaces(n - 1).push(' ')
    }
}

/// The wrapped layout of the words after the first, given the column
/// reached so far.
pub open spec fn spec_wrap_rest(rem: Seq<Seq<char>>, off: int, width: int, indent: int) -> Seq<
    char,
>
    decreases rem.len(),
{
    if rem.len() == 0 {
        Seq::empty()
    } else if off + rem[0].len() + 1 > width {
        seq!['\n'].add(spec_spaces(indent)).add(rem[0]).add(
            spec_wrap_rest(rem.drop_first(), indent + rem[0].len(), width, indent),
        )
    } else {
        seq![' '].add(rem[0]).add(
            spec_wrap_rest(rem.drop_first(), off + 1 + rem[0].len(), width, indent),
        )
    }
}

/// The wrapped layout of a whole text: its first word flush at the current
/// column, every later word preceded by a space or a line break.
pub open spec fn spec_wrap_text(s: Seq<char>, width: int, indent: int) -> Seq<char> {
    let words = spec_words(s);
    if words.len() == 0 {
        Seq::empty()
    } else {
        words[0].add(spec_wrap_rest(words.drop_first(), indent + words[0].len(), width, indent))
    }
}

/// Whether a character separates words.
fn is_space_char(c: char) -> (r: bool)
    ensures
        r == spec_is_space(c),
{
    c == ' ' || c == '\t' || c == '\r' || c == '\n'
}

/// Find the next word at or after position `i`: its start and one-past-end
/// positions, or nothing when only spaces remain.
fn next_word(s: &str, i: usize) -> (r: Option<(usize, usize)>)
    requires
        i <= s@.len(),
    ensures
        match r {
            None => spec_words_from(s@, i as int) == Seq::<Seq<char>>::empty(),
            Some((ws, we)) => {
                &&& i <= ws < we <= s@.len()
                &&& spec_words_from(s@, i as int) == seq![s@.subrange(ws as int, we as int)].add(
                    spec_words_from(s@, we as int),
                )
                &&& spec_words_from(s@, i as int)[0] == s@.subrange(ws as int, we as int)
            },
        },
{
    let n = s.unicode_len();
    let mut ws: usize = i;
    while ws < n && is_space_char(s.get_char(ws))
        invariant
            n == s@.len(),
            i <= ws <= n,
            spec_skip_spaces(s@, i as int) == spec_skip_spaces(s@, ws as int),
        decreases n - ws,
    {
        ws += 1;
    }
    if ws >= n {
        assert(spec_skip_spaces(s@, ws as int) == n);
        return None;
    }
    assert(spec_skip_spaces(s@, i as int) == ws);
    let mut we: usize = ws;
    while we < n && !is_space_char(s.get_char(we))
        invariant
            n == s@.len(),
            ws <= we <= n,
            spec_word_end(s@, ws as int) == spec_word_end(s@, we as int),
            !spec_is_space(s@[ws as int]),
        decreases n - we,
    {
        we += 1;
    }
    assert(spec_word_end(s@, ws as int) == we);
    Some((ws, we))
}

/// Append `n` spaces.
pub(crate) fn push_spaces(buf: &mut String, n: usize)
    ensures
        (*final(buf))@ == (*old(buf))@.add(spec_spaces(n as int)),
{
    let mut j: usize = 0;
    while j < n
        invariant
            j <= n,
            buf@ == (*old(buf))@.add(spec_spaces(j as int)),
        decreases n - j,
    {
        buf.append(" ");
        proof {
            reveal_strlit(" ");
            assert((*old(buf))@.add(spec_spaces(j as int)).push(' ') =~= (*old(buf))@.add(
                spec_spaces(j + 1),
            ));
            assert(buf@ =~= (*old(buf))@.add(spec_spaces(j + 1)));
        }
        j += 1;
    }
}

/// Append the text to the buffer, word-wrapped at `width` columns with a
/// hanging indent, assuming `indent` columns are already occupied.
pub fn wrap_text(buf: &mut String, data: &str, width: usize, indent: usize)
    ensures
        (*final(buf))@ == (*old(buf))@.add(spec_wrap_text(data@, width as int, indent as int)),
{
    let ghost target = (*old(buf))@.add(spec_wrap_text(data@, width as int, indent as int));
    let n = data.unicode_len();
    match next_word(data, 0) {
        None => {
            assert(buf@ =~= target);
        },
        Some((ws0, we0)) => {
            buf.append(data.substring_char(ws0, we0));
            let mut off: u128 = indent as u128 + (we0 - ws0) as u128;
            let mut p: usize = we0;
            proof {
                assert(spec_words(data@).drop_first() =~= spec_words_from(data@, we0 as int));
                assert(target =~= buf@.add(
                    spec_wrap_rest(
                        spec_words_from(data@, p as int),
                        off as int,
                        width as int,
                        indent as int,
                    ),
                ));
            }
            loop
                invariant
                    n == data@.len(),
                    p <= n,
                    off as int <= indent + 2 * (p as int),
                    target == buf@.add(
                        spec_wrap_rest(
                            spec_words_from(data@, p as int),
                            off as int,
                            width as int,
                            indent as int,
                        ),
                    ),
                ensures
                    buf@ == target,
                decreases n - p,
            {
                match next_word(data, p) {
                    None => {
                        assert(buf@ =~= target);
                        break;
                    },
                    Some((ws, we)) => {
                        let wl: u128 = (we - ws) as u128;
                        let ghost rem = spec_words_from(data@, p as int);
                        proof {
                            assert(rem.drop_first() =~= spec_words_from(data@, we as int));
                        }
                        if off + wl + 1 > width as u128 {
                            buf.append("\n");
                            proof {
                                reveal_strlit("\n");
                            }
                            push_spaces(buf, indent);
                            off = indent as u128;
                        } else {
                            buf.append(" ");
                            proof {
                                reveal_strlit(" ");
                            }
                            off = off + 1;
                        }
                        buf.append(data.substring_char(ws, we));
                        off = off + wl;
                        p = we;
                        assert(target == buf@.add(
                            spec_wrap_rest(
                                spec_words_from(data@, p as int),
                                off as int,
                                width as int,
                                indent as int,
                            ),
                        )) by {
                            assert(buf@.add(
                                spec_wrap_rest(
                                    spec_words_from(data@, p as int),
                                    off as int,
                                    width as int,
                                    indent as int,
                                ),
                            ) =~= target);
                        }
                    },
                }
            }
        },
    }
}

} // verus!
