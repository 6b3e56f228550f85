//! Destinations, actions, and the binders that connect them.
//!
//! A destination is one cell of a table owned by the parser; its kind fixes
//! which conversion applies to it.  An action describes how a bound option
//! or positional argument consumes tokens and updates its destination:
//! `Flag` consumes none, `Single` exactly one, `Push` one per occurrence,
//! `Many` a greedy run of trailing tokens.

use vstd::prelude::*;
use vstd::string::*;

use crate::convert::{
    spec_parse_bool, spec_parse_int, parse_bool, parse_int,
};

verus! {

/// The outcome of one resolution step or of a whole resolution run.
#[derive(Debug)]
pub enum ParseResult {
    /// Resolution may continue (or has finished successfully).
    Parsed,
    /// A help request short-circuits everything else.
    Help,
    /// An explicit early exit, e.g. a version-printing option.
    Exit,
    /// A fatal parse error with a descriptive message.
    Error(String),
}

/// The mathematical value of a `ParseResult`.
#[verifier::ext_equal]
pub ghost enum Outcome {
    Parsed,
    Help,
    Exit,
    Error(Seq<char>),
}

impl View for ParseResult {
    type V = Outcome;

    open spec fn view(&self) -> Outcome {
        match self {
            ParseResult::Parsed => Outcome::Parsed,
            ParseResult::Help => Outcome::Help,
            ParseResult::Exit => Outcome::Exit,
            ParseResult::Error(m) => Outcome::Error(m@),
        }
    }
}

/// One destination cell: a typed value owned by the parser on the
/// application's behalf, updated in place during resolution.
#[derive(Clone, Debug, PartialEq)]
pub enum DestValue {
    Bool(bool),
    Int(i64),
    Str(String),
    OptInt(Option<i64>),
    OptStr(Option<String>),
    IntList(Vec<i64>),
    StrList(Vec<String>),
}

/// The mathematical value of a destination cell.
#[verifier::ext_equal]
pub ghost enum DestView {
    Bool(bool),
    Int(i64),
    Str(Seq<char>),
    OptInt(Option<i64>),
    OptStr(Option<Seq<char>>),
    IntList(Seq<i64>),
    StrList(Seq<Seq<char>>),
}

impl View for DestValue {
    type V = DestView;

    open spec fn view(&self) -> DestView {
        match self {
            DestValue::Bool(b) => DestView::Bool(*b),
            DestValue::Int(v) => DestView::Int(*v),
            DestValue::Str(s) => DestView::Str(s@),
            DestValue::OptInt(o) => DestView::OptInt(*o),
            DestValue::OptStr(o) => DestView::OptStr(
                match o {
                    Some(s) => Some(s@),
                    None => None,
                },
            ),
            DestValue::IntList(v) => DestView::IntList(v@),
            DestValue::StrList(v) => DestView::StrList(v.deep_view()),
        }
    }
}

impl DeepView for DestValue {
    type V = DestView;

    open spec fn deep_view(&self) -> DestView {
        self@
    }
}

/// The kind of a destination cell.
#[derive(Clone, Copy, PartialEq, Eq, Structural, Debug)]
pub enum DestKind {
    Bool,
    Int,
    Str,
    OptInt,
    OptStr,
    IntList,
    StrList,
}

/// The kind of a destination value.
pub open spec fn spec_kind_of(d: DestView) -> DestKind {
    match d {
        DestView::Bool(_) => DestKind::Bool,
        DestView::Int(_) => DestKind::Int,
        DestView::Str(_) => DestKind::Str,
        DestView::OptInt(_) => DestKind::OptInt,
        DestView::OptStr(_) => DestKind::OptStr,
        DestView::IntList(_) => DestKind::IntList,
        DestView::StrList(_) => DestKind::StrList,
    }
}

/// The kind of a destination cell.
pub fn kind_of(d: &DestValue) -> (k: DestKind)
    ensures
        k == spec_kind_of(d@),
{
    match d {
        DestValue::Bool(_) => DestKind::Bool,
        DestValue::Int(_) => DestKind::Int,
        DestValue::Str(_) => DestKind::Str,
        DestValue::OptInt(_) => DestKind::OptInt,
        DestValue::OptStr(_) => DestKind::OptStr,
        DestValue::IntList(_) => DestKind::IntList,
        DestValue::StrList(_) => DestKind::StrList,
    }
}

/// What a flag does to its destination when it fires.
#[derive(Clone, Debug)]
pub enum FlagOp {
    /// Overwrite a boolean destination with a constant.
    StoreBool(bool),
    /// Overwrite an integer destination with a constant.
    StoreInt(i64),
    /// Overwrite a string destination with a constant.
    StoreStr(String),
    /// Append a constant to an integer-list destination.
    PushInt(i64),
    /// Append a constant to a string-list destination.
    PushStr(String),
    /// Add a constant to an integer destination.
    AddInt(i64),
    /// Subtract a constant from an integer destination.
    SubInt(i64),
    /// Request the help text and stop.
    ShowHelp,
    /// Print a fixed text and stop with an explicit exit.
    PrintText(String),
}

/// The mathematical value of a flag operation.
#[verifier::ext_equal]
pub ghost enum FlagOpView {
    StoreBool(bool),
    StoreInt(i64),
    StoreStr(Seq<char>),
    PushInt(i64),
    PushStr(Seq<char>),
    AddInt(i64),
    SubInt(i64),
    ShowHelp,
    PrintText(Seq<char>),
}

impl View for FlagOp {
    type V = FlagOpView;

    open spec fn view(&self) -> FlagOpView {
        match self {
            FlagOp::StoreBool(b) => FlagOpView::StoreBool(*b),
            FlagOp::StoreInt(v) => FlagOpView::StoreInt(*v),
            FlagOp::StoreStr(s) => FlagOpView::StoreStr(s@),
            FlagOp::PushInt(v) => FlagOpView::PushInt(*v),
            FlagOp::PushStr(s) => FlagOpView::PushStr(s@),
            FlagOp::AddInt(v) => FlagOpView::AddInt(*v),
            FlagOp::SubInt(v) => FlagOpView::SubInt(*v),
            FlagOp::ShowHelp => FlagOpView::ShowHelp,
            FlagOp::PrintText(s) => FlagOpView::PrintText(s@),
        }
    }
}

/// How a bound surface consumes tokens.
#[derive(Clone, Debug)]
pub enum Action {
    /// Consumes no token; fires a flag operation.
    Flag(FlagOp),
    /// Consumes exactly one token and overwrites the destination.
    Single,
    /// Consumes one token per occurrence; the batch overwrites a list
    /// destination once all occurrences are known.
    Push,
    /// Consumes a greedy run of trailing tokens; the batch overwrites a
    /// list destination.
    Many,
}

/// The mathematical value of an action.
#[verifier::ext_equal]
pub ghost enum ActionView {
    Flag(FlagOpView),
    Single,
    Push,
    Many,
}

impl View for Action {
    type V = ActionView;

    open spec fn view(&self) -> ActionView {
        match self {
            Action::Flag(op) => ActionView::Flag(op@),
            Action::Single => ActionView::Single,
            Action::Push => ActionView::Push,
            Action::Many => ActionView::Many,
        }
    }
}

/// Whether a flag operation may be bound to a destination of this kind.
pub open spec fn spec_flag_compat(op: FlagOpView, k: DestKind) -> bool {
    match op {
        FlagOpView::StoreBool(_) => k == DestKind::Bool,
        FlagOpView::StoreInt(_) => k == DestKind::Int,
        FlagOpView::StoreStr(_) => k == DestKind::Str,
        FlagOpView::PushInt(_) => k == DestKind::IntList,
        FlagOpView::PushStr(_) => k == DestKind::StrList,
        FlagOpView::AddInt(_) => k == DestKind::Int,
        FlagOpView::SubInt(_) => k == DestKind::Int,
        FlagOpView::ShowHelp => true,
        FlagOpView::PrintText(_) => true,
    }
}

/// Whether an action may be bound to a destination of this kind.
pub open spec fn spec_action_compat(a: ActionView, k: DestKind) -> bool {
    match a {
        ActionView::Flag(op) => spec_flag_compat(op, k),
        ActionView::Single => k == DestKind::Bool || k == DestKind::Int || k == DestKind::Str
            || k == DestKind::OptInt || k == DestKind::OptStr,
        ActionView::Push => k == DestKind::IntList || k == DestKind::StrList,
        ActionView::Many => k == DestKind::IntList || k == DestKind::StrList,
    }
}

/// Whether an action may be bound to a destination of this kind.
pub fn action_compat(a: &Action, k: DestKind) -> (r: bool)
    ensures
        r == spec_action_compat(a@, k),
{
    match a {
        Action::Flag(op) => match op {
            FlagOp::StoreBool(_) => k == DestKind::Bool,
            FlagOp::StoreInt(_) => k == DestKind::Int,
            FlagOp::StoreStr(_) => k == DestKind::Str,
            FlagOp::PushInt(_) => k == DestKind::IntList,
            FlagOp::PushStr(_) => k == DestKind::StrList,
            FlagOp::AddInt(_) => k == DestKind::Int,
            FlagOp::SubInt(_) => k == DestKind::Int,
            FlagOp::ShowHelp => true,
            FlagOp::PrintText(_) => true,
        },
        Action::Single => k == DestKind::Bool || k == DestKind::Int || k == DestKind::Str || k
            == DestKind::OptInt || k == DestKind::OptStr,
        Action::Push => k == DestKind::IntList || k == DestKind::StrList,
        Action::Many => k == DestKind::IntList || k == DestKind::StrList,
    }
}

/// The destination value after a destination-writing flag operation fires.
/// Control operations and incompatible pairs leave the destination as it is.
pub open spec fn spec_apply_flag(op: FlagOpView, d: DestView) -> DestView {
    match (op, d) {
        (FlagOpView::StoreBool(b), DestView::Bool(_)) => DestView::Bool(b),
        (FlagOpView::StoreInt(v), DestView::Int(_)) => DestView::Int(v),
        (FlagOpView::StoreStr(s), DestView::Str(_)) => DestView::Str(s),
        (FlagOpView::PushInt(v), DestView::IntList(l)) => DestView::IntList(l.push(v)),
        (FlagOpView::PushStr(s), DestView::StrList(l)) => DestView::StrList(l.push(s)),
        (FlagOpView::AddInt(v), DestView::Int(x)) => DestView::Int(x.wrapping_add(v)),
        (FlagOpView::SubInt(v), DestView::Int(x)) => DestView::Int(x.wrapping_sub(v)),
        _ => d,
    }
}

/// Fire a destination-writing flag operation on its destination cell.
pub fn apply_flag(op: &FlagOp, d: &mut DestValue)
    ensures
        (*final(d))@ == spec_apply_flag(op@, (*old(d))@),
{
    match op {
        FlagOp::StoreBool(b) => {
            if let DestValue::Bool(_) = d {
                *d = DestValue::Bool(*b);
            }
        },
        FlagOp::StoreInt(v) => {
            if let DestValue::Int(_) = d {
                *d = DestValue::Int(*v);
            }
        },
        FlagOp::StoreStr(s) => {
            if let DestValue::Str(_) = d {
                *d = DestValue::Str(s.clone());
            }
        },
        FlagOp::PushInt(v) => {
            if let DestValue::IntList(l) = d {
                l.push(*v);
            }
        },
        FlagOp::PushStr(s) => {
            if let DestValue::StrList(l) = d {
                l.push(s.clone());
                assert(d@ =~= spec_apply_flag(op@, (*old(d))@));
            }
        },
        FlagOp::AddInt(v) => {
            if let DestValue::Int(x) = d {
                *d = DestValue::Int(x.wrapping_add(*v));
            }
        },
        FlagOp::SubInt(v) => {
            if let DestValue::Int(x) = d {
                *d = DestValue::Int(x.wrapping_sub(*v));
            }
        },
        FlagOp::ShowHelp => {},
        FlagOp::PrintText(_) => {},
    }
}

/// What storing one token into a scalar destination yields: the updated
/// destination, or nothing when the token does not convert.  List kinds
/// never take a single stored token.
pub open spec fn spec_store_token(d: DestView, t: Seq<char>) -> Option<DestView> {
    match d {
        DestView::Bool(_) => match spec_parse_bool(t) {
            Some(b) => Some(DestView::Bool(b)),
            None => None,
        },
        DestView::Int(_) => match spec_parse_int(t) {
            Some(v) => Some(DestView::Int(v as i64)),
            None => None,
        },
        DestView::Str(_) => Some(DestView::Str(t)),
        DestView::OptInt(_) => match spec_parse_int(t) {
            Some(v) => Some(DestView::OptInt(Some(v as i64))),
            None => None,
        },
        DestView::OptStr(_) => Some(DestView::OptStr(Some(t))),
        DestView::IntList(_) => None,
        DestView::StrList(_) => None,
    }
}

/// Convert one token and overwrite a scalar destination with it; reports
/// whether the conversion succeeded and leaves the destination unchanged
/// when it did not.
pub fn store_token(d: &mut DestValue, t: &str) -> (ok: bool)
    ensures
        match spec_store_token((*old(d))@, t@) {
            Some(nd) => ok && (*final(d))@ == nd,
            None => !ok && *final(d) == *old(d),
        },
{
    match d {
        DestValue::Bool(_) => match parse_bool(t) {
            Some(b) => {
                *d = DestValue::Bool(b);
                true
            },
            None => false,
        },
        DestValue::Int(_) => match parse_int(t) {
            Some(v) => {
                *d = DestValue::Int(v);
                true
            },
            None => false,
        },
        DestValue::Str(_) => {
            *d = DestValue::Str(t.to_owned());
            true
        },
        DestValue::OptInt(_) => match parse_int(t) {
            Some(v) => {
                *d = DestValue::OptInt(Some(v));
                true
            },
            None => false,
        },
        DestValue::OptStr(_) => {
            *d = DestValue::OptStr(Some(t.to_owned()));
            true
        },
        DestValue::IntList(_) => false,
        DestValue::StrList(_) => false,
    }
}

/// What converting a whole batch of accumulated tokens yields for a list
/// destination: the fresh list, or the index of the first token that fails
/// to convert.  The conversion is all or nothing.
pub open spec fn spec_convert_batch(d: DestView, toks: Seq<Seq<char>>) -> Result<DestView, int> {
    match d {
        DestView::IntList(_) => match spec_ints_of(toks) {
            Ok(vs) => Ok(DestView::IntList(vs)),
            Err(i) => Err(i),
        },
        DestView::StrList(_) => Ok(DestView::StrList(toks)),
        _ => Err(0),
    }
}

/// The integers a token batch denotes, or the index of the first token
/// that is not a valid integer.
pub open spec fn spec_ints_of(toks: Seq<Seq<char>>) -> Result<Seq<i64>, int>
    decreases toks.len(),
{
    if toks.len() == 0 {
        Ok(Seq::empty())
    } else {
        match spec_ints_of(toks.drop_last()) {
            Ok(vs) => match spec_parse_int(toks.last()) {
                Some(v) => Ok(vs.push(v as i64)),
                None => Err(toks.len() - 1),
            },
            Err(i) => Err(i),
        }
    }
}

/// Convert a batch of accumulated tokens and overwrite a list destination
/// with the result.  On failure the destination is left unmodified and the
/// index of the offending token is reported.
pub fn convert_batch(d: &mut DestValue, toks: &Vec<String>) -> (r: Option<usize>)
    ensures
        match spec_convert_batch((*old(d))@, toks.deep_view()) {
            Ok(nd) => r is None && (*final(d))@ == nd,
            Err(i) => r == Some(i as usize) && *final(d) == *old(d) && 0 <= i && (toks@.len() > 0
                ==> i < toks@.len()),
        },
{
    let ghost tv = toks.deep_view();
    proof {
        assert(tv.len() == toks@.len());
    }
    match kind_of(d) {
        DestKind::IntList => {
            let mut vs: Vec<i64> = Vec::new();
            let mut i: usize = 0;
            while i < toks.len()
                invariant
                    tv == toks.deep_view(),
                    tv.len() == toks@.len(),
                    i <= toks.len(),
                    *d == *old(d),
                    (*old(d))@ is IntList,
                    spec_ints_of(tv.subrange(0, i as int)) == Ok::<Seq<i64>, int>(vs@),
                decreases toks.len() - i,
            {
                let ghost prefix = tv.subrange(0, i as int);
                assert(tv.subrange(0, i + 1).drop_last() =~= prefix);
                assert(tv.subrange(0, i + 1).last() == toks@[i as int]@);
                match parse_int(toks[i].as_str()) {
                    Some(v) => {
                        vs.push(v);
                    },
                    None => {
                        proof {
                            assert(tv[i as int] == toks@[i as int]@);
                            lemma_ints_of_prefix_err(tv, i as int);
                        }
                        return Some(i);
                    },
                }
                i += 1;
            }
            assert(tv.subrange(0, toks@.len() as int) =~= tv);
            *d = DestValue::IntList(vs);
            None
        },
        DestKind::StrList => {
            let mut vs: Vec<String> = Vec::new();
            let mut i: usize = 0;
            while i < toks.len()
                invariant
                    tv == toks.deep_view(),
                    tv.len() == toks@.len(),
                    i <= toks.len(),
                    vs.deep_view() =~= tv.subrange(0, i as int),
                decreases toks.len() - i,
            {
                vs.push(toks[i].clone());
                assert(vs.deep_view() =~= tv.subrange(0, i as int).push(toks@[i as int]@));
                assert(vs.deep_view() =~= tv.subrange(0, i + 1));
                i += 1;
            }
            assert(tv.subrange(0, toks@.len() as int) =~= tv);
            *d = DestValue::StrList(vs);
            assert((*final(d))@ =~= DestView::StrList(tv));
            None
        },
        _ => Some(0),
    }
}

/// A batch whose prefix converts but whose next token does not fails at
/// exactly that token.
proof fn lemma_ints_of_prefix_err(toks: Seq<Seq<char>>, i: int)
    requires
        0 <= i < toks.len(),
        spec_ints_of(toks.subrange(0, i)) is Ok,
        spec_parse_int(toks[i]) is None,
    ensures
        spec_ints_of(toks) == Err::<Seq<i64>, int>(i),
    decreases toks.len() - i,
{
    if i == toks.len() - 1 {
        assert(toks.drop_last() =~= toks.subrange(0, i));
        assert(toks.last() == toks[i]);
    } else {
        assert(spec_ints_of(toks.subrange(0, toks.len() - 1)) == Err::<Seq<i64>, int>(i)) by {
            assert(toks.subrange(0, toks.len() - 1).subrange(0, i) =~= toks.subrange(0, i));
            assert(toks.subrange(0, toks.len() - 1)[i] == toks[i]);
            lemma_ints_of_prefix_err(toks.subrange(0, toks.len() - 1), i);
        }
        assert(toks.drop_last() =~= toks.subrange(0, toks.len() - 1));
    }
}

/// Marker: store `true` into a boolean destination when the flag fires.
pub struct StoreTrue;

/// Marker: store `false` into a boolean destination when the flag fires.
pub struct StoreFalse;

/// Marker: store a constant into the destination when the flag fires.
pub struct StoreConst<T>(pub T);

/// Marker: append a constant to a list destination when the flag fires.
pub struct PushConst<T>(pub T);

/// Marker: parse one token with the built-in conversion and overwrite the
/// destination.
pub struct Store;

/// Marker: parse one token and overwrite the destination; retained synonym
/// of `Store` for destinations bound through the conversion capability.
pub struct Parse;

/// Marker: parse one token and overwrite an optional destination with it.
pub struct StoreOption;

/// Marker: synonym of `StoreOption` for conversion-capability bindings.
pub struct ParseOption;

/// Marker: absorb a greedy run of tokens into a list destination.
pub struct List;

/// Marker: synonym of `List` for conversion-capability bindings.
pub struct ParseList;

/// Marker: accumulate one token per occurrence into a list destination.
pub struct Collect;

/// Marker: synonym of `Collect` for conversion-capability bindings.
pub struct ParseCollect;

/// Print a fixed text and exit with success; typically bound to a
/// `--version` option.
pub struct Print(pub String);

/// Marker: add a constant to an integer destination when the flag fires.
pub struct IncrBy<T>(pub T);

/// Marker: subtract a constant from an integer destination when the flag
/// fires.
pub struct DecrBy<T>(pub T);

/// The binder: turn a typed marker into the action it stands for.  Binding
/// happens at declaration time; the resolution engine then dispatches the
/// resulting action uniformly.
pub trait TypedAction {
    /// The action this marker binds to.
    spec fn spec_bind(&self) -> ActionView;

    /// Produce the bound action.
    fn bind(&self) -> (a: Action)
        ensures
            a@ == self.spec_bind(),
    ;
}

impl TypedAction for StoreTrue {
    open spec fn spec_bind(&self) -> ActionView {
        ActionView::Flag(FlagOpView::StoreBool(true))
    }

    fn bind(&self) -> (a: Action) {
        Action::Flag(FlagOp::StoreBool(true))
    }
}

impl TypedAction for StoreFalse {
    open spec fn spec_bind(&self) -> ActionView {
        ActionView::Flag(FlagOpView::StoreBool(false))
    }

    fn bind(&self) -> (a: Action) {
        Action::Flag(FlagOp::StoreBool(false))
    }
}

impl TypedAction for StoreConst<bool> {
    open spec fn spec_bind(&self) -> ActionView {
        ActionView::Flag(FlagOpView::StoreBool(self.0))
    }

    fn bind(&self) -> (a: Action) {
        Action::Flag(FlagOp::StoreBool(self.0))
    }
}

impl TypedAction for StoreConst<i64> {
    open spec fn spec_bind(&self) -> ActionView {
        ActionView::Flag(FlagOpView::StoreInt(self.0))
    }

    fn bind(&self) -> (a: Action) {
        Action::Flag(FlagOp::StoreInt(self.0))
    }
}

impl TypedAction for StoreConst<String> {
    open spec fn spec_bind(&self) -> ActionView {
        ActionView::Flag(FlagOpView::StoreStr(self.0@))
    }

    fn bind(&self) -> (a: Action) {
        Action::Flag(FlagOp::StoreStr(self.0.clone()))
    }
}

impl TypedAction for PushConst<i64> {
    open spec fn spec_bind(&self) -> ActionView {
        ActionView::Flag(FlagOpView::PushInt(self.0))
    }

    fn bind(&self) -> (a: Action) {
        Action::Flag(FlagOp::PushInt(self.0))
    }
}

impl TypedAction for PushConst<String> {
    open spec fn spec_bind(&self) -> ActionView {
        ActionView::Flag(FlagOpView::PushStr(self.0@))
    }

    fn bind(&self) -> (a: Action) {
        Action::Flag(FlagOp::PushStr(self.0.clone()))
    }
}

impl TypedAction for IncrBy<i64> {
    open spec fn spec_bind(&self) -> ActionView {
        ActionView::Flag(FlagOpView::AddInt(self.0))
    }

    fn bind(&self) -> (a: Action) {
        Action::Flag(FlagOp::AddInt(self.0))
    }
}

impl TypedAction for DecrBy<i64> {
    open spec fn spec_bind(&self) -> ActionView {
        ActionView::Flag(FlagOpView::SubInt(self.0))
    }

    fn bind(&self) -> (a: Action) {
        Action::Flag(FlagOp::SubInt(self.0))
    }
}

impl TypedAction for Store {
    open spec fn spec_bind(&self) -> ActionView {
        ActionView::Single
    }

    fn bind(&self) -> (a: Action) {
        Action::Single
    }
}

impl TypedAction for Parse {
    open spec fn spec_bind(&self) -> ActionView {
        ActionView::Single
    }

    fn bind(&self) -> (a: Action) {
        Action::Single
    }
}

impl TypedAction for StoreOption {
    open spec fn spec_bind(&self) -> ActionView {
        ActionView::Single
    }

    fn bind(&self) -> (a: Action) {
        Action::Single
    }
}

impl TypedAction for ParseOption {
    open spec fn spec_bind(&self) -> ActionView {
        ActionView::Single
    }

    fn bind(&self) -> (a: Action) {
        Action::Single
    }
}

impl TypedAction for List {
    open spec fn spec_bind(&self) -> ActionView {
        ActionView::Many
    }

    fn bind(&self) -> (a: Action) {
        Action::Many
    }
}

impl TypedAction for ParseList {
    open spec fn spec_bind(&self) -> ActionView {
        ActionView::Many
    }

    fn bind(&self) -> (a: Action) {
        Action::Many
    }
}

impl TypedAction for Collect {
    open spec fn spec_bind(&self) -> ActionView {
        ActionView::Push
    }

    fn bind(&self) -> (a: Action) {
        Action::Push
    }
}

impl TypedAction for ParseCollect {
    open spec fn spec_bind(&self) -> ActionView {
        ActionView::Push
    }

    fn bind(&self) -> (a: Action) {
        Action::Push
    }
}

/// A flag action not tied to any destination, such as `Print` or the
/// built-in help request.
pub trait IFlagAction {
    /// The flag operation this action fires.
    spec fn spec_flag_op(&self) -> FlagOpView;

    /// Produce the flag operation.
    fn flag_op(&self) -> (op: FlagOp)
        ensures
            op@ == self.spec_flag_op(),
    ;
}

impl IFlagAction for Print {
    open spec fn spec_flag_op(&self) -> FlagOpView {
        FlagOpView::PrintText(self.0@)
    }

    fn flag_op(&self) -> (op: FlagOp) {
        FlagOp::PrintText(self.0.clone())
    }
}

} // verus!
