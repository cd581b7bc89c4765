//! J's word formation: the state machine that finds word boundaries, and the
//! checks made on each word afterwards (its first character, its inflection,
//! its spelling as a primitive, whether it is a valid name).
use vstd::prelude::*;
use vstd::utf8::encode_utf8;
use crate::text::{str_eq, string_of, concat2, concat3, usize_to_string, nat_text};

verus! {

broadcast use vstd::string::group_string_axioms;

// ───────────────────────── the state machine ─────────────────────────

/// The scanner's state (J's S* codes).
#[allow(non_camel_case_types)]
#[derive(Debug, Clone, Copy, PartialEq, Eq, Structural)]
pub enum ParserState {
    /// SS: between words.
    Space,
    /// SS9: between words, the previous one numeric.
    SpaceAfterNumeric,
    /// SX: in a word of other characters.
    Other,
    /// SA: in a name.
    Alphanumeric,
    /// SN: after `N`.
    N,
    /// SNB: after `NB`.
    NB,
    /// SQQ: after a closing quote.
    EvenQuotes,
    /// S9: in a number.
    Numeric,
    /// S99: in a number that follows a number.
    NumericFollowon,
    /// SQ: inside a quoted string.
    Quote,
    /// SNZ: after `NB.`.
    NB_Dot,
    /// SZ: in a trailing comment.
    TrailComment,
    /// SU: after a line end.
    Uninflectable,
    /// SDD: after `{`.
    BraceOpen,
    /// SDDZ: after `}`.
    BraceClose,
    /// SDDD: after `{{` or `}}`.
    BraceDouble,
}

/// What the scanner does on a transition (J's E* codes).
#[derive(Debug, Clone, Copy, PartialEq, Eq, Structural)]
pub enum EmitAction {
    /// E0: nothing.
    Nothing,
    /// EI / EN: end the previous word, or start the next one.
    Emit,
    /// EZ: end the previous word and start the next one.
    Both,
}

/// The class of an input character (J's C* codes).
#[derive(Debug, Clone, Copy, PartialEq, Eq, Structural)]
pub enum CharClass {
    /// CX: other.
    Other,
    /// CDD: `{`.
    BraceOpen,
    /// CDDZ: `}`.
    BraceClose,
    /// CU: a line end.
    Uninflect,
    /// CS: a space.
    Space,
    /// CA: a letter.
    Alpha,
    /// CN: `N`.
    CharN,
    /// CB: `B`.
    CharB,
    /// C9: a digit.
    Digit,
    /// CD: `.`.
    Decimal,
    /// CC: `:`.
    Comment,
    /// CQ: a quote.
    Quote,
}

/// The state machine's table: the next state and the action for a state and
/// a character class.
pub open spec fn state_table(s: ParserState, c: CharClass) -> (ParserState, EmitAction) {
    match s {
        ParserState::Space => match c {
            CharClass::Other => (ParserState::Other, EmitAction::Emit),
            CharClass::BraceOpen => (ParserState::BraceOpen, EmitAction::Emit),
            CharClass::BraceClose => (ParserState::BraceClose, EmitAction::Emit),
            CharClass::Uninflect => (ParserState::Uninflectable, EmitAction::Emit),
            CharClass::Space => (ParserState::Space, EmitAction::Nothing),
            CharClass::Alpha => (ParserState::Alphanumeric, EmitAction::Emit),
            CharClass::CharN => (ParserState::N, EmitAction::Emit),
            CharClass::CharB => (ParserState::Alphanumeric, EmitAction::Emit),
            CharClass::Digit => (ParserState::Numeric, EmitAction::Emit),
            CharClass::Decimal => (ParserState::Other, EmitAction::Nothing),
            CharClass::Comment => (ParserState::Other, EmitAction::Nothing),
            CharClass::Quote => (ParserState::Quote, EmitAction::Emit),
        },
        ParserState::SpaceAfterNumeric => match c {
            CharClass::Other => (ParserState::Other, EmitAction::Emit),
            CharClass::BraceOpen => (ParserState::BraceOpen, EmitAction::Emit),
            CharClass::BraceClose => (ParserState::BraceClose, EmitAction::Emit),
            CharClass::Uninflect => (ParserState::Uninflectable, EmitAction::Emit),
            CharClass::Space => (ParserState::SpaceAfterNumeric, EmitAction::Nothing),
            CharClass::Alpha => (ParserState::Alphanumeric, EmitAction::Emit),
            CharClass::CharN => (ParserState::N, EmitAction::Emit),
            CharClass::CharB => (ParserState::Alphanumeric, EmitAction::Emit),
            CharClass::Digit => (ParserState::NumericFollowon, EmitAction::Emit),
            CharClass::Decimal => (ParserState::Other, EmitAction::Nothing),
            CharClass::Comment => (ParserState::Other, EmitAction::Nothing),
            CharClass::Quote => (ParserState::Quote, EmitAction::Emit),
        },
        ParserState::Other => match c {
            CharClass::Other => (ParserState::Other, EmitAction::Both),
            CharClass::BraceOpen => (ParserState::BraceOpen, EmitAction::Both),
            CharClass::BraceClose => (ParserState::BraceClose, EmitAction::Both),
            CharClass::Uninflect => (ParserState::Uninflectable, EmitAction::Both),
            CharClass::Space => (ParserState::Space, EmitAction::Emit),
            CharClass::Alpha => (ParserState::Alphanumeric, EmitAction::Both),
            CharClass::CharN => (ParserState::N, EmitAction::Both),
            CharClass::CharB => (ParserState::Alphanumeric, EmitAction::Both),
            CharClass::Digit => (ParserState::Numeric, EmitAction::Both),
            CharClass::Decimal => (ParserState::Other, EmitAction::Nothing),
            CharClass::Comment => (ParserState::Other, EmitAction::Nothing),
            CharClass::Quote => (ParserState::Quote, EmitAction::Both),
        },
        ParserState::Alphanumeric => match c {
            CharClass::Other => (ParserState::Other, EmitAction::Both),
            CharClass::BraceOpen => (ParserState::BraceOpen, EmitAction::Both),
            CharClass::BraceClose => (ParserState::BraceClose, EmitAction::Both),
            CharClass::Uninflect => (ParserState::Uninflectable, EmitAction::Both),
            CharClass::Space => (ParserState::Space, EmitAction::Emit),
            CharClass::Alpha => (ParserState::Alphanumeric, EmitAction::Nothing),
            CharClass::CharN => (ParserState::Alphanumeric, EmitAction::Nothing),
            CharClass::CharB => (ParserState::Alphanumeric, EmitAction::Nothing),
            CharClass::Digit => (ParserState::Alphanumeric, EmitAction::Nothing),
            CharClass::Decimal => (ParserState::Other, EmitAction::Nothing),
            CharClass::Comment => (ParserState::Other, EmitAction::Nothing),
            CharClass::Quote => (ParserState::Quote, EmitAction::Both),
        },
        ParserState::N => match c {
            CharClass::Other => (ParserState::Other, EmitAction::Both),
            CharClass::BraceOpen => (ParserState::BraceOpen, EmitAction::Both),
            CharClass::BraceClose => (ParserState::BraceClose, EmitAction::Both),
            CharClass::Uninflect => (ParserState::Uninflectable, EmitAction::Both),
            CharClass::Space => (ParserState::Space, EmitAction::Emit),
            CharClass::Alpha => (ParserState::Alphanumeric, EmitAction::Nothing),
            CharClass::CharN => (ParserState::Alphanumeric, EmitAction::Nothing),
            CharClass::CharB => (ParserState::NB, EmitAction::Nothing),
            CharClass::Digit => (ParserState::Alphanumeric, EmitAction::Nothing),
            CharClass::Decimal => (ParserState::Other, EmitAction::Nothing),
            CharClass::Comment => (ParserState::Other, EmitAction::Nothing),
            CharClass::Quote => (ParserState::Quote, EmitAction::Both),
        },
        ParserState::NB => match c {
            CharClass::Other => (ParserState::Other, EmitAction::Both),
            CharClass::BraceOpen => (ParserState::BraceOpen, EmitAction::Both),
            CharClass::BraceClose => (ParserState::BraceClose, EmitAction::Both),
            CharClass::Uninflect => (ParserState::Uninflectable, EmitAction::Both),
            CharClass::Space => (ParserState::Space, EmitAction::Emit),
            CharClass::Alpha => (ParserState::Alphanumeric, EmitAction::Nothing),
            CharClass::CharN => (ParserState::Alphanumeric, EmitAction::Nothing),
            CharClass::CharB => (ParserState::Alphanumeric, EmitAction::Nothing),
            CharClass::Digit => (ParserState::Alphanumeric, EmitAction::Nothing),
            CharClass::Decimal => (ParserState::NB_Dot, EmitAction::Nothing),
            CharClass::Comment => (ParserState::Other, EmitAction::Nothing),
            CharClass::Quote => (ParserState::Quote, EmitAction::Both),
        },
        ParserState::EvenQuotes => match c {
            CharClass::Other => (ParserState::Other, EmitAction::Both),
            CharClass::BraceOpen => (ParserState::BraceOpen, EmitAction::Both),
            CharClass::BraceClose => (ParserState::BraceClose, EmitAction::Both),
            CharClass::Uninflect => (ParserState::Uninflectable, EmitAction::Both),
            CharClass::Space => (ParserState::Space, EmitAction::Emit),
            CharClass::Alpha => (ParserState::Alphanumeric, EmitAction::Both),
            CharClass::CharN => (ParserState::N, EmitAction::Both),
            CharClass::CharB => (ParserState::Alphanumeric, EmitAction::Both),
            CharClass::Digit => (ParserState::Numeric, EmitAction::Both),
            CharClass::Decimal => (ParserState::Other, EmitAction::Both),
            CharClass::Comment => (ParserState::Other, EmitAction::Both),
            CharClass::Quote => (ParserState::Quote, EmitAction::Nothing),
        },
        ParserState::Numeric => match c {
            CharClass::Other => (ParserState::Other, EmitAction::Both),
            CharClass::BraceOpen => (ParserState::BraceOpen, EmitAction::Both),
            CharClass::BraceClose => (ParserState::BraceClose, EmitAction::Both),
            CharClass::Uninflect => (ParserState::Uninflectable, EmitAction::Both),
            CharClass::Space => (ParserState::SpaceAfterNumeric, EmitAction::Emit),
            CharClass::Alpha => (ParserState::Numeric, EmitAction::Nothing),
            CharClass::CharN => (ParserState::Numeric, EmitAction::Nothing),
            CharClass::CharB => (ParserState::Numeric, EmitAction::Nothing),
            CharClass::Digit => (ParserState::Numeric, EmitAction::Nothing),
            CharClass::Decimal => (ParserState::Numeric, EmitAction::Nothing),
            CharClass::Comment => (ParserState::Other, EmitAction::Nothing),
            CharClass::Quote => (ParserState::Quote, EmitAction::Both),
        },
        ParserState::NumericFollowon => match c {
            CharClass::Other => (ParserState::Other, EmitAction::Both),
            CharClass::BraceOpen => (ParserState::BraceOpen, EmitAction::Both),
            CharClass::BraceClose => (ParserState::BraceClose, EmitAction::Both),
            CharClass::Uninflect => (ParserState::Uninflectable, EmitAction::Both),
            CharClass::Space => (ParserState::SpaceAfterNumeric, EmitAction::Emit),
            CharClass::Alpha => (ParserState::NumericFollowon, EmitAction::Nothing),
            CharClass::CharN => (ParserState::NumericFollowon, EmitAction::Nothing),
            CharClass::CharB => (ParserState::NumericFollowon, EmitAction::Nothing),
            CharClass::Digit => (ParserState::NumericFollowon, EmitAction::Nothing),
            CharClass::Decimal => (ParserState::NumericFollowon, EmitAction::Nothing),
            CharClass::Comment => (ParserState::Other, EmitAction::Nothing),
            CharClass::Quote => (ParserState::Quote, EmitAction::Both),
        },
        ParserState::Quote => match c {
            CharClass::Other => (ParserState::Quote, EmitAction::Nothing),
            CharClass::BraceOpen => (ParserState::Quote, EmitAction::Nothing),
            CharClass::BraceClose => (ParserState::Quote, EmitAction::Nothing),
            CharClass::Uninflect => (ParserState::Quote, EmitAction::Nothing),
            CharClass::Space => (ParserState::Quote, EmitAction::Nothing),
            CharClass::Alpha => (ParserState::Quote, EmitAction::Nothing),
            CharClass::CharN => (ParserState::Quote, EmitAction::Nothing),
            CharClass::CharB => (ParserState::Quote, EmitAction::Nothing),
            CharClass::Digit => (ParserState::Quote, EmitAction::Nothing),
            CharClass::Decimal => (ParserState::Quote, EmitAction::Nothing),
            CharClass::Comment => (ParserState::Quote, EmitAction::Nothing),
            CharClass::Quote => (ParserState::EvenQuotes, EmitAction::Nothing),
        },
        ParserState::NB_Dot => match c {
            CharClass::Other => (ParserState::TrailComment, EmitAction::Nothing),
            CharClass::BraceOpen => (ParserState::TrailComment, EmitAction::Nothing),
            CharClass::BraceClose => (ParserState::TrailComment, EmitAction::Nothing),
            CharClass::Uninflect => (ParserState::Uninflectable, EmitAction::Both),
            CharClass::Space => (ParserState::TrailComment, EmitAction::Nothing),
            CharClass::Alpha => (ParserState::TrailComment, EmitAction::Nothing),
            CharClass::CharN => (ParserState::TrailComment, EmitAction::Nothing),
            CharClass::CharB => (ParserState::TrailComment, EmitAction::Nothing),
            CharClass::Digit => (ParserState::TrailComment, EmitAction::Nothing),
            CharClass::Decimal => (ParserState::Other, EmitAction::Nothing),
            CharClass::Comment => (ParserState::Other, EmitAction::Nothing),
            CharClass::Quote => (ParserState::TrailComment, EmitAction::Nothing),
        },
        ParserState::TrailComment => match c {
            CharClass::Other => (ParserState::TrailComment, EmitAction::Nothing),
            CharClass::BraceOpen => (ParserState::TrailComment, EmitAction::Nothing),
            CharClass::BraceClose => (ParserState::TrailComment, EmitAction::Nothing),
            CharClass::Uninflect => (ParserState::Uninflectable, EmitAction::Both),
            CharClass::Space => (ParserState::TrailComment, EmitAction::Nothing),
            CharClass::Alpha => (ParserState::TrailComment, EmitAction::Nothing),
            CharClass::CharN => (ParserState::TrailComment, EmitAction::Nothing),
            CharClass::CharB => (ParserState::TrailComment, EmitAction::Nothing),
            CharClass::Digit => (ParserState::TrailComment, EmitAction::Nothing),
            CharClass::Decimal => (ParserState::TrailComment, EmitAction::Nothing),
            CharClass::Comment => (ParserState::TrailComment, EmitAction::Nothing),
            CharClass::Quote => (ParserState::TrailComment, EmitAction::Nothing),
        },
        ParserState::Uninflectable => match c {
            CharClass::Other => (ParserState::Other, EmitAction::Both),
            CharClass::BraceOpen => (ParserState::BraceOpen, EmitAction::Both),
            CharClass::BraceClose => (ParserState::BraceClose, EmitAction::Both),
            CharClass::Uninflect => (ParserState::Uninflectable, EmitAction::Both),
            CharClass::Space => (ParserState::Space, EmitAction::Emit),
            CharClass::Alpha => (ParserState::Alphanumeric, EmitAction::Both),
            CharClass::CharN => (ParserState::N, EmitAction::Both),
            CharClass::CharB => (ParserState::Alphanumeric, EmitAction::Both),
            CharClass::Digit => (ParserState::Numeric, EmitAction::Both),
            CharClass::Decimal => (ParserState::Other, EmitAction::Both),
            CharClass::Comment => (ParserState::Other, EmitAction::Both),
            CharClass::Quote => (ParserState::Quote, EmitAction::Both),
        },
        ParserState::BraceOpen => match c {
            CharClass::Other => (ParserState::Other, EmitAction::Both),
            CharClass::BraceOpen => (ParserState::BraceDouble, EmitAction::Nothing),
            CharClass::BraceClose => (ParserState::BraceOpen, EmitAction::Both),
            CharClass::Uninflect => (ParserState::Uninflectable, EmitAction::Both),
            CharClass::Space => (ParserState::Space, EmitAction::Emit),
            CharClass::Alpha => (ParserState::Alphanumeric, EmitAction::Both),
            CharClass::CharN => (ParserState::N, EmitAction::Both),
            CharClass::CharB => (ParserState::Alphanumeric, EmitAction::Both),
            CharClass::Digit => (ParserState::Numeric, EmitAction::Both),
            CharClass::Decimal => (ParserState::Other, EmitAction::Nothing),
            CharClass::Comment => (ParserState::Other, EmitAction::Nothing),
            CharClass::Quote => (ParserState::Quote, EmitAction::Both),
        },
        ParserState::BraceClose => match c {
            CharClass::Other => (ParserState::Other, EmitAction::Both),
            CharClass::BraceOpen => (ParserState::BraceOpen, EmitAction::Both),
            CharClass::BraceClose => (ParserState::BraceDouble, EmitAction::Nothing),
            CharClass::Uninflect => (ParserState::Uninflectable, EmitAction::Both),
            CharClass::Space => (ParserState::Space, EmitAction::Emit),
            CharClass::Alpha => (ParserState::Alphanumeric, EmitAction::Both),
            CharClass::CharN => (ParserState::N, EmitAction::Both),
            CharClass::CharB => (ParserState::Alphanumeric, EmitAction::Both),
            CharClass::Digit => (ParserState::Numeric, EmitAction::Both),
            CharClass::Decimal => (ParserState::Other, EmitAction::Nothing),
            CharClass::Comment => (ParserState::Other, EmitAction::Nothing),
            CharClass::Quote => (ParserState::Quote, EmitAction::Both),
        },
        ParserState::BraceDouble => match c {
            CharClass::Other => (ParserState::Other, EmitAction::Both),
            CharClass::BraceOpen => (ParserState::BraceOpen, EmitAction::Both),
            CharClass::BraceClose => (ParserState::BraceClose, EmitAction::Both),
            CharClass::Uninflect => (ParserState::Uninflectable, EmitAction::Both),
            CharClass::Space => (ParserState::Space, EmitAction::Emit),
            CharClass::Alpha => (ParserState::Alphanumeric, EmitAction::Both),
            CharClass::CharN => (ParserState::N, EmitAction::Both),
            CharClass::CharB => (ParserState::Alphanumeric, EmitAction::Both),
            CharClass::Digit => (ParserState::Numeric, EmitAction::Both),
            CharClass::Decimal => (ParserState::Other, EmitAction::Nothing),
            CharClass::Comment => (ParserState::Other, EmitAction::Nothing),
            CharClass::Quote => (ParserState::Quote, EmitAction::Both),
        },
    }
}

/// One step of the state machine.
pub fn state_machine(s: ParserState, c: CharClass) -> (r: (ParserState, EmitAction))
    ensures
        r == state_table(s, c),
{
    match s {
        ParserState::Space => match c {
            CharClass::Other => (ParserState::Other, EmitAction::Emit),
            CharClass::BraceOpen => (ParserState::BraceOpen, EmitAction::Emit),
            CharClass::BraceClose => (ParserState::BraceClose, EmitAction::Emit),
            CharClass::Uninflect => (ParserState::Uninflectable, EmitAction::Emit),
            CharClass::Space => (ParserState::Space, EmitAction::Nothing),
            CharClass::Alpha => (ParserState::Alphanumeric, EmitAction::Emit),
            CharClass::CharN => (ParserState::N, EmitAction::Emit),
            CharClass::CharB => (ParserState::Alphanumeric, EmitAction::Emit),
            CharClass::Digit => (ParserState::Numeric, EmitAction::Emit),
            CharClass::Decimal => (ParserState::Other, EmitAction::Nothing),
            CharClass::Comment => (ParserState::Other, EmitAction::Nothing),
            CharClass::Quote => (ParserState::Quote, EmitAction::Emit),
        },
        ParserState::SpaceAfterNumeric => match c {
            CharClass::Other => (ParserState::Other, EmitAction::Emit),
            CharClass::BraceOpen => (ParserState::BraceOpen, EmitAction::Emit),
            CharClass::BraceClose => (ParserState::BraceClose, EmitAction::Emit),
            CharClass::Uninflect => (ParserState::Uninflectable, EmitAction::Emit),
            CharClass::Space => (ParserState::SpaceAfterNumeric, EmitAction::Nothing),
            CharClass::Alpha => (ParserState::Alphanumeric, EmitAction::Emit),
            CharClass::CharN => (ParserState::N, EmitAction::Emit),
            CharClass::CharB => (ParserState::Alphanumeric, EmitAction::Emit),
            CharClass::Digit => (ParserState::NumericFollowon, EmitAction::Emit),
            CharClass::Decimal => (ParserState::Other, EmitAction::Nothing),
            CharClass::Comment => (ParserState::Other, EmitAction::Nothing),
            CharClass::Quote => (ParserState::Quote, EmitAction::Emit),
        },
        ParserState::Other => match c {
            CharClass::Other => (ParserState::Other, EmitAction::Both),
            CharClass::BraceOpen => (ParserState::BraceOpen, EmitAction::Both),
            CharClass::BraceClose => (ParserState::BraceClose, EmitAction::Both),
            CharClass::Uninflect => (ParserState::Uninflectable, EmitAction::Both),
            CharClass::Space => (ParserState::Space, EmitAction::Emit),
            CharClass::Alpha => (ParserState::Alphanumeric, EmitAction::Both),
            CharClass::CharN => (ParserState::N, EmitAction::Both),
            CharClass::CharB => (ParserState::Alphanumeric, EmitAction::Both),
            CharClass::Digit => (ParserState::Numeric, EmitAction::Both),
            CharClass::Decimal => (ParserState::Other, EmitAction::Nothing),
            CharClass::Comment => (ParserState::Other, EmitAction::Nothing),
            CharClass::Quote => (ParserState::Quote, EmitAction::Both),
        },
        ParserState::Alphanumeric => match c {
            CharClass::Other => (ParserState::Other, EmitAction::Both),
            CharClass::BraceOpen => (ParserState::BraceOpen, EmitAction::Both),
            CharClass::BraceClose => (ParserState::BraceClose, EmitAction::Both),
            CharClass::Uninflect => (ParserState::Uninflectable, EmitAction::Both),
            CharClass::Space => (ParserState::Space, EmitAction::Emit),
            CharClass::Alpha => (ParserState::Alphanumeric, EmitAction::Nothing),
            CharClass::CharN => (ParserState::Alphanumeric, EmitAction::Nothing),
            CharClass::CharB => (ParserState::Alphanumeric, EmitAction::Nothing),
            CharClass::Digit => (ParserState::Alphanumeric, EmitAction::Nothing),
            CharClass::Decimal => (ParserState::Other, EmitAction::Nothing),
            CharClass::Comment => (ParserState::Other, EmitAction::Nothing),
            CharClass::Quote => (ParserState::Quote, EmitAction::Both),
        },
        ParserState::N => match c {
            CharClass::Other => (ParserState::Other, EmitAction::Both),
            CharClass::BraceOpen => (ParserState::BraceOpen, EmitAction::Both),
            CharClass::BraceClose => (ParserState::BraceClose, EmitAction::Both),
            CharClass::Uninflect => (ParserState::Uninflectable, EmitAction::Both),
            CharClass::Space => (ParserState::Space, EmitAction::Emit),
            CharClass::Alpha => (ParserState::Alphanumeric, EmitAction::Nothing),
            CharClass::CharN => (ParserState::Alphanumeric, EmitAction::Nothing),
            CharClass::CharB => (ParserState::NB, EmitAction::Nothing),
            CharClass::Digit => (ParserState::Alphanumeric, EmitAction::Nothing),
            CharClass::Decimal => (ParserState::Other, EmitAction::Nothing),
            CharClass::Comment => (ParserState::Other, EmitAction::Nothing),
            CharClass::Quote => (ParserState::Quote, EmitAction::Both),
        },
        ParserState::NB => match c {
            CharClass::Other => (ParserState::Other, EmitAction::Both),
            CharClass::BraceOpen => (ParserState::BraceOpen, EmitAction::Both),
            CharClass::BraceClose => (ParserState::BraceClose, EmitAction::Both),
            CharClass::Uninflect => (ParserState::Uninflectable, EmitAction::Both),
            CharClass::Space => (ParserState::Space, EmitAction::Emit),
            CharClass::Alpha => (ParserState::Alphanumeric, EmitAction::Nothing),
            CharClass::CharN => (ParserState::Alphanumeric, EmitAction::Nothing),
            CharClass::CharB => (ParserState::Alphanumeric, EmitAction::Nothing),
            CharClass::Digit => (ParserState::Alphanumeric, EmitAction::Nothing),
            CharClass::Decimal => (ParserState::NB_Dot, EmitAction::Nothing),
            CharClass::Comment => (ParserState::Other, EmitAction::Nothing),
            CharClass::Quote => (ParserState::Quote, EmitAction::Both),
        },
        ParserState::EvenQuotes => match c {
            CharClass::Other => (ParserState::Other, EmitAction::Both),
            CharClass::BraceOpen => (ParserState::BraceOpen, EmitAction::Both),
            CharClass::BraceClose => (ParserState::BraceClose, EmitAction::Both),
            CharClass::Uninflect => (ParserState::Uninflectable, EmitAction::Both),
            CharClass::Space => (ParserState::Space, EmitAction::Emit),
            CharClass::Alpha => (ParserState::Alphanumeric, EmitAction::Both),
            CharClass::CharN => (ParserState::N, EmitAction::Both),
            CharClass::CharB => (ParserState::Alphanumeric, EmitAction::Both),
            CharClass::Digit => (ParserState::Numeric, EmitAction::Both),
            CharClass::Decimal => (ParserState::Other, EmitAction::Both),
            CharClass::Comment => (ParserState::Other, EmitAction::Both),
            CharClass::Quote => (ParserState::Quote, EmitAction::Nothing),
        },
        ParserState::Numeric => match c {
            CharClass::Other => (ParserState::Other, EmitAction::Both),
            CharClass::BraceOpen => (ParserState::BraceOpen, EmitAction::Both),
            CharClass::BraceClose => (ParserState::BraceClose, EmitAction::Both),
            CharClass::Uninflect => (ParserState::Uninflectable, EmitAction::Both),
            CharClass::Space => (ParserState::SpaceAfterNumeric, EmitAction::Emit),
            CharClass::Alpha => (ParserState::Numeric, EmitAction::Nothing),
            CharClass::CharN => (ParserState::Numeric, EmitAction::Nothing),
            CharClass::CharB => (ParserState::Numeric, EmitAction::Nothing),
            CharClass::Digit => (ParserState::Numeric, EmitAction::Nothing),
            CharClass::Decimal => (ParserState::Numeric, EmitAction::Nothing),
            CharClass::Comment => (ParserState::Other, EmitAction::Nothing),
            CharClass::Quote => (ParserState::Quote, EmitAction::Both),
        },
        ParserState::NumericFollowon => match c {
            CharClass::Other => (ParserState::Other, EmitAction::Both),
            CharClass::BraceOpen => (ParserState::BraceOpen, EmitAction::Both),
            CharClass::BraceClose => (ParserState::BraceClose, EmitAction::Both),
            CharClass::Uninflect => (ParserState::Uninflectable, EmitAction::Both),
            CharClass::Space => (ParserState::SpaceAfterNumeric, EmitAction::Emit),
            CharClass::Alpha => (ParserState::NumericFollowon, EmitAction::Nothing),
            CharClass::CharN => (ParserState::NumericFollowon, EmitAction::Nothing),
            CharClass::CharB => (ParserState::NumericFollowon, EmitAction::Nothing),
            CharClass::Digit => (ParserState::NumericFollowon, EmitAction::Nothing),
            CharClass::Decimal => (ParserState::NumericFollowon, EmitAction::Nothing),
            CharClass::Comment => (ParserState::Other, EmitAction::Nothing),
            CharClass::Quote => (ParserState::Quote, EmitAction::Both),
        },
        ParserState::Quote => match c {
            CharClass::Other => (ParserState::Quote, EmitAction::Nothing),
            CharClass::BraceOpen => (ParserState::Quote, EmitAction::Nothing),
            CharClass::BraceClose => (ParserState::Quote, EmitAction::Nothing),
            CharClass::Uninflect => (ParserState::Quote, EmitAction::Nothing),
            CharClass::Space => (ParserState::Quote, EmitAction::Nothing),
            CharClass::Alpha => (ParserState::Quote, EmitAction::Nothing),
            CharClass::CharN => (ParserState::Quote, EmitAction::Nothing),
            CharClass::CharB => (ParserState::Quote, EmitAction::Nothing),
            CharClass::Digit => (ParserState::Quote, EmitAction::Nothing),
            CharClass::Decimal => (ParserState::Quote, EmitAction::Nothing),
            CharClass::Comment => (ParserState::Quote, EmitAction::Nothing),
            CharClass::Quote => (ParserState::EvenQuotes, EmitAction::Nothing),
        },
        ParserState::NB_Dot => match c {
            CharClass::Other => (ParserState::TrailComment, EmitAction::Nothing),
            CharClass::BraceOpen => (ParserState::TrailComment, EmitAction::Nothing),
            CharClass::BraceClose => (ParserState::TrailComment, EmitAction::Nothing),
            CharClass::Uninflect => (ParserState::Uninflectable, EmitAction::Both),
            CharClass::Space => (ParserState::TrailComment, EmitAction::Nothing),
            CharClass::Alpha => (ParserState::TrailComment, EmitAction::Nothing),
            CharClass::CharN => (ParserState::TrailComment, EmitAction::Nothing),
            CharClass::CharB => (ParserState::TrailComment, EmitAction::Nothing),
            CharClass::Digit => (ParserState::TrailComment, EmitAction::Nothing),
            CharClass::Decimal => (ParserState::Other, EmitAction::Nothing),
            CharClass::Comment => (ParserState::Other, EmitAction::Nothing),
            CharClass::Quote => (ParserState::TrailComment, EmitAction::Nothing),
        },
        ParserState::TrailComment => match c {
            CharClass::Other => (ParserState::TrailComment, EmitAction::Nothing),
            CharClass::BraceOpen => (ParserState::TrailComment, EmitAction::Nothing),
            CharClass::BraceClose => (ParserState::TrailComment, EmitAction::Nothing),
            CharClass::Uninflect => (ParserState::Uninflectable, EmitAction::Both),
            CharClass::Space => (ParserState::TrailComment, EmitAction::Nothing),
            CharClass::Alpha => (ParserState::TrailComment, EmitAction::Nothing),
            CharClass::CharN => (ParserState::TrailComment, EmitAction::Nothing),
            CharClass::CharB => (ParserState::TrailComment, EmitAction::Nothing),
            CharClass::Digit => (ParserState::TrailComment, EmitAction::Nothing),
            CharClass::Decimal => (ParserState::TrailComment, EmitAction::Nothing),
            CharClass::Comment => (ParserState::TrailComment, EmitAction::Nothing),
            CharClass::Quote => (ParserState::TrailComment, EmitAction::Nothing),
        },
        ParserState::Uninflectable => match c {
            CharClass::Other => (ParserState::Other, EmitAction::Both),
            CharClass::BraceOpen => (ParserState::BraceOpen, EmitAction::Both),
            CharClass::BraceClose => (ParserState::BraceClose, EmitAction::Both),
            CharClass::Uninflect => (ParserState::Uninflectable, EmitAction::Both),
            CharClass::Space => (ParserState::Space, EmitAction::Emit),
            CharClass::Alpha => (ParserState::Alphanumeric, EmitAction::Both),
            CharClass::CharN => (ParserState::N, EmitAction::Both),
            CharClass::CharB => (ParserState::Alphanumeric, EmitAction::Both),
            CharClass::Digit => (ParserState::Numeric, EmitAction::Both),
            CharClass::Decimal => (ParserState::Other, EmitAction::Both),
            CharClass::Comment => (ParserState::Other, EmitAction::Both),
            CharClass::Quote => (ParserState::Quote, EmitAction::Both),
        },
        ParserState::BraceOpen => match c {
            CharClass::Other => (ParserState::Other, EmitAction::Both),
            CharClass::BraceOpen => (ParserState::BraceDouble, EmitAction::Nothing),
            CharClass::BraceClose => (ParserState::BraceOpen, EmitAction::Both),
            CharClass::Uninflect => (ParserState::Uninflectable, EmitAction::Both),
            CharClass::Space => (ParserState::Space, EmitAction::Emit),
            CharClass::Alpha => (ParserState::Alphanumeric, EmitAction::Both),
            CharClass::CharN => (ParserState::N, EmitAction::Both),
            CharClass::CharB => (ParserState::Alphanumeric, EmitAction::Both),
            CharClass::Digit => (ParserState::Numeric, EmitAction::Both),
            CharClass::Decimal => (ParserState::Other, EmitAction::Nothing),
            CharClass::Comment => (ParserState::Other, EmitAction::Nothing),
            CharClass::Quote => (ParserState::Quote, EmitAction::Both),
        },
        ParserState::BraceClose => match c {
            CharClass::Other => (ParserState::Other, EmitAction::Both),
            CharClass::BraceOpen => (ParserState::BraceOpen, EmitAction::Both),
            CharClass::BraceClose => (ParserState::BraceDouble, EmitAction::Nothing),
            CharClass::Uninflect => (ParserState::Uninflectable, EmitAction::Both),
            CharClass::Space => (ParserState::Space, EmitAction::Emit),
            CharClass::Alpha => (ParserState::Alphanumeric, EmitAction::Both),
            CharClass::CharN => (ParserState::N, EmitAction::Both),
            CharClass::CharB => (ParserState::Alphanumeric, EmitAction::Both),
            CharClass::Digit => (ParserState::Numeric, EmitAction::Both),
            CharClass::Decimal => (ParserState::Other, EmitAction::Nothing),
            CharClass::Comment => (ParserState::Other, EmitAction::Nothing),
            CharClass::Quote => (ParserState::Quote, EmitAction::Both),
        },
        ParserState::BraceDouble => match c {
            CharClass::Other => (ParserState::Other, EmitAction::Both),
            CharClass::BraceOpen => (ParserState::BraceOpen, EmitAction::Both),
            CharClass::BraceClose => (ParserState::BraceClose, EmitAction::Both),
            CharClass::Uninflect => (ParserState::Uninflectable, EmitAction::Both),
            CharClass::Space => (ParserState::Space, EmitAction::Emit),
            CharClass::Alpha => (ParserState::Alphanumeric, EmitAction::Both),
            CharClass::CharN => (ParserState::N, EmitAction::Both),
            CharClass::CharB => (ParserState::Alphanumeric, EmitAction::Both),
            CharClass::Digit => (ParserState::Numeric, EmitAction::Both),
            CharClass::Decimal => (ParserState::Other, EmitAction::Nothing),
            CharClass::Comment => (ParserState::Other, EmitAction::Nothing),
            CharClass::Quote => (ParserState::Quote, EmitAction::Both),
        },
    }
}

/// Inside a quoted string every character but a quote is taken silently; a
/// quote moves to the closing-quote state.
pub proof fn quote_keeps_its_text(c: CharClass)
    ensures
        c != CharClass::Quote ==> state_table(ParserState::Quote, c) == (ParserState::Quote, EmitAction::Nothing),
        state_table(ParserState::Quote, CharClass::Quote) == (ParserState::EvenQuotes, EmitAction::Nothing),
{
}

/// A trailing comment runs to the line end: only a line end leaves it.
pub proof fn comment_runs_to_line_end(c: CharClass)
    ensures
        c != CharClass::Uninflect ==> state_table(ParserState::TrailComment, c).0 == ParserState::TrailComment,
        state_table(ParserState::TrailComment, c).1 != EmitAction::Emit,
        state_table(ParserState::TrailComment, CharClass::Uninflect) == (ParserState::Uninflectable, EmitAction::Both),
{
}

/// A line end leads to the line-end state from every state but a quoted
/// string.
pub proof fn line_end_ends_words(s: ParserState)
    requires
        s != ParserState::Quote,
    ensures
        state_table(s, CharClass::Uninflect).0 == ParserState::Uninflectable,
{
}

/// A space ends the word being read, and is taken silently between words,
/// in a string or in a comment.
pub proof fn space_ends_words(s: ParserState)
    ensures
        match s {
            ParserState::Space => state_table(s, CharClass::Space) == (ParserState::Space, EmitAction::Nothing),
            ParserState::SpaceAfterNumeric => state_table(s, CharClass::Space) == (ParserState::SpaceAfterNumeric, EmitAction::Nothing),
            ParserState::Quote => state_table(s, CharClass::Space) == (ParserState::Quote, EmitAction::Nothing),
            ParserState::NB_Dot | ParserState::TrailComment => state_table(s, CharClass::Space) == (ParserState::TrailComment, EmitAction::Nothing),
            ParserState::Numeric | ParserState::NumericFollowon => state_table(s, CharClass::Space) == (ParserState::SpaceAfterNumeric, EmitAction::Emit),
            _ => state_table(s, CharClass::Space) == (ParserState::Space, EmitAction::Emit),
        },
{
}

/// `N`, `B`, `.` read between words reach the comment marker state.
pub proof fn nb_dot_starts_comment()
    ensures
        state_table(ParserState::Space, CharClass::CharN).0 == ParserState::N,
        state_table(ParserState::N, CharClass::CharB).0 == ParserState::NB,
        state_table(ParserState::NB, CharClass::Decimal).0 == ParserState::NB_Dot,
{
}


/// Whether a character class can continue a name: a letter (`N` and `B`
/// among them) or a digit.
pub open spec fn name_char(c: CharClass) -> bool {
    c == CharClass::Alpha || c == CharClass::CharN || c == CharClass::CharB || c == CharClass::Digit
}

/// Inside a name, letters and digits continue the name and emit nothing (as
/// in `x1` or `ab2c`); after a word's `N` or `NB`, a letter or a digit other
/// than the `B` of `NB` makes it an ordinary name.
pub proof fn names_continue_with_letters_and_digits(c: CharClass)
    requires
        name_char(c),
    ensures
        state_table(ParserState::Alphanumeric, c) == (ParserState::Alphanumeric, EmitAction::Nothing),
        state_table(ParserState::NB, c) == (ParserState::Alphanumeric, EmitAction::Nothing),
        c != CharClass::CharB ==> state_table(ParserState::N, c) == (ParserState::Alphanumeric, EmitAction::Nothing),
{
}

/// Inside a number, letters, digits and `.` continue the number and emit
/// nothing (as in `12`, `1.5`, `2j3` or `_4`).
pub proof fn numbers_continue_with_letters_digits_and_dots(c: CharClass)
    requires
        name_char(c) || c == CharClass::Decimal,
    ensures
        state_table(ParserState::Numeric, c) == (ParserState::Numeric, EmitAction::Nothing),
        state_table(ParserState::NumericFollowon, c) == (ParserState::NumericFollowon, EmitAction::Nothing),
{
}

/// Between words, a letter starts a name and a digit a number, each a new
/// word (a digit after a number and spaces starts a number that follows it);
/// right after a word of other characters, they end that word and start the
/// new one.
pub proof fn letters_and_digits_start_words(c: CharClass)
    requires
        c == CharClass::Alpha || c == CharClass::CharB || c == CharClass::Digit,
    ensures
        state_table(ParserState::Space, c).1 == EmitAction::Emit,
        state_table(ParserState::SpaceAfterNumeric, c).1 == EmitAction::Emit,
        state_table(ParserState::Other, c).1 == EmitAction::Both,
        c == CharClass::Digit ==> {
            &&& state_table(ParserState::Space, c).0 == ParserState::Numeric
            &&& state_table(ParserState::SpaceAfterNumeric, c).0 == ParserState::NumericFollowon
            &&& state_table(ParserState::Other, c).0 == ParserState::Numeric
        },
        c != CharClass::Digit ==> {
            &&& state_table(ParserState::Space, c).0 == ParserState::Alphanumeric
            &&& state_table(ParserState::SpaceAfterNumeric, c).0 == ParserState::Alphanumeric
            &&& state_table(ParserState::Other, c).0 == ParserState::Alphanumeric
        },
{
}

/// A `.` or `:` after a name or a primitive inflects the word being read: it
/// joins it (emitting nothing) and the word continues as a word of other
/// characters (as in `i.` or `=:`).
pub proof fn inflections_join_the_word(s: ParserState, c: CharClass)
    requires
        c == CharClass::Decimal || c == CharClass::Comment,
        s == ParserState::Other || s == ParserState::Alphanumeric
            || s == ParserState::N || s == ParserState::BraceOpen || s == ParserState::BraceClose,
    ensures
        state_table(s, c) == (ParserState::Other, EmitAction::Nothing),
{
}

// ───────────────────────── word properties ─────────────────────────

/// The attribute flags of a word (a set of bits).
#[derive(Debug, Clone, Copy, PartialEq, Eq, Structural)]
pub struct AttrType {
    pub bits: u32,
}

impl AttrType {
    /// The flag of a name.
    pub fn name_attr() -> (r: AttrType)
        ensures
            r.bits == 1,
    {
        AttrType { bits: 1 }
    }

    /// The flag of an assignment.
    pub fn asgn_attr() -> (r: AttrType)
        ensures
            r.bits == 2,
    {
        AttrType { bits: 2 }
    }

    /// Whether every flag of `other` is set here.
    pub open spec fn spec_contains(self, other: AttrType) -> bool {
        (self.bits & other.bits) == other.bits
    }

    pub fn contains(&self, other: AttrType) -> (r: bool)
        ensures
            r == self.spec_contains(other),
    {
        (self.bits & other.bits) == other.bits
    }
}

/// A word of a sentence: its attributes, its primitive code and its text.
pub struct JWord {
    pub attr_type: AttrType,
    pub primitive_code: char,
    pub name: String,
}

/// Whether a word has the name attribute (J's TNAME).
pub open spec fn spec_is_name(word: &JWord) -> bool {
    word.attr_type.spec_contains(AttrType { bits: 1 })
}

/// Whether a word has the name attribute (J's TNAME).
pub fn is_name(word: &JWord) -> (r: bool)
    ensures
        r == spec_is_name(word),
{
    word.attr_type.contains(AttrType::name_attr())
}

/// Whether a word has the assignment attribute (J's TASGN).
pub fn is_assignment(word: &JWord) -> (r: bool)
    ensures
        r == word.attr_type.spec_contains(AttrType { bits: 2 }),
{
    word.attr_type.contains(AttrType::asgn_attr())
}

/// Whether a word is the primitive with the given code (J's TVERB).
pub fn is_verb(word: &JWord, verb_code: char) -> (r: bool)
    ensures
        r == (word.primitive_code == verb_code),
{
    word.primitive_code == verb_code
}

/// Whether a word is the right brace `}`.
pub fn is_rbrace(word: &JWord) -> (r: bool)
    ensures
        r == (word.primitive_code == '}'),
{
    is_verb(word, '}')
}

/// Whether two words are names with the same text.
pub fn names_equal(word_i: &JWord, word_j: &JWord) -> (r: bool)
    ensures
        r == (spec_is_name(word_i) && spec_is_name(word_j) && word_i.name@ == word_j.name@),
{
    is_name(word_i) && is_name(word_j) && str_eq(word_i.name.as_str(), word_j.name.as_str())
}

/// The class of a word's first byte.
#[derive(Debug, Clone, Copy, PartialEq, Eq, Structural)]
pub enum FirstCharClass {
    /// Another printable ASCII byte (32 to 127).
    Ascii32to127,
    /// A digit.
    Digit,
    /// A letter or `_`: a name.
    Alpha,
    /// A quote: a string.
    Quote,
    /// Any other byte.
    Other,
}

/// The class of a word's first byte.
pub open spec fn first_char_class(c: u8) -> FirstCharClass {
    if 48 <= c <= 57 {
        FirstCharClass::Digit
    } else if (97 <= c <= 122) || (65 <= c <= 90) || c == 95 {
        FirstCharClass::Alpha
    } else if c == 39 {
        FirstCharClass::Quote
    } else if 32 <= c <= 127 {
        FirstCharClass::Ascii32to127
    } else {
        FirstCharClass::Other
    }
}

/// The class of a word's first byte.
pub fn classify_first_char(c: u8) -> (r: FirstCharClass)
    ensures
        r == first_char_class(c),
{
    if 48 <= c && c <= 57 {
        FirstCharClass::Digit
    } else if (97 <= c && c <= 122) || (65 <= c && c <= 90) || c == 95 {
        FirstCharClass::Alpha
    } else if c == 39 {
        FirstCharClass::Quote
    } else if 32 <= c && c <= 127 {
        FirstCharClass::Ascii32to127
    } else {
        FirstCharClass::Other
    }
}

/// The inflection a word ends with.
#[derive(Debug, Clone, Copy, PartialEq, Eq, Structural)]
pub enum InflectionMarker {
    /// `.`
    Dot,
    /// `:`
    Colon,
    /// No inflection.
    NoInflection,
}

/// The inflection of a word's bytes: its last byte when it is `.` or `:`
/// and the word has at least two bytes.
pub open spec fn inflection_of(b: Seq<u8>) -> InflectionMarker {
    if b.len() >= 2 && b.last() == 46 {
        InflectionMarker::Dot
    } else if b.len() >= 2 && b.last() == 58 {
        InflectionMarker::Colon
    } else {
        InflectionMarker::NoInflection
    }
}

/// The inflection a word ends with.
pub fn get_inflection(word: &str) -> (r: InflectionMarker)
    ensures
        r == inflection_of(encode_utf8(word@)),
{
    let b = word.as_bytes();
    let n = b.len();
    if n >= 2 {
        let last = b[n - 1];
        if last == 46 {
            InflectionMarker::Dot
        } else if last == 58 {
            InflectionMarker::Colon
        } else {
            InflectionMarker::NoInflection
        }
    } else {
        InflectionMarker::NoInflection
    }
}


// ───────────────────────── spell-in tables ─────────────────────────

/// The index of a two-byte spelling in the table.
pub open spec fn index2(a: u8, b: u8) -> int {
    a as int * 256 + b as int
}

/// The index of a three-byte spelling in the table.
pub open spec fn index3(a: u8, b: u8, c: u8) -> int {
    (a as int * 256 + b as int) * 256 + c as int
}

/// The spell-in tables (J's spellintab2 and spellintab3): for each two-
/// and three-byte spelling of a primitive, the byte of its canonical code,
/// 0 where there is none.
pub struct SpellinTables {
    pub two: Vec<u8>,
    pub three: Vec<u8>,
}

impl SpellinTables {
    /// Both tables hold an entry for every spelling.
    pub open spec fn wf(&self) -> bool {
        &&& self.two@.len() == 65536
        &&& self.three@.len() == 16777216
    }

    /// The entry of a two-byte spelling.
    pub open spec fn entry2(&self, a: u8, b: u8) -> u8 {
        self.two@[index2(a, b)]
    }

    /// The entry of a three-byte spelling.
    pub open spec fn entry3(&self, a: u8, b: u8, c: u8) -> u8 {
        self.three@[index3(a, b, c)]
    }

    /// Empty tables: no spelling has an entry.
    pub fn new() -> (t: SpellinTables)
        ensures
            t.wf(),
            forall|i: int| 0 <= i < 65536 ==> #[trigger] t.two@[i] == 0,
            forall|i: int| 0 <= i < 16777216 ==> #[trigger] t.three@[i] == 0,
    {
        let two: Vec<u8> = vec![0u8; 65536];
        let three: Vec<u8> = vec![0u8; 16777216];
        SpellinTables { two, three }
    }

    /// Sets the entry of a two-byte spelling.
    pub fn set2(&mut self, a: u8, b: u8, code: u8)
        requires
            old(self).wf(),
        ensures
            final(self).wf(),
            final(self).two@ == old(self).two@.update(index2(a, b), code),
            final(self).three@ == old(self).three@,
    {
        let i = (a as usize) * 256 + (b as usize);
        self.two.set(i, code);
    }

    /// Sets the entry of a three-byte spelling.
    pub fn set3(&mut self, a: u8, b: u8, c: u8, code: u8)
        requires
            old(self).wf(),
        ensures
            final(self).wf(),
            final(self).three@ == old(self).three@.update(index3(a, b, c), code),
            final(self).two@ == old(self).two@,
    {
        let i = ((a as usize) * 256 + (b as usize)) * 256 + (c as usize);
        self.three.set(i, code);
    }
}

/// The entry of a two-byte spelling; 0 when there is none.
pub fn spellin2(t: &SpellinTables, a: u8, b: u8) -> (r: u8)
    requires
        t.wf(),
    ensures
        r == t.entry2(a, b),
{
    t.two[(a as usize) * 256 + (b as usize)]
}

/// The entry of a three-byte spelling; 0 when there is none.
pub fn spellin3(t: &SpellinTables, a: u8, b: u8, c: u8) -> (r: u8)
    requires
        t.wf(),
    ensures
        r == t.entry3(a, b, c),
{
    t.three[((a as usize) * 256 + (b as usize)) * 256 + (c as usize)]
}

/// Puts the known spellings in the tables: `=:` and `<.` spell `=` and `<`,
/// and `<::` spells `<`.
pub fn populate_spellin_tables(t: &mut SpellinTables)
    requires
        old(t).wf(),
    ensures
        final(t).wf(),
        final(t).two@ == old(t).two@.update(index2(61, 58), 61).update(index2(60, 46), 60),
        final(t).three@ == old(t).three@.update(index3(60, 58, 58), 60),
{
    t.set2(61, 58, 61);
    t.set2(60, 46, 60);
    t.set3(60, 58, 58, 60);
}

/// The character of a byte (U+0000 to U+00FF).
pub open spec fn byte_char(b: u8) -> char {
    (b as u32) as char
}

/// The canonical spelling of a word's bytes: the one-character code of its
/// first three bytes when they have an entry, else that of its first two,
/// else the text itself.
pub open spec fn spelled_in(t: SpellinTables, s: Seq<char>) -> Seq<char> {
    let b = encode_utf8(s);
    if b.len() >= 3 && t.entry3(b[0], b[1], b[2]) != 0 {
        seq![byte_char(t.entry3(b[0], b[1], b[2]))]
    } else if b.len() >= 2 && t.entry2(b[0], b[1]) != 0 {
        seq![byte_char(t.entry2(b[0], b[1]))]
    } else {
        s
    }
}

/// The text of one byte's character.
fn byte_text(code: u8) -> (r: String)
    ensures
        r@ == seq![byte_char(code)],
{
    let c: char = code as char;
    let mut v: Vec<char> = Vec::new();
    v.push(c);
    proof {
        assert(v@ =~= seq![byte_char(code)]);
    }
    crate::text::string_from_chars(&v)
}

/// The canonical spelling of a word (J's spellin; see `spelled_in`).
pub fn spellin(t: &SpellinTables, raw: &str) -> (r: String)
    requires
        t.wf(),
    ensures
        r@ == spelled_in(*t, raw@),
{
    let bytes = raw.as_bytes();
    let n = bytes.len();
    if n >= 3 {
        let code = spellin3(t, bytes[0], bytes[1], bytes[2]);
        if code != 0 {
            return byte_text(code);
        }
    }
    if n >= 2 {
        let code = spellin2(t, bytes[0], bytes[1]);
        if code != 0 {
            return byte_text(code);
        }
    }
    string_of(raw)
}

/// With tables that hold no entry, spell-in changes nothing.
pub proof fn spellin_without_entries_is_identity(t: SpellinTables, s: Seq<char>)
    requires
        t.wf(),
        forall|i: int| 0 <= i < 65536 ==> #[trigger] t.two@[i] == 0,
        forall|i: int| 0 <= i < 16777216 ==> #[trigger] t.three@[i] == 0,
    ensures
        spelled_in(t, s) == s,
{
    let b = encode_utf8(s);
    if b.len() >= 3 {
        assert(0 <= index3(b[0], b[1], b[2]) < 16777216) by (nonlinear_arith)
            requires
                index3(b[0], b[1], b[2]) == (b[0] as int * 256 + b[1] as int) * 256 + b[2] as int,
                0 <= b[0] < 256,
                0 <= b[1] < 256,
                0 <= b[2] < 256,
        ;
    }
    if b.len() >= 2 {
        assert(0 <= index2(b[0], b[1]) < 65536) by (nonlinear_arith)
            requires
                index2(b[0], b[1]) == b[0] as int * 256 + b[1] as int,
                0 <= b[0] < 256,
                0 <= b[1] < 256,
        ;
    }
}

// ───────────────────────── primitives ─────────────────────────

/// The kind of a primitive.
#[derive(Debug, Clone, Copy, PartialEq, Eq, Structural)]
pub enum PrimitiveType {
    Verb,
    Noun,
    Adverb,
    Conjunction,
}

/// A primitive: its code, its kind, and whether it is permanent (built in).
#[derive(Debug, Clone, Copy, PartialEq, Eq, Structural)]
pub struct PrimitiveEntry {
    pub code: u8,
    pub prim_type: PrimitiveType,
    pub is_permanent: bool,
}

/// The primitive spelled by a canonical word: `+` and `-` are verbs, `=` a
/// conjunction.
pub open spec fn primitive_entry(s: Seq<char>) -> Option<PrimitiveEntry> {
    if s == "+"@ {
        Some(PrimitiveEntry { code: 43, prim_type: PrimitiveType::Verb, is_permanent: true })
    } else if s == "-"@ {
        Some(PrimitiveEntry { code: 45, prim_type: PrimitiveType::Verb, is_permanent: true })
    } else if s == "="@ {
        Some(PrimitiveEntry { code: 61, prim_type: PrimitiveType::Conjunction, is_permanent: true })
    } else {
        None
    }
}

/// A word without its inflection: an inflected word (see `inflection_of`)
/// loses its last character, the `.` or `:`.
pub open spec fn uninflected(s: Seq<char>) -> Seq<char> {
    if inflection_of(encode_utf8(s)) != InflectionMarker::NoInflection {
        s.drop_last()
    } else {
        s
    }
}

/// A word without its inflection (see `uninflected`).
pub fn strip_inflection(word: &str) -> (r: String)
    ensures
        r@ == uninflected(word@),
{
    match get_inflection(word) {
        InflectionMarker::NoInflection => string_of(word),
        _ => {
            proof {
                if word@.len() == 0 {
                    assert(encode_utf8(word@) =~= Seq::<u8>::empty());
                }
            }
            let mut v = crate::text::chars_of(word);
            let _ = v.pop();
            crate::text::string_from_chars(&v)
        },
    }
}

/// The primitive spelled by a word, its inflection set aside: `+` and `+:`
/// both give the entry of `+`.
pub fn lookup_primitive(word_text: &str) -> (r: Option<PrimitiveEntry>)
    ensures
        r == primitive_entry(uninflected(word_text@)),
{
    let base = strip_inflection(word_text);
    let b = base.as_str();
    if str_eq(b, "+") {
        Some(PrimitiveEntry { code: 43, prim_type: PrimitiveType::Verb, is_permanent: true })
    } else if str_eq(b, "-") {
        Some(PrimitiveEntry { code: 45, prim_type: PrimitiveType::Verb, is_permanent: true })
    } else if str_eq(b, "=") {
        Some(PrimitiveEntry { code: 61, prim_type: PrimitiveType::Conjunction, is_permanent: true })
    } else {
        None
    }
}


// ───────────────────────── validation ─────────────────────────

/// What a word turned out to be.
#[derive(Debug, Clone)]
pub enum TokenValidationResult {
    /// A primitive.
    Primitive(PrimitiveEntry),
    /// A name.
    Name(String),
    /// A numeric constant.
    Numeric(String),
    /// A string constant.
    String(String),
    /// Not a word, with the reason.
    Invalid(String),
}

/// What a validation result holds.
pub enum ValidationView {
    Primitive(PrimitiveEntry),
    Name(Seq<char>),
    Numeric(Seq<char>),
    Text(Seq<char>),
    Invalid(Seq<char>),
}

impl View for TokenValidationResult {
    type V = ValidationView;

    open spec fn view(&self) -> ValidationView {
        match self {
            TokenValidationResult::Primitive(p) => ValidationView::Primitive(*p),
            TokenValidationResult::Name(s) => ValidationView::Name(s@),
            TokenValidationResult::Numeric(s) => ValidationView::Numeric(s@),
            TokenValidationResult::String(s) => ValidationView::Text(s@),
            TokenValidationResult::Invalid(s) => ValidationView::Invalid(s@),
        }
    }
}

/// Where a sentence is being read (J's env).
#[derive(Debug, Clone, Copy, PartialEq, Eq, Structural)]
pub enum TokenEnvironment {
    /// The tacit translator.
    TacitTranslator,
    /// The keyboard, with no local names.
    KeyboardNoLocals,
    /// An explicit definition being run.
    ExplicitDefn,
}

/// A byte that may continue a name.
pub open spec fn ident_byte(c: u8) -> bool {
    (48 <= c <= 57) || (65 <= c <= 90) || (97 <= c <= 122) || c == 95
}

/// Bytes that form a name: a letter, then letters, digits and `_`.
pub open spec fn valid_identifier(b: Seq<u8>) -> bool {
    &&& b.len() > 0
    &&& (65 <= b[0] <= 90) || (97 <= b[0] <= 122)
    &&& forall|i: int| 0 <= i < b.len() ==> ident_byte(#[trigger] b[i])
}

/// Whether a word is a valid name.
pub fn is_valid_identifier(s: &str) -> (r: bool)
    ensures
        r == valid_identifier(encode_utf8(s@)),
{
    let b = s.as_bytes();
    let n = b.len();
    if n == 0 {
        return false;
    }
    let first = b[0];
    if !((65 <= first && first <= 90) || (97 <= first && first <= 122)) {
        return false;
    }
    let mut i: usize = 0;
    while i < n
        invariant
            i <= n,
            n == b@.len(),
            b@ == encode_utf8(s@),
            forall|k: int| 0 <= k < i ==> ident_byte(#[trigger] b@[k]),
        decreases n - i,
    {
        let c = b[i];
        if !((48 <= c && c <= 57) || (65 <= c && c <= 90) || (97 <= c && c <= 122) || c == 95) {
            proof {
                assert(!ident_byte(b@[i as int]));
            }
            return false;
        }
        i += 1;
    }
    true
}

/// The result of validating a word (see `validate_token`).
pub open spec fn validated(t: SpellinTables, s: Seq<char>, pos: usize) -> ValidationView {
    if s.len() == 0 {
        ValidationView::Invalid("empty token"@)
    } else {
        let b = encode_utf8(s);
        let first = b[0];
        let canon = spelled_in(t, uninflected(s));
        if 32 <= first <= 127 && primitive_entry(uninflected(canon)) is Some {
            ValidationView::Primitive(primitive_entry(uninflected(canon)).unwrap())
        } else {
            match first_char_class(first) {
                FirstCharClass::Alpha => if valid_identifier(b) {
                    ValidationView::Name(s)
                } else {
                    ValidationView::Invalid("invalid name: "@ + s)
                },
                FirstCharClass::Digit => ValidationView::Numeric(s),
                FirstCharClass::Quote => ValidationView::Text(s),
                FirstCharClass::Ascii32to127 => ValidationView::Invalid(
                    "invalid start character '"@ + seq![byte_char(first)] + "' at position "@ + nat_text(pos as nat),
                ),
                FirstCharClass::Other => ValidationView::Invalid(
                    "non-ASCII character '"@ + nat_text(first as nat) + "' at position "@ + nat_text(pos as nat),
                ),
            }
        }
    }
}

proof fn lemma_nonempty_bytes(s: Seq<char>)
    requires
        s.len() > 0,
    ensures
        encode_utf8(s).len() > 0,
{
    assert(encode_utf8(s) == vstd::utf8::encode_scalar(s[0] as u32) + encode_utf8(s.drop_first()));
}

/// Validates a word found by the state machine (J's enqueue): a word whose
/// canonical spelling (without its inflection) is a primitive is that
/// primitive; otherwise its first byte decides: a letter or `_` starts a name
/// (which must be a valid identifier), a digit a number, a quote a string,
/// and anything else makes the word invalid.
pub fn validate_token(
    t: &SpellinTables,
    word_text: &str,
    original_pos: usize,
    env: TokenEnvironment,
) -> (r: TokenValidationResult)
    requires
        t.wf(),
    ensures
        r@ == validated(*t, word_text@, original_pos),
{
    if word_text.is_empty() {
        return TokenValidationResult::Invalid(string_of("empty token"));
    }
    proof {
        lemma_nonempty_bytes(word_text@);
    }
    let bytes = word_text.as_bytes();
    let first = bytes[0];
    let raw = strip_inflection(word_text);
    let canonical_form = spellin(t, raw.as_str());
    if 32 <= first && first <= 127 {
        match lookup_primitive(canonical_form.as_str()) {
            Some(prim) => {
                return TokenValidationResult::Primitive(prim);
            },
            None => {},
        }
    }
    match classify_first_char(first) {
        FirstCharClass::Alpha => {
            if is_valid_identifier(word_text) {
                TokenValidationResult::Name(string_of(word_text))
            } else {
                TokenValidationResult::Invalid(concat2("invalid name: ", word_text))
            }
        },
        FirstCharClass::Digit => TokenValidationResult::Numeric(string_of(word_text)),
        FirstCharClass::Quote => TokenValidationResult::String(string_of(word_text)),
        FirstCharClass::Ascii32to127 => {
            let head = concat3("invalid start character '", byte_text(first).as_str(), "' at position ");
            TokenValidationResult::Invalid(concat2(head.as_str(), usize_to_string(original_pos).as_str()))
        },
        FirstCharClass::Other => {
            let head = concat3("non-ASCII character '", usize_to_string(first as usize).as_str(), "' at position ");
            TokenValidationResult::Invalid(concat2(head.as_str(), usize_to_string(original_pos).as_str()))
        },
    }
}

// ───────────────────────── special forms ─────────────────────────

/// A sentence `name =: name verb args` that could update an array in place.
pub struct SpecialFormPattern {
    /// The name assigned.
    pub var_name: String,
    /// The operation applied.
    pub operation: String,
    /// Its arguments.
    pub args: Vec<String>,
}

/// Recognises an in-place update sentence; no pattern is recognised yet, so
/// the answer is always `None`.
pub fn try_match_inplace_pattern(tokens: &[TokenValidationResult]) -> (r: Option<SpecialFormPattern>)
    ensures
        r is None,
{
    None
}

} // verus!

