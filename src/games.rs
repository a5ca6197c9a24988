use vstd::prelude::*;
use crate::filter::{Filter, Parsable, Primitive, Clause};
use crate::history::ActionIndex;
use crate::mapper::Action;

verus! {

/// How a Goofspiel game is scored at the end.
#[derive(Debug, Clone, Copy, PartialEq, Eq, Hash)]
pub enum Scoring {
    ZeroSum,
    WinLoss,
    Absolute,
}

/// Playing the card of the given strength in Goofspiel.
#[derive(Debug, Clone, Copy, Hash)]
pub struct GoofspielAction(pub u32);

impl PartialEq for GoofspielAction {
    fn eq(&self, other: &GoofspielAction) -> (r: bool) {
        self.0 == other.0
    }
}

impl vstd::std_specs::cmp::PartialEqSpecImpl for GoofspielAction {
    open spec fn obeys_eq_spec() -> bool {
        true
    }

    open spec fn eq_spec(&self, other: &GoofspielAction) -> bool {
        self.0 == other.0
    }
}

impl Eq for GoofspielAction {}

impl Parsable for GoofspielAction {
    open spec fn text(&self) -> Option<Seq<char>> {
        None
    }

    open spec fn number(&self) -> Option<usize> {
        Some(self.0 as usize)
    }

    fn to_string(&self) -> (r: Option<String>) {
        None
    }

    fn to_usize(&self) -> (r: Option<usize>) {
        Some(self.0 as usize)
    }
}

impl Action for GoofspielAction {
    /// The card's strength, in its low eight bits.
    open spec fn spec_index(&self) -> ActionIndex {
        (self.0 % 256) as u8
    }

    open spec fn spec_max_index() -> ActionIndex {
        255
    }

    fn index(&self) -> (r: ActionIndex) {
        let v: u32 = self.0;
        let r = #[verifier::truncate] (v as u8);
        proof {
            assert(r == v % 256) by (bit_vector)
                requires
                    r == #[verifier::truncate] (v as u8),
            ;
        }
        r
    }

    fn max_index() -> (r: ActionIndex) {
        255
    }
}

/// A move of Kuhn poker; a deal names one of the three cards.
#[derive(Debug, Clone, Copy, Hash)]
pub enum KuhnPokerAction {
    Fold,
    Call,
    Check,
    Deal(u8),
    Bet,
}

impl PartialEq for KuhnPokerAction {
    fn eq(&self, other: &KuhnPokerAction) -> (r: bool) {
        match (self, other) {
            (KuhnPokerAction::Fold, KuhnPokerAction::Fold) => true,
            (KuhnPokerAction::Call, KuhnPokerAction::Call) => true,
            (KuhnPokerAction::Check, KuhnPokerAction::Check) => true,
            (KuhnPokerAction::Deal(x), KuhnPokerAction::Deal(y)) => *x == *y,
            (KuhnPokerAction::Bet, KuhnPokerAction::Bet) => true,
            _ => false,
        }
    }
}

impl vstd::std_specs::cmp::PartialEqSpecImpl for KuhnPokerAction {
    open spec fn obeys_eq_spec() -> bool {
        true
    }

    open spec fn eq_spec(&self, other: &KuhnPokerAction) -> bool {
        *self == *other
    }
}

impl Eq for KuhnPokerAction {}

impl Parsable for KuhnPokerAction {
    open spec fn text(&self) -> Option<Seq<char>> {
        None
    }

    open spec fn number(&self) -> Option<usize> {
        None
    }

    fn to_string(&self) -> (r: Option<String>) {
        None
    }

    fn to_usize(&self) -> (r: Option<usize>) {
        None
    }
}

impl Action for KuhnPokerAction {
    /// Fold 0, call 1, check 2, deals of cards 0 to 2 take 3 to 5, bet 6;
    /// a deal of a card outside the deck gets the reserved index 255.
    open spec fn spec_index(&self) -> ActionIndex {
        match self {
            KuhnPokerAction::Fold => 0,
            KuhnPokerAction::Call => 1,
            KuhnPokerAction::Check => 2,
            KuhnPokerAction::Deal(c) => if *c < 3 {
                (3 + *c) as u8
            } else {
                255
            },
            KuhnPokerAction::Bet => 6,
        }
    }

    open spec fn spec_max_index() -> ActionIndex {
        255
    }

    fn index(&self) -> (r: ActionIndex) {
        match self {
            KuhnPokerAction::Fold => 0,
            KuhnPokerAction::Call => 1,
            KuhnPokerAction::Check => 2,
            KuhnPokerAction::Deal(c) => if *c < 3 {
                3 + *c
            } else {
                255
            },
            KuhnPokerAction::Bet => 6,
        }
    }

    fn max_index() -> (r: ActionIndex) {
        255
    }
}

impl KuhnPokerAction {
    /// The move with the given index; `None` for an index no move has.
    pub fn from_index(index: ActionIndex) -> (r: Option<KuhnPokerAction>)
        ensures
            r is Some <==> index <= 6,
            r matches Some(a) ==> a.spec_index() == index,
    {
        match index {
            0 => Some(KuhnPokerAction::Fold),
            1 => Some(KuhnPokerAction::Call),
            2 => Some(KuhnPokerAction::Check),
            3 => Some(KuhnPokerAction::Deal(0)),
            4 => Some(KuhnPokerAction::Deal(1)),
            5 => Some(KuhnPokerAction::Deal(2)),
            6 => Some(KuhnPokerAction::Bet),
            _ => None,
        }
    }
}

/// A filter keeping exactly the values equal to `value`.
pub fn is<T: Parsable>(value: T) -> (r: Filter<T>)
    ensures
        r == Filter::BaseCase(Primitive::Raw(value)),
{
    Filter::new(value)
}

/// A filter keeping what `value` rejects.
pub fn not<T: Parsable>(value: Filter<T>) -> (r: Filter<T>)
    ensures
        r == Filter::Not(Box::new(value)),
{
    Filter::not(value)
}

/// The two strongest Goofspiel cards of a small deck: 4 or 5.
pub open spec fn top_filter() -> Filter<GoofspielAction> {
    Filter::Or(
        Clause {
            left: Box::new(Filter::BaseCase(Primitive::Raw(GoofspielAction(4)))),
            right: Box::new(Filter::BaseCase(Primitive::Raw(GoofspielAction(5)))),
        },
    )
}

/// Cards 4 or 5.
pub fn top_values() -> (r: Filter<GoofspielAction>)
    ensures
        r == top_filter(),
{
    is(GoofspielAction(4)).or(is(GoofspielAction(5)))
}

/// Every card but 4 and 5.
pub fn bottom_values() -> (r: Filter<GoofspielAction>)
    ensures
        r == Filter::Not(Box::new(top_filter())),
{
    not(top_values())
}

/// Cards whose strength lies in the inclusive range.
pub fn card_range(range: std::ops::RangeInclusive<usize>) -> (r: Filter<GoofspielAction>)
    ensures
        r == Filter::BaseCase(
            Primitive::<GoofspielAction>::Range(
                crate::filter::RangeQuery { start: range@.start, end: range@.end },
            ),
        ),
{
    Filter::range(range)
}

} // verus!
