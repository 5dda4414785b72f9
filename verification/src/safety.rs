//! How much of the safety model a run asks to be held to.
//!
//! The levels are cumulative and ordered on purpose: each one runs the checks
//! of every level below it, so "at least this strict" is a comparison.
use vstd::prelude::*;

verus! {

/// A rung of the safety ladder, from nothing checked to nothing left unknown.
#[derive(Clone, Copy, Debug, PartialEq, Eq, PartialOrd, Ord, Hash, Structural)]
pub enum SafetyLevel {
    /// No safety check runs.
    Off,
    /// Memory safety: use after free, double free, null dereference.
    Memory,
    /// Lifetimes, on top of memory safety.
    Lifetime,
    /// Ownership, on top of lifetimes.
    Ownership,
    /// Thread safety, on top of ownership.
    Thread,
    /// Everything, with nothing left unknown.
    Strict,
}

/// Where a level stands on the ladder.
pub open spec fn level_rank(level: SafetyLevel) -> nat {
    match level {
        SafetyLevel::Off => 0,
        SafetyLevel::Memory => 1,
        SafetyLevel::Lifetime => 2,
        SafetyLevel::Ownership => 3,
        SafetyLevel::Thread => 4,
        SafetyLevel::Strict => 5,
    }
}

/// How `--safety` spells a level.
pub open spec fn level_spelling(level: SafetyLevel) -> Seq<char> {
    match level {
        SafetyLevel::Off => seq!['o', 'f', 'f'],
        SafetyLevel::Memory => seq!['m', 'e', 'm', 'o', 'r', 'y'],
        SafetyLevel::Lifetime => seq!['l', 'i', 'f', 'e', 't', 'i', 'm', 'e'],
        SafetyLevel::Ownership => seq!['o', 'w', 'n', 'e', 'r', 's', 'h', 'i', 'p'],
        SafetyLevel::Thread => seq!['t', 'h', 'r', 'e', 'a', 'd'],
        SafetyLevel::Strict => seq!['s', 't', 'r', 'i', 'c', 't'],
    }
}

impl SafetyLevel {
    /// The highest level with checks behind it.
    pub const IMPLEMENTED: SafetyLevel = SafetyLevel::Memory;

    /// Where this level stands on the ladder.
    pub fn rank(self) -> (r: u8)
        ensures
            r == level_rank(self),
    {
        match self {
            SafetyLevel::Off => 0,
            SafetyLevel::Memory => 1,
            SafetyLevel::Lifetime => 2,
            SafetyLevel::Ownership => 3,
            SafetyLevel::Thread => 4,
            SafetyLevel::Strict => 5,
        }
    }

    /// Whether this level is `other` or stricter.
    pub fn at_least(self, other: SafetyLevel) -> (r: bool)
        ensures
            r == (level_rank(self) >= level_rank(other)),
    {
        self.rank() >= other.rank()
    }

    /// The less strict of the two.
    pub fn min(self, other: SafetyLevel) -> (r: SafetyLevel)
        ensures
            r == (if level_rank(self) <= level_rank(other) {
                self
            } else {
                other
            }),
    {
        if self.rank() <= other.rank() {
            self
        } else {
            other
        }
    }

    /// Every level, from the least to the most strict.
    pub fn all() -> (r: Vec<SafetyLevel>)
        ensures
            r@ == seq![
                SafetyLevel::Off,
                SafetyLevel::Memory,
                SafetyLevel::Lifetime,
                SafetyLevel::Ownership,
                SafetyLevel::Thread,
                SafetyLevel::Strict,
            ],
    {
        vec![
            SafetyLevel::Off,
            SafetyLevel::Memory,
            SafetyLevel::Lifetime,
            SafetyLevel::Ownership,
            SafetyLevel::Thread,
            SafetyLevel::Strict,
        ]
    }

    /// How `--safety` spells this level.
    pub fn spelling(self) -> (s: &'static str)
        ensures
            s@ == level_spelling(self),
    {
        match self {
            SafetyLevel::Off => {
                proof {
                    reveal_strlit("off");
                }
                "off"
            },
            SafetyLevel::Memory => {
                proof {
                    reveal_strlit("memory");
                }
                "memory"
            },
            SafetyLevel::Lifetime => {
                proof {
                    reveal_strlit("lifetime");
                }
                "lifetime"
            },
            SafetyLevel::Ownership => {
                proof {
                    reveal_strlit("ownership");
                }
                "ownership"
            },
            SafetyLevel::Thread => {
                proof {
                    reveal_strlit("thread");
                }
                "thread"
            },
            SafetyLevel::Strict => {
                proof {
                    reveal_strlit("strict");
                }
                "strict"
            },
        }
    }
}

/// Levels are told apart by their rank.
pub proof fn lemma_rank_injective(a: SafetyLevel, b: SafetyLevel)
    ensures
        level_rank(a) == level_rank(b) <==> a == b,
{
}

/// Levels are told apart by their spelling.
pub proof fn lemma_spelling_injective(a: SafetyLevel, b: SafetyLevel)
    ensures
        level_spelling(a) == level_spelling(b) <==> a == b,
{
    if a != b {
        assert(level_spelling(a).len() != level_spelling(b).len() || exists|i: int|
            0 <= i < level_spelling(a).len() && level_spelling(a)[i] != level_spelling(b)[i]) by {
            if level_spelling(a).len() == level_spelling(b).len() {
                assert(level_spelling(a)[0] != level_spelling(b)[0] || level_spelling(a)[1]
                    != level_spelling(b)[1]);
            }
        }
    }
}

} // verus!
