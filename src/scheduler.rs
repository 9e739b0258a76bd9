//! Scheduling policies shared by every station of a run.
use vstd::prelude::*;
use crate::text::{append_decimal, append_text, decimal};

verus! {

/// How a station serves the items in its ready queue.
///
/// Durations are whole milliseconds.
#[derive(Clone, Copy, Debug, PartialEq, Eq, Structural)]
pub enum SchedulingAlgorithm {
    /// First-come first-served: each dispatch serves an item to completion.
    Fcfs,
    /// Round robin: each dispatch serves at most `quantum` milliseconds, and an
    /// unfinished item goes back to the end of the ready queue.
    RoundRobin { quantum: u64 },
}

impl SchedulingAlgorithm {
    /// The work served by one dispatch of an item with `remaining` left.
    pub open spec fn slice_of(self, remaining: nat) -> nat {
        match self {
            SchedulingAlgorithm::Fcfs => remaining,
            SchedulingAlgorithm::RoundRobin { quantum } => if remaining <= quantum {
                remaining
            } else {
                quantum as nat
            },
        }
    }

    /// A policy that can be run: a round-robin quantum is positive.
    pub open spec fn valid(self) -> bool {
        match self {
            SchedulingAlgorithm::Fcfs => true,
            SchedulingAlgorithm::RoundRobin { quantum } => quantum > 0,
        }
    }

    pub fn fcfs() -> (r: Self)
        ensures
            r == SchedulingAlgorithm::Fcfs,
    {
        SchedulingAlgorithm::Fcfs
    }

    pub fn round_robin(quantum: u64) -> (r: Self)
        ensures
            r == (SchedulingAlgorithm::RoundRobin { quantum }),
    {
        SchedulingAlgorithm::RoundRobin { quantum }
    }

    /// Whether a dispatch may stop before the item is finished.
    pub fn is_preemptive(&self) -> (r: bool)
        ensures
            r == (*self is RoundRobin),
    {
        match self {
            SchedulingAlgorithm::Fcfs => false,
            SchedulingAlgorithm::RoundRobin { .. } => true,
        }
    }

    /// The slice served to an item with `remaining_time` left: all of it under
    /// first-come first-served, at most the quantum under round robin.
    pub fn calculate_quantum(&self, remaining_time: u64) -> (r: u64)
        ensures
            r as nat == self.slice_of(remaining_time as nat),
            r <= remaining_time,
    {
        match self {
            SchedulingAlgorithm::Fcfs => remaining_time,
            SchedulingAlgorithm::RoundRobin { quantum } => if remaining_time <= *quantum {
                remaining_time
            } else {
                *quantum
            },
        }
    }

    /// The quantum of a round-robin policy.
    pub fn get_quantum(&self) -> (r: Option<u64>)
        ensures
            r == (match *self {
                SchedulingAlgorithm::Fcfs => None,
                SchedulingAlgorithm::RoundRobin { quantum } => Some(quantum),
            }),
    {
        match self {
            SchedulingAlgorithm::Fcfs => None,
            SchedulingAlgorithm::RoundRobin { quantum } => Some(*quantum),
        }
    }

    /// The long description of the policy.
    pub open spec fn description_text(self) -> Seq<char> {
        match self {
            SchedulingAlgorithm::Fcfs => "First-Come First-Served (no preemptivo)"@,
            SchedulingAlgorithm::RoundRobin { quantum } => "Round Robin preemptivo (quantum: "@
                + decimal(quantum as nat) + " ms)"@,
        }
    }

    /// The short name of the policy.
    pub open spec fn label_text(self) -> Seq<char> {
        match self {
            SchedulingAlgorithm::Fcfs => "FCFS"@,
            SchedulingAlgorithm::RoundRobin { quantum } => "Round Robin (quantum "@ + decimal(
                quantum as nat,
            ) + " ms)"@,
        }
    }

    pub fn description(&self) -> (r: String)
        ensures
            r@ == self.description_text(),
    {
        let mut s = String::new();
        match self {
            SchedulingAlgorithm::Fcfs => {
                append_text(&mut s, "First-Come First-Served (no preemptivo)");
            },
            SchedulingAlgorithm::RoundRobin { quantum } => {
                append_text(&mut s, "Round Robin preemptivo (quantum: ");
                append_decimal(&mut s, *quantum);
                append_text(&mut s, " ms)");
            },
        }
        assert(s@ =~= self.description_text());
        s
    }

    /// The short name of the policy, as shown in reports.
    pub fn to_string(&self) -> (r: String)
        ensures
            r@ == self.label_text(),
    {
        let mut s = String::new();
        match self {
            SchedulingAlgorithm::Fcfs => {
                append_text(&mut s, "FCFS");
            },
            SchedulingAlgorithm::RoundRobin { quantum } => {
                append_text(&mut s, "Round Robin (quantum ");
                append_decimal(&mut s, *quantum);
                append_text(&mut s, " ms)");
            },
        }
        assert(s@ =~= self.label_text());
        s
    }
}

/// A borrowed policy, shown by its short name.
pub struct DisplayAlgorithm<'a>(pub &'a SchedulingAlgorithm);

impl<'a> DisplayAlgorithm<'a> {
    pub fn new(algorithm: &'a SchedulingAlgorithm) -> (r: Self)
        ensures
            *r.0 == *algorithm,
    {
        DisplayAlgorithm(algorithm)
    }

    pub fn to_string(&self) -> (r: String)
        ensures
            r@ == self.0.label_text(),
    {
        self.0.to_string()
    }
}

} // verus!
