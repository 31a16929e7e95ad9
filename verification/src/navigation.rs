//! Navigation commands and the mathematical model of a paginated session.
use crate::text::{numeral_value, parse_usize};
use vstd::prelude::*;

verus! {

/// What the interaction router tells the session controller to do.
#[derive(Clone, Copy, Debug, PartialEq, Eq, Structural)]
pub enum NavigationCommand {
    /// Show the first page.
    First,
    /// Show the page before the current one, if there is one.
    Previous,
    /// Show the page after the current one, if there is one.
    Next,
    /// Show the last page.
    Last,
    /// Show the page with this one-based number, if there is such a page.
    GoTo(usize),
    /// End the session.
    Cancel,
}

/// The navigation state of a session: how many pages it has, which one is
/// shown (zero-based) and whether it has ended.
pub struct SessionState {
    pub len: nat,
    pub index: nat,
    pub cancelled: bool,
}

impl SessionState {
    /// A session has at least one page and shows one of them.
    pub open spec fn wf(self) -> bool {
        self.index < self.len && self.len <= usize::MAX
    }

    /// The state after one command. Navigation past either end stays at that
    /// end, a page number without a page changes nothing, and once cancelled
    /// a session stays cancelled.
    pub open spec fn step(self, command: NavigationCommand) -> SessionState {
        match command {
            NavigationCommand::First => SessionState { index: 0, ..self },
            NavigationCommand::Previous => SessionState {
                index: if self.index > 0 {
                    (self.index - 1) as nat
                } else {
                    0
                },
                ..self
            },
            NavigationCommand::Next => SessionState {
                index: if self.index + 1 < self.len {
                    self.index + 1
                } else {
                    self.index
                },
                ..self
            },
            NavigationCommand::Last => SessionState { index: (self.len - 1) as nat, ..self },
            NavigationCommand::GoTo(n) => if 1 <= n && n <= self.len {
                SessionState { index: (n - 1) as nat, ..self }
            } else {
                self
            },
            NavigationCommand::Cancel => SessionState { cancelled: true, ..self },
        }
    }

    /// The state after a sequence of commands, applied from first to last.
    pub open spec fn apply_all(self, commands: Seq<NavigationCommand>) -> SessionState
        decreases commands.len(),
    {
        if commands.len() == 0 {
            self
        } else {
            self.apply_all(commands.drop_last()).step(commands.last())
        }
    }
}

/// `count` copies of one command.
pub open spec fn repeat(command: NavigationCommand, count: nat) -> Seq<NavigationCommand> {
    Seq::new(count, |i: int| command)
}

/// Whatever commands arrive, a session keeps its pages and shows one of them.
pub proof fn lemma_index_stays_in_range(s: SessionState, commands: Seq<NavigationCommand>)
    requires
        s.wf(),
    ensures
        s.apply_all(commands).wf(),
        s.apply_all(commands).len == s.len,
        s.apply_all(commands).index < s.len,
    decreases commands.len(),
{
    if commands.len() > 0 {
        lemma_index_stays_in_range(s, commands.drop_last());
    }
}

/// A session that was cancelled stays cancelled.
pub proof fn lemma_cancelled_is_monotonic(s: SessionState, commands: Seq<NavigationCommand>)
    requires
        s.cancelled,
    ensures
        s.apply_all(commands).cancelled,
    decreases commands.len(),
{
    if commands.len() > 0 {
        lemma_cancelled_is_monotonic(s, commands.drop_last());
    }
}

/// Going to page `n` shows page `n` where the session has such a page, and
/// changes nothing where it has not.
pub proof fn lemma_goto(s: SessionState, n: usize)
    requires
        s.wf(),
    ensures
        1 <= n <= s.len ==> s.step(NavigationCommand::GoTo(n)) == (SessionState {
            index: (n - 1) as nat,
            ..s
        }),
        !(1 <= n <= s.len) ==> s.step(NavigationCommand::GoTo(n)) == s,
{
}

/// After `count` times `Previous` the index is lower by `count`, but not
/// below zero.
pub proof fn lemma_previous_repeated(s: SessionState, count: nat)
    requires
        s.wf(),
    ensures
        s.apply_all(repeat(NavigationCommand::Previous, count)) == (SessionState {
            index: if s.index >= count {
                (s.index - count) as nat
            } else {
                0
            },
            ..s
        }),
    decreases count,
{
    let commands = repeat(NavigationCommand::Previous, count);
    if count > 0 {
        lemma_previous_repeated(s, (count - 1) as nat);
        assert(commands.drop_last() == repeat(NavigationCommand::Previous, (count - 1) as nat));
    }
}

/// After `count` times `Next` the index is higher by `count`, but not past
/// the last page.
pub proof fn lemma_next_repeated(s: SessionState, count: nat)
    requires
        s.wf(),
    ensures
        s.apply_all(repeat(NavigationCommand::Next, count)) == (SessionState {
            index: if s.index + count < s.len {
                s.index + count
            } else {
                (s.len - 1) as nat
            },
            ..s
        }),
    decreases count,
{
    let commands = repeat(NavigationCommand::Next, count);
    if count > 0 {
        lemma_next_repeated(s, (count - 1) as nat);
        assert(commands.drop_last() == repeat(NavigationCommand::Next, (count - 1) as nat));
    }
}

/// `First` followed by one or more `Previous` leaves the first page shown.
pub proof fn lemma_first_then_previous(s: SessionState, count: nat)
    requires
        s.wf(),
        count >= 1,
    ensures
        s.step(NavigationCommand::First).apply_all(
            repeat(NavigationCommand::Previous, count),
        ).index == 0,
{
    lemma_previous_repeated(s.step(NavigationCommand::First), count);
}

/// `Last`, then `First`, then `k` times `Next` shows the same page as going
/// to page `k + 1` directly, for `k` below the index of the last page.
pub proof fn lemma_round_trip(s: SessionState, k: nat)
    requires
        s.wf(),
        k + 1 < s.len,
    ensures
        s.step(NavigationCommand::Last).step(NavigationCommand::First).apply_all(
            repeat(NavigationCommand::Next, k),
        ).index == s.step(NavigationCommand::GoTo((k + 1) as usize)).index,
{
    lemma_next_repeated(s.step(NavigationCommand::Last).step(NavigationCommand::First), k);
}

/// What a "go to page" form holds when it names a page: an unsigned decimal
/// numeral, above zero, that fits in `usize`.
pub open spec fn page_number(text: Seq<char>) -> Option<usize> {
    match numeral_value(text) {
        Some(v) => if 1 <= v && v <= usize::MAX {
            Some(v as usize)
        } else {
            None
        },
        None => None,
    }
}

/// Reads the page number that a user typed. Text that is no positive decimal
/// numeral gives `None`.
pub fn parse_page_number(text: &str) -> (r: Option<usize>)
    ensures
        r == page_number(text@),
{
    match parse_usize(text) {
        Some(n) => if n >= 1 {
            Some(n)
        } else {
            None
        },
        None => None,
    }
}

} // verus!
