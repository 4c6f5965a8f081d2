//! The decisions of the client's long-poll loops (`listen`, and the poller
//! of `chat`): the cursor they follow, how long each poll waits, and what
//! follows each answer. The caller performs the requests, the sleeps and
//! the printing.

use vstd::prelude::*;

use crate::text::to_owned_string;

verus! {

/// The cursor after a page: the id of its last message, or the cursor
/// unchanged when the page is empty.
pub open spec fn advance_cursor_spec(cursor: Seq<char>, ids: Seq<String>) -> Seq<char> {
    if ids.len() == 0 {
        cursor
    } else {
        ids.last()@
    }
}

pub fn advance_cursor(cursor: &str, ids: &Vec<String>) -> (c: String)
    ensures
        c@ == advance_cursor_spec(cursor@, ids@),
{
    if ids.len() == 0 {
        to_owned_string(cursor)
    } else {
        ids[ids.len() - 1].clone()
    }
}

/// What to do before a poll.
#[derive(Debug)]
pub enum ListenStart {
    /// `--once` and no time is left: exit with nothing received.
    TimedOut,
    /// Poll, waiting `wait` seconds on the server and giving the request
    /// `timeout` seconds.
    Poll { wait: u64, timeout: u64 },
}

pub open spec fn poll_wait_spec(once: bool, wait: u64, remaining_secs: u64) -> u64 {
    if once {
        let r: u64 = if remaining_secs < 1 { 1 } else { remaining_secs };
        if wait < r { wait } else { r }
    } else {
        wait
    }
}

/// Before each poll, given the interval wait (1..=25 s) and the time left
/// until the deadline (`remaining_secs` whole seconds and
/// `remaining_nanos` more): with `--once` the loop ends when no time is
/// left, and a poll never waits past the deadline (but at least 1 s); the
/// request may take 10 s longer than the wait.
pub fn before_poll(once: bool, wait: u64, remaining_secs: u64, remaining_nanos: u32) -> (s:
    ListenStart)
    requires
        1 <= wait <= 25,
    ensures
        once && remaining_secs == 0 && remaining_nanos == 0 ==> s is TimedOut,
        !(once && remaining_secs == 0 && remaining_nanos == 0) ==> (s matches ListenStart::Poll {
            wait: w,
            timeout: t,
        } && w == poll_wait_spec(once, wait, remaining_secs) && t == w + 10 && 1 <= w <= wait),
{
    if once && remaining_secs == 0 && remaining_nanos == 0 {
        return ListenStart::TimedOut;
    }
    let w = if once {
        let r = if remaining_secs < 1 {
            1
        } else {
            remaining_secs
        };
        if wait < r {
            wait
        } else {
            r
        }
    } else {
        wait
    };
    ListenStart::Poll { wait: w, timeout: w + 10 }
}

/// A poll never waits longer than the interval nor (with `--once`) past
/// the deadline, rounded up to 1 s: its wait is the smaller of the two,
/// never 0, and so always within the 30 s the server accepts.
pub proof fn law_poll_wait_bounded(once: bool, wait: u64, remaining_secs: u64)
    requires
        1 <= wait <= 25,
    ensures
        1 <= poll_wait_spec(once, wait, remaining_secs) <= wait,
        poll_wait_spec(once, wait, remaining_secs) <= 30,
        !once ==> poll_wait_spec(once, wait, remaining_secs) == wait,
        once ==> poll_wait_spec(once, wait, remaining_secs) <= remaining_secs
            || poll_wait_spec(once, wait, remaining_secs) == 1,
        once ==> (poll_wait_spec(once, wait, remaining_secs) == wait
            || poll_wait_spec(once, wait, remaining_secs) == remaining_secs
            || (remaining_secs == 0 && poll_wait_spec(once, wait, remaining_secs) == 1)),
        once && wait <= remaining_secs ==> poll_wait_spec(once, wait, remaining_secs) == wait,
        once && 1 <= remaining_secs < wait ==> poll_wait_spec(once, wait, remaining_secs)
            == remaining_secs,
{
}

/// What follows the answer to a poll.
#[derive(Debug)]
pub enum ListenAfter {
    /// The poll failed: report it, wait 2 s and poll again.
    Retry,
    /// `--once`, nothing new, and the deadline has passed: exit with
    /// nothing received.
    TimedOut,
    /// Nothing new and no cursor yet: take the latest message as the cursor
    /// and poll again.
    FetchLatest,
    /// Nothing new: poll again.
    Again,
    /// New messages, shown in order; the cursor moves to the last of them,
    /// and `--once` stops here.
    Show { cursor: String, stop: bool },
}

/// The step after a poll answered with the ids of the new messages in
/// order (`Some`), or failed (`None`).
pub fn after_poll(once: bool, cursor: &str, deadline_passed: bool, page: Option<&Vec<String>>) -> (a:
    ListenAfter)
    ensures
        match page {
            None => a is Retry,
            Some(ids) => if ids@.len() == 0 {
                if once && deadline_passed {
                    a is TimedOut
                } else if cursor@.len() == 0 {
                    a is FetchLatest
                } else {
                    a is Again
                }
            } else {
                a matches ListenAfter::Show { cursor: c, stop } && c@ == ids@.last()@ && stop == once
            },
        },
{
    match page {
        None => ListenAfter::Retry,
        Some(ids) => {
            if ids.len() == 0 {
                if once && deadline_passed {
                    ListenAfter::TimedOut
                } else if cursor.as_bytes().len() == 0 {
                    ListenAfter::FetchLatest
                } else {
                    ListenAfter::Again
                }
            } else {
                let c = advance_cursor(cursor, ids);
                ListenAfter::Show { cursor: c, stop: once }
            }
        },
    }
}

/// The exit code of `listen`: 21 when `--once` ended with nothing
/// received (so that scripts tell idling from success), 0 otherwise.
pub fn listen_exit_code(once: bool, got: bool) -> (c: i32)
    ensures
        c == if once && !got {
            21i32
        } else {
            0i32
        },
{
    if once && !got {
        21
    } else {
        0
    }
}

} // verus!
