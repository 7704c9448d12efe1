//! Core of a discrete-event simulation engine for agent-based models.
//!
//! The engine keeps a time-ordered queue of pending events, each addressed
//! to a named agent, dispatches them in ascending time order, and lets the
//! invoked agent handlers schedule further events. A control channel steers
//! a running loop (halt, retune, bound) and a report channel carries
//! progress messages to an external observer.

use vstd::prelude::*;

pub mod agent;
pub mod channel;
pub mod empty_environment;
pub mod environment;
pub mod event;
pub mod event_engine;
pub mod event_queue;
pub mod laws;
pub mod message;
pub mod queue;

verus! {

/// Builds the greeting line sent back to a newly connected peer:
/// `"Hello, "`, then the peer's name with trailing whitespace removed,
/// then `"!"`.
pub fn greet_message(name: &str) -> (r: String)
    ensures
        r@ == "Hello, "@ + trim_end_chars(name@) + "!"@,
{
    let mut r = String::from_str("Hello, ");
    let trimmed_len = trimmed_end_len(name);
    let trimmed = name.substring_char(0, trimmed_len);
    r.append(trimmed);
    r.append("!");
    proof {
        assert(r@ =~= "Hello, "@ + trim_end_chars(name@) + "!"@);
    }
    r
}

/// `s` with every trailing whitespace character removed.
pub open spec fn trim_end_chars(s: Seq<char>) -> Seq<char>
    decreases s.len(),
{
    if s.len() == 0 {
        s
    } else if char_is_whitespace(s.last()) {
        trim_end_chars(s.drop_last())
    } else {
        s
    }
}

/// Length of `name` once trailing whitespace is dropped.
fn trimmed_end_len(name: &str) -> (n: usize)
    ensures
        n <= name@.len(),
        n == trim_end_chars(name@).len(),
        trim_end_chars(name@) == name@.subrange(0, n as int),
{
    let len = name.unicode_len();
    let mut n = len;
    proof {
        assert(name@.subrange(0, len as int) =~= name@);
    }
    while n > 0 && is_whitespace_char(name.get_char(n - 1))
        invariant
            n <= len,
            len == name@.len(),
            trim_end_chars(name@) == trim_end_chars(name@.subrange(0, n as int)),
        decreases n,
    {
        proof {
            assert(name@.subrange(0, n as int).drop_last() =~= name@.subrange(0, n as int - 1));
        }
        n = n - 1;
    }
    proof {
        if n > 0 {
            assert(!char_is_whitespace(name@.subrange(0, n as int).last()));
        }
        assert(trim_end_chars(name@.subrange(0, n as int)) == name@.subrange(0, n as int));
    }
    n
}

/// Whether `char::is_whitespace` holds of `c`; the result depends on the
/// character alone.
pub uninterp spec fn char_is_whitespace(c: char) -> bool;

/// Relies on char::is_whitespace: tests a character against the Unicode
/// white-space property.
#[verifier::external_body]
fn is_whitespace_char(c: char) -> (r: bool)
    ensures
        r == char_is_whitespace(c),
{
    c.is_whitespace()
}

} // verus!
