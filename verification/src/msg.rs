//! The typed events a scan sends to its consumer, and the exact text of each
//! log line the scan produces.

use vstd::prelude::*;
use vstd::string::StringExecFns;
use crate::text::dec_rep;
use crate::text::usize_to_string;

verus! {

/// A typed event sent by the scan worker to its consumer.
///
/// Within one scan, a `Found` event is always immediately followed by `Done`,
/// and nothing follows `Done`.
#[derive(Debug)]
pub enum Message {
    /// `checked` candidates of `total` have been processed so far.
    Progress { checked: usize, total: usize },
    /// The first matching candidate, ending the scan.
    Found(String),
    /// A line of human-readable status text.
    Log(String),
    /// The scan has terminated; no further events follow.
    Done,
}

/// The mathematical shape of a [`Message`]: counters as integers, text as
/// character sequences.
pub enum Event {
    Progress { checked: int, total: int },
    Found(Seq<char>),
    Log(Seq<char>),
    Done,
}

impl View for Message {
    type V = Event;

    open spec fn view(&self) -> Event {
        match self {
            Message::Progress { checked, total } => Event::Progress {
                checked: *checked as int,
                total: *total as int,
            },
            Message::Found(s) => Event::Found(s@),
            Message::Log(s) => Event::Log(s@),
            Message::Done => Event::Done,
        }
    }
}

/// The events of a message sequence, in order.
pub open spec fn views_of(ms: Seq<Message>) -> Seq<Event> {
    ms.map_values(|m: Message| m@)
}

/// Mapping to events distributes over concatenation.
pub proof fn lemma_views_of_concat(a: Seq<Message>, b: Seq<Message>)
    ensures
        views_of(a + b) == views_of(a) + views_of(b),
{
    assert(views_of(a + b) =~= views_of(a) + views_of(b));
}

/// Text of the log line reporting the total line count.
pub open spec fn total_text(total: nat) -> Seq<char> {
    "Wordlist has "@ + dec_rep(total) + " lines"@
}

/// Text of the periodic checkpoint log line.
pub open spec fn checked_text(i: nat, total: nat) -> Seq<char> {
    "Checked "@ + dec_rep(i) + " / "@ + dec_rep(total)
}

/// Text of the log line reporting a line that could not be decoded.
pub open spec fn line_error_text(i: nat, err: Seq<char>) -> Seq<char> {
    "Error reading line "@ + dec_rep(i) + ": "@ + err
}

/// Text of the log line reporting an exhausted scan.
pub open spec fn no_match_text() -> Seq<char> {
    "No password found in wordlist."@
}

/// Text of the consumer's log line for a found password.
pub open spec fn found_text(p: Seq<char>) -> Seq<char> {
    "Password found: "@ + p
}

/// Text of the consumer's log line for a terminated scan.
pub open spec fn done_text() -> Seq<char> {
    "Done."@
}

/// Builds the log message reporting the total line count.
pub fn total_message(total: usize) -> (m: Message)
    ensures
        m@ == Event::Log(total_text(total as nat)),
{
    let mut s = String::from_str("Wordlist has ");
    let num = usize_to_string(total);
    s.append(num.as_str());
    s.append(" lines");
    proof {
        assert(s@ =~= total_text(total as nat));
    }
    Message::Log(s)
}

/// Builds the periodic checkpoint log message.
pub fn checked_message(i: usize, total: usize) -> (m: Message)
    ensures
        m@ == Event::Log(checked_text(i as nat, total as nat)),
{
    let mut s = String::from_str("Checked ");
    let ni = usize_to_string(i);
    s.append(ni.as_str());
    s.append(" / ");
    let nt = usize_to_string(total);
    s.append(nt.as_str());
    proof {
        assert(s@ =~= checked_text(i as nat, total as nat));
    }
    Message::Log(s)
}

/// Builds the log message for a line that could not be decoded.
pub fn line_error_message(i: usize, err: &str) -> (m: Message)
    ensures
        m@ == Event::Log(line_error_text(i as nat, err@)),
{
    let mut s = String::from_str("Error reading line ");
    let ni = usize_to_string(i);
    s.append(ni.as_str());
    s.append(": ");
    s.append(err);
    proof {
        assert(s@ =~= line_error_text(i as nat, err@));
    }
    Message::Log(s)
}

/// Builds the log message for an exhausted scan.
pub fn no_match_message() -> (m: Message)
    ensures
        m@ == Event::Log(no_match_text()),
{
    Message::Log(String::from_str("No password found in wordlist."))
}

/// Builds a progress message.
pub fn progress_message(checked: usize, total: usize) -> (m: Message)
    ensures
        m@ == (Event::Progress { checked: checked as int, total: total as int }),
{
    Message::Progress { checked, total }
}

/// Builds the consumer's log message for a found password.
pub fn found_log_message(p: &str) -> (m: Message)
    ensures
        m@ == Event::Log(found_text(p@)),
{
    let mut s = String::from_str("Password found: ");
    s.append(p);
    Message::Log(s)
}

/// Builds the consumer's log message for a terminated scan.
pub fn done_log_message() -> (m: Message)
    ensures
        m@ == Event::Log(done_text()),
{
    Message::Log(String::from_str("Done."))
}

} // verus!
