//! The consumer's display state: the input fields, the bounded log history,
//! the progress counters, and how one received event updates them.

use vstd::prelude::*;
use vstd::string::StringExecFns;
use crate::msg::Event;
use crate::msg::Message;
use crate::msg::done_text;
use crate::msg::found_text;

verus! {

/// How many log lines the history may hold before it is truncated.
pub const LOG_CAP: usize = 200;

/// How many of the oldest log lines a truncation removes.
pub const LOG_TRIM: usize = 50;

/// Which input widget currently receives keystrokes.
#[derive(Clone, Copy, PartialEq, Eq, Debug)]
pub enum Focus {
    Wordlist,
    Hash,
    StartButton,
}

/// The consumer's display state. Only the consumer's own loop mutates it,
/// by applying received events one at a time.
pub struct App {
    /// Path of the wordlist to scan.
    pub wordlist: String,
    /// The target hash as typed so far.
    pub hash: String,
    /// The focused input widget.
    pub focus: Focus,
    /// Bounded log history, oldest first.
    pub logs: Vec<String>,
    /// Whether a scan is currently active.
    pub running: bool,
    /// Candidates processed by the active scan.
    pub checked: usize,
    /// Total candidate count of the active scan.
    pub total: usize,
    /// The recovered password, once one was found.
    pub found: Option<String>,
}

/// The texts of a log history.
pub open spec fn texts(logs: Seq<String>) -> Seq<Seq<char>> {
    logs.map_values(|s: String| s@)
}

/// Appending to the bounded log history: the line goes to the end, and when
/// the history outgrows its cap the oldest lines are dropped.
pub open spec fn push_log_text(logs: Seq<Seq<char>>, s: Seq<char>) -> Seq<Seq<char>> {
    let grown = logs.push(s);
    if grown.len() > LOG_CAP as nat {
        grown.subrange(LOG_TRIM as int, grown.len() as int)
    } else {
        grown
    }
}

impl App {
    /// A fresh, idle display state with the default wordlist path.
    pub fn new() -> (a: App)
        ensures
            a.wordlist@ == "wordlist.txt"@,
            a.hash@ == Seq::<char>::empty(),
            a.focus is Wordlist,
            a.logs@ == Seq::<String>::empty(),
            !a.running,
            a.checked == 0,
            a.total == 0,
            a.found is None,
    {
        App {
            wordlist: String::from_str("wordlist.txt"),
            hash: String::new(),
            focus: Focus::Wordlist,
            logs: Vec::new(),
            running: false,
            checked: 0,
            total: 0,
            found: None,
        }
    }

    /// Appends a log line, keeping the history bounded: when it grows past
    /// [`LOG_CAP`] lines, the oldest [`LOG_TRIM`] are dropped.
    pub fn push_log(&mut self, s: String)
        ensures
            texts(final(self).logs@) == push_log_text(texts(old(self).logs@), s@),
            final(self).wordlist == old(self).wordlist,
            final(self).hash == old(self).hash,
            final(self).focus == old(self).focus,
            final(self).running == old(self).running,
            final(self).checked == old(self).checked,
            final(self).total == old(self).total,
            final(self).found == old(self).found,
    {
        let ghost grown = texts(old(self).logs@).push(s@);
        self.logs.push(s);
        proof {
            assert(texts(self.logs@) =~= grown);
        }
        if self.logs.len() > LOG_CAP {
            let len = self.logs.len();
            let mut kept: Vec<String> = Vec::new();
            let mut i: usize = LOG_TRIM;
            while i < len
                invariant
                    LOG_TRIM <= i <= len,
                    len == self.logs@.len(),
                    LOG_TRIM < len,
                    kept@ == self.logs@.subrange(LOG_TRIM as int, i as int),
                decreases len - i,
            {
                kept.push(self.logs[i].clone());
                proof {
                    assert(kept@ =~= self.logs@.subrange(LOG_TRIM as int, i as int + 1));
                }
                i = i + 1;
            }
            self.logs = kept;
            proof {
                assert(texts(self.logs@) =~= grown.subrange(LOG_TRIM as int, grown.len() as int));
            }
        }
    }

    /// Applies one received event to the display state: progress updates the
    /// counters, a log line joins the history, a found password ends the run
    /// and is both recorded and logged, and `Done` marks the worker as
    /// terminated.
    pub fn apply_message(&mut self, m: Message)
        ensures
            final(self).wordlist == old(self).wordlist,
            final(self).hash == old(self).hash,
            final(self).focus == old(self).focus,
            m@ matches Event::Progress { checked, total } ==> {
                &&& final(self).checked == checked
                &&& final(self).total == total
                &&& final(self).logs == old(self).logs
                &&& final(self).running == old(self).running
                &&& final(self).found == old(self).found
            },
            m@ matches Event::Log(s) ==> {
                &&& texts(final(self).logs@) == push_log_text(texts(old(self).logs@), s)
                &&& final(self).running == old(self).running
                &&& final(self).checked == old(self).checked
                &&& final(self).total == old(self).total
                &&& final(self).found == old(self).found
            },
            m@ matches Event::Found(p) ==> {
                &&& !final(self).running
                &&& final(self).found matches Some(c) && c@ == p
                &&& texts(final(self).logs@) == push_log_text(
                    texts(old(self).logs@),
                    found_text(p),
                )
                &&& final(self).checked == old(self).checked
                &&& final(self).total == old(self).total
            },
            m@ is Done ==> {
                &&& !final(self).running
                &&& texts(final(self).logs@) == push_log_text(texts(old(self).logs@), done_text())
                &&& final(self).checked == old(self).checked
                &&& final(self).total == old(self).total
                &&& final(self).found == old(self).found
            },
    {
        match m {
            Message::Progress { checked, total } => {
                self.checked = checked;
                self.total = total;
            },
            Message::Found(pass) => {
                self.found = Some(pass.clone());
                self.running = false;
                let mut line = String::from_str("Password found: ");
                line.append(pass.as_str());
                proof {
                    assert(line@ =~= found_text(pass@));
                }
                self.push_log(line);
            },
            Message::Log(s) => {
                self.push_log(s);
            },
            Message::Done => {
                self.running = false;
                self.push_log(String::from_str("Done."));
            },
        }
    }
}

} // verus!
