//! The wordlist scan: the exact stream of events a scan produces, a stepwise
//! worker that a driver feeds one line at a time, and a whole-list runner.
//!
//! A scan processes lines in file order, 1-indexed. A line that could not be
//! decoded is logged and skipped; every line advances the checked counter
//! through a `Progress` event; every thousandth line and the final line add a
//! checkpoint log. The first non-empty trimmed candidate whose digest matches
//! the target ends the scan with `Found` followed immediately by `Done`; an
//! exhausted scan ends with a no-match log followed by `Done`.

use vstd::prelude::*;
use crate::digest::digest_hex;
use crate::digest::digest_hex_of;
use crate::msg::Event;
use crate::msg::Message;
use crate::msg::checked_message;
use crate::msg::checked_text;
use crate::msg::line_error_message;
use crate::msg::line_error_text;
use crate::msg::no_match_message;
use crate::msg::no_match_text;
use crate::msg::progress_message;
use crate::msg::total_message;
use crate::msg::total_text;
use crate::msg::views_of;
use crate::msg::lemma_views_of_concat;
use crate::text::trim;
use crate::text::trim_seq;

verus! {

/// A checkpoint log line is written every this many lines.
pub const LOG_EVERY: usize = 1000;

/// One line handed to the scan: its decoded text, or the description of the
/// error that prevented decoding it.
pub enum LineRead {
    Decoded(String),
    Unreadable(String),
}

/// The mathematical shape of a [`LineRead`].
pub enum LineView {
    Decoded(Seq<char>),
    Unreadable(Seq<char>),
}

impl View for LineRead {
    type V = LineView;

    open spec fn view(&self) -> LineView {
        match self {
            LineRead::Decoded(s) => LineView::Decoded(s@),
            LineRead::Unreadable(e) => LineView::Unreadable(e@),
        }
    }
}

/// The views of a sequence of lines, in order.
pub open spec fn line_views(ls: Seq<LineRead>) -> Seq<LineView> {
    ls.map_values(|l: LineRead| l@)
}

/// The candidate a decoded line offers: its text with surrounding whitespace
/// removed (an unreadable line offers none).
pub open spec fn candidate_of(line: LineView) -> Seq<char> {
    match line {
        LineView::Decoded(s) => trim_seq(s),
        LineView::Unreadable(_) => Seq::empty(),
    }
}

/// Whether a line's candidate is non-empty and its digest matches the target.
pub open spec fn line_matches(line: LineView, target: Seq<char>) -> bool {
    line is Decoded && candidate_of(line).len() > 0 && digest_hex_of(candidate_of(line))
        == target
}

/// Whether line `i` of `total` gets a checkpoint log: every thousandth line,
/// and the final line.
pub open spec fn wants_checkpoint(i: nat, total: nat) -> bool {
    i % (LOG_EVERY as nat) == 0 || i == total
}

/// The events produced for non-matching line `i` (1-indexed) of `total`: an
/// error log for an unreadable line, the progress update, and the checkpoint
/// log where one is due.
pub open spec fn line_events(line: LineView, i: nat, total: nat) -> Seq<Event> {
    let pre = match line {
        LineView::Unreadable(e) => seq![Event::Log(line_error_text(i, e))],
        LineView::Decoded(_) => Seq::empty(),
    };
    let post = if wants_checkpoint(i, total) {
        seq![Event::Log(checked_text(i, total))]
    } else {
        Seq::empty()
    };
    pre + seq![Event::Progress { checked: i as int, total: total as int }] + post
}

/// The events produced when line `i` (1-indexed) of `total` matches: the
/// progress update, then `Found` immediately followed by `Done`.
pub open spec fn match_events(line: LineView, i: nat, total: nat) -> Seq<Event> {
    seq![
        Event::Progress { checked: i as int, total: total as int },
        Event::Found(candidate_of(line)),
        Event::Done,
    ]
}

/// The events produced from line index `k` (0-based) onward, given that no
/// earlier line matched: each non-matching line contributes its events until
/// the first match ends the scan, and an exhausted scan ends with the
/// no-match log and `Done`.
pub open spec fn events_from(lines: Seq<LineView>, k: int, target: Seq<char>) -> Seq<Event>
    decreases lines.len() - k,
{
    if k < 0 || k >= lines.len() {
        seq![Event::Log(no_match_text()), Event::Done]
    } else if line_matches(lines[k], target) {
        match_events(lines[k], (k + 1) as nat, lines.len())
    } else {
        line_events(lines[k], (k + 1) as nat, lines.len()) + events_from(lines, k + 1, target)
    }
}

/// The full event stream of one scan: the total-count log and the initial
/// progress report, then the per-line events.
pub open spec fn scan_events(lines: Seq<LineView>, target: Seq<char>) -> Seq<Event> {
    seq![
        Event::Log(total_text(lines.len())),
        Event::Progress { checked: 0, total: lines.len() as int },
    ] + events_from(lines, 0, target)
}

/// The state of one scan: how many lines were processed, how many there are,
/// and whether (and with what candidate) the scan has terminated.
pub struct ScanState {
    /// Lines processed so far.
    pub checked: usize,
    /// Total line count, fixed for the scan's lifetime.
    pub total: usize,
    /// Whether the scan has terminated with a match.
    pub done: bool,
    /// The matching candidate, once one was found.
    pub found: Option<String>,
}

impl ScanState {
    /// The checked counter never passes the total.
    pub open spec fn inv(self) -> bool {
        self.checked <= self.total
    }
}

/// Starts a scan over `total` lines: reports the total in a log line, then an
/// initial progress event of zero checked.
pub fn scan_begin(total: usize) -> (r: (ScanState, Vec<Message>))
    ensures
        r.0.inv(),
        r.0.checked == 0,
        r.0.total == total,
        !r.0.done,
        r.0.found is None,
        views_of(r.1@) == seq![
            Event::Log(total_text(total as nat)),
            Event::Progress { checked: 0, total: total as int },
        ],
{
    let st = ScanState { checked: 0, total, done: false, found: None };
    let mut msgs: Vec<Message> = Vec::new();
    msgs.push(total_message(total));
    msgs.push(progress_message(0, total));
    proof {
        assert(views_of(msgs@) =~= seq![
            Event::Log(total_text(total as nat)),
            Event::Progress { checked: 0, total: total as int },
        ]);
    }
    (st, msgs)
}

/// Processes one line: advances the checked counter, and returns exactly the
/// events the scan emits for that line. On a match the state records the
/// trimmed candidate and the scan is done; otherwise it continues.
pub fn scan_step(st: &mut ScanState, line: &LineRead, target: &String) -> (msgs: Vec<Message>)
    requires
        old(st).inv(),
        !old(st).done,
        old(st).checked < old(st).total,
    ensures
        final(st).inv(),
        final(st).total == old(st).total,
        final(st).checked == old(st).checked + 1,
        final(st).done == line_matches(line@, target@),
        if line_matches(line@, target@) {
            &&& views_of(msgs@) == match_events(
                line@,
                (old(st).checked + 1) as nat,
                old(st).total as nat,
            )
            &&& final(st).found matches Some(c) && c@ == candidate_of(line@)
        } else {
            &&& views_of(msgs@) == line_events(
                line@,
                (old(st).checked + 1) as nat,
                old(st).total as nat,
            )
            &&& final(st).found == old(st).found
        },
{
    let total = st.total;
    let i = st.checked + 1;
    st.checked = i;
    let mut msgs: Vec<Message> = Vec::new();
    match line {
        LineRead::Unreadable(err) => {
            msgs.push(line_error_message(i, err.as_str()));
            msgs.push(progress_message(i, total));
            if i % LOG_EVERY == 0 || i == total {
                msgs.push(checked_message(i, total));
                proof {
                    assert(views_of(msgs@) =~= line_events(
                        line@,
                        i as nat,
                        total as nat,
                    ));
                }
            } else {
                proof {
                    assert(views_of(msgs@) =~= line_events(
                        line@,
                        i as nat,
                        total as nat,
                    ));
                }
            }
        },
        LineRead::Decoded(text) => {
            let candidate = trim(text.as_str());
            let is_match = if candidate.as_str().is_empty() {
                false
            } else {
                let hexd = digest_hex(candidate.as_str());
                hexd.eq(target)
            };
            if is_match {
                msgs.push(progress_message(i, total));
                st.found = Some(candidate.clone());
                msgs.push(Message::Found(candidate));
                msgs.push(Message::Done);
                st.done = true;
                proof {
                    assert(views_of(msgs@) =~= match_events(line@, i as nat, total as nat));
                }
            } else {
                msgs.push(progress_message(i, total));
                if i % LOG_EVERY == 0 || i == total {
                    msgs.push(checked_message(i, total));
                    proof {
                        assert(views_of(msgs@) =~= line_events(
                            line@,
                            i as nat,
                            total as nat,
                        ));
                    }
                } else {
                    proof {
                        assert(views_of(msgs@) =~= line_events(
                            line@,
                            i as nat,
                            total as nat,
                        ));
                    }
                }
            }
        },
    }
    msgs
}

/// Ends a scan that processed every line without a match: the no-match log
/// followed by `Done`.
pub fn scan_finish(st: &ScanState) -> (msgs: Vec<Message>)
    requires
        st.inv(),
        !st.done,
        st.checked == st.total,
    ensures
        views_of(msgs@) == seq![Event::Log(no_match_text()), Event::Done],
{
    let mut msgs: Vec<Message> = Vec::new();
    msgs.push(no_match_message());
    msgs.push(Message::Done);
    proof {
        assert(views_of(msgs@) =~= seq![Event::Log(no_match_text()), Event::Done]);
    }
    msgs
}

/// Scans a whole wordlist against a target digest and returns exactly the
/// event stream [`scan_events`] describes. Lines past the first match are
/// never examined.
pub fn run_scan(lines: &Vec<LineRead>, target: &String) -> (msgs: Vec<Message>)
    ensures
        views_of(msgs@) == scan_events(line_views(lines@), target@),
{
    let total = lines.len();
    let ghost lv = line_views(lines@);
    let (st0, out0) = scan_begin(total);
    let mut st = st0;
    let mut out = out0;
    proof {
        assert(lv.len() == lines@.len());
        assert(views_of(out@) + events_from(lv, 0, target@) == scan_events(lv, target@));
    }
    let mut k: usize = 0;
    while k < total
        invariant
            st.inv(),
            !st.done,
            st.total == total,
            st.checked == k,
            k <= total,
            total == lines@.len(),
            lv == line_views(lines@),
            views_of(out@) + events_from(lv, k as int, target@) == scan_events(lv, target@),
        decreases total - k,
    {
        proof {
            assert(lv[k as int] == lines@[k as int]@);
        }
        let step_msgs = scan_step(&mut st, &lines[k], target);
        let ghost old_out = out@;
        let mut step_msgs = step_msgs;
        out.append(&mut step_msgs);
        proof {
            lemma_views_of_concat(old_out, out@.subrange(old_out.len() as int, out@.len() as int));
            assert(out@ =~= old_out + out@.subrange(old_out.len() as int, out@.len() as int));
        }
        k = k + 1;
        if st.done {
            proof {
                assert(events_from(lv, k as int - 1, target@) == match_events(
                    lv[k as int - 1],
                    k as nat,
                    lv.len(),
                ));
                assert(views_of(out@) == scan_events(lv, target@));
            }
            return out;
        }
        proof {
            assert(events_from(lv, k as int - 1, target@) == line_events(
                lv[k as int - 1],
                k as nat,
                lv.len(),
            ) + events_from(lv, k as int, target@));
        }
    }
    let tail = scan_finish(&st);
    let ghost old_out = out@;
    let mut tail = tail;
    out.append(&mut tail);
    proof {
        lemma_views_of_concat(old_out, out@.subrange(old_out.len() as int, out@.len() as int));
        assert(out@ =~= old_out + out@.subrange(old_out.len() as int, out@.len() as int));
        assert(events_from(lv, total as int, target@) == seq![
            Event::Log(no_match_text()),
            Event::Done,
        ]);
    }
    out
}

/// A class of events the laws below count: progress events, `Done` events,
/// `Found` events, or log lines carrying the no-match report.
pub enum EventClass {
    AnyProgress,
    AnyDone,
    AnyFound,
    NoMatchLog,
}

/// Whether an event belongs to a class.
pub open spec fn event_in_class(e: Event, c: EventClass) -> bool {
    match c {
        EventClass::AnyProgress => e is Progress,
        EventClass::AnyDone => e is Done,
        EventClass::AnyFound => e is Found,
        EventClass::NoMatchLog => e == Event::Log(no_match_text()),
    }
}

/// The subsequence of events that belong to a class, in stream order.
pub open spec fn events_of_class(ev: Seq<Event>, c: EventClass) -> Seq<Event>
    decreases ev.len(),
{
    if ev.len() == 0 {
        Seq::empty()
    } else {
        let rest = events_of_class(ev.drop_first(), c);
        if event_in_class(ev[0], c) {
            seq![ev[0]] + rest
        } else {
            rest
        }
    }
}

/// The progress events of a stream, in order.
pub open spec fn progress_events(ev: Seq<Event>) -> Seq<Event> {
    events_of_class(ev, EventClass::AnyProgress)
}

/// The `Done` events of a stream, in order.
pub open spec fn done_events(ev: Seq<Event>) -> Seq<Event> {
    events_of_class(ev, EventClass::AnyDone)
}

/// The `Found` events of a stream, in order.
pub open spec fn found_events(ev: Seq<Event>) -> Seq<Event> {
    events_of_class(ev, EventClass::AnyFound)
}

/// The no-match log events of a stream, in order.
pub open spec fn no_match_logs(ev: Seq<Event>) -> Seq<Event> {
    events_of_class(ev, EventClass::NoMatchLog)
}

proof fn lemma_class_empty(c: EventClass)
    ensures
        events_of_class(Seq::<Event>::empty(), c) == Seq::<Event>::empty(),
{
}

proof fn lemma_class_one(e: Event, c: EventClass)
    ensures
        events_of_class(seq![e], c) == if event_in_class(e, c) {
            seq![e]
        } else {
            Seq::<Event>::empty()
        },
{
    assert(seq![e].drop_first() =~= Seq::<Event>::empty());
    lemma_class_empty(c);
    if event_in_class(e, c) {
        assert(seq![e] + Seq::<Event>::empty() =~= seq![e]);
    }
}

proof fn lemma_class_concat(a: Seq<Event>, b: Seq<Event>, c: EventClass)
    ensures
        events_of_class(a + b, c) == events_of_class(a, c) + events_of_class(b, c),
    decreases a.len(),
{
    if a.len() == 0 {
        assert(a + b =~= b);
        lemma_class_empty(c);
        assert(events_of_class(a, c) + events_of_class(b, c) =~= events_of_class(b, c));
    } else {
        assert((a + b).drop_first() =~= a.drop_first() + b);
        assert((a + b)[0] == a[0]);
        lemma_class_concat(a.drop_first(), b, c);
        if event_in_class(a[0], c) {
            assert(seq![a[0]] + (events_of_class(a.drop_first(), c) + events_of_class(b, c))
                =~= (seq![a[0]] + events_of_class(a.drop_first(), c)) + events_of_class(b, c));
        }
    }
}

/// None of the other log lines a scan writes reads like the no-match report.
proof fn lemma_log_texts_differ(i: nat, total: nat, err: Seq<char>)
    ensures
        checked_text(i, total) != no_match_text(),
        line_error_text(i, err) != no_match_text(),
        total_text(total) != no_match_text(),
{
    reveal_strlit("Checked ");
    reveal_strlit("Error reading line ");
    reveal_strlit("Wordlist has ");
    reveal_strlit("No password found in wordlist.");
    assert(checked_text(i, total)[0] == 'C');
    assert(line_error_text(i, err)[0] == 'E');
    assert(total_text(total)[0] == 'W');
    assert(no_match_text()[0] == 'N');
}

/// The classified subsequences of the events of one non-matching line.
proof fn lemma_chunk_classes(line: LineView, i: nat, total: nat, target: Seq<char>)
    requires
        !line_matches(line, target),
    ensures
        progress_events(line_events(line, i, total)) == seq![
            Event::Progress { checked: i as int, total: total as int },
        ],
        done_events(line_events(line, i, total)) == Seq::<Event>::empty(),
        found_events(line_events(line, i, total)) == Seq::<Event>::empty(),
        no_match_logs(line_events(line, i, total)) == Seq::<Event>::empty(),
{
    lemma_log_texts_differ(i, total, match line {
        LineView::Unreadable(e) => e,
        LineView::Decoded(_) => Seq::empty(),
    });
    let pre = match line {
        LineView::Unreadable(e) => seq![Event::Log(line_error_text(i, e))],
        LineView::Decoded(_) => Seq::<Event>::empty(),
    };
    let mid = seq![Event::Progress { checked: i as int, total: total as int }];
    let post = if wants_checkpoint(i, total) {
        seq![Event::Log(checked_text(i, total))]
    } else {
        Seq::<Event>::empty()
    };
    assert(line_events(line, i, total) == pre + mid + post);
    lemma_chunk_classes_one(pre, mid, post, EventClass::AnyProgress);
    lemma_chunk_classes_one(pre, mid, post, EventClass::AnyDone);
    lemma_chunk_classes_one(pre, mid, post, EventClass::AnyFound);
    lemma_chunk_classes_one(pre, mid, post, EventClass::NoMatchLog);
    assert(progress_events(pre + mid + post) =~= mid);
    assert(done_events(pre + mid + post) =~= Seq::<Event>::empty());
    assert(found_events(pre + mid + post) =~= Seq::<Event>::empty());
    assert(no_match_logs(pre + mid + post) =~= Seq::<Event>::empty());
}

/// Splits the classified subsequence of a three-part chunk into its parts,
/// each part holding at most one event.
proof fn lemma_chunk_classes_one(pre: Seq<Event>, mid: Seq<Event>, post: Seq<Event>, c: EventClass)
    requires
        pre.len() <= 1,
        mid.len() <= 1,
        post.len() <= 1,
    ensures
        events_of_class(pre + mid + post, c) == events_of_class(pre, c) + events_of_class(mid, c)
            + events_of_class(post, c),
        pre.len() == 1 ==> events_of_class(pre, c) == if event_in_class(pre[0], c) {
            pre
        } else {
            Seq::<Event>::empty()
        },
        pre.len() == 0 ==> events_of_class(pre, c) == Seq::<Event>::empty(),
        mid.len() == 1 ==> events_of_class(mid, c) == if event_in_class(mid[0], c) {
            mid
        } else {
            Seq::<Event>::empty()
        },
        mid.len() == 0 ==> events_of_class(mid, c) == Seq::<Event>::empty(),
        post.len() == 1 ==> events_of_class(post, c) == if event_in_class(post[0], c) {
            post
        } else {
            Seq::<Event>::empty()
        },
        post.len() == 0 ==> events_of_class(post, c) == Seq::<Event>::empty(),
{
    lemma_class_concat(pre + mid, post, c);
    lemma_class_concat(pre, mid, c);
    lemma_class_empty(c);
    if pre.len() == 1 {
        assert(pre =~= seq![pre[0]]);
        lemma_class_one(pre[0], c);
    } else {
        assert(pre =~= Seq::<Event>::empty());
    }
    if mid.len() == 1 {
        assert(mid =~= seq![mid[0]]);
        lemma_class_one(mid[0], c);
    } else {
        assert(mid =~= Seq::<Event>::empty());
    }
    if post.len() == 1 {
        assert(post =~= seq![post[0]]);
        lemma_class_one(post[0], c);
    } else {
        assert(post =~= Seq::<Event>::empty());
    }
}

/// The classified subsequences of the three events that end a matching scan.
proof fn lemma_match_chunk_classes(line: LineView, i: nat, total: nat)
    ensures
        progress_events(match_events(line, i, total)) == seq![
            Event::Progress { checked: i as int, total: total as int },
        ],
        done_events(match_events(line, i, total)) == seq![Event::Done],
        found_events(match_events(line, i, total)) == seq![Event::Found(candidate_of(line))],
        no_match_logs(match_events(line, i, total)) == Seq::<Event>::empty(),
{
    let a = Event::Progress { checked: i as int, total: total as int };
    let b = Event::Found(candidate_of(line));
    let c = Event::Done;
    assert(match_events(line, i, total) == seq![a] + seq![b] + seq![c]) by {
        assert(match_events(line, i, total) =~= seq![a] + seq![b] + seq![c]);
    }
    lemma_chunk_classes_one(seq![a], seq![b], seq![c], EventClass::AnyProgress);
    lemma_chunk_classes_one(seq![a], seq![b], seq![c], EventClass::AnyDone);
    lemma_chunk_classes_one(seq![a], seq![b], seq![c], EventClass::AnyFound);
    lemma_chunk_classes_one(seq![a], seq![b], seq![c], EventClass::NoMatchLog);
    assert(progress_events(match_events(line, i, total)) =~= seq![a]);
    assert(done_events(match_events(line, i, total)) =~= seq![c]);
    assert(found_events(match_events(line, i, total)) =~= seq![b]);
    assert(no_match_logs(match_events(line, i, total)) =~= Seq::<Event>::empty());
}

/// A run of progress events: `count` of them, counting up from `lo`, all
/// reporting the same total.
pub open spec fn progress_ramp(lo: int, n: int, count: nat) -> Seq<Event> {
    Seq::new(count, |j: int| Event::Progress { checked: lo + j, total: n })
}

proof fn lemma_ramp_prepend(lo: int, n: int, count: nat)
    ensures
        seq![Event::Progress { checked: lo, total: n }] + progress_ramp(lo + 1, n, count)
            == progress_ramp(lo, n, count + 1),
{
    assert(seq![Event::Progress { checked: lo, total: n }] + progress_ramp(lo + 1, n, count)
        =~= progress_ramp(lo, n, count + 1));
}

/// The shape of the event stream a scan without a match produces from line
/// index `k` (0-based) on: one progress event per remaining line, then the
/// no-match log and the single `Done`, and never a `Found`.
pub open spec fn no_match_stream_shape(ev: Seq<Event>, k: int, n: int) -> bool {
    &&& progress_events(ev) == progress_ramp(k + 1, n, (n - k) as nat)
    &&& done_events(ev) == seq![Event::Done]
    &&& found_events(ev) == Seq::<Event>::empty()
    &&& no_match_logs(ev) == seq![Event::Log(no_match_text())]
    &&& ev.len() >= 2
    &&& ev[ev.len() - 2] == Event::Log(no_match_text())
    &&& ev[ev.len() - 1] == Event::Done
}

/// The shape of the event stream produced from line index `k` (0-based) on
/// when line `m` (1-indexed, `k < m`) is the first match: one progress event
/// per line up to and including `m`, then the single `Found` carrying `cand`,
/// immediately followed by the single `Done`, with no no-match log.
pub open spec fn match_stream_shape(
    ev: Seq<Event>,
    k: int,
    n: int,
    m: int,
    cand: Seq<char>,
) -> bool {
    &&& progress_events(ev) == progress_ramp(k + 1, n, (m - k) as nat)
    &&& done_events(ev) == seq![Event::Done]
    &&& found_events(ev) == seq![Event::Found(cand)]
    &&& no_match_logs(ev) == Seq::<Event>::empty()
    &&& ev.len() >= 3
    &&& ev[ev.len() - 3] == (Event::Progress { checked: m, total: n })
    &&& ev[ev.len() - 2] == Event::Found(cand)
    &&& ev[ev.len() - 1] == Event::Done
}

proof fn lemma_no_match_base(lines: Seq<LineView>, target: Seq<char>)
    ensures
        no_match_stream_shape(
            events_from(lines, lines.len() as int, target),
            lines.len() as int,
            lines.len() as int,
        ),
{
    let k = lines.len() as int;
    let ev = events_from(lines, k, target);
    let a = Event::Log(no_match_text());
    let b = Event::Done;
    assert(ev == seq![a] + seq![b] + Seq::<Event>::empty()) by {
        assert(ev =~= seq![a] + seq![b] + Seq::<Event>::empty());
    }
    lemma_chunk_classes_one(seq![a], seq![b], Seq::<Event>::empty(), EventClass::AnyProgress);
    lemma_chunk_classes_one(seq![a], seq![b], Seq::<Event>::empty(), EventClass::AnyDone);
    lemma_chunk_classes_one(seq![a], seq![b], Seq::<Event>::empty(), EventClass::AnyFound);
    lemma_chunk_classes_one(seq![a], seq![b], Seq::<Event>::empty(), EventClass::NoMatchLog);
    assert(progress_events(ev) =~= progress_ramp(k + 1, k, 0));
    assert(done_events(ev) =~= seq![Event::Done]);
    assert(found_events(ev) =~= Seq::<Event>::empty());
    assert(no_match_logs(ev) =~= seq![Event::Log(no_match_text())]);
}

proof fn lemma_events_from_no_match(lines: Seq<LineView>, k: int, target: Seq<char>)
    requires
        0 <= k <= lines.len(),
        forall|j: int| k <= j < lines.len() ==> !line_matches(#[trigger] lines[j], target),
    ensures
        no_match_stream_shape(events_from(lines, k, target), k, lines.len() as int),
    decreases lines.len() - k,
{
    let n = lines.len() as int;
    let ev = events_from(lines, k, target);
    if k == lines.len() {
        lemma_no_match_base(lines, target);
    } else {
        lemma_events_from_no_match(lines, k + 1, target);
        let ch = line_events(lines[k], (k + 1) as nat, lines.len());
        let rest = events_from(lines, k + 1, target);
        assert(ev == ch + rest);
        lemma_chunk_classes(lines[k], (k + 1) as nat, lines.len(), target);
        lemma_class_concat(ch, rest, EventClass::AnyProgress);
        lemma_class_concat(ch, rest, EventClass::AnyDone);
        lemma_class_concat(ch, rest, EventClass::AnyFound);
        lemma_class_concat(ch, rest, EventClass::NoMatchLog);
        lemma_ramp_prepend(k + 1, n, (n - k - 1) as nat);
        assert(Seq::<Event>::empty() + done_events(rest) =~= done_events(rest));
        assert(Seq::<Event>::empty() + found_events(rest) =~= found_events(rest));
        assert(Seq::<Event>::empty() + no_match_logs(rest) =~= no_match_logs(rest));
        assert(ev[ev.len() - 2] == rest[rest.len() - 2]);
        assert(ev[ev.len() - 1] == rest[rest.len() - 1]);
    }
}

proof fn lemma_events_from_first_match(lines: Seq<LineView>, k: int, target: Seq<char>, m: int)
    requires
        1 <= m <= lines.len(),
        0 <= k <= m - 1,
        line_matches(lines[m - 1], target),
        forall|j: int| k <= j < m - 1 ==> !line_matches(#[trigger] lines[j], target),
    ensures
        match_stream_shape(
            events_from(lines, k, target),
            k,
            lines.len() as int,
            m,
            candidate_of(lines[m - 1]),
        ),
    decreases m - k,
{
    let n = lines.len() as int;
    let ev = events_from(lines, k, target);
    if k == m - 1 {
        lemma_match_chunk_classes(lines[k], (k + 1) as nat, lines.len());
        assert(progress_events(ev) =~= progress_ramp(k + 1, n, 1));
    } else {
        lemma_events_from_first_match(lines, k + 1, target, m);
        let ch = line_events(lines[k], (k + 1) as nat, lines.len());
        let rest = events_from(lines, k + 1, target);
        assert(ev == ch + rest);
        lemma_chunk_classes(lines[k], (k + 1) as nat, lines.len(), target);
        lemma_class_concat(ch, rest, EventClass::AnyProgress);
        lemma_class_concat(ch, rest, EventClass::AnyDone);
        lemma_class_concat(ch, rest, EventClass::AnyFound);
        lemma_class_concat(ch, rest, EventClass::NoMatchLog);
        lemma_ramp_prepend(k + 1, n, (m - k - 1) as nat);
        assert(Seq::<Event>::empty() + done_events(rest) =~= done_events(rest));
        assert(Seq::<Event>::empty() + found_events(rest) =~= found_events(rest));
        assert(Seq::<Event>::empty() + no_match_logs(rest) =~= no_match_logs(rest));
        assert(ev[ev.len() - 3] == rest[rest.len() - 3]);
        assert(ev[ev.len() - 2] == rest[rest.len() - 2]);
        assert(ev[ev.len() - 1] == rest[rest.len() - 1]);
    }
}

proof fn lemma_scan_prefix(lines: Seq<LineView>, target: Seq<char>)
    ensures
        ({
            let a = Event::Log(total_text(lines.len()));
            let b = Event::Progress { checked: 0, total: lines.len() as int };
            let rest = events_from(lines, 0, target);
            &&& scan_events(lines, target) == seq![a] + seq![b] + rest
            &&& progress_events(scan_events(lines, target)) == seq![b] + progress_events(rest)
            &&& done_events(scan_events(lines, target)) == done_events(rest)
            &&& found_events(scan_events(lines, target)) == found_events(rest)
            &&& no_match_logs(scan_events(lines, target)) == no_match_logs(rest)
        }),
{
    let n = lines.len() as int;
    let a = Event::Log(total_text(lines.len()));
    let b = Event::Progress { checked: 0, total: n };
    let rest = events_from(lines, 0, target);
    let ev = scan_events(lines, target);
    lemma_log_texts_differ(0, lines.len(), Seq::empty());
    assert(ev == seq![a] + seq![b] + rest) by {
        assert(ev =~= seq![a] + seq![b] + rest);
    }
    lemma_class_concat(seq![a] + seq![b], rest, EventClass::AnyProgress);
    lemma_class_concat(seq![a] + seq![b], rest, EventClass::AnyDone);
    lemma_class_concat(seq![a] + seq![b], rest, EventClass::AnyFound);
    lemma_class_concat(seq![a] + seq![b], rest, EventClass::NoMatchLog);
    lemma_chunk_classes_one(seq![a], seq![b], Seq::<Event>::empty(), EventClass::AnyProgress);
    lemma_chunk_classes_one(seq![a], seq![b], Seq::<Event>::empty(), EventClass::AnyDone);
    lemma_chunk_classes_one(seq![a], seq![b], Seq::<Event>::empty(), EventClass::AnyFound);
    lemma_chunk_classes_one(seq![a], seq![b], Seq::<Event>::empty(), EventClass::NoMatchLog);
    assert(seq![a] + seq![b] + Seq::<Event>::empty() =~= seq![a] + seq![b]);
    assert(progress_events(ev) =~= seq![b] + progress_events(rest));
    assert(done_events(ev) =~= done_events(rest));
    assert(found_events(ev) =~= found_events(rest));
    assert(no_match_logs(ev) =~= no_match_logs(rest));
}

/// A scan that finds no match emits exactly one progress event for every
/// checked count from zero through the line count, in increasing order with
/// no duplicates and no gaps, exactly one no-match log and exactly one `Done`,
/// the log second to last and `Done` last; and no `Found` event at all.
pub proof fn lemma_scan_no_match(lines: Seq<LineView>, target: Seq<char>)
    requires
        forall|j: int| 0 <= j < lines.len() ==> !line_matches(#[trigger] lines[j], target),
    ensures
        ({
            let ev = scan_events(lines, target);
            let n = lines.len() as int;
            &&& progress_events(ev) == progress_ramp(0, n, lines.len() + 1)
            &&& done_events(ev) == seq![Event::Done]
            &&& found_events(ev) == Seq::<Event>::empty()
            &&& no_match_logs(ev) == seq![Event::Log(no_match_text())]
            &&& ev.len() >= 4
            &&& ev[ev.len() - 2] == Event::Log(no_match_text())
            &&& ev[ev.len() - 1] == Event::Done
        }),
{
    let n = lines.len() as int;
    let ev = scan_events(lines, target);
    let rest = events_from(lines, 0, target);
    lemma_events_from_no_match(lines, 0, target);
    lemma_scan_prefix(lines, target);
    lemma_ramp_prepend(0, n, lines.len());
    assert(ev[ev.len() - 2] == rest[rest.len() - 2]);
    assert(ev[ev.len() - 1] == rest[rest.len() - 1]);
}

/// When line `m` (1-indexed) is the first whose candidate hashes to the
/// target, the scan emits exactly one progress event for every checked count
/// from zero through `m` and none beyond, then exactly one `Found` holding
/// that line's trimmed candidate, immediately followed by the single `Done`;
/// no no-match log appears.
pub proof fn lemma_scan_first_match(lines: Seq<LineView>, target: Seq<char>, m: int)
    requires
        1 <= m <= lines.len(),
        line_matches(lines[m - 1], target),
        forall|j: int| 0 <= j < m - 1 ==> !line_matches(#[trigger] lines[j], target),
    ensures
        ({
            let ev = scan_events(lines, target);
            let n = lines.len() as int;
            &&& progress_events(ev) == progress_ramp(0, n, (m + 1) as nat)
            &&& done_events(ev) == seq![Event::Done]
            &&& found_events(ev) == seq![Event::Found(candidate_of(lines[m - 1]))]
            &&& no_match_logs(ev) == Seq::<Event>::empty()
            &&& ev.len() >= 5
            &&& ev[ev.len() - 3] == (Event::Progress { checked: m, total: n })
            &&& ev[ev.len() - 2] == Event::Found(candidate_of(lines[m - 1]))
            &&& ev[ev.len() - 1] == Event::Done
        }),
{
    let n = lines.len() as int;
    let ev = scan_events(lines, target);
    let rest = events_from(lines, 0, target);
    lemma_events_from_first_match(lines, 0, target, m);
    lemma_scan_prefix(lines, target);
    lemma_ramp_prepend(0, n, m as nat);
    assert(ev[ev.len() - 3] == rest[rest.len() - 3]);
    assert(ev[ev.len() - 2] == rest[rest.len() - 2]);
    assert(ev[ev.len() - 1] == rest[rest.len() - 1]);
}



/// The scan's first two events report the exact line count of the wordlist,
/// whatever the lines hold: a log line naming the total, then a progress
/// event of zero checked out of that same total.
pub proof fn lemma_scan_reports_total(lines: Seq<LineView>, target: Seq<char>)
    ensures
        scan_events(lines, target).len() >= 2,
        scan_events(lines, target)[0] == Event::Log(total_text(lines.len())),
        scan_events(lines, target)[1] == (Event::Progress {
            checked: 0,
            total: lines.len() as int,
        }),
{
}

} // verus!
