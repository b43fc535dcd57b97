//! The line driver: reads lines through the rewindable stream, looks for a
//! brace, probes for a JSON value, and emits either flattened lines or the
//! original line verbatim. The driver asks its caller for more source
//! bytes with `Step::NeedInput` and hands output back with `Step::Output`;
//! every transition is pinned by `step_spec`.

use vstd::prelude::*;
use vstd::pervasive::unreached;
use crate::bytes::{all_ws, bytes_all_ws, find_byte, seq_find};
use crate::flatten::{flat_lines, flatten, line_views};
use crate::parse::{ParseOutcome, ParseRep, is_utf8, parse_value_prefix, spec_is_utf8,
    spec_parse_json};
use crate::rewind::RewindBuffer;

verus! {

/// Whether a complete line is pending.
pub open spec fn has_newline(p: Seq<u8>) -> bool {
    seq_find(p, 10) < p.len()
}

/// Where the current line ends: one past its newline, or the end of the
/// pending bytes when no newline is left.
pub open spec fn line_end(p: Seq<u8>) -> int {
    if has_newline(p) {
        seq_find(p, 10) + 1
    } else {
        p.len() as int
    }
}

/// The output lines from `i` on, each with a trailing newline.
pub open spec fn join_from(lines: Seq<Seq<u8>>, i: int) -> Seq<u8>
    decreases lines.len() - i,
{
    if i < 0 || i >= lines.len() {
        Seq::empty()
    } else {
        lines[i] + seq![10u8] + join_from(lines, i + 1)
    }
}

/// All output lines, each with a trailing newline.
pub open spec fn join_lines(lines: Seq<Seq<u8>>) -> Seq<u8> {
    join_from(lines, 0)
}

/// The summary marker standing in for an already-flattened JSON body.
pub open spec fn summary_infix() -> Seq<u8> {
    seq![123u8, 226u8, 128u8, 166u8, 125u8]
}

/// The model of the driver's control state.
pub enum StateRep {
    Scanning,
    Probing { prefix: Seq<u8>, line: Seq<u8> },
    Ending { record: Seq<u8>, prefix: Seq<u8> },
    Discarding,
    Failed,
}

/// The model of the driver: the pending bytes, whether the source is
/// exhausted, and the control state.
pub struct DriverRep {
    pub pending: Seq<u8>,
    pub eof: bool,
    pub state: StateRep,
}

/// The model of one step's outcome.
pub enum StepRep {
    NeedInput,
    Output(Seq<u8>),
    Progress,
    Done,
    InvalidData,
}

/// What one step asks of the caller: feed more source bytes (or declare
/// end of input), write and flush these output bytes, call again, stop, or
/// fail on bytes that are not text.
pub enum Step {
    NeedInput,
    Output(Vec<u8>),
    Progress,
    Done,
    InvalidData,
}

impl Step {
    /// The model of this outcome.
    pub open spec fn rep(self) -> StepRep {
        match self {
            Step::NeedInput => StepRep::NeedInput,
            Step::Output(v) => StepRep::Output(v@),
            Step::Progress => StepRep::Progress,
            Step::Done => StepRep::Done,
            Step::InvalidData => StepRep::InvalidData,
        }
    }
}

/// `pre` with its pending bytes and control state replaced.
pub open spec fn rep_with(pre: DriverRep, pending: Seq<u8>, state: StateRep) -> DriverRep {
    DriverRep { pending, eof: pre.eof, state }
}

/// Scanning: wait for a full line; stop at end of input; pass a line
/// without a brace through unchanged; on a brace, split the line there and
/// push the tail back for the probe.
pub open spec fn scan_spec(pre: DriverRep, post: DriverRep, r: StepRep) -> bool {
    let p = pre.pending;
    if !has_newline(p) && !pre.eof {
        r == StepRep::NeedInput && post == pre
    } else if !has_newline(p) && p.len() == 0 {
        r == StepRep::Done && post == pre
    } else {
        let n = line_end(p);
        let line = p.take(n);
        let rest = p.skip(n);
        if !spec_is_utf8(line) {
            r == StepRep::InvalidData && post == rep_with(pre, rest, StateRep::Failed)
        } else {
            let b = seq_find(line, 123);
            if b == line.len() {
                r == StepRep::Output(line) && post == rep_with(pre, rest, StateRep::Scanning)
            } else {
                r == StepRep::Progress && post == rep_with(
                    pre,
                    line.skip(b) + rest,
                    StateRep::Probing { prefix: line.take(b), line },
                )
            }
        }
    }
}

/// A failed probe: the stream is exactly as before the probe, the original
/// line goes out verbatim, and its pushed-back tail is discarded next.
pub open spec fn verbatim_spec(pre: DriverRep, line: Seq<u8>, post: DriverRep, r: StepRep) -> bool {
    r == StepRep::Output(line) && post == rep_with(pre, pre.pending, StateRep::Discarding)
}

/// Probing: parse one JSON value from the front of the pending bytes. On
/// success the value's bytes are consumed and its flattened record is
/// ready; a premature end waits for more input until the source is
/// exhausted; anything else is not JSON and rewinds losslessly.
pub open spec fn probe_spec(
    pre: DriverRep,
    prefix: Seq<u8>,
    line: Seq<u8>,
    post: DriverRep,
    r: StepRep,
) -> bool {
    match spec_parse_json(pre.pending) {
        ParseRep::Incomplete => if pre.eof {
            verbatim_spec(pre, line, post, r)
        } else {
            r == StepRep::NeedInput && post == pre
        },
        ParseRep::Syntax => verbatim_spec(pre, line, post, r),
        ParseRep::Parsed(rep, n) => r == StepRep::Progress && post == rep_with(
            pre,
            pre.pending.skip(n),
            StateRep::Ending { record: join_lines(flat_lines(prefix, rep)), prefix },
        ),
    }
}

/// Ending: read the rest of the line the JSON value sat on; when anything
/// but whitespace trails the value, one collapsed summary line follows the
/// flattened record.
pub open spec fn ending_spec(
    pre: DriverRep,
    record: Seq<u8>,
    prefix: Seq<u8>,
    post: DriverRep,
    r: StepRep,
) -> bool {
    let p = pre.pending;
    if !has_newline(p) && !pre.eof {
        r == StepRep::NeedInput && post == pre
    } else {
        let n = line_end(p);
        let ending = p.take(n);
        let rest = p.skip(n);
        if !spec_is_utf8(ending) {
            r == StepRep::InvalidData && post == rep_with(pre, rest, StateRep::Failed)
        } else {
            let out = if all_ws(ending) {
                record
            } else {
                record + prefix + summary_infix() + ending
            };
            r == StepRep::Output(out) && post == rep_with(pre, rest, StateRep::Scanning)
        }
    }
}

/// Discarding: consume the restored tail of a line whose probe failed, up
/// to and including its newline.
pub open spec fn discard_spec(pre: DriverRep, post: DriverRep, r: StepRep) -> bool {
    let p = pre.pending;
    if !has_newline(p) && !pre.eof {
        r == StepRep::NeedInput && post == pre
    } else {
        let n = line_end(p);
        let line = p.take(n);
        let rest = p.skip(n);
        if !spec_is_utf8(line) {
            r == StepRep::InvalidData && post == rep_with(pre, rest, StateRep::Failed)
        } else {
            r == StepRep::Progress && post == rep_with(pre, rest, StateRep::Scanning)
        }
    }
}

/// What one driver step does, by control state.
pub open spec fn step_spec(pre: DriverRep, post: DriverRep, r: StepRep) -> bool {
    match pre.state {
        StateRep::Scanning => scan_spec(pre, post, r),
        StateRep::Probing { prefix, line } => probe_spec(pre, prefix, line, post, r),
        StateRep::Ending { record, prefix } => ending_spec(pre, record, prefix, post, r),
        StateRep::Discarding => discard_spec(pre, post, r),
        StateRep::Failed => r == StepRep::InvalidData && post == pre,
    }
}

enum DriverState {
    Scanning,
    Probing { prefix: Vec<u8>, line: Vec<u8> },
    Ending { record: Vec<u8>, prefix: Vec<u8> },
    Discarding,
    Failed,
}

/// The line driver.
pub struct Driver {
    stream: RewindBuffer,
    eof: bool,
    state: DriverState,
}

impl Driver {
    /// The model of this driver.
    pub closed spec fn rep(self) -> DriverRep {
        DriverRep {
            pending: self.stream.pending(),
            eof: self.eof,
            state: match self.state {
                DriverState::Scanning => StateRep::Scanning,
                DriverState::Probing { prefix, line } => StateRep::Probing {
                    prefix: prefix@,
                    line: line@,
                },
                DriverState::Ending { record, prefix } => StateRep::Ending {
                    record: record@,
                    prefix: prefix@,
                },
                DriverState::Discarding => StateRep::Discarding,
                DriverState::Failed => StateRep::Failed,
            },
        }
    }

    /// A fresh driver: nothing pending, source not exhausted, scanning.
    pub fn new() -> (r: Driver)
        ensures
            r.rep() == (DriverRep {
                pending: Seq::<u8>::empty(),
                eof: false,
                state: StateRep::Scanning,
            }),
    {
        Driver { stream: RewindBuffer::new(), eof: false, state: DriverState::Scanning }
    }

    /// Hands the driver more bytes from the source.
    pub fn feed(&mut self, bytes: &[u8])
        ensures
            final(self).rep() == rep_with(
                old(self).rep(),
                old(self).rep().pending + bytes@,
                old(self).rep().state,
            ),
    {
        self.stream.feed(bytes);
    }

    /// Declares the source exhausted.
    pub fn set_eof(&mut self)
        ensures
            final(self).rep() == (DriverRep {
                pending: old(self).rep().pending,
                eof: true,
                state: old(self).rep().state,
            }),
    {
        self.eof = true;
    }

    /// Takes the next line off the stream: up to and including the first
    /// newline, or everything left once the source is exhausted. `None`
    /// when neither is available yet.
    fn take_line(&mut self) -> (r: Option<Vec<u8>>)
        ensures
            match r {
                Some(line) => {
                    &&& has_newline(old(self).rep().pending) || old(self).rep().eof
                    &&& line@ == old(self).rep().pending.take(line_end(old(self).rep().pending))
                    &&& final(self).rep() == rep_with(
                        old(self).rep(),
                        old(self).rep().pending.skip(line_end(old(self).rep().pending)),
                        old(self).rep().state,
                    )
                },
                None => {
                    &&& !has_newline(old(self).rep().pending) && !old(self).rep().eof
                    &&& *final(self) == *old(self)
                },
            },
    {
        let mut line: Vec<u8> = Vec::new();
        match self.stream.read_line(&mut line) {
            Some(_) => Some(line),
            None => {
                if self.eof {
                    self.stream.take_rest(&mut line);
                    proof {
                        assert(line@ =~= old(self).rep().pending.take(
                            line_end(old(self).rep().pending),
                        ));
                        assert(self.stream.pending() =~= old(self).rep().pending.skip(
                            line_end(old(self).rep().pending),
                        ));
                    }
                    Some(line)
                } else {
                    None
                }
            },
        }
    }

    fn scan_step(&mut self) -> (r: Step)
        requires
            old(self).rep().state is Scanning,
        ensures
            step_spec(old(self).rep(), final(self).rep(), r.rep()),
    {
        let ghost pre = self.rep();
        let line = match self.take_line() {
            Some(l) => l,
            None => {
                return Step::NeedInput;
            },
        };
        proof {
            crate::bytes::lemma_seq_find(pre.pending, 10);
        }
        if line.len() == 0 {
            proof {
                assert(pre.pending.skip(line_end(pre.pending)) =~= pre.pending);
            }
            return Step::Done;
        }
        self.stream.forget_past();
        if !is_utf8(line.as_slice()) {
            self.state = DriverState::Failed;
            return Step::InvalidData;
        }
        match find_byte(line.as_slice(), 123) {
            None => Step::Output(line),
            Some(b) => {
                let mut prefix: Vec<u8> = Vec::new();
                prefix.extend_from_slice(&line.as_slice()[0..b]);
                self.stream.unread(&line.as_slice()[b..line.len()]);
                proof {
                    assert(prefix@ =~= line@.take(b as int));
                    assert(self.stream.pending() =~= line@.skip(b as int) + pre.pending.skip(
                        line_end(pre.pending),
                    ));
                }
                self.state = DriverState::Probing { prefix, line };
                Step::Progress
            },
        }
    }

    fn probe_step(&mut self) -> (r: Step)
        requires
            old(self).rep().state is Probing,
        ensures
            step_spec(old(self).rep(), final(self).rep(), r.rep()),
    {
        let ghost pre = self.rep();
        self.stream.forget_past();
        let mut avail: Vec<u8> = Vec::new();
        self.stream.take_rest(&mut avail);
        proof {
            assert(avail@ =~= pre.pending);
        }
        match parse_value_prefix(avail.as_slice()) {
            ParseOutcome::Incomplete => {
                self.stream.rewind();
                proof {
                    assert(self.stream.pending() =~= pre.pending);
                }
                if !self.eof {
                    return Step::NeedInput;
                }
                self.to_verbatim()
            },
            ParseOutcome::Syntax => {
                self.stream.rewind();
                proof {
                    assert(self.stream.pending() =~= pre.pending);
                }
                self.to_verbatim()
            },
            ParseOutcome::Value(v, n) => {
                self.stream.rewind();
                proof {
                    assert(self.stream.pending() =~= pre.pending);
                }
                let mut eaten: Vec<u8> = Vec::new();
                self.stream.read(&mut eaten, n);
                self.stream.forget_past();
                let mut st = DriverState::Scanning;
                core::mem::swap(&mut st, &mut self.state);
                match st {
                    DriverState::Probing { prefix, line } => {
                        let mut path = prefix;
                        let mut lines: Vec<Vec<u8>> = Vec::new();
                        flatten(&mut path, &v, &mut lines);
                        let mut record: Vec<u8> = Vec::new();
                        join_into(&mut record, &lines);
                        proof {
                            assert(line_views(lines@) =~= flat_lines(path@, v.rep()));
                        }
                        self.state = DriverState::Ending { record, prefix: path };
                        Step::Progress
                    },
                    _ => unreached(),
                }
            },
        }
    }

    /// Emits the retained line verbatim and moves on to discarding its
    /// pushed-back tail.
    fn to_verbatim(&mut self) -> (r: Step)
        requires
            old(self).rep().state is Probing,
        ensures
            ({
                let line = old(self).rep().state->Probing_line;
                verbatim_spec(old(self).rep(), line, final(self).rep(), r.rep())
            }),
    {
        let mut st = DriverState::Discarding;
        core::mem::swap(&mut st, &mut self.state);
        match st {
            DriverState::Probing { prefix: _, line } => Step::Output(line),
            _ => unreached(),
        }
    }

    fn ending_step(&mut self) -> (r: Step)
        requires
            old(self).rep().state is Ending,
        ensures
            step_spec(old(self).rep(), final(self).rep(), r.rep()),
    {
        let ghost pre = self.rep();
        let ending = match self.take_line() {
            Some(l) => l,
            None => {
                return Step::NeedInput;
            },
        };
        proof {
            crate::bytes::lemma_seq_find(pre.pending, 10);
        }
        if !is_utf8(ending.as_slice()) {
            self.state = DriverState::Failed;
            return Step::InvalidData;
        }
        let mut st = DriverState::Scanning;
        core::mem::swap(&mut st, &mut self.state);
        match st {
            DriverState::Ending { mut record, prefix } => {
                let ghost r0 = record@;
                if !bytes_all_ws(ending.as_slice()) {
                    record.extend_from_slice(prefix.as_slice());
                    record.push(123);
                    record.push(226);
                    record.push(128);
                    record.push(166);
                    record.push(125);
                    record.extend_from_slice(ending.as_slice());
                    proof {
                        assert(record@ =~= r0 + prefix@ + summary_infix() + ending@);
                    }
                }
                Step::Output(record)
            },
            _ => unreached(),
        }
    }

    fn discard_step(&mut self) -> (r: Step)
        requires
            old(self).rep().state is Discarding,
        ensures
            step_spec(old(self).rep(), final(self).rep(), r.rep()),
    {
        let line = match self.take_line() {
            Some(l) => l,
            None => {
                return Step::NeedInput;
            },
        };
        if !is_utf8(line.as_slice()) {
            self.state = DriverState::Failed;
            return Step::InvalidData;
        }
        self.state = DriverState::Scanning;
        Step::Progress
    }

    /// Runs one transition of the driver's state machine.
    pub fn step(&mut self) -> (r: Step)
        ensures
            step_spec(old(self).rep(), final(self).rep(), r.rep()),
    {
        match self.state {
            DriverState::Scanning => self.scan_step(),
            DriverState::Probing { .. } => self.probe_step(),
            DriverState::Ending { .. } => self.ending_step(),
            DriverState::Discarding => self.discard_step(),
            DriverState::Failed => Step::InvalidData,
        }
    }
}

/// Appends every line of `lines`, each with a trailing newline, to
/// `record`.
fn join_into(record: &mut Vec<u8>, lines: &Vec<Vec<u8>>)
    ensures
        final(record)@ == old(record)@ + join_lines(line_views(lines@)),
{
    let ghost r0 = record@;
    let ghost lv = line_views(lines@);
    let mut i: usize = 0;
    while i < lines.len()
        invariant
            0 <= i <= lines@.len(),
            lv == line_views(lines@),
            lv.len() == lines@.len(),
            record@ + join_from(lv, i as int) == r0 + join_from(lv, 0),
        decreases lines@.len() - i,
    {
        let ghost rl = record@;
        record.extend_from_slice(lines[i].as_slice());
        record.push(10);
        proof {
            assert(record@ =~= rl + lv[i as int] + seq![10u8]);
            assert(record@ + join_from(lv, i as int + 1) =~= rl + join_from(lv, i as int));
        }
        i = i + 1;
    }
    proof {
        assert(join_from(lv, lv.len() as int) =~= Seq::<u8>::empty());
        assert(record@ =~= r0 + join_from(lv, 0));
    }
}

/// Law: a line that holds no brace passes through byte-for-byte — the
/// scanning step outputs exactly the line it consumed, terminator and
/// all, and scans on.
pub proof fn lemma_no_brace_passthrough(pre: DriverRep, post: DriverRep, r: StepRep)
    requires
        pre.state is Scanning,
        step_spec(pre, post, r),
        has_newline(pre.pending) || (pre.eof && pre.pending.len() > 0),
        spec_is_utf8(pre.pending.take(line_end(pre.pending))),
        seq_find(pre.pending.take(line_end(pre.pending)), 123) == line_end(pre.pending),
    ensures
        r == StepRep::Output(pre.pending.take(line_end(pre.pending))),
        post == rep_with(pre, pre.pending.skip(line_end(pre.pending)), StateRep::Scanning),
{
    crate::bytes::lemma_seq_find(pre.pending, 10);
}

/// Law: a failed probe is lossless — the original line goes out
/// unchanged, and the stream holds exactly the bytes it held before the
/// parse was attempted, including any the probe had taken from following
/// lines.
pub proof fn lemma_failed_probe_verbatim(
    pre: DriverRep,
    post: DriverRep,
    r: StepRep,
    prefix: Seq<u8>,
    line: Seq<u8>,
)
    requires
        pre.state == (StateRep::Probing { prefix, line }),
        step_spec(pre, post, r),
        spec_parse_json(pre.pending) is Syntax || (spec_parse_json(pre.pending) is Incomplete
            && pre.eof),
    ensures
        r == StepRep::Output(line),
        post.pending == pre.pending,
        post.state is Discarding,
        post.eof == pre.eof,
{
}

} // verus!
