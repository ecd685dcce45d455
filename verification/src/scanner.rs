//! A push-driven line scanner: the caller feeds it the bytes of a file in
//! chunks of any size and takes the lines out one at a time, so that a file
//! never has to be held in memory as a whole.

use crate::lines::{
    complete_len, complete_lines, first_newline, has_newline, lemma_complete_len,
    lemma_complete_len_is, lemma_complete_lines_len, lemma_complete_lines_stay,
    lemma_first_newline, lemma_first_newline_is, lemma_split_lines_concat,
    lemma_split_lines_last, lemma_split_lines_push, newline_count, split_lines, strip_cr,
    terminated, window, window_hi, CR, LF,
};
use vstd::prelude::*;
use vstd::slice::*;
use vstd::utf8::*;

verus! {

/// Why `read_line` returned no line.
#[derive(Clone, Copy, Debug, PartialEq, Eq, Structural)]
pub enum ScanError {
    /// No complete line is buffered and the input has not ended: feed more
    /// bytes, or end the input.
    Incomplete,
    /// The next line is not valid UTF-8. The line has been skipped.
    InvalidUtf8,
}

/// The next line of the buffered bytes, and the number of bytes it takes up
/// with its terminator: up to the first line feed, or, at the end of the
/// input, all that is left.
pub open spec fn next_line(pending: Seq<u8>, ended: bool) -> Option<(Seq<u8>, int)> {
    let i = first_newline(pending);
    if 0 <= i < pending.len() {
        Some((strip_cr(pending.take(i)), i + 1))
    } else if ended && pending.len() > 0 {
        Some((pending, pending.len() as int))
    } else {
        None
    }
}

/// Scanner state: bytes fed and not yet returned, and whether the input has
/// ended.
pub struct LineScanner {
    buf: Vec<u8>,
    pos: usize,
    scanned: usize,
    ended: bool,
    taken: Ghost<Seq<u8>>,
}

/// `String::from_utf8` of std: the string whose UTF-8 encoding is `bytes`,
/// or nothing when `bytes` is not well-formed UTF-8.
#[verifier::external_body]
pub(crate) fn text_from_utf8(bytes: Vec<u8>) -> (r: Option<String>)
    ensures
        r is Some <==> valid_utf8(bytes@),
        r matches Some(s) ==> encode_utf8(s@) == bytes@,
{
    String::from_utf8(bytes).ok()
}

impl LineScanner {
    /// The bytes that have left the scanner as lines, terminators included.
    pub closed spec fn consumed(&self) -> Seq<u8> {
        self.taken@
    }

    /// The bytes fed and not yet returned as a line.
    pub closed spec fn pending(&self) -> Seq<u8> {
        self.buf@.skip(self.pos as int)
    }

    /// Whether the input has ended.
    pub closed spec fn ended(&self) -> bool {
        self.ended
    }

    /// All bytes fed so far.
    pub open spec fn fed(&self) -> Seq<u8> {
        self.consumed() + self.pending()
    }

    /// The scanner hands out lines only at line boundaries: what it has
    /// consumed ends with a line feed, unless the input has ended and all of
    /// it is consumed.
    pub open spec fn wf(&self) -> bool {
        terminated(self.consumed()) || (self.ended() && self.pending().len() == 0)
    }

    #[verifier::type_invariant]
    spec fn inv(&self) -> bool {
        &&& self.pos <= self.buf@.len()
        &&& self.scanned <= self.buf@.len()
        &&& forall|j: int| self.pos <= j < self.scanned ==> self.buf@[j] != LF
        &&& terminated(self.taken@) || (self.ended && self.pos == self.buf@.len())
    }

    /// A scanner that has been fed nothing.
    pub fn new() -> (r: LineScanner)
        ensures
            r.consumed() == Seq::<u8>::empty(),
            r.pending() == Seq::<u8>::empty(),
            !r.ended(),
            r.wf(),
    {
        let r = LineScanner {
            buf: Vec::new(),
            pos: 0,
            scanned: 0,
            ended: false,
            taken: Ghost(Seq::empty()),
        };
        r
    }

    /// Whether the input has ended.
    pub fn is_ended(&self) -> (r: bool)
        ensures
            r == self.ended(),
            self.wf(),
    {
        proof {
            use_type_invariant(self);
        }
        self.ended
    }

    /// Number of bytes fed and not yet returned as a line.
    pub fn buffered(&self) -> (r: usize)
        ensures
            r == self.pending().len(),
            self.wf(),
    {
        proof {
            use_type_invariant(self);
        }
        self.buf.len() - self.pos
    }

    /// Ends the input: what is buffered behind the last line feed becomes
    /// the last line.
    pub fn finish(&mut self)
        ensures
            final(self).ended(),
            final(self).consumed() == old(self).consumed(),
            final(self).pending() == old(self).pending(),
            final(self).wf(),
    {
        proof {
            use_type_invariant(&*self);
        }
        self.ended = true;
    }

    /// Adds `chunk` to the end of the input.
    pub fn feed(&mut self, chunk: &[u8])
        requires
            !old(self).ended(),
        ensures
            !final(self).ended(),
            final(self).consumed() == old(self).consumed(),
            final(self).pending() == old(self).pending() + chunk@,
            final(self).wf(),
    {
        proof {
            use_type_invariant(&*self);
        }
        let start: usize = self.pos;
        let kept: usize = if self.scanned > start {
            self.scanned - start
        } else {
            0
        };
        let mut unread: Vec<u8> = Vec::new();
        self.scanned = 0;
        self.pos = 0;
        core::mem::swap(&mut self.buf, &mut unread);
        if start > 0 {
            unread = unread.split_off(start);
        }
        unread.extend_from_slice(chunk);
        self.buf = unread;
        self.scanned = kept;
    }

    /// Takes the next line out of the scanner.
    ///
    /// A line is what stands before the next line feed, without a carriage
    /// return directly before that line feed. Once the input has ended, what
    /// is left behind the last line feed is the last line, as it is.
    /// `Ok(None)` says that the input has ended and every line was returned;
    /// `Err(ScanError::Incomplete)` that no line feed is buffered and the
    /// input may still go on. A line that is not valid UTF-8 is consumed and
    /// reported as `Err(ScanError::InvalidUtf8)`.
    pub fn read_line(&mut self) -> (r: Result<Option<String>, ScanError>)
        ensures
            final(self).ended() == old(self).ended(),
            final(self).fed() == old(self).fed(),
            final(self).wf(),
            match next_line(old(self).pending(), old(self).ended()) {
                Some((line, used)) => {
                    &&& final(self).consumed() == old(self).consumed() + old(self).pending().take(
                        used,
                    )
                    &&& final(self).pending() == old(self).pending().skip(used)
                    &&& split_lines(final(self).consumed()) == split_lines(
                        old(self).consumed(),
                    ).push(line)
                    &&& valid_utf8(line) ==> (r matches Ok(Some(s)) && s@ == decode_utf8(line))
                    &&& !valid_utf8(line) ==> r == Err::<Option<String>, ScanError>(
                        ScanError::InvalidUtf8,
                    )
                },
                None => {
                    &&& final(self).consumed() == old(self).consumed()
                    &&& final(self).pending() == old(self).pending()
                    &&& old(self).ended() ==> r == Ok::<Option<String>, ScanError>(None)
                    &&& !old(self).ended() ==> r == Err::<Option<String>, ScanError>(
                        ScanError::Incomplete,
                    )
                },
            },
    {
        proof {
            use_type_invariant(&*self);
        }
        let len: usize = self.buf.len();
        let start: usize = self.pos;
        let ghost pending = self.buf@.skip(start as int);
        let ghost done = self.taken@;
        let mut i: usize = if self.scanned > start {
            self.scanned
        } else {
            start
        };
        while i < len && self.buf[i] != LF
            invariant
                start <= i <= len,
                len == self.buf@.len(),
                forall|j: int| start <= j < i ==> self.buf@[j] != LF,
            decreases len - i,
        {
            i += 1;
        }
        proof {
            lemma_first_newline_is(pending, i - start);
        }
        if i < len {
            let end: usize = if i > start && self.buf[i - 1] == CR {
                i - 1
            } else {
                i
            };
            let bytes = slice_to_vec(slice_subrange(self.buf.as_slice(), start, end));
            proof {
                let whole = pending.take(i - start);
                assert(strip_cr(whole) =~= bytes@);
                lemma_split_lines_push(done, pending);
            }
            self.pos = i + 1;
            self.taken = Ghost(done + pending.take(i - start + 1));
            decode_line(bytes)
        } else if self.ended && start < len {
            let bytes = slice_to_vec(slice_subrange(self.buf.as_slice(), start, len));
            proof {
                lemma_split_lines_last(done, pending);
            }
            self.pos = len;
            self.taken = Ghost(done + pending);
            decode_line(bytes)
        } else {
            self.scanned = len;
            if self.ended {
                Ok(None)
            } else {
                Err(ScanError::Incomplete)
            }
        }
    }
}

/// The text of a line, or the error for a line that is not valid UTF-8.
fn decode_line(bytes: Vec<u8>) -> (r: Result<Option<String>, ScanError>)
    ensures
        valid_utf8(bytes@) ==> (r matches Ok(Some(s)) && s@ == decode_utf8(bytes@)),
        !valid_utf8(bytes@) ==> r == Err::<Option<String>, ScanError>(ScanError::InvalidUtf8),
{
    broadcast use encode_utf8_decode_utf8;

    match text_from_utf8(bytes) {
        Some(s) => Ok(Some(s)),
        None => Err(ScanError::InvalidUtf8),
    }
}

/// Whether every one of the first `n` lines is valid UTF-8.
pub open spec fn valid_lines(lines: Seq<Seq<u8>>, n: int) -> bool {
    forall|i: int| 0 <= i < n && i < lines.len() ==> valid_utf8(#[trigger] lines[i])
}

/// The lines as text, each decoded from UTF-8.
pub open spec fn texts(lines: Seq<Seq<u8>>) -> Seq<Seq<char>> {
    Seq::new(lines.len(), |i: int| decode_utf8(lines[i]))
}

/// What a vector of strings holds, string by string.
pub open spec fn strings(v: Seq<String>) -> Seq<Seq<char>> {
    Seq::new(v.len(), |i: int| v[i]@)
}

/// The lines handed out so far begin the lines of all that was fed.
pub proof fn lemma_consumed_lines_prefix(consumed: Seq<u8>, pending: Seq<u8>)
    requires
        terminated(consumed) || pending.len() == 0,
    ensures
        split_lines(consumed + pending) == split_lines(consumed) + split_lines(pending),
{
    if terminated(consumed) {
        lemma_split_lines_concat(consumed, pending);
    }
}

/// What counting the lines of a text gives: their number, or nothing when
/// one of them is not valid UTF-8.
pub open spec fn count_outcome(content: Seq<u8>) -> Option<nat> {
    let lines = split_lines(content);
    if valid_lines(lines, lines.len() as int) {
        Some(lines.len())
    } else {
        None
    }
}

/// What reading a window of a text gives: the lines of the window as text,
/// or nothing when a line up to the end of the window is not valid UTF-8.
pub open spec fn read_outcome(content: Seq<u8>, start: nat, count: nat) -> Option<Seq<Seq<char>>> {
    let lines = split_lines(content);
    if valid_lines(lines, window_hi(lines.len(), start, count)) {
        Some(window(texts(lines), start, count))
    } else {
        None
    }
}

/// Number of lines that lie before the end of a window, in a text that is
/// long enough.
pub open spec fn window_end(start: nat, count: nat) -> int {
    let skip = if start == 0 {
        0
    } else {
        start - 1
    };
    if start + count - 1 < skip {
        skip
    } else {
        start + count - 1
    }
}

/// Whether the part of a text that was read settles what a window of the
/// whole text is: it has as many complete lines as lie before the end of
/// the window, or one of its complete lines before that end is not valid
/// UTF-8.
pub open spec fn window_settled(read: Seq<u8>, start: nat, count: nat) -> bool {
    let complete = complete_lines(read);
    complete.len() >= window_end(start, count) || !valid_lines(complete, window_end(start, count))
}

/// The complete lines of what a scanner was fed begin with the lines it has
/// handed out.
pub proof fn lemma_consumed_within_complete(consumed: Seq<u8>, pending: Seq<u8>)
    requires
        terminated(consumed),
    ensures
        complete_lines(consumed + pending) == split_lines(consumed) + complete_lines(pending),
        !has_newline(pending) ==> complete_lines(consumed + pending) == split_lines(consumed),
{
    lemma_complete_len(pending);
    let k = complete_len(pending);
    let head = pending.take(k);
    let tail = pending.skip(k);
    let done = consumed + head;
    assert(consumed + pending =~= done + tail);
    lemma_complete_len_is(done, tail);
    assert((consumed + pending).take(done.len() as int) =~= done);
    lemma_split_lines_concat(consumed, head);
    if !has_newline(pending) {
        lemma_complete_len_is(Seq::<u8>::empty(), pending);
    }
}

/// Once the part that was read settles a window, nothing that follows
/// changes it: reading may stop there.
pub proof fn lemma_window_settled(read: Seq<u8>, more: Seq<u8>, start: nat, count: nat)
    requires
        window_settled(read, start, count),
    ensures
        read_outcome(read + more, start, count) == read_outcome(read, start, count),
{
    let complete = complete_lines(read);
    let end = window_end(start, count);
    lemma_complete_lines_stay(read, more);
    lemma_complete_lines_stay(read, Seq::<u8>::empty());
    assert(read + Seq::<u8>::empty() =~= read);
    let whole = split_lines(read + more);
    let part = split_lines(read);
    assert forall|i: int| 0 <= i < complete.len() implies whole[i] == complete[i] && part[i]
        == complete[i] by {}
    if complete.len() >= end {
        assert(window(texts(whole), start, count) =~= window(texts(part), start, count));
        assert(valid_lines(whole, end) == valid_lines(part, end)) by {
            if valid_lines(whole, end) {
                assert forall|i: int| 0 <= i < end && i < part.len() implies valid_utf8(
                    #[trigger] part[i],
                ) by {
                    assert(part[i] == whole[i]);
                }
            }
            if valid_lines(part, end) {
                assert forall|i: int| 0 <= i < end && i < whole.len() implies valid_utf8(
                    #[trigger] whole[i],
                ) by {
                    assert(whole[i] == part[i]);
                }
            }
        }
    } else {
        let i = choose|i: int| 0 <= i < end && i < complete.len() && !valid_utf8(complete[i]);
        assert(!valid_utf8(whole[i]));
        assert(!valid_utf8(part[i]));
    }
}

/// Counts the lines of a file that is fed in chunks.
pub struct LineCounter {
    scanner: LineScanner,
    count: u64,
    bytes: u64,
    failed: bool,
}

impl LineCounter {
    /// All bytes fed so far.
    pub closed spec fn fed(&self) -> Seq<u8> {
        self.scanner.fed()
    }

    spec fn counted(&self) -> bool {
        let read = split_lines(self.scanner.consumed());
        &&& self.scanner.wf()
        &&& self.bytes == self.scanner.fed().len()
        &&& self.count == read.len()
        &&& self.count <= self.scanner.consumed().len()
        &&& self.failed == !valid_lines(read, read.len() as int)
    }

    /// The counter has counted every complete line that it was fed.
    pub closed spec fn wf(&self) -> bool {
        &&& self.counted()
        &&& !self.scanner.ended()
        &&& !has_newline(self.scanner.pending())
    }

    /// A counter that has been fed nothing.
    pub fn new() -> (r: LineCounter)
        ensures
            r.wf(),
            r.fed() == Seq::<u8>::empty(),
    {
        let r = LineCounter { scanner: LineScanner::new(), count: 0, bytes: 0, failed: false };
        r
    }

    /// Number of bytes fed so far.
    pub fn bytes_fed(&self) -> (r: u64)
        requires
            self.wf(),
        ensures
            r == self.fed().len(),
    {
        self.bytes
    }

    /// Number of complete lines fed so far.
    pub fn lines_so_far(&self) -> (r: u64)
        requires
            self.wf(),
        ensures
            r == newline_count(self.fed()),
    {
        proof {
            lemma_consumed_within_complete(self.scanner.consumed(), self.scanner.pending());
            lemma_complete_lines_len(self.fed());
        }
        self.count
    }

    fn drain(&mut self)
        requires
            old(self).counted(),
        ensures
            final(self).counted(),
            final(self).scanner.fed() == old(self).scanner.fed(),
            final(self).scanner.ended() == old(self).scanner.ended(),
            next_line(final(self).scanner.pending(), final(self).scanner.ended()) is None,
    {
        let ghost fed = self.scanner.fed();
        let ghost ended = self.scanner.ended();
        loop
            invariant
                self.counted(),
                self.scanner.fed() == fed,
                self.scanner.ended() == ended,
            ensures
                self.counted(),
                self.scanner.fed() == fed,
                self.scanner.ended() == ended,
                next_line(self.scanner.pending(), self.scanner.ended()) is None,
            decreases self.scanner.pending().len(),
        {
            let ghost before = split_lines(self.scanner.consumed());
            proof {
                lemma_first_newline(self.scanner.pending());
            }
            match self.scanner.read_line() {
                Ok(Some(_)) => {
                    proof {
                        let after = split_lines(self.scanner.consumed());
                        assert(after.drop_last() =~= before);
                        assert(self.scanner.consumed().len() > self.count);
                        assert(self.scanner.consumed().len() <= self.scanner.fed().len());
                        if valid_lines(before, before.len() as int) {
                            assert forall|i: int| 0 <= i < after.len() implies valid_utf8(
                                #[trigger] after[i],
                            ) by {
                                if i < before.len() {
                                    assert(after[i] == before[i]);
                                }
                            }
                        } else {
                            let i = choose|i: int|
                                0 <= i < before.len() && !valid_utf8(before[i]);
                            assert(after[i] == before[i]);
                        }
                    }
                    self.count = self.count + 1;
                },
                Err(ScanError::InvalidUtf8) => {
                    proof {
                        let after = split_lines(self.scanner.consumed());
                        assert(self.scanner.consumed().len() > self.count);
                        assert(self.scanner.consumed().len() <= self.scanner.fed().len());
                        assert(!valid_utf8(after[after.len() - 1]));
                    }
                    self.count = self.count + 1;
                    self.failed = true;
                },
                _ => {
                    break ;
                },
            }
        }
    }

    /// Adds `chunk` to the end of the file.
    pub fn feed(&mut self, chunk: &[u8])
        requires
            old(self).wf(),
            old(self).fed().len() + chunk@.len() <= u64::MAX,
        ensures
            final(self).wf(),
            final(self).fed() == old(self).fed() + chunk@,
    {
        self.scanner.feed(chunk);
        self.bytes = self.bytes + chunk.len() as u64;
        self.drain();
        proof {
            lemma_first_newline(self.scanner.pending());
        }
    }

    /// Ends the file and gives the number of its lines.
    ///
    /// Every line feed ends a line, and bytes behind the last line feed
    /// count as one more line. The count is refused when a line is not valid
    /// UTF-8.
    pub fn finish(self) -> (r: Result<u64, ScanError>)
        requires
            self.wf(),
        ensures
            match count_outcome(self.fed()) {
                Some(n) => r matches Ok(counted) && counted == n,
                None => r == Err::<u64, ScanError>(ScanError::InvalidUtf8),
            },
    {
        let mut counter = self;
        counter.scanner.finish();
        counter.drain();
        if counter.failed {
            Err(ScanError::InvalidUtf8)
        } else {
            Ok(counter.count)
        }
    }
}

/// Counts the lines of `data`.
///
/// Every line feed ends a line, and bytes behind the last line feed count as
/// one more line. The count is refused when a line is not valid UTF-8.
pub fn count_lines(data: &[u8]) -> (r: Result<u64, ScanError>)
    ensures
        match count_outcome(data@) {
            Some(n) => r matches Ok(counted) && counted == n,
            None => r == Err::<u64, ScanError>(ScanError::InvalidUtf8),
        },
{
    let mut counter = LineCounter::new();
    assert(data@.len() == data.len());
    counter.feed(data);
    counter.finish()
}

/// Reads a window of the lines of a file that is fed in chunks, and needs
/// no more of the file than reaches to the end of the window.
pub struct LineWindow {
    scanner: LineScanner,
    start_line: u64,
    count: u64,
    skip: u64,
    want: u64,
    skipped: u64,
    lines: Vec<String>,
    failed: bool,
}

impl LineWindow {
    /// All bytes fed so far.
    pub closed spec fn fed(&self) -> Seq<u8> {
        self.scanner.fed()
    }

    /// Number of the first line of the window, counted from 1.
    pub closed spec fn start(&self) -> nat {
        self.start_line as nat
    }

    /// Number of lines of the window.
    pub closed spec fn count(&self) -> nat {
        self.count as nat
    }

    spec fn tracked_lines(&self) -> bool {
        let read = split_lines(self.scanner.consumed());
        &&& self.scanner.wf()
        &&& self.skip == if self.start_line == 0 {
            0
        } else {
            self.start_line - 1
        }
        &&& self.skip + self.want == window_end(self.start_line as nat, self.count as nat)
        &&& read.len() <= self.skip + self.want
        &&& if self.failed {
            read.len() >= 1 && !valid_utf8(read.last())
        } else {
            &&& valid_lines(read, read.len() as int)
            &&& self.skipped == if read.len() < self.skip {
                read.len()
            } else {
                self.skip as nat
            }
            &&& self.lines@.len() == read.len() - self.skipped
            &&& forall|j: int|
                0 <= j < self.lines@.len() ==> (#[trigger] self.lines@[j])@ == decode_utf8(
                    read[self.skip + j],
                )
        }
    }

    spec fn done(&self) -> bool {
        self.failed || split_lines(self.scanner.consumed()).len() == self.skip + self.want
    }

    /// The window has read every complete line that it was fed, up to its
    /// end.
    pub closed spec fn wf(&self) -> bool {
        &&& self.tracked_lines()
        &&& !self.scanner.ended()
        &&& self.done() || !has_newline(self.scanner.pending())
    }

    /// A reader for the lines numbered `start_line` up to, and without,
    /// `start_line + count`; the first line has number 1.
    pub fn new(start_line: u64, count: u64) -> (r: LineWindow)
        ensures
            r.wf(),
            r.fed() == Seq::<u8>::empty(),
            r.start() == start_line,
            r.count() == count,
    {
        let skip: u64 = if start_line == 0 {
            0
        } else {
            start_line - 1
        };
        let want: u64 = if start_line > 0 {
            count
        } else if count > 0 {
            count - 1
        } else {
            0
        };
        let r = LineWindow {
            scanner: LineScanner::new(),
            start_line,
            count,
            skip,
            want,
            skipped: 0,
            lines: Vec::new(),
            failed: false,
        };
        r
    }

    fn drain(&mut self)
        requires
            old(self).tracked_lines(),
        ensures
            final(self).tracked_lines(),
            final(self).scanner.fed() == old(self).scanner.fed(),
            final(self).scanner.ended() == old(self).scanner.ended(),
            final(self).start_line == old(self).start_line,
            final(self).count == old(self).count,
            final(self).done() || next_line(
                final(self).scanner.pending(),
                final(self).scanner.ended(),
            ) is None,
    {
        let ghost fed = self.scanner.fed();
        let ghost ended = self.scanner.ended();
        let ghost start_line = self.start_line;
        let ghost count = self.count;
        while !self.failed && (self.skipped < self.skip || (self.lines.len() as u64) < self.want)
            invariant
                self.tracked_lines(),
                self.scanner.fed() == fed,
                self.scanner.ended() == ended,
                self.start_line == start_line,
                self.count == count,
            ensures
                self.tracked_lines(),
                self.scanner.fed() == fed,
                self.scanner.ended() == ended,
                self.start_line == start_line,
                self.count == count,
                self.done() || next_line(self.scanner.pending(), self.scanner.ended()) is None,
            decreases self.scanner.pending().len(),
        {
            match self.scanner.read_line() {
                Ok(Some(line)) => {
                    if self.skipped < self.skip {
                        self.skipped = self.skipped + 1;
                    } else {
                        self.lines.push(line);
                    }
                },
                Err(ScanError::InvalidUtf8) => {
                    self.failed = true;
                },
                _ => {
                    break ;
                },
            }
        }
    }

    /// Adds `chunk` to the end of the file.
    pub fn feed(&mut self, chunk: &[u8])
        requires
            old(self).wf(),
        ensures
            final(self).wf(),
            final(self).fed() == old(self).fed() + chunk@,
            final(self).start() == old(self).start(),
            final(self).count() == old(self).count(),
    {
        self.scanner.feed(chunk);
        self.drain();
        proof {
            lemma_first_newline(self.scanner.pending());
        }
    }

    /// Whether the window is settled by what was fed: nothing that follows
    /// in the file can change it, and reading may stop.
    pub fn is_complete(&self) -> (r: bool)
        requires
            self.wf(),
        ensures
            r == window_settled(self.fed(), self.start(), self.count()),
    {
        proof {
            let read = split_lines(self.scanner.consumed());
            let complete = complete_lines(self.fed());
            lemma_consumed_within_complete(self.scanner.consumed(), self.scanner.pending());
            assert forall|i: int| 0 <= i < read.len() implies complete[i] == read[i] by {}
        }
        self.failed || (self.skipped == self.skip && self.lines.len() as u64 == self.want)
    }

    /// Ends the file and gives the lines of the window.
    ///
    /// The window is cut short where the file ends before it. It is refused
    /// when a line up to its end is not valid UTF-8.
    pub fn finish(self) -> (r: Result<Vec<String>, ScanError>)
        requires
            self.wf(),
        ensures
            match read_outcome(self.fed(), self.start(), self.count()) {
                Some(lines) => r matches Ok(v) && strings(v@) == lines,
                None => r == Err::<Vec<String>, ScanError>(ScanError::InvalidUtf8),
            },
    {
        let mut reader = self;
        reader.scanner.finish();
        reader.drain();
        let ghost read = split_lines(reader.scanner.consumed());
        let ghost all = split_lines(reader.scanner.fed());
        proof {
            lemma_consumed_lines_prefix(reader.scanner.consumed(), reader.scanner.pending());
            assert forall|i: int| 0 <= i < read.len() implies all[i] == read[i] by {}
        }
        if reader.failed {
            Err(ScanError::InvalidUtf8)
        } else {
            Ok(reader.lines)
        }
    }
}

/// Reads the lines numbered `start_line` up to, and without,
/// `start_line + count`; the first line has number 1.
///
/// Reading stops with the last line of the window: what follows it is not
/// looked at. It is refused when a line up to there is not valid UTF-8.
pub fn read_lines(data: &[u8], start_line: usize, count: usize) -> (r: Result<
    Vec<String>,
    ScanError,
>)
    ensures
        match read_outcome(data@, start_line as nat, count as nat) {
            Some(lines) => r matches Ok(v) && strings(v@) == lines,
            None => r == Err::<Vec<String>, ScanError>(ScanError::InvalidUtf8),
        },
{
    let mut reader = LineWindow::new(start_line as u64, count as u64);
    reader.feed(data);
    reader.finish()
}

} // verus!
