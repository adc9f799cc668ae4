//! Splits the raw bytes of an event stream into lines and classifies each
//! line as a terminal sentinel, a data line, or noise.
use vstd::prelude::*;

verus! {

/// A classified line of the event stream, as a mathematical value.
pub ghost enum FrameSpec {
    Terminal,
    Data(Seq<u8>),
}

/// A classified line of the event stream.
pub enum Frame {
    /// The sentinel line `data: [DONE]`: the stream is over.
    Terminal,
    /// A `data: ` line, holding its trimmed payload.
    Data(Vec<u8>),
}

impl View for Frame {
    type V = FrameSpec;

    open spec fn view(&self) -> FrameSpec {
        match self {
            Frame::Terminal => FrameSpec::Terminal,
            Frame::Data(p) => FrameSpec::Data(p@),
        }
    }
}

pub open spec fn frames_view(v: Seq<Frame>) -> Seq<FrameSpec> {
    v.map_values(|f: Frame| f@)
}

pub open spec fn opt_frame_view(f: Option<Frame>) -> Option<FrameSpec> {
    match f {
        Some(x) => Some(x@),
        None => None,
    }
}

pub open spec fn is_ws(b: u8) -> bool {
    b == 32 || (9 <= b && b <= 13)
}

pub open spec fn trim_start(s: Seq<u8>) -> Seq<u8>
    decreases s.len(),
{
    if s.len() > 0 && is_ws(s[0]) {
        trim_start(s.drop_first())
    } else {
        s
    }
}

pub open spec fn trim_end(s: Seq<u8>) -> Seq<u8>
    decreases s.len(),
{
    if s.len() > 0 && is_ws(s.last()) {
        trim_end(s.drop_last())
    } else {
        s
    }
}

/// A line with the whitespace at both of its ends removed.
pub open spec fn trim(s: Seq<u8>) -> Seq<u8> {
    trim_end(trim_start(s))
}

/// The bytes of `data: [DONE]`.
pub open spec fn done_line() -> Seq<u8> {
    seq![100u8, 97, 116, 97, 58, 32, 91, 68, 79, 78, 69, 93]
}

/// The bytes of `data: `.
pub open spec fn data_prefix() -> Seq<u8> {
    seq![100u8, 97, 116, 97, 58, 32]
}

/// What one line of the stream stands for.
pub open spec fn classify(line: Seq<u8>) -> Option<FrameSpec> {
    let t = trim(line);
    if t == done_line() {
        Some(FrameSpec::Terminal)
    } else if t.len() >= 6 && t.subrange(0, 6) == data_prefix() {
        Some(FrameSpec::Data(trim(t.subrange(6, t.len() as int))))
    } else {
        None
    }
}

/// The frames of the complete lines of `s`, where `line` holds the start of
/// the current line as it stood before `s`. Emission stops at the first
/// terminal frame.
pub open spec fn frames_after(s: Seq<u8>, line: Seq<u8>) -> Seq<FrameSpec>
    decreases s.len(),
{
    if s.len() == 0 {
        Seq::empty()
    } else if s[0] == 10 {
        match classify(line) {
            Some(FrameSpec::Terminal) => seq![FrameSpec::Terminal],
            Some(FrameSpec::Data(p)) => seq![FrameSpec::Data(p)] + frames_after(s.drop_first(), Seq::empty()),
            None => frames_after(s.drop_first(), Seq::empty()),
        }
    } else {
        frames_after(s.drop_first(), line.push(s[0]))
    }
}

/// The unfinished line that stands after the bytes of `s`, started by `line`.
pub open spec fn pending_after(s: Seq<u8>, line: Seq<u8>) -> Seq<u8>
    decreases s.len(),
{
    if s.len() == 0 {
        line
    } else if s[0] == 10 {
        pending_after(s.drop_first(), Seq::empty())
    } else {
        pending_after(s.drop_first(), line.push(s[0]))
    }
}

/// The frames of a whole byte stream.
pub open spec fn frames_of(s: Seq<u8>) -> Seq<FrameSpec> {
    frames_after(s, Seq::empty())
}

pub open spec fn ends_in_terminal(fs: Seq<FrameSpec>) -> bool {
    fs.len() > 0 && fs.last() == FrameSpec::Terminal
}

/// A terminal frame can only be the last frame: every frame before it
/// holds data.
pub proof fn lemma_terminal_is_last(s: Seq<u8>, line: Seq<u8>)
    ensures
        forall|i: int| 0 <= i < frames_after(s, line).len() - 1 ==> #[trigger] frames_after(s, line)[i] is Data,
    decreases s.len(),
{
    if s.len() > 0 {
        if s[0] == 10 {
            lemma_terminal_is_last(s.drop_first(), Seq::empty());
            match classify(line) {
                Some(FrameSpec::Data(p)) => {
                    let rest = frames_after(s.drop_first(), Seq::empty());
                    assert forall|i: int| 0 <= i < frames_after(s, line).len() - 1 implies #[trigger] frames_after(s, line)[i] is Data by {
                        if i > 0 {
                            assert(frames_after(s, line)[i] == rest[i - 1]);
                        }
                    }
                },
                _ => {},
            }
        } else {
            lemma_terminal_is_last(s.drop_first(), line.push(s[0]));
        }
    }
}

/// Decoding a stream in two pieces gives the frames of the first piece, then,
/// unless those ended in a terminal frame, the frames of the second piece
/// started from the line that the first left unfinished. So a line split
/// over two chunks is decoded as one, and once a terminal frame has come no
/// later byte is ever decoded.
pub proof fn lemma_split(a: Seq<u8>, b: Seq<u8>, line: Seq<u8>)
    ensures
        frames_after(a + b, line) == frames_after(a, line) + (if ends_in_terminal(frames_after(a, line)) {
            Seq::empty()
        } else {
            frames_after(b, pending_after(a, line))
        }),
    decreases a.len(),
{
    if a.len() == 0 {
        assert(a + b =~= b);
        assert(Seq::<FrameSpec>::empty() + frames_after(b, line) =~= frames_after(b, line));
    } else {
        assert((a + b).drop_first() =~= a.drop_first() + b);
        assert((a + b)[0] == a[0]);
        if a[0] == 10 {
            lemma_split(a.drop_first(), b, Seq::empty());
            match classify(line) {
                Some(FrameSpec::Terminal) => {
                    assert(frames_after(a, line) + Seq::empty() =~= frames_after(a, line));
                },
                Some(FrameSpec::Data(p)) => {
                    let x = frames_after(a.drop_first(), Seq::empty());
                    assert(frames_after(a, line) == seq![FrameSpec::Data(p)] + x);
                    if x.len() > 0 {
                        assert((seq![FrameSpec::Data(p)] + x).last() == x.last());
                    }
                    assert(ends_in_terminal(frames_after(a, line)) == ends_in_terminal(x));
                    let tail = if ends_in_terminal(x) {
                        Seq::empty()
                    } else {
                        frames_after(b, pending_after(a.drop_first(), Seq::empty()))
                    };
                    assert(seq![FrameSpec::Data(p)] + (x + tail) =~= seq![FrameSpec::Data(p)] + x + tail);
                },
                None => {},
            }
        } else {
            lemma_split(a.drop_first(), b, line.push(a[0]));
        }
    }
}

/// Once the frames of a stream have reached a terminal frame, no byte that
/// follows changes them.
pub proof fn lemma_terminal_stops(a: Seq<u8>, b: Seq<u8>)
    requires
        ends_in_terminal(frames_of(a)),
    ensures
        frames_of(a + b) == frames_of(a),
{
    lemma_split(a, b, Seq::empty());
    assert(frames_of(a) + Seq::empty() =~= frames_of(a));
}

fn is_ws_byte(b: u8) -> (r: bool)
    ensures
        r == is_ws(b),
{
    b == 32 || (9 <= b && b <= 13)
}

proof fn lemma_trim_start_step(s: Seq<u8>, i: int)
    requires
        0 <= i < s.len(),
        is_ws(s[i]),
    ensures
        trim_start(s.subrange(i, s.len() as int)) == trim_start(s.subrange(i + 1, s.len() as int)),
{
    assert(s.subrange(i, s.len() as int).drop_first() =~= s.subrange(i + 1, s.len() as int));
}

proof fn lemma_trim_end_step(s: Seq<u8>, lo: int, hi: int)
    requires
        0 <= lo < hi <= s.len(),
        is_ws(s[hi - 1]),
    ensures
        trim_end(s.subrange(lo, hi)) == trim_end(s.subrange(lo, hi - 1)),
{
    assert(s.subrange(lo, hi).drop_last() =~= s.subrange(lo, hi - 1));
}

/// Bounds of the trimmed part of `s[lo..hi]`.
fn trim_bounds(s: &Vec<u8>, lo: usize, hi: usize) -> (r: (usize, usize))
    requires
        lo <= hi <= s@.len(),
    ensures
        lo <= r.0 <= r.1 <= hi,
        s@.subrange(r.0 as int, r.1 as int) == trim(s@.subrange(lo as int, hi as int)),
{
    let mut a: usize = lo;
    while a < hi && is_ws_byte(s[a])
        invariant
            lo <= a <= hi <= s@.len(),
            trim_start(s@.subrange(lo as int, hi as int)) == trim_start(s@.subrange(a as int, hi as int)),
        decreases hi - a,
    {
        proof {
            lemma_trim_start_step(s@.subrange(lo as int, hi as int), (a - lo) as int);
            assert(s@.subrange(lo as int, hi as int).subrange((a - lo) as int, (hi - lo) as int) =~= s@.subrange(a as int, hi as int));
            assert(s@.subrange(lo as int, hi as int).subrange((a - lo + 1) as int, (hi - lo) as int) =~= s@.subrange(a + 1, hi as int));
        }
        a = a + 1;
    }
    proof {
        assert(trim_start(s@.subrange(a as int, hi as int)) == s@.subrange(a as int, hi as int));
    }
    let mut b: usize = hi;
    while b > a && is_ws_byte(s[b - 1])
        invariant
            lo <= a <= b <= hi <= s@.len(),
            trim(s@.subrange(lo as int, hi as int)) == trim_end(s@.subrange(a as int, b as int)),
        decreases b - a,
    {
        proof {
            lemma_trim_end_step(s@, a as int, b as int);
        }
        b = b - 1;
    }
    (a, b)
}

/// Whether `s[lo..hi]` equals `t`.
fn range_equals(s: &Vec<u8>, lo: usize, hi: usize, t: &Vec<u8>) -> (r: bool)
    requires
        lo <= hi <= s@.len(),
    ensures
        r == (s@.subrange(lo as int, hi as int) == t@),
{
    if hi - lo != t.len() {
        return false;
    }
    let mut i: usize = 0;
    while i < t.len()
        invariant
            hi - lo == t@.len(),
            lo <= hi <= s@.len(),
            0 <= i <= t@.len(),
            forall|k: int| 0 <= k < i ==> s@[lo + k] == t@[k],
        decreases t@.len() - i,
    {
        if s[lo + i] != t[i] {
            proof {
                assert(s@.subrange(lo as int, hi as int)[i as int] != t@[i as int]);
            }
            return false;
        }
        i = i + 1;
    }
    proof {
        assert(s@.subrange(lo as int, hi as int) =~= t@);
    }
    true
}

fn copy_range(s: &Vec<u8>, lo: usize, hi: usize) -> (r: Vec<u8>)
    requires
        lo <= hi <= s@.len(),
    ensures
        r@ == s@.subrange(lo as int, hi as int),
{
    let mut r: Vec<u8> = Vec::new();
    let mut i: usize = lo;
    while i < hi
        invariant
            lo <= i <= hi <= s@.len(),
            r@ == s@.subrange(lo as int, i as int),
        decreases hi - i,
    {
        r.push(s[i]);
        proof {
            assert(r@ =~= s@.subrange(lo as int, i + 1));
        }
        i = i + 1;
    }
    r
}

/// Classifies one line of the stream (without its line break).
pub fn classify_line(line: &Vec<u8>) -> (r: Option<Frame>)
    ensures
        opt_frame_view(r) == classify(line@),
{
    let (a, b) = trim_bounds(line, 0, line.len());
    proof {
        assert(line@.subrange(0, line@.len() as int) =~= line@);
    }
    let ghost t = line@.subrange(a as int, b as int);
    let done: Vec<u8> = vec![100u8, 97, 116, 97, 58, 32, 91, 68, 79, 78, 69, 93];
    let prefix: Vec<u8> = vec![100u8, 97, 116, 97, 58, 32];
    proof {
        assert(done@ =~= done_line());
        assert(prefix@ =~= data_prefix());
    }
    if range_equals(line, a, b, &done) {
        return Some(Frame::Terminal);
    }
    if b - a >= 6 && range_equals(line, a, a + 6, &prefix) {
        proof {
            assert(t.subrange(0, 6) =~= line@.subrange(a as int, a + 6));
        }
        let (c, d) = trim_bounds(line, a + 6, b);
        proof {
            assert(t.subrange(6, t.len() as int) =~= line@.subrange(a + 6, b as int));
        }
        return Some(Frame::Data(copy_range(line, c, d)));
    }
    proof {
        if t.len() >= 6 {
            assert(t.subrange(0, 6) =~= line@.subrange(a as int, a + 6));
        }
    }
    None
}

/// The unfinished line after `a + b` is that after `b`, started from the
/// one that `a` left.
proof fn lemma_split_pending(a: Seq<u8>, b: Seq<u8>, line: Seq<u8>)
    ensures
        pending_after(a + b, line) == pending_after(b, pending_after(a, line)),
    decreases a.len(),
{
    if a.len() == 0 {
        assert(a + b =~= b);
    } else {
        assert((a + b).drop_first() =~= a.drop_first() + b);
        assert((a + b)[0] == a[0]);
        if a[0] == 10 {
            lemma_split_pending(a.drop_first(), b, Seq::empty());
        } else {
            lemma_split_pending(a.drop_first(), b, line.push(a[0]));
        }
    }
}

/// Turns byte chunks, whose boundaries need not fall on line breaks, into
/// frames. A line split over two chunks is put back together, so the frames
/// handed out are always those of all the bytes fed so far.
pub struct Decoder {
    pending: Vec<u8>,
    finished: bool,
    seen: Ghost<Seq<u8>>,
    emitted: Ghost<Seq<FrameSpec>>,
}

impl Decoder {
    /// The start of the line that no line break has ended yet.
    pub closed spec fn pending(&self) -> Seq<u8> {
        self.pending@
    }

    /// Whether a terminal frame (or the end of input) has been seen.
    pub closed spec fn finished(&self) -> bool {
        self.finished
    }

    /// All bytes fed while the stream was open.
    pub closed spec fn seen(&self) -> Seq<u8> {
        self.seen@
    }

    /// All frames handed out so far.
    pub closed spec fn emitted(&self) -> Seq<FrameSpec> {
        self.emitted@
    }

    /// While the stream is open, the frames handed out are those of the
    /// complete lines seen, none of them terminal, and the pending line is
    /// what follows the last line break.
    pub closed spec fn wf(&self) -> bool {
        !self.finished ==> {
            &&& self.emitted@ == frames_of(self.seen@)
            &&& !ends_in_terminal(self.emitted@)
            &&& self.pending@ == pending_after(self.seen@, Seq::empty())
        }
    }

    pub fn new() -> (r: Decoder)
        ensures
            r.wf(),
            r.pending() == Seq::<u8>::empty(),
            r.seen() == Seq::<u8>::empty(),
            r.emitted() == Seq::<FrameSpec>::empty(),
            !r.finished(),
    {
        Decoder { pending: Vec::new(), finished: false, seen: Ghost(Seq::empty()), emitted: Ghost(Seq::empty()) }
    }

    pub fn is_finished(&self) -> (r: bool)
        ensures
            r == self.finished(),
    {
        self.finished
    }

    /// Decodes the complete lines that `chunk` ends. Once a terminal frame
    /// has been produced, no further frame ever is.
    pub fn feed(&mut self, chunk: &[u8]) -> (r: Vec<Frame>)
        requires
            old(self).wf(),
        ensures
            final(self).wf(),
            old(self).finished() ==> r@.len() == 0 && *final(self) == *old(self),
            !old(self).finished() ==> {
                &&& frames_view(r@) == frames_after(chunk@, old(self).pending())
                &&& final(self).seen() == old(self).seen() + chunk@
                &&& final(self).emitted() == old(self).emitted() + frames_view(r@)
                &&& final(self).emitted() == frames_of(final(self).seen())
                &&& final(self).finished() == ends_in_terminal(frames_view(r@))
            },
            !final(self).finished() ==> final(self).pending() == pending_after(chunk@, old(self).pending()),
    {
        let was_finished = self.finished;
        let r = self.feed_lines(chunk);
        if !was_finished {
            proof {
                lemma_split(old(self).seen@, chunk@, Seq::empty());
                lemma_split_pending(old(self).seen@, chunk@, Seq::empty());
                self.seen = Ghost(old(self).seen@ + chunk@);
                self.emitted = Ghost(old(self).emitted@ + frames_view(r@));
            }
        }
        r
    }

    fn feed_lines(&mut self, chunk: &[u8]) -> (r: Vec<Frame>)
        ensures
            old(self).finished() ==> r@.len() == 0 && *final(self) == *old(self),
            !old(self).finished() ==> frames_view(r@) == frames_after(chunk@, old(self).pending()),
            !old(self).finished() ==> final(self).finished() == ends_in_terminal(frames_view(r@)),
            !final(self).finished() ==> final(self).pending() == pending_after(chunk@, old(self).pending()),
            final(self).seen == old(self).seen,
            final(self).emitted == old(self).emitted,
    {
        let mut out: Vec<Frame> = Vec::new();
        if self.finished {
            return out;
        }
        let ghost start = self.pending@;
        let mut line: Vec<u8> = Vec::new();
        std::mem::swap(&mut line, &mut self.pending);
        proof {
            assert(chunk@.subrange(0, chunk@.len() as int) =~= chunk@);
            assert(frames_view(out@) + frames_after(chunk@, line@) =~= frames_after(chunk@, line@));
        }
        let mut i: usize = 0;
        while i < chunk.len()
            invariant
                0 <= i <= chunk@.len(),
                !self.finished,
                !old(self).finished,
                start == old(self).pending@,
                self.seen == old(self).seen,
                self.emitted == old(self).emitted,
                frames_after(chunk@, start) == frames_view(out@) + frames_after(chunk@.subrange(i as int, chunk@.len() as int), line@),
                pending_after(chunk@, start) == pending_after(chunk@.subrange(i as int, chunk@.len() as int), line@),
                !ends_in_terminal(frames_view(out@)),
            decreases chunk@.len() - i,
        {
            let ghost rest = chunk@.subrange(i as int, chunk@.len() as int);
            proof {
                assert(rest.drop_first() =~= chunk@.subrange(i + 1, chunk@.len() as int));
            }
            let b = chunk[i];
            if b == 10u8 {
                let c = classify_line(&line);
                let ghost old_out = frames_view(out@);
                let ghost old_line = line@;
                line = Vec::new();
                match c {
                    Some(Frame::Terminal) => {
                        out.push(Frame::Terminal);
                        proof {
                            assert(frames_view(out@) =~= old_out.push(FrameSpec::Terminal));
                            assert(frames_after(rest, old_line) == seq![FrameSpec::Terminal]);
                            assert(frames_after(chunk@, start) =~= frames_view(out@));
                        }
                        self.finished = true;
                        return out;
                    },
                    Some(Frame::Data(p)) => {
                        let ghost pv = p@;
                        out.push(Frame::Data(p));
                        proof {
                            assert(frames_view(out@) =~= old_out.push(FrameSpec::Data(pv)));
                            assert(frames_view(out@) + frames_after(rest.drop_first(), line@) =~= old_out + (seq![FrameSpec::Data(pv)] + frames_after(rest.drop_first(), Seq::empty())));
                        }
                    },
                    None => {},
                }
            } else {
                line.push(b);
            }
            i = i + 1;
        }
        proof {
            assert(chunk@.subrange(i as int, chunk@.len() as int) =~= Seq::<u8>::empty());
            assert(frames_view(out@) + Seq::empty() =~= frames_view(out@));
        }
        self.pending = line;
        out
    }

    /// Ends the input: the line left unfinished, if any, is decoded as the
    /// last one, as if a line break closed it.
    pub fn finish(&mut self) -> (r: Option<Frame>)
        requires
            old(self).wf(),
        ensures
            final(self).wf(),
            final(self).finished(),
            old(self).finished() ==> r is None,
            !old(self).finished() ==> {
                &&& frames_view(option_seq(r)) == frames_after(seq![10u8], old(self).pending())
                &&& final(self).seen() == old(self).seen() + seq![10u8]
                &&& final(self).emitted() == old(self).emitted() + frames_view(option_seq(r))
                &&& final(self).emitted() == frames_of(final(self).seen())
            },
            !old(self).finished() && old(self).pending().len() == 0 ==> r is None,
            !old(self).finished() && old(self).pending().len() > 0 ==> opt_frame_view(r) == classify(old(self).pending()),
    {
        if self.finished {
            return None;
        }
        self.finished = true;
        let r = if self.pending.len() == 0 {
            proof {
                assert(trim(Seq::<u8>::empty()) =~= Seq::<u8>::empty());
                assert(classify(Seq::<u8>::empty()) is None);
            }
            None
        } else {
            classify_line(&self.pending)
        };
        proof {
            let nl = seq![10u8];
            assert(nl.drop_first() =~= Seq::<u8>::empty());
            assert(nl[0] == 10u8);
            assert(frames_after(Seq::<u8>::empty(), Seq::<u8>::empty()) =~= Seq::<FrameSpec>::empty());
            if r is Some {
                let f = r->0;
                assert(frames_view(option_seq(r)) =~= seq![f@]);
                assert(frames_after(nl, old(self).pending()) =~= seq![f@]);
            } else {
                assert(frames_view(option_seq(r)) =~= Seq::<FrameSpec>::empty());
            }
            lemma_split(old(self).seen@, nl, Seq::empty());
            self.seen = Ghost(old(self).seen@ + nl);
            self.emitted = Ghost(old(self).emitted@ + frames_view(option_seq(r)));
        }
        r
    }
}

/// The frame, if any, as a sequence of none or one.
pub open spec fn option_seq(f: Option<Frame>) -> Seq<Frame> {
    match f {
        Some(x) => seq![x],
        None => Seq::empty(),
    }
}

} // verus!
