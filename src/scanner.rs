//! Frame boundary scanning over a Motion-JPEG byte stream.
//!
//! A JPEG image starts with the marker `FF D8` and ends with `FF D9`. The
//! scanner is a four-state machine advanced one byte at a time; it keeps the
//! bytes of the frame being assembled and hands out each frame as soon as its
//! end marker is seen.
use vstd::prelude::*;

verus! {

pub const JPEG_START0: u8 = 0xff;

pub const JPEG_START1: u8 = 0xd8;

pub const JPEG_END0: u8 = 0xff;

pub const JPEG_END1: u8 = 0xd9;

/// Where the scanner stands in the byte stream.
#[derive(Clone, Copy, Debug, PartialEq, Eq, Structural)]
pub enum ScanState {
    /// No frame started: waiting for `FF`.
    Idle,
    /// Saw `FF` outside a frame: waiting for `D8`.
    SawStart,
    /// Inside a frame: waiting for `FF`.
    InFrame,
    /// Saw `FF` inside a frame: waiting for `D9`.
    SawEnd,
}

/// What scanning a run of bytes leaves behind: the state, the bytes of the
/// frame under assembly, and the frames completed, in order.
pub struct ScanOutcome {
    pub state: ScanState,
    pub pending: Seq<u8>,
    pub frames: Seq<Seq<u8>>,
}

/// One transition of the scanner on byte `b`.
pub open spec fn step(st: ScanState, pending: Seq<u8>, b: u8) -> ScanOutcome {
    match st {
        ScanState::Idle => ScanOutcome {
            state: if b == JPEG_START0 { ScanState::SawStart } else { ScanState::Idle },
            pending,
            frames: seq![],
        },
        ScanState::SawStart => {
            if b == JPEG_START1 {
                ScanOutcome {
                    state: ScanState::InFrame,
                    pending: pending + seq![JPEG_START0, JPEG_START1],
                    frames: seq![],
                }
            } else {
                ScanOutcome {
                    state: if b == JPEG_START0 { ScanState::SawStart } else { ScanState::Idle },
                    pending,
                    frames: seq![],
                }
            }
        },
        ScanState::InFrame => ScanOutcome {
            state: if b == JPEG_END0 { ScanState::SawEnd } else { ScanState::InFrame },
            pending: pending.push(b),
            frames: seq![],
        },
        ScanState::SawEnd => {
            if b == JPEG_END1 {
                ScanOutcome { state: ScanState::Idle, pending: seq![], frames: seq![pending.push(b)] }
            } else {
                ScanOutcome {
                    state: if b == JPEG_END0 { ScanState::SawEnd } else { ScanState::InFrame },
                    pending: pending.push(b),
                    frames: seq![],
                }
            }
        },
    }
}

/// The scanner run over `bytes` from state `st` with `pending` already held.
pub open spec fn scan(st: ScanState, pending: Seq<u8>, bytes: Seq<u8>) -> ScanOutcome
    decreases bytes.len(),
{
    if bytes.len() == 0 {
        ScanOutcome { state: st, pending, frames: seq![] }
    } else {
        let prev = scan(st, pending, bytes.drop_last());
        let last = step(prev.state, prev.pending, bytes.last());
        ScanOutcome { state: last.state, pending: last.pending, frames: prev.frames + last.frames }
    }
}

/// The scanner run over each chunk of `chunks` in turn.
pub open spec fn scan_chunks(st: ScanState, pending: Seq<u8>, chunks: Seq<Seq<u8>>) -> ScanOutcome
    decreases chunks.len(),
{
    if chunks.len() == 0 {
        ScanOutcome { state: st, pending, frames: seq![] }
    } else {
        let first = scan(st, pending, chunks[0]);
        let rest = scan_chunks(first.state, first.pending, chunks.drop_first());
        ScanOutcome { state: rest.state, pending: rest.pending, frames: first.frames + rest.frames }
    }
}

/// `s` holds the marker pair `a b` at positions `i` and `i + 1`.
pub open spec fn pair_at(s: Seq<u8>, i: int, a: u8, b: u8) -> bool {
    0 <= i && i + 1 < s.len() && s[i] == a && s[i + 1] == b
}

/// A complete frame: it starts with `FF D8`, ends with `FF D9`, and holds no
/// earlier `FF D9`.
pub open spec fn is_frame(f: Seq<u8>) -> bool {
    &&& f.len() >= 4
    &&& f[0] == JPEG_START0
    &&& f[1] == JPEG_START1
    &&& f[f.len() - 2] == JPEG_END0
    &&& f[f.len() - 1] == JPEG_END1
    &&& forall|i: int| 0 <= i < f.len() - 2 ==> !#[trigger] pair_at(f, i, JPEG_END0, JPEG_END1)
}

/// Bytes that hold no start marker `FF D8`.
pub open spec fn is_garbage(g: Seq<u8>) -> bool {
    forall|i: int| 0 <= i < g.len() - 1 ==> !#[trigger] pair_at(g, i, JPEG_START0, JPEG_START1)
}

/// Scanning is independent of where the input is cut: scanning `a + b`
/// leaves what scanning `a` and then `b` leaves, with the frames of both in
/// order.
pub proof fn lemma_scan_split(st: ScanState, pending: Seq<u8>, a: Seq<u8>, b: Seq<u8>)
    ensures
        ({
            let first = scan(st, pending, a);
            let second = scan(first.state, first.pending, b);
            let whole = scan(st, pending, a + b);
            whole.state == second.state && whole.pending == second.pending && whole.frames
                == first.frames + second.frames
        }),
    decreases b.len(),
{
    let first = scan(st, pending, a);
    if b.len() == 0 {
        assert(a + b =~= a);
        assert(first.frames + seq![] =~= first.frames);
    } else {
        lemma_scan_split(st, pending, a, b.drop_last());
        assert((a + b).drop_last() =~= a + b.drop_last());
        assert((a + b).last() == b.last());
        let mid = scan(first.state, first.pending, b.drop_last());
        let last = step(mid.state, mid.pending, b.last());
        assert(first.frames + mid.frames + last.frames =~= first.frames + (mid.frames
            + last.frames));
    }
}

/// However the input is split into chunks, scanning the chunks one after
/// another extracts the same frames, and ends in the same state, as scanning
/// the whole input at once.
pub proof fn lemma_chunking_independent(st: ScanState, pending: Seq<u8>, chunks: Seq<Seq<u8>>)
    ensures
        scan_chunks(st, pending, chunks) == scan(st, pending, chunks.flatten()),
    decreases chunks.len(),
{
    if chunks.len() == 0 {
        assert(chunks.flatten() =~= seq![]);
    } else {
        let first = scan(st, pending, chunks[0]);
        lemma_chunking_independent(first.state, first.pending, chunks.drop_first());
        assert(chunks.flatten() == chunks[0] + chunks.drop_first().flatten());
        lemma_scan_split(st, pending, chunks[0], chunks.drop_first().flatten());
    }
}

proof fn lemma_frame_prefix(st: ScanState, f: Seq<u8>, k: int)
    requires
        is_frame(f),
        st == ScanState::Idle || st == ScanState::SawStart,
        2 <= k <= f.len() - 1,
    ensures
        ({
            let out = scan(st, seq![], f.take(k));
            &&& out.state == (if f[k - 1] == JPEG_END0 { ScanState::SawEnd } else { ScanState::InFrame })
            &&& out.pending == f.take(k)
            &&& out.frames == Seq::<Seq<u8>>::empty()
        }),
    decreases k,
{
    let empty = Seq::<u8>::empty();
    assert(f.take(k).drop_last() =~= f.take(k - 1));
    assert(f.take(k).last() == f[k - 1]);
    if k == 2 {
        assert(f.take(1).drop_last() =~= empty);
        assert(f.take(1).last() == f[0]);
        assert(Seq::<Seq<u8>>::empty() + Seq::<Seq<u8>>::empty() =~= Seq::<Seq<u8>>::empty());
        let zero = scan(st, empty, empty);
        assert(zero.state == st && zero.pending == empty && zero.frames == Seq::<Seq<u8>>::empty());
        let one = scan(st, empty, f.take(1));
        assert(one.state == ScanState::SawStart && one.pending == empty && one.frames
            =~= Seq::<Seq<u8>>::empty());
        assert(empty + seq![JPEG_START0, JPEG_START1] =~= f.take(2));
        assert(Seq::<Seq<u8>>::empty() + Seq::<Seq<u8>>::empty() =~= Seq::<Seq<u8>>::empty());
    } else {
        lemma_frame_prefix(st, f, k - 1);
        assert(!pair_at(f, k - 2, JPEG_END0, JPEG_END1));
        assert(f.take(k - 1).push(f[k - 1]) =~= f.take(k));
        assert(Seq::<Seq<u8>>::empty() + Seq::<Seq<u8>>::empty() =~= Seq::<Seq<u8>>::empty());
    }
}

/// A frame scanned from the idle state (or just after an `FF`) is extracted
/// exactly once, delimiters included, and leaves the pending buffer empty.
pub proof fn lemma_frame_extracted(st: ScanState, f: Seq<u8>)
    requires
        is_frame(f),
        st == ScanState::Idle || st == ScanState::SawStart,
    ensures
        scan(st, seq![], f) == (ScanOutcome {
            state: ScanState::Idle,
            pending: seq![],
            frames: seq![f],
        }),
{
    let n = f.len() as int;
    lemma_frame_prefix(st, f, n - 1);
    assert(f.drop_last() =~= f.take(n - 1));
    assert(f.take(n - 1).push(f.last()) =~= f);
    assert(Seq::<Seq<u8>>::empty() + seq![f] =~= seq![f]);
}

/// A bare `FF` inside a frame body that `D9` does not follow leaves the frame
/// open: the frame comes out whole, with that byte in it.
pub proof fn lemma_inner_marker_kept(f: Seq<u8>, i: int)
    requires
        is_frame(f),
        2 <= i < f.len() - 2,
        f[i] == JPEG_END0,
    ensures
        f[i + 1] != JPEG_END1,
        scan(ScanState::Idle, seq![], f).frames.len() == 1,
        scan(ScanState::Idle, seq![], f).frames[0] == f,
        scan(ScanState::Idle, seq![], f).frames[0][i] == JPEG_END0,
{
    assert(!pair_at(f, i, JPEG_END0, JPEG_END1));
    lemma_frame_extracted(ScanState::Idle, f);
}

proof fn lemma_garbage_prefix(g: Seq<u8>)
    requires
        is_garbage(g),
    ensures
        ({
            let out = scan(ScanState::Idle, seq![], g);
            &&& out.state == ScanState::Idle || out.state == ScanState::SawStart
            &&& out.state == ScanState::SawStart ==> g.len() > 0 && g.last() == JPEG_START0
            &&& out.pending == Seq::<u8>::empty()
            &&& out.frames == Seq::<Seq<u8>>::empty()
        }),
    decreases g.len(),
{
    if g.len() > 0 {
        let h = g.drop_last();
        assert forall|i: int| 0 <= i < h.len() - 1 implies !#[trigger] pair_at(h, i, JPEG_START0, JPEG_START1) by {
            assert(!pair_at(g, i, JPEG_START0, JPEG_START1));
        }
        lemma_garbage_prefix(h);
        if h.len() > 0 {
            assert(!pair_at(g, h.len() - 1, JPEG_START0, JPEG_START1));
        }
        assert(Seq::<Seq<u8>>::empty() + Seq::<Seq<u8>>::empty() =~= Seq::<Seq<u8>>::empty());
    }
}

/// Bytes before the first start marker are dropped: scanning garbage and then
/// a frame yields that frame alone, with none of the garbage in it.
pub proof fn lemma_garbage_discarded(g: Seq<u8>, f: Seq<u8>)
    requires
        is_garbage(g),
        is_frame(f),
    ensures
        scan(ScanState::Idle, seq![], g + f) == (ScanOutcome {
            state: ScanState::Idle,
            pending: seq![],
            frames: seq![f],
        }),
{
    lemma_garbage_prefix(g);
    let first = scan(ScanState::Idle, seq![], g);
    lemma_frame_extracted(first.state, f);
    lemma_scan_split(ScanState::Idle, seq![], g, f);
    assert(Seq::<Seq<u8>>::empty() + seq![f] =~= seq![f]);
}

/// `f` stands in `s` as a run of consecutive bytes.
pub open spec fn is_factor(f: Seq<u8>, s: Seq<u8>) -> bool {
    exists|a: int| 0 <= a && a + f.len() <= s.len() && #[trigger] s.subrange(a, a + f.len()) == f
}

/// `p` ends `s`.
pub open spec fn is_suffix(p: Seq<u8>, s: Seq<u8>) -> bool {
    p.len() <= s.len() && s.subrange(s.len() - p.len(), s.len() as int) == p
}

/// What holds after scanning any input `s` from the start: the frames are
/// complete frames, each a run of consecutive input bytes with both markers;
/// the pending bytes end the input, start with `FF D8` and hold no `FF D9`,
/// and are empty outside a frame.
pub open spec fn scan_invariant(s: Seq<u8>, out: ScanOutcome) -> bool {
    &&& forall|k: int| 0 <= k < out.frames.len() ==> is_frame(#[trigger] out.frames[k])
    &&& forall|k: int| 0 <= k < out.frames.len() ==> is_factor(#[trigger] out.frames[k], s)
    &&& is_suffix(out.pending, s)
    &&& out.state == ScanState::SawStart ==> s.len() > 0 && s.last() == JPEG_START0
    &&& (out.state == ScanState::Idle || out.state == ScanState::SawStart) ==> out.pending.len() == 0
    &&& (out.state == ScanState::InFrame || out.state == ScanState::SawEnd) ==> {
        &&& out.pending.len() >= 2
        &&& out.pending[0] == JPEG_START0
        &&& out.pending[1] == JPEG_START1
        &&& (out.state == ScanState::SawEnd <==> out.pending.last() == JPEG_END0)
        &&& forall|i: int| !#[trigger] pair_at(out.pending, i, JPEG_END0, JPEG_END1)
    }
}

/// Every frame extracted from any input is a complete frame, `FF D8` to the
/// first `FF D9` after it, taken whole from consecutive input bytes; between
/// frames the pending buffer is empty, so no frame holds a byte of an earlier
/// frame or of the bytes between them.
pub proof fn lemma_frames_are_input_runs(s: Seq<u8>)
    ensures
        scan_invariant(s, scan(ScanState::Idle, seq![], s)),
    decreases s.len(),
{
    let out = scan(ScanState::Idle, seq![], s);
    if s.len() == 0 {
        assert(s.subrange(0, 0) =~= Seq::<u8>::empty());
    } else {
        let h = s.drop_last();
        let b = s.last();
        lemma_frames_are_input_runs(h);
        let prev = scan(ScanState::Idle, seq![], h);
        let last = step(prev.state, prev.pending, b);
        assert(out.frames == prev.frames + last.frames);
        assert(out.pending == last.pending);
        assert(h =~= s.subrange(0, s.len() - 1));
        // The pending bytes still end the input.
        if last.pending.len() == prev.pending.len() + 1 {
            assert(s.subrange(s.len() - last.pending.len(), s.len() as int) =~= h.subrange(
                h.len() - prev.pending.len(),
                h.len() as int,
            ).push(b));
        } else if last.pending.len() == 2 && prev.state == ScanState::SawStart {
            assert(s.subrange(s.len() - 2, s.len() as int) =~= seq![h.last(), b]);
            assert(prev.pending + seq![JPEG_START0, JPEG_START1] =~= seq![JPEG_START0, JPEG_START1]);
        } else if last.pending.len() == 0 {
            assert(s.subrange(s.len() as int, s.len() as int) =~= last.pending);
        }
        // No end marker inside the pending bytes.
        if prev.state == ScanState::InFrame || prev.state == ScanState::SawEnd {
            if last.state == ScanState::InFrame || last.state == ScanState::SawEnd {
                let p = last.pending;
                assert(p == prev.pending.push(b));
                assert forall|i: int| !#[trigger] pair_at(p, i, JPEG_END0, JPEG_END1) by {
                    if 0 <= i && i + 1 < prev.pending.len() {
                        assert(!pair_at(prev.pending, i, JPEG_END0, JPEG_END1));
                    }
                }
            }
        }
        if prev.state == ScanState::SawStart && b == JPEG_START1 {
            let p = last.pending;
            assert(p =~= seq![JPEG_START0, JPEG_START1]);
            assert forall|i: int| !#[trigger] pair_at(p, i, JPEG_END0, JPEG_END1) by {}
        }
        // Earlier frames stay runs of the longer input; a new one ends it.
        assert forall|k: int| 0 <= k < out.frames.len() implies is_factor(#[trigger] out.frames[k], s) by {
            if k < prev.frames.len() {
                let f = prev.frames[k];
                assert(out.frames[k] == f);
                assert(is_factor(f, h));
                let a = choose|a: int| 0 <= a && a + f.len() <= h.len() && #[trigger] h.subrange(a, a + f.len()) == f;
                assert(s.subrange(a, a + f.len()) =~= h.subrange(a, a + f.len()));
                assert(0 <= a && a + f.len() <= s.len() && s.subrange(a, a + f.len()) == f);
            } else {
                let f = out.frames[k];
                assert(last.frames.len() == 1);
                assert(f == prev.pending.push(b));
                let a = s.len() - f.len();
                assert(s.subrange(a, a + f.len()) =~= f);
                assert(0 <= a && a + f.len() <= s.len());
            }
        }
        assert forall|k: int| 0 <= k < out.frames.len() implies is_frame(#[trigger] out.frames[k]) by {
            if k < prev.frames.len() {
                assert(out.frames[k] == prev.frames[k]);
            } else {
                let f = out.frames[k];
                let p = prev.pending;
                assert(f == p.push(b));
                assert(p.len() >= 3) by {
                    if p.len() == 2 {
                        assert(p.last() == JPEG_START1);
                    }
                }
                assert forall|i: int| 0 <= i < f.len() - 2 implies !#[trigger] pair_at(f, i, JPEG_END0, JPEG_END1) by {
                    assert(!pair_at(p, i, JPEG_END0, JPEG_END1));
                }
            }
        }
    }
}

/// The scanner: its state and the bytes of the frame under assembly.
///
/// The pending buffer is cleared, never replaced, when a frame completes, so
/// its allocation is reused from one frame to the next.
pub struct FrameScanner {
    state: ScanState,
    pending: Vec<u8>,
}

impl FrameScanner {
    pub closed spec fn state(&self) -> ScanState {
        self.state
    }

    pub closed spec fn pending(&self) -> Seq<u8> {
        self.pending@
    }

    /// A scanner waiting for the first start marker.
    pub fn new() -> (r: FrameScanner)
        ensures
            r.state() == ScanState::Idle,
            r.pending() == Seq::<u8>::empty(),
    {
        FrameScanner { state: ScanState::Idle, pending: Vec::new() }
    }

    /// The current state.
    pub fn scan_state(&self) -> (r: ScanState)
        ensures
            r == self.state(),
    {
        self.state
    }

    /// The number of bytes held for the frame under assembly.
    pub fn pending_len(&self) -> (r: usize)
        ensures
            r == self.pending().len(),
    {
        self.pending.len()
    }

    /// Advances the scanner by one byte; returns the frame that this byte
    /// completes, if any.
    pub fn push_byte(&mut self, b: u8) -> (r: Option<Vec<u8>>)
        ensures
            ({
                let next = step(old(self).state(), old(self).pending(), b);
                &&& final(self).state() == next.state
                &&& final(self).pending() == next.pending
                &&& next.frames.len() == 0 ==> r.is_none()
                &&& next.frames.len() == 1 ==> r.is_some() && r.unwrap()@ == next.frames[0]
            }),
            r.is_none() || step(old(self).state(), old(self).pending(), b).frames.len() == 1,
    {
        match self.state {
            ScanState::Idle => {
                if b == JPEG_START0 {
                    self.state = ScanState::SawStart;
                }
                None
            },
            ScanState::SawStart => {
                if b == JPEG_START1 {
                    self.pending.push(JPEG_START0);
                    self.pending.push(JPEG_START1);
                    self.state = ScanState::InFrame;
                } else if b != JPEG_START0 {
                    self.state = ScanState::Idle;
                }
                None
            },
            ScanState::InFrame => {
                self.pending.push(b);
                if b == JPEG_END0 {
                    self.state = ScanState::SawEnd;
                }
                None
            },
            ScanState::SawEnd => {
                self.pending.push(b);
                if b == JPEG_END1 {
                    let frame = copy_bytes(&self.pending);
                    self.pending.clear();
                    self.state = ScanState::Idle;
                    Some(frame)
                } else {
                    if b != JPEG_END0 {
                        self.state = ScanState::InFrame;
                    }
                    None
                }
            },
        }
    }

    /// Feeds a chunk of input; returns the frames that it completes, in order.
    pub fn feed(&mut self, chunk: &[u8]) -> (r: Vec<Vec<u8>>)
        ensures
            ({
                let out = scan(old(self).state(), old(self).pending(), chunk@);
                &&& final(self).state() == out.state
                &&& final(self).pending() == out.pending
                &&& r@.len() == out.frames.len()
                &&& forall|k: int| 0 <= k < r@.len() ==> #[trigger] r@[k]@ == out.frames[k]
            }),
    {
        let mut frames: Vec<Vec<u8>> = Vec::new();
        let mut i: usize = 0;
        while i < chunk.len()
            invariant
                i <= chunk@.len(),
                ({
                    let out = scan(old(self).state(), old(self).pending(), chunk@.take(i as int));
                    &&& self.state() == out.state
                    &&& self.pending() == out.pending
                    &&& frames@.len() == out.frames.len()
                    &&& forall|k: int| 0 <= k < frames@.len() ==> #[trigger] frames@[k]@ == out.frames[k]
                }),
            decreases chunk.len() - i,
        {
            let ghost before = scan(old(self).state(), old(self).pending(), chunk@.take(i as int));
            assert(chunk@.take(i + 1).drop_last() =~= chunk@.take(i as int));
            assert(chunk@.take(i + 1).last() == chunk@[i as int]);
            let b = chunk[i];
            match self.push_byte(b) {
                Some(frame) => {
                    frames.push(frame);
                },
                None => {},
            }
            i = i + 1;
            proof {
                let after = scan(old(self).state(), old(self).pending(), chunk@.take(i as int));
                let last = step(before.state, before.pending, b);
                assert(after.frames == before.frames + last.frames);
            }
        }
        assert(chunk@.take(chunk@.len() as int) =~= chunk@);
        frames
    }
}

/// A copy of `v`.
fn copy_bytes(v: &Vec<u8>) -> (r: Vec<u8>)
    ensures
        r@ == v@,
{
    let mut r: Vec<u8> = Vec::with_capacity(v.len());
    let mut i: usize = 0;
    while i < v.len()
        invariant
            i <= v@.len(),
            r@ == v@.take(i as int),
        decreases v.len() - i,
    {
        r.push(v[i]);
        i = i + 1;
        assert(r@ =~= v@.take(i as int));
    }
    assert(v@.take(v@.len() as int) =~= v@);
    r
}

} // verus!
