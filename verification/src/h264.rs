//! Access-unit framing for an H.264 Annex-B elementary stream.
//!
//! The stream is a flat byte sequence in which access units are separated
//! by start codes: a run of at least two zero bytes followed by `0x01`.
//! [`H264Stream`] is the incremental reader: bytes are fed in as they
//! arrive and complete units come out.  Its whole behaviour is pinned to
//! the specification-level automaton [`scan`], and the reconstruction
//! theorem [`lemma_stream_reconstruction`] shows that the emitted units'
//! payloads are exactly the input stream with the start-code markers and
//! the bytes before the first start code removed.
//!
//! Framing rule: each emitted unit carries a normalised `00 00 01` prefix
//! followed by its payload (the bytes strictly between its start code and
//! the zero run of the next one).  The region before the first start code
//! is discarded, and a boundary that closes an empty region emits nothing.

use vstd::prelude::*;

verus! {

/// State of the specification-level scanning automaton: whether a start
/// code has been seen yet, the length of the current trailing zero run,
/// the payload of the unit in progress, and the raw bytes of every unit
/// emitted so far.
pub ghost struct ScanState {
    pub started: bool,
    pub zeros: nat,
    pub payload: Seq<u8>,
    pub units: Seq<Seq<u8>>,
}

/// The normalised start-code prefix carried by every emitted unit.
pub open spec fn start_code() -> Seq<u8> {
    seq![0u8, 0u8, 1u8]
}

/// A sequence of `n` zero bytes.
pub open spec fn zero_seq(n: nat) -> Seq<u8> {
    Seq::new(n, |i: int| 0u8)
}

/// Scanner state before any byte has been read.
pub open spec fn scan_init() -> ScanState {
    ScanState { started: false, zeros: 0, payload: Seq::empty(), units: Seq::empty() }
}

/// One step of the scanner: a zero byte extends the zero run; `0x01`
/// after a run of at least two zeros is a start code, which closes the
/// unit in progress (emitting it when it is non-empty and a start code
/// had been seen before); any other byte folds the pending zeros and
/// itself into the payload, or is discarded before the first start code.
pub open spec fn scan_step(st: ScanState, b: u8) -> ScanState {
    if b == 0 {
        ScanState { started: st.started, zeros: st.zeros + 1, payload: st.payload, units: st.units }
    } else if b == 1 && st.zeros >= 2 {
        ScanState {
            started: true,
            zeros: 0,
            payload: Seq::empty(),
            units: if st.started && st.payload.len() > 0 {
                st.units.push(start_code() + st.payload)
            } else {
                st.units
            },
        }
    } else {
        ScanState {
            started: st.started,
            zeros: 0,
            payload: if st.started {
                st.payload + zero_seq(st.zeros) + seq![b]
            } else {
                st.payload
            },
            units: st.units,
        }
    }
}

/// The scanner state after reading the whole byte sequence `s`.
pub open spec fn scan(s: Seq<u8>) -> ScanState
    decreases s.len(),
{
    if s.len() == 0 {
        scan_init()
    } else {
        scan_step(scan(s.drop_last()), s.last())
    }
}

/// Reading one more byte performs one automaton step.
pub proof fn lemma_scan_snoc(s: Seq<u8>, b: u8)
    ensures
        scan(s.push(b)) == scan_step(scan(s), b),
{
    assert(s.push(b).drop_last() =~= s);
    assert(s.push(b).last() == b);
}

/// The zero run and the pending payload never hold more bytes than were read.
pub proof fn lemma_scan_size(s: Seq<u8>)
    ensures
        scan(s).zeros + scan(s).payload.len() <= s.len(),
    decreases s.len(),
{
    if s.len() > 0 {
        lemma_scan_size(s.drop_last());
    }
}

/// Every emitted unit starts with the normalised start code, so it is at
/// least four bytes long and its fourth byte is the first payload byte.
pub proof fn lemma_units_well_formed(s: Seq<u8>)
    ensures
        forall|i: int|
            0 <= i < scan(s).units.len() ==> {
                let u = #[trigger] scan(s).units[i];
                u.len() >= 4 && u.take(3) == start_code()
            },
    decreases s.len(),
{
    if s.len() > 0 {
        lemma_units_well_formed(s.drop_last());
        let st = scan(s.drop_last());
        if s.last() == 1 && st.zeros >= 2 && st.started && st.payload.len() > 0 {
            assert((start_code() + st.payload).take(3) =~= start_code());
        }
    }
}

/// `0x01` at position `i` preceded by at least two zero bytes: the byte
/// on which a start code fires.
pub open spec fn is_boundary(s: Seq<u8>, i: int) -> bool {
    2 <= i < s.len() && s[i] == 1 && s[i - 1] == 0 && s[i - 2] == 0
}

/// Byte `i` belongs to a start-code marker: it is a boundary byte, or a
/// zero byte whose run reaches a boundary.
pub open spec fn in_marker(s: Seq<u8>, i: int) -> bool {
    is_boundary(s, i) || (0 <= i < s.len() && s[i] == 0 && exists|j: int|
        i < j < s.len() && is_boundary(s, j) && (forall|k: int| i < k < j ==> s[k] == 0))
}

/// Some start code fires strictly before position `i`.
pub open spec fn past_first_boundary(s: Seq<u8>, i: int) -> bool {
    exists|j: int| 0 <= j < i && is_boundary(s, j)
}

/// Byte `i` survives stripping: it lies after the first start code and is
/// not part of a marker.
pub open spec fn kept(s: Seq<u8>, i: int) -> bool {
    0 <= i < s.len() && past_first_boundary(s, i) && !in_marker(s, i)
}

/// The kept bytes among the first `n` of `s`, in order.
pub open spec fn stripped_upto(s: Seq<u8>, n: int) -> Seq<u8>
    decreases n,
{
    if n <= 0 {
        Seq::empty()
    } else {
        stripped_upto(s, n - 1) + (if kept(s, n - 1) {
            seq![s[n - 1]]
        } else {
            Seq::empty()
        })
    }
}

/// `s` with the start-code markers and the bytes before the first start
/// code removed.
pub open spec fn stripped(s: Seq<u8>) -> Seq<u8> {
    stripped_upto(s, s.len() as int)
}

/// Concatenation of the payloads (raw bytes minus the three-byte
/// start-code prefix) of a sequence of units.
pub open spec fn concat_payloads(units: Seq<Seq<u8>>) -> Seq<u8>
    decreases units.len(),
{
    if units.len() == 0 {
        Seq::empty()
    } else {
        concat_payloads(units.drop_last()) + units.last().skip(3)
    }
}

/// The zero run that is open at position `n` runs into a boundary at or
/// after `n`.
pub open spec fn run_feeds_boundary(s: Seq<u8>, n: int) -> bool {
    exists|j: int|
        n <= j < s.len() && is_boundary(s, j) && (forall|k: int| n <= k < j ==> s[k] == 0)
}

/// Bytes read but not yet classified after `n` bytes: the open zero run,
/// which still becomes payload unless it feeds a coming boundary.
pub open spec fn pending(s: Seq<u8>, n: int) -> Seq<u8> {
    let st = scan(s.take(n));
    if st.started && !run_feeds_boundary(s, n) {
        zero_seq(st.zeros)
    } else {
        Seq::empty()
    }
}

/// Induction core: after `n` bytes the scanner's zero run mirrors the
/// trailing zeros of the prefix, `started` mirrors the existence of a
/// boundary, and the emitted payloads plus the open unit plus the open
/// zero run are exactly the kept bytes of the prefix.
proof fn lemma_scan_structure(s: Seq<u8>, n: int)
    requires
        0 <= n <= s.len(),
    ensures
        ({
            let st = scan(s.take(n));
            &&& st.zeros <= n
            &&& forall|k: int| n - st.zeros <= k < n ==> s[k] == 0
            &&& (st.zeros < n ==> s[n - st.zeros - 1] != 0)
            &&& st.started == past_first_boundary(s, n)
            &&& (!st.started ==> st.payload == Seq::<u8>::empty())
            &&& concat_payloads(st.units) + st.payload + pending(s, n) == stripped_upto(s, n)
        }),
    decreases n,
{
    if n == 0 {
        assert(s.take(0) =~= Seq::<u8>::empty());
        assert(!past_first_boundary(s, 0));
        assert(concat_payloads(scan_init().units) + scan_init().payload + pending(s, 0)
            =~= stripped_upto(s, 0));
    } else {
        lemma_scan_structure(s, n - 1);
        let b = s[n - 1];
        let st0 = scan(s.take(n - 1));
        assert(s.take(n) =~= s.take(n - 1).push(b));
        lemma_scan_snoc(s.take(n - 1), b);
        let st1 = scan(s.take(n));
        assert(st1 == scan_step(st0, b));
        if b == 0 {
            // The zero run grows; nothing is classified yet.
            assert(!is_boundary(s, n - 1));
            assert(past_first_boundary(s, n) == past_first_boundary(s, n - 1)) by {
                if past_first_boundary(s, n) {
                    let j = choose|j: int| 0 <= j < n && is_boundary(s, j);
                    assert(j != n - 1);
                    assert(past_first_boundary(s, n - 1));
                }
            }
            // The run's classification is the same seen from n-1 and from n.
            assert(in_marker(s, n - 1) == run_feeds_boundary(s, n)) by {
                if in_marker(s, n - 1) {
                    let j = choose|j: int|
                        n - 1 < j < s.len() && is_boundary(s, j) && (forall|k: int|
                            n - 1 < k < j ==> s[k] == 0);
                    assert(n <= j < s.len() && is_boundary(s, j) && (forall|k: int|
                        n <= k < j ==> s[k] == 0));
                    assert(run_feeds_boundary(s, n));
                }
                if run_feeds_boundary(s, n) {
                    let j = choose|j: int|
                        n <= j < s.len() && is_boundary(s, j) && (forall|k: int|
                            n <= k < j ==> s[k] == 0);
                    assert(forall|k: int| n - 1 < k < j ==> s[k] == 0);
                    assert(in_marker(s, n - 1));
                }
            }
            assert(run_feeds_boundary(s, n - 1) == run_feeds_boundary(s, n)) by {
                if run_feeds_boundary(s, n - 1) {
                    let j = choose|j: int|
                        n - 1 <= j < s.len() && is_boundary(s, j) && (forall|k: int|
                            n - 1 <= k < j ==> s[k] == 0);
                    assert(j != n - 1);
                    assert(forall|k: int| n <= k < j ==> s[k] == 0);
                    assert(run_feeds_boundary(s, n));
                }
                if run_feeds_boundary(s, n) {
                    let j = choose|j: int|
                        n <= j < s.len() && is_boundary(s, j) && (forall|k: int|
                            n <= k < j ==> s[k] == 0);
                    assert(forall|k: int| n - 1 <= k < j ==> s[k] == 0);
                    assert(run_feeds_boundary(s, n - 1));
                }
            }
            if st0.started && !run_feeds_boundary(s, n) {
                assert(kept(s, n - 1));
                assert(zero_seq(st0.zeros + 1) =~= zero_seq(st0.zeros) + seq![0u8]);
                assert(concat_payloads(st1.units) + st1.payload + pending(s, n)
                    =~= (concat_payloads(st0.units) + st0.payload + pending(s, n - 1)) + seq![b]);
                assert(stripped_upto(s, n) == stripped_upto(s, n - 1) + seq![b]);
            } else {
                assert(!kept(s, n - 1));
                assert(pending(s, n) =~= Seq::<u8>::empty());
                assert(pending(s, n - 1) =~= Seq::<u8>::empty());
                assert(stripped_upto(s, n) == stripped_upto(s, n - 1) + Seq::<u8>::empty());
                assert(concat_payloads(st1.units) + st1.payload + pending(s, n)
                    =~= concat_payloads(st0.units) + st0.payload + pending(s, n - 1));
            }
        } else if b == 1 && st0.zeros >= 2 {
            // A start code fires at n - 1.
            assert(s[n - 2] == 0 && s[n - 3] == 0);
            assert(is_boundary(s, n - 1));
            assert(past_first_boundary(s, n));
            assert(!kept(s, n - 1));
            assert(run_feeds_boundary(s, n - 1)) by {
                assert(forall|k: int| n - 1 <= k < n - 1 ==> s[k] == 0);
            }
            assert(pending(s, n - 1) =~= Seq::<u8>::empty());
            assert(pending(s, n) =~= Seq::<u8>::empty()) by {
                assert(zero_seq(0) =~= Seq::<u8>::empty());
            }
            assert(stripped_upto(s, n) == stripped_upto(s, n - 1) + Seq::<u8>::empty());
            if st0.started && st0.payload.len() > 0 {
                let u = start_code() + st0.payload;
                assert(st1.units == st0.units.push(u));
                assert(st0.units.push(u).drop_last() =~= st0.units);
                assert(st0.units.push(u).last() == u);
                assert(concat_payloads(st1.units) == concat_payloads(st0.units) + u.skip(3));
                assert(u.skip(3) =~= st0.payload);
                assert(concat_payloads(st1.units) + st1.payload + pending(s, n)
                    =~= concat_payloads(st0.units) + st0.payload + pending(s, n - 1));
            } else {
                assert(st0.payload =~= Seq::<u8>::empty());
                assert(concat_payloads(st1.units) + st1.payload + pending(s, n)
                    =~= concat_payloads(st0.units) + st0.payload + pending(s, n - 1));
            }
        } else {
            // An ordinary byte: the open zeros and the byte become payload
            // (or are discarded before the first start code).
            assert(!is_boundary(s, n - 1)) by {
                if b == 1 {
                    if st0.zeros == n - 1 {
                        assert(n - 1 < 2);
                    } else {
                        if st0.zeros == 0 {
                            assert(s[n - 2] != 0);
                        } else if st0.zeros == 1 {
                            assert(s[n - 3] != 0);
                        }
                    }
                }
            }
            assert(!in_marker(s, n - 1));
            assert(past_first_boundary(s, n) == past_first_boundary(s, n - 1)) by {
                if past_first_boundary(s, n) {
                    let j = choose|j: int| 0 <= j < n && is_boundary(s, j);
                    assert(j != n - 1);
                    assert(past_first_boundary(s, n - 1));
                }
            }
            assert(!run_feeds_boundary(s, n - 1)) by {
                if run_feeds_boundary(s, n - 1) {
                    let j = choose|j: int|
                        n - 1 <= j < s.len() && is_boundary(s, j) && (forall|k: int|
                            n - 1 <= k < j ==> s[k] == 0);
                    assert(j != n - 1);
                    assert(s[n - 1] == 0);
                }
            }
            assert(pending(s, n) =~= Seq::<u8>::empty()) by {
                assert(zero_seq(0) =~= Seq::<u8>::empty());
            }
            if st0.started {
                assert(kept(s, n - 1));
                assert(stripped_upto(s, n) == stripped_upto(s, n - 1) + seq![b]);
                assert(pending(s, n - 1) == zero_seq(st0.zeros));
                assert(concat_payloads(st1.units) + st1.payload + pending(s, n)
                    =~= (concat_payloads(st0.units) + st0.payload + pending(s, n - 1)) + seq![b]);
            } else {
                assert(!kept(s, n - 1));
                assert(stripped_upto(s, n) == stripped_upto(s, n - 1) + Seq::<u8>::empty());
                assert(pending(s, n - 1) =~= Seq::<u8>::empty());
                assert(concat_payloads(st1.units) + st1.payload + pending(s, n)
                    =~= concat_payloads(st0.units) + st0.payload + pending(s, n - 1));
            }
        }
    }
}

/// Reconstruction: the concatenated payloads of every emitted unit,
/// followed by the still-open payload and the still-open zero run, are
/// exactly the input stream minus its start-code markers and minus the
/// bytes before the first start code.
pub proof fn lemma_stream_reconstruction(s: Seq<u8>)
    ensures
        concat_payloads(scan(s).units) + scan(s).payload + (if scan(s).started {
            zero_seq(scan(s).zeros)
        } else {
            Seq::<u8>::empty()
        }) == stripped(s),
{
    lemma_scan_structure(s, s.len() as int);
    assert(s.take(s.len() as int) =~= s);
    assert(!run_feeds_boundary(s, s.len() as int));
    assert(pending(s, s.len() as int) == (if scan(s).started {
        zero_seq(scan(s).zeros)
    } else {
        Seq::<u8>::empty()
    }));
}

/// Reconstruction at a unit boundary: when the stream so far ends exactly
/// on a start code, the emitted payloads alone rebuild the stripped
/// stream.
pub proof fn lemma_stream_reconstruction_aligned(s: Seq<u8>)
    requires
        scan(s).payload.len() == 0,
        scan(s).zeros == 0,
    ensures
        concat_payloads(scan(s).units) == stripped(s),
{
    lemma_stream_reconstruction(s);
    assert(zero_seq(0) =~= Seq::<u8>::empty());
    assert(concat_payloads(scan(s).units) + scan(s).payload + (if scan(s).started {
        zero_seq(scan(s).zeros)
    } else {
        Seq::<u8>::empty()
    }) =~= concat_payloads(scan(s).units));
}

/// One access unit: a type code in `[0, 31]` and the unit's raw bytes
/// (the normalised start code followed by the payload).
#[derive(Clone)]
pub struct H264NalUnit {
    pub unit_code: u8,
    pub raw_bytes: Vec<u8>,
}

impl H264NalUnit {
    /// The type code is the low five bits of the fourth raw byte.
    pub fn new(raw_bytes: Vec<u8>) -> (r: Self)
        requires
            raw_bytes@.len() >= 4,
        ensures
            r.unit_code == (raw_bytes@[3] & 0x1f),
            r.raw_bytes@ == raw_bytes@,
            r.unit_code < 32,
    {
        let unit_code = raw_bytes[3] & 0x1f;
        proof {
            let b = raw_bytes@[3];
            assert((b & 0x1f) < 32) by (bit_vector);
        }
        H264NalUnit { unit_code, raw_bytes }
    }
}

/// Incremental access-unit reader over a byte stream that arrives in
/// chunks.  The ghost field `history` records every byte ever fed; the
/// executable state is always the [`scan`] of that history.
pub struct H264Stream {
    started: bool,
    zero_run: usize,
    payload: Vec<u8>,
    history: Ghost<Seq<u8>>,
}

impl H264Stream {
    /// All bytes fed to this reader so far.
    pub closed spec fn fed(&self) -> Seq<u8> {
        self.history@
    }

    /// The executable state agrees with the scanning automaton run over
    /// the fed history.
    pub closed spec fn wf(&self) -> bool {
        let st = scan(self.fed());
        &&& self.started == st.started
        &&& self.zero_run as nat == st.zeros
        &&& self.payload@ == st.payload
    }

    /// A fresh reader with nothing fed yet.
    pub fn new() -> (r: Self)
        ensures
            r.wf(),
            r.fed() == Seq::<u8>::empty(),
    {
        H264Stream {
            started: false,
            zero_run: 0,
            payload: Vec::new(),
            history: Ghost(Seq::empty()),
        }
    }

    /// Feed one byte; returns the unit the byte completed, if any.
    fn step_byte(&mut self, b: u8) -> (emitted: Option<H264NalUnit>)
        requires
            old(self).wf(),
            old(self).fed().len() < usize::MAX,
        ensures
            final(self).wf(),
            final(self).fed() == old(self).fed().push(b),
            ({
                let st0 = scan(old(self).fed());
                let st1 = scan(final(self).fed());
                match emitted {
                    Some(u) => st1.units == st0.units.push(u.raw_bytes@) && u.raw_bytes@.len() >= 4
                        && u.unit_code == (u.raw_bytes@[3] & 0x1f),
                    None => st1.units == st0.units,
                }
            }),
    {
        proof {
            lemma_scan_snoc(self.fed(), b);
            lemma_scan_size(self.fed());
        }
        let ghost st0 = scan(self.fed());
        self.history = Ghost(self.history@.push(b));
        if b == 0 {
            self.zero_run = self.zero_run + 1;
            None
        } else if b == 1 && self.zero_run >= 2 {
            let mut emitted: Option<H264NalUnit> = None;
            if self.started && self.payload.len() > 0 {
                let mut raw: Vec<u8> = Vec::new();
                raw.push(0);
                raw.push(0);
                raw.push(1);
                crate::bytes::push_bytes(&mut raw, self.payload.as_slice());
                proof {
                    assert(raw@ =~= start_code() + st0.payload);
                }
                emitted = Some(H264NalUnit::new(raw));
            }
            self.started = true;
            self.payload.clear();
            self.zero_run = 0;
            emitted
        } else {
            if self.started {
                let ghost z = self.zero_run as nat;
                let ghost hist = self.history@;
                let mut k: usize = 0;
                while k < self.zero_run
                    invariant
                        k <= z,
                        self.zero_run as nat == z,
                        self.started,
                        self.history@ == hist,
                        self.payload@ == st0.payload + zero_seq(k as nat),
                    decreases z - k,
                {
                    self.payload.push(0);
                    proof {
                        assert(st0.payload + zero_seq((k + 1) as nat) =~= (st0.payload
                            + zero_seq(k as nat)).push(0u8));
                    }
                    k = k + 1;
                }
                self.payload.push(b);
                proof {
                    assert(self.payload@ =~= st0.payload + zero_seq(z) + seq![b]);
                }
            }
            self.zero_run = 0;
            None
        }
    }

    /// Feed a chunk of freshly read bytes; returns every unit completed
    /// within it, in stream order.  The returned units are exactly the
    /// units the scanning automaton emits for the extended history, and
    /// each one's type code is the low five bits of its fourth raw byte.
    pub fn feed(&mut self, chunk: &[u8]) -> (out: Vec<H264NalUnit>)
        requires
            old(self).wf(),
            old(self).fed().len() + chunk@.len() <= usize::MAX,
        ensures
            final(self).wf(),
            final(self).fed() == old(self).fed() + chunk@,
            scan(final(self).fed()).units == scan(old(self).fed()).units + out@.map_values(
                |u: H264NalUnit| u.raw_bytes@,
            ),
            forall|i: int|
                0 <= i < out@.len() ==> (#[trigger] out@[i]).raw_bytes@.len() >= 4 && out@[i].unit_code
                    == (out@[i].raw_bytes@[3] & 0x1f),
    {
        let ghost fed0 = self.fed();
        let mut out: Vec<H264NalUnit> = Vec::new();
        let mut i: usize = 0;
        proof {
            assert(fed0 + chunk@.take(0) =~= fed0);
            assert(out@.map_values(|u: H264NalUnit| u.raw_bytes@) =~= Seq::<Seq<u8>>::empty());
        }
        while i < chunk.len()
            invariant
                i <= chunk@.len(),
                fed0.len() + chunk@.len() <= usize::MAX,
                self.wf(),
                self.fed() == fed0 + chunk@.take(i as int),
                scan(self.fed()).units == scan(fed0).units + out@.map_values(
                    |u: H264NalUnit| u.raw_bytes@,
                ),
                forall|j: int|
                    0 <= j < out@.len() ==> (#[trigger] out@[j]).raw_bytes@.len() >= 4
                        && out@[j].unit_code == (out@[j].raw_bytes@[3] & 0x1f),
            decreases chunk@.len() - i,
        {
            let b = chunk[i];
            let ghost out_pre = out@;
            let emitted = self.step_byte(b);
            proof {
                assert(fed0 + chunk@.take((i + 1) as int) =~= (fed0 + chunk@.take(i as int)).push(
                    chunk@[i as int],
                ));
            }
            if let Some(u) = emitted {
                out.push(u);
            }
            proof {
                let f = |u: H264NalUnit| u.raw_bytes@;
                if out@.len() > out_pre.len() {
                    assert(out@.map_values(f) =~= out_pre.map_values(f).push(
                        out@.last().raw_bytes@,
                    ));
                } else {
                    assert(out@.map_values(f) =~= out_pre.map_values(f));
                }
            }
            i = i + 1;
        }
        proof {
            assert(fed0 + chunk@.take(chunk@.len() as int) =~= fed0 + chunk@);
        }
        out
    }
}

} // verus!
