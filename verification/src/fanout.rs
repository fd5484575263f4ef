//! The broadcast session core: parameter cache, frame backlog, known-set
//! bookkeeping and the per-unit fan-out protocol.
//!
//! For every access unit produced by the capture process the session
//! decides, per registered sink, what must be written: a sink seen for
//! the first time receives one self-contained catch-up bundle (parameter
//! sets, then the backlog since the last keyframe, then the current
//! unit); a sink already caught up receives just the unit's raw bytes.
//! Sinks whose write fails are evicted from the registry and from the
//! known-set before the next pass.  The caller performs the writes and
//! reports, per sink, whether its write succeeded; everything else is
//! decided and proved here.
//!
//! Backlog rule: a keyframe clears the backlog and is then stored as its
//! first element, so the backlog always holds the units from the most
//! recent keyframe (inclusive) onward, and a catch-up bundle is
//! decodable from its first frame.  When the backlog reaches
//! [`FRAME_BACKLOG_CAP`] without a keyframe it is cut to a minimal
//! remainder instead of growing without bound.

use vstd::prelude::*;

use crate::h264::H264NalUnit;
use crate::registry::{KnownSet, SinkKind, SinkRegistry, distinct_seq, keep_flags,
    lemma_keep_flags_dropped};

verus! {

/// Sequence parameter set.
pub const SPS_CODE: u8 = 7;

/// Picture parameter set.
pub const PPS_CODE: u8 = 8;

/// Instantaneous decoding refresh: a keyframe.
pub const KEYFRAME_CODE: u8 = 5;

/// Bound on the frame backlog.
pub const FRAME_BACKLOG_CAP: usize = 1000;

/// Ghost record of one access unit: its type code and raw bytes.
pub ghost struct AuRec {
    pub code: u8,
    pub bytes: Seq<u8>,
}

/// The ghost record of a concrete unit.
pub open spec fn au_rec(u: H264NalUnit) -> AuRec {
    AuRec { code: u.unit_code, bytes: u.raw_bytes@ }
}

/// The ghost record of an optional unit.
pub open spec fn opt_au(o: Option<H264NalUnit>) -> Option<AuRec> {
    match o {
        Some(u) => Some(au_rec(u)),
        None => None,
    }
}

/// The bytes of an optional cached parameter set.
pub open spec fn opt_bytes(o: Option<AuRec>) -> Seq<u8> {
    match o {
        Some(r) => r.bytes,
        None => Seq::empty(),
    }
}

/// The concatenated raw bytes of a sequence of units.
pub open spec fn units_bytes(rs: Seq<AuRec>) -> Seq<u8>
    decreases rs.len(),
{
    if rs.len() == 0 {
        Seq::empty()
    } else {
        units_bytes(rs.drop_last()) + rs.last().bytes
    }
}

/// Ghost record of one successful sink write: which key, and whether it
/// was a catch-up bundle or a raw unit.
pub ghost struct WriteRec {
    pub key: Seq<char>,
    pub bundle: bool,
}

/// The log holds a bundle write for `key`.
pub open spec fn bundled_in(log: Seq<WriteRec>, key: Seq<char>) -> bool {
    exists|i: int| 0 <= i < log.len() && log[i].key == key && log[i].bundle
}

/// The write records one fan-out pass appends for the sinks whose write
/// succeeded, in registry order: key and whether — judged against the
/// state `st` at the start of the pass — the write was a bundle.
pub open spec fn log_events(st: &BroadcastState, keys: Seq<Seq<char>>, ok: Seq<bool>) -> Seq<
    WriteRec,
>
    decreases keys.len(),
{
    if keys.len() == 0 {
        Seq::empty()
    } else {
        log_events(st, keys.drop_last(), ok.drop_last()) + (if ok[keys.len() - 1] {
            seq![WriteRec { key: keys.last(), bundle: !st.known_contains(keys.last()) }]
        } else {
            Seq::empty()
        })
    }
}

/// Every record of one pass is judged against the pass's start state.
proof fn lemma_log_events_member(st: &BroadcastState, keys: Seq<Seq<char>>, ok: Seq<bool>, m: int)
    requires
        keys.len() == ok.len(),
        0 <= m < log_events(st, keys, ok).len(),
    ensures
        log_events(st, keys, ok)[m].bundle == !st.known_contains(log_events(st, keys, ok)[m].key),
    decreases keys.len(),
{
    if keys.len() > 0 {
        let pre = log_events(st, keys.drop_last(), ok.drop_last());
        if m < pre.len() {
            lemma_log_events_member(st, keys.drop_last(), ok.drop_last(), m);
        }
    }
}

/// A successful write leaves a record with its key.
proof fn lemma_log_events_success(st: &BroadcastState, keys: Seq<Seq<char>>, ok: Seq<bool>, i: int)
    requires
        keys.len() == ok.len(),
        0 <= i < keys.len(),
        ok[i],
    ensures
        exists|m: int|
            0 <= m < log_events(st, keys, ok).len() && log_events(st, keys, ok)[m]
                == (WriteRec { key: keys[i], bundle: !st.known_contains(keys[i]) }),
    decreases keys.len(),
{
    let ev = log_events(st, keys, ok);
    if i == keys.len() - 1 {
        assert(ev[ev.len() - 1] == (WriteRec {
            key: keys[i],
            bundle: !st.known_contains(keys[i]),
        }));
    } else {
        lemma_log_events_success(st, keys.drop_last(), ok.drop_last(), i);
        let pre = log_events(st, keys.drop_last(), ok.drop_last());
        let m = choose|m: int|
            0 <= m < pre.len() && pre[m] == (WriteRec {
                key: keys.drop_last()[i],
                bundle: !st.known_contains(keys.drop_last()[i]),
            });
        assert(ev[m] == pre[m]);
        assert(keys.drop_last()[i] == keys[i]);
    }
}

/// One fan-out instruction: write `bytes` to the sink under `key`.
pub struct WriteCmd {
    pub key: String,
    pub bytes: Vec<u8>,
    pub bundle: bool,
}

/// Per-session broadcast state.
pub struct BroadcastState {
    seq_param: Option<H264NalUnit>,
    pic_param: Option<H264NalUnit>,
    backlog: Vec<H264NalUnit>,
    known: KnownSet,
    produced: Ghost<Seq<AuRec>>,
    backlog_src: Ghost<Seq<int>>,
    log: Ghost<Seq<WriteRec>>,
}

impl BroadcastState {
    /// The cached sequence parameter set.
    pub closed spec fn sps(&self) -> Option<AuRec> {
        opt_au(self.seq_param)
    }

    /// The cached picture parameter set.
    pub closed spec fn pps(&self) -> Option<AuRec> {
        opt_au(self.pic_param)
    }

    /// The backlog, as ghost records, oldest first.
    pub closed spec fn backlog_recs(&self) -> Seq<AuRec> {
        self.backlog@.map_values(|u: H264NalUnit| au_rec(u))
    }

    /// Every unit this session has accepted, in production order.
    pub closed spec fn produced(&self) -> Seq<AuRec> {
        self.produced@
    }

    /// For each backlog position, the production index it came from.
    pub closed spec fn srcs(&self) -> Seq<int> {
        self.backlog_src@
    }

    /// Every successful write of this session, in order.
    pub closed spec fn log(&self) -> Seq<WriteRec> {
        self.log@
    }

    /// `key` has already received its catch-up bundle.
    pub closed spec fn known_contains(&self, key: Seq<char>) -> bool {
        self.known.contains(key)
    }

    /// Session invariant: the backlog is bounded, each backlog entry is a
    /// produced unit, entries appear in production order, no keyframe was
    /// produced after any backlog entry, every known key has received a
    /// bundle, and no raw write ever precedes its key's bundle.
    pub closed spec fn wf(&self) -> bool {
        &&& self.backlog@.len() <= FRAME_BACKLOG_CAP
        &&& self.srcs().len() == self.backlog@.len()
        &&& forall|p: int|
            0 <= p < self.srcs().len() ==> 0 <= #[trigger] self.srcs()[p] < self.produced().len()
                && self.produced()[self.srcs()[p]] == self.backlog_recs()[p]
        &&& forall|p: int, q: int| 0 <= p < q < self.srcs().len() ==> self.srcs()[p] < self.srcs()[q]
        &&& forall|p: int, k: int|
            0 <= p < self.srcs().len() && #[trigger] self.srcs()[p] < k < self.produced().len()
                ==> (#[trigger] self.produced()[k]).code != KEYFRAME_CODE
        &&& self.known.wf()
        &&& forall|key: Seq<char>|
            #[trigger] self.known_contains(key) ==> bundled_in(self.log(), key)
        &&& forall|i: int|
            0 <= i < self.log().len() && !(#[trigger] self.log()[i]).bundle ==> exists|j: int|
                0 <= j < i && (#[trigger] self.log()[j]).key == self.log()[i].key
                    && self.log()[j].bundle
    }

    /// The catch-up bundle for the current unit `u`: parameter sets, then
    /// the backlog in production order, then `u` itself.
    pub open spec fn bundle_bytes(&self, u: AuRec) -> Seq<u8> {
        opt_bytes(self.sps()) + opt_bytes(self.pps()) + units_bytes(self.backlog_recs()) + u.bytes
    }

    /// A fresh session: no parameter sets, empty backlog, nothing known,
    /// nothing written.
    pub fn new() -> (r: Self)
        ensures
            r.wf(),
            r.sps() is None,
            r.pps() is None,
            r.backlog_recs() == Seq::<AuRec>::empty(),
            r.produced() == Seq::<AuRec>::empty(),
            r.log() == Seq::<WriteRec>::empty(),
            forall|key: Seq<char>| !r.known_contains(key),
    {
        let r = BroadcastState {
            seq_param: None,
            pic_param: None,
            backlog: Vec::new(),
            known: KnownSet::new(),
            produced: Ghost(Seq::empty()),
            backlog_src: Ghost(Seq::empty()),
            log: Ghost(Seq::empty()),
        };
        proof {
            assert(r.backlog_recs() =~= Seq::<AuRec>::empty());
        }
        r
    }

    /// Accept one produced unit (steps 2 to 4 of the fan-out pass).
    /// Parameter sets are cached and not forwarded; a keyframe clears the
    /// backlog; every other unit passes through unchanged and must then
    /// be fanned out and completed.
    pub fn accept_unit(&mut self, unit: H264NalUnit) -> (forward: Option<H264NalUnit>)
        requires
            old(self).wf(),
        ensures
            final(self).wf(),
            final(self).produced() == old(self).produced().push(au_rec(unit)),
            final(self).log() == old(self).log(),
            forall|key: Seq<char>|
                final(self).known_contains(key) == old(self).known_contains(key),
            unit.unit_code == SPS_CODE ==> forward is None && final(self).sps() == Some(
                au_rec(unit),
            ) && final(self).pps() == old(self).pps() && final(self).backlog_recs() == old(
                self,
            ).backlog_recs() && final(self).srcs() == old(self).srcs(),
            unit.unit_code == PPS_CODE ==> forward is None && final(self).pps() == Some(
                au_rec(unit),
            ) && final(self).sps() == old(self).sps() && final(self).backlog_recs() == old(
                self,
            ).backlog_recs() && final(self).srcs() == old(self).srcs(),
            unit.unit_code != SPS_CODE && unit.unit_code != PPS_CODE ==> (match forward {
                Some(u) => au_rec(u) == au_rec(unit),
                None => false,
            }) && final(self).sps() == old(self).sps() && final(self).pps() == old(self).pps(),
            unit.unit_code == KEYFRAME_CODE ==> final(self).backlog_recs() == Seq::<
                AuRec,
            >::empty() && final(self).srcs() == Seq::<int>::empty(),
            unit.unit_code != SPS_CODE && unit.unit_code != PPS_CODE && unit.unit_code
                != KEYFRAME_CODE ==> final(self).backlog_recs() == old(self).backlog_recs()
                && final(self).srcs() == old(self).srcs(),
    {
        self.produced = Ghost(self.produced@.push(au_rec(unit)));
        let mut forward: Option<H264NalUnit> = None;
        if unit.unit_code == SPS_CODE {
            self.seq_param = Some(unit);
        } else if unit.unit_code == PPS_CODE {
            self.pic_param = Some(unit);
        } else {
            if unit.unit_code == KEYFRAME_CODE {
                self.backlog.clear();
                self.backlog_src = Ghost(Seq::empty());
                proof {
                    assert(self.backlog_recs() =~= Seq::<AuRec>::empty());
                }
            }
            forward = Some(unit);
        }
        proof {
            self.lemma_known_log_clauses_stable(old(self));
        }
        forward
    }

    /// The two write-log clauses of `wf` carry over unchanged whenever
    /// neither the known-set nor the log changed.
    proof fn lemma_known_log_clauses_stable(&self, prev: &Self)
        requires
            prev.wf(),
            self.log() == prev.log(),
            forall|key: Seq<char>|
                #[trigger] self.known_contains(key) == prev.known_contains(key),
        ensures
            forall|key: Seq<char>|
                #[trigger] self.known_contains(key) ==> bundled_in(self.log(), key),
            forall|i: int|
                0 <= i < self.log().len() && !(#[trigger] self.log()[i]).bundle ==> exists|j: int|
                    0 <= j < i && (#[trigger] self.log()[j]).key == self.log()[i].key
                        && self.log()[j].bundle,
    {
        assert forall|key: Seq<char>| #[trigger] self.known_contains(key) implies bundled_in(
            self.log(),
            key,
        ) by {
            assert(prev.known_contains(key));
        }
        assert forall|i: int|
            0 <= i < self.log().len() && !(#[trigger] self.log()[i]).bundle implies exists|j: int|
            0 <= j < i && (#[trigger] self.log()[j]).key == self.log()[i].key
                && self.log()[j].bundle by {
            assert(!prev.log()[i].bundle);
        }
    }
    /// Build the catch-up bundle for the current unit as one buffer.
    fn build_bundle(&self, unit: &H264NalUnit) -> (b: Vec<u8>)
        requires
            self.wf(),
        ensures
            b@ == self.bundle_bytes(au_rec(*unit)),
    {
        let mut b: Vec<u8> = Vec::new();
        if let Some(sp) = &self.seq_param {
            crate::bytes::push_bytes(&mut b, sp.raw_bytes.as_slice());
        }
        proof {
            assert(b@ =~= opt_bytes(self.sps()));
        }
        if let Some(pp) = &self.pic_param {
            crate::bytes::push_bytes(&mut b, pp.raw_bytes.as_slice());
        }
        proof {
            assert(b@ =~= opt_bytes(self.sps()) + opt_bytes(self.pps()));
            assert(units_bytes(self.backlog_recs().take(0)) == Seq::<u8>::empty()) by {
                assert(self.backlog_recs().take(0) =~= Seq::<AuRec>::empty());
            }
            assert(b@ =~= opt_bytes(self.sps()) + opt_bytes(self.pps()) + units_bytes(
                self.backlog_recs().take(0),
            ));
        }
        let mut i: usize = 0;
        while i < self.backlog.len()
            invariant
                self.wf(),
                i <= self.backlog@.len(),
                b@ == opt_bytes(self.sps()) + opt_bytes(self.pps()) + units_bytes(
                    self.backlog_recs().take(i as int),
                ),
            decreases self.backlog@.len() - i,
        {
            crate::bytes::push_bytes(&mut b, self.backlog[i].raw_bytes.as_slice());
            proof {
                let recs = self.backlog_recs();
                let t1 = recs.take(i + 1);
                assert(t1.drop_last() =~= recs.take(i as int));
                assert(t1.last() == recs[i as int]);
                assert(b@ =~= opt_bytes(self.sps()) + opt_bytes(self.pps()) + units_bytes(t1));
            }
            i = i + 1;
        }
        proof {
            assert(self.backlog_recs().take(self.backlog_recs().len() as int) =~= self
                .backlog_recs());
        }
        crate::bytes::push_bytes(&mut b, unit.raw_bytes.as_slice());
        proof {
            assert(b@ =~= self.bundle_bytes(au_rec(*unit)));
        }
        b
    }

    /// Plan one fan-out pass for the forwarded unit `unit` (steps 5 and 6):
    /// one write per registered sink, in registry order — the full
    /// catch-up bundle for a sink not yet known, the unit's raw bytes
    /// for a sink already known.  The caller performs the writes and
    /// reports the per-sink outcomes to `complete_unit`.
    pub fn plan_writes(&self, reg: &SinkRegistry, unit: &H264NalUnit) -> (cmds: Vec<WriteCmd>)
        requires
            self.wf(),
            reg.wf(),
        ensures
            cmds@.len() == reg.keys().len(),
            forall|i: int|
                0 <= i < cmds@.len() ==> (#[trigger] cmds@[i]).key@ == reg.keys()[i],
            forall|i: int|
                0 <= i < cmds@.len() ==> (#[trigger] cmds@[i]).bundle == !self.known_contains(
                    reg.keys()[i],
                ),
            forall|i: int|
                0 <= i < cmds@.len() && (#[trigger] cmds@[i]).bundle ==> cmds@[i].bytes@
                    == self.bundle_bytes(au_rec(*unit)),
            forall|i: int|
                0 <= i < cmds@.len() && !(#[trigger] cmds@[i]).bundle ==> cmds@[i].bytes@
                    == unit.raw_bytes@,
    {
        let mut cmds: Vec<WriteCmd> = Vec::new();
        let n = reg.len();
        let mut i: usize = 0;
        while i < n
            invariant
                self.wf(),
                reg.wf(),
                n == reg.keys().len(),
                i <= n,
                cmds@.len() == i,
                forall|j: int|
                    0 <= j < cmds@.len() ==> (#[trigger] cmds@[j]).key@ == reg.keys()[j],
                forall|j: int|
                    0 <= j < cmds@.len() ==> (#[trigger] cmds@[j]).bundle == !self.known_contains(
                        reg.keys()[j],
                    ),
                forall|j: int|
                    0 <= j < cmds@.len() && (#[trigger] cmds@[j]).bundle ==> cmds@[j].bytes@
                        == self.bundle_bytes(au_rec(*unit)),
                forall|j: int|
                    0 <= j < cmds@.len() && !(#[trigger] cmds@[j]).bundle ==> cmds@[j].bytes@
                        == unit.raw_bytes@,
            decreases n - i,
        {
            let key = reg.key_at(i).clone();
            let already_known = self.known.contains_key(&key);
            let bytes = if already_known {
                let mut raw: Vec<u8> = Vec::new();
                crate::bytes::push_bytes(&mut raw, unit.raw_bytes.as_slice());
                raw
            } else {
                self.build_bundle(unit)
            };
            cmds.push(WriteCmd { key, bytes, bundle: !already_known });
            i = i + 1;
        }
        cmds
    }

    /// Complete one fan-out pass for the forwarded unit `unit` (steps 5,
    /// 7 and 8): `ok[i]` reports whether the write to the sink at
    /// registry position `i` succeeded.  Successful first-time sinks
    /// become known and every successful write is recorded; the unit is
    /// appended to the backlog, cutting it to a minimal remainder at
    /// capacity; and every sink whose write failed is evicted from the
    /// registry and from the known-set.
    pub fn complete_unit(&mut self, reg: &mut SinkRegistry, unit: H264NalUnit, ok: &Vec<bool>)
        requires
            old(self).wf(),
            old(reg).wf(),
            ok@.len() == old(reg).keys().len(),
            old(self).produced().len() > 0,
            old(self).produced().last() == au_rec(unit),
            unit.unit_code != SPS_CODE,
            unit.unit_code != PPS_CODE,
            forall|p: int|
                0 <= p < old(self).srcs().len() ==> #[trigger] old(self).srcs()[p] < old(
                    self,
                ).produced().len() - 1,
            unit.unit_code == KEYFRAME_CODE ==> old(self).backlog_recs().len() == 0,
        ensures
            final(self).wf(),
            final(reg).wf(),
            final(self).produced() == old(self).produced(),
            final(self).sps() == old(self).sps(),
            final(self).pps() == old(self).pps(),
            final(reg).keys() == keep_flags(old(reg).keys(), ok@),
            final(reg).kinds() == keep_flags(old(reg).kinds(), ok@),
            final(self).backlog_recs() == (if old(self).backlog_recs().len()
                >= FRAME_BACKLOG_CAP {
                seq![old(self).backlog_recs()[0], au_rec(unit)]
            } else {
                old(self).backlog_recs().push(au_rec(unit))
            }),
            final(self).srcs().last() == old(self).produced().len() - 1,
            forall|k: Seq<char>|
                #[trigger] final(self).known_contains(k) == ((exists|i: int|
                    0 <= i < old(reg).keys().len() && old(reg).keys()[i] == k && ok@[i]) || (old(
                    self,
                ).known_contains(k) && !old(reg).keys().contains(k))),
            final(self).log() == old(self).log() + log_events(old(self), old(reg).keys(), ok@),
            forall|i: int|
                0 <= i < ok@.len() && !ok@[i] ==> !final(reg).contains_key(
                    #[trigger] old(reg).keys()[i],
                ) && !final(self).known_contains(old(reg).keys()[i]),
    {
        let ghost keys0 = reg.keys();
        let ghost kinds0 = reg.kinds();
        let n = reg.len();

        // Step 5's bookkeeping: mark successful first-time sinks known
        // and record every successful write.
        let mut i: usize = 0;
        proof {
            assert(keys0.take(0) =~= Seq::<Seq<char>>::empty());
            assert(ok@.take(0) =~= Seq::<bool>::empty());
            assert(self.log@ =~= old(self).log@ + log_events(old(self), keys0.take(0), ok@.take(0)));
        }
        while i < n
            invariant
                i <= n,
                n == keys0.len(),
                ok@.len() == n,
                reg.wf(),
                reg.keys() == keys0,
                reg.kinds() == kinds0,
                old(self).wf(),
                self.known.wf(),
                self.seq_param == old(self).seq_param,
                self.pic_param == old(self).pic_param,
                self.backlog@ == old(self).backlog@,
                self.produced@ == old(self).produced@,
                self.backlog_src@ == old(self).backlog_src@,
                forall|k: Seq<char>|
                    #[trigger] self.known.contains(k) == (old(self).known_contains(k) || exists|
                        j: int,
                    | 0 <= j < i && keys0[j] == k && ok@[j]),
                self.log@ == old(self).log@ + log_events(old(self), keys0.take(i as int), ok@.take(
                    i as int,
                )),
            decreases n - i,
        {
            let ghost log_pre = self.log@;
            if ok[i] {
                let key = reg.key_at(i).clone();
                let ghost kv = key@;
                let was_known = self.known.contains_key(&key);
                proof {
                    assert(forall|j: int| 0 <= j < i ==> keys0[j] != keys0[i as int]);
                    assert(was_known == old(self).known_contains(kv));
                }
                if !was_known {
                    self.known.insert(key);
                }
                self.log = Ghost(self.log@.push(WriteRec { key: kv, bundle: !was_known }));
            }
            proof {
                let t1 = keys0.take(i + 1);
                let o1 = ok@.take(i + 1);
                assert(t1.drop_last() =~= keys0.take(i as int));
                assert(o1.drop_last() =~= ok@.take(i as int));
                assert(t1.last() == keys0[i as int]);
                assert(o1[t1.len() - 1] == ok@[i as int]);
                assert(self.log@ =~= old(self).log@ + log_events(old(self), t1, o1));
                assert forall|k: Seq<char>|
                    #[trigger] self.known.contains(k) == (old(self).known_contains(k) || exists|
                        j: int,
                    | 0 <= j < i + 1 && keys0[j] == k && ok@[j]) by {
                    if exists|j: int| 0 <= j < i + 1 && keys0[j] == k && ok@[j] {
                        let j = choose|j: int| 0 <= j < i + 1 && keys0[j] == k && ok@[j];
                        if j < i {
                            assert(exists|j2: int| 0 <= j2 < i && keys0[j2] == k && ok@[j2]);
                        }
                    }
                }
            }
            i = i + 1;
        }
        proof {
            assert(keys0.take(n as int) =~= keys0);
            assert(ok@.take(n as int) =~= ok@);
        }
        let ghost kn1 = self.known;

        // Step 7: append the unit to the backlog, cutting the backlog to
        // a minimal remainder once it has reached capacity.
        let ghost backlog0 = self.backlog@;
        if self.backlog.len() >= FRAME_BACKLOG_CAP {
            self.backlog.truncate(1);
            self.backlog_src = Ghost(self.backlog_src@.take(1));
        }
        self.backlog.push(unit);
        self.backlog_src = Ghost(self.backlog_src@.push(old(self).produced@.len() - 1));
        proof {
            let f = |u: H264NalUnit| au_rec(u);
            if backlog0.len() >= FRAME_BACKLOG_CAP {
                assert(self.backlog@ =~= seq![backlog0[0], unit]);
                assert(self.backlog@.map_values(f) =~= seq![
                    backlog0.map_values(f)[0],
                    au_rec(unit),
                ]);
            } else {
                assert(self.backlog@ =~= backlog0.push(unit));
                assert(self.backlog@.map_values(f) =~= backlog0.map_values(f).push(au_rec(unit)));
            }
        }

        // Step 8: evict every sink whose write failed, from the registry
        // and from the known-set, back to front so positions stay stable.
        let ghost bl = self.backlog@;
        let ghost bsrc = self.backlog_src@;
        let ghost log1 = self.log@;
        let mut idx: usize = n;
        proof {
            assert(keys0.skip(n as int) =~= Seq::<Seq<char>>::empty());
            assert(kinds0.skip(n as int) =~= Seq::<SinkKind>::empty());
            assert(ok@.skip(n as int) =~= Seq::<bool>::empty());
            assert(reg.keys() =~= keys0.take(n as int) + keep_flags(
                keys0.skip(n as int),
                ok@.skip(n as int),
            ));
            assert(reg.kinds() =~= kinds0.take(n as int) + keep_flags(
                kinds0.skip(n as int),
                ok@.skip(n as int),
            ));
        }
        while idx > 0
            invariant
                idx <= n,
                n == keys0.len(),
                n == kinds0.len(),
                ok@.len() == n,
                distinct_seq(keys0),
                reg.wf(),
                reg.keys() == keys0.take(idx as int) + keep_flags(
                    keys0.skip(idx as int),
                    ok@.skip(idx as int),
                ),
                reg.kinds() == kinds0.take(idx as int) + keep_flags(
                    kinds0.skip(idx as int),
                    ok@.skip(idx as int),
                ),
                self.known.wf(),
                self.seq_param == old(self).seq_param,
                self.pic_param == old(self).pic_param,
                self.backlog@ == bl,
                self.produced@ == old(self).produced@,
                self.backlog_src@ == bsrc,
                self.log@ == log1,
                forall|k: Seq<char>|
                    #[trigger] self.known.contains(k) == (kn1.contains(k) && !(exists|j: int|
                        idx <= j < n && keys0[j] == k && !ok@[j])),
            decreases idx,
        {
            idx = idx - 1;
            let ghost kn_pre = self.known;
            if !ok[idx] {
                let key = reg.key_at(idx).clone();
                proof {
                    assert(reg.keys()[idx as int] == keys0[idx as int]);
                }
                reg.remove_at(idx);
                self.known.remove(&key);
                proof {
                    assert((keys0.take(idx + 1) + keep_flags(
                        keys0.skip(idx + 1),
                        ok@.skip(idx + 1),
                    )).remove(idx as int) =~= keys0.take(idx as int) + keep_flags(
                        keys0.skip(idx + 1),
                        ok@.skip(idx + 1),
                    ));
                    assert((kinds0.take(idx + 1) + keep_flags(
                        kinds0.skip(idx + 1),
                        ok@.skip(idx + 1),
                    )).remove(idx as int) =~= kinds0.take(idx as int) + keep_flags(
                        kinds0.skip(idx + 1),
                        ok@.skip(idx + 1),
                    ));
                }
            }
            proof {
                let ks = keys0.skip(idx as int);
                let kds = kinds0.skip(idx as int);
                let os = ok@.skip(idx as int);
                assert(ks.skip(1) =~= keys0.skip(idx + 1));
                assert(kds.skip(1) =~= kinds0.skip(idx + 1));
                assert(os.skip(1) =~= ok@.skip(idx + 1));
                assert(ks[0] == keys0[idx as int] && kds[0] == kinds0[idx as int] && os[0] == ok@[
                    idx as int]);
                if ok@[idx as int] {
                    assert(keys0.take(idx + 1) =~= keys0.take(idx as int).push(keys0[idx as int]));
                    assert(kinds0.take(idx + 1) =~= kinds0.take(idx as int).push(
                        kinds0[idx as int],
                    ));
                    assert(keys0.take(idx + 1) + keep_flags(keys0.skip(idx + 1), ok@.skip(idx + 1))
                        =~= keys0.take(idx as int) + keep_flags(ks, os));
                    assert(kinds0.take(idx + 1) + keep_flags(
                        kinds0.skip(idx + 1),
                        ok@.skip(idx + 1),
                    ) =~= kinds0.take(idx as int) + keep_flags(kds, os));
                } else {
                    assert(keep_flags(ks, os) =~= keep_flags(keys0.skip(idx + 1), ok@.skip(idx + 1)));
                    assert(keep_flags(kds, os) =~= keep_flags(
                        kinds0.skip(idx + 1),
                        ok@.skip(idx + 1),
                    ));
                }
                assert forall|k: Seq<char>|
                    #[trigger] self.known.contains(k) == (kn1.contains(k) && !(exists|j: int|
                        idx <= j < n && keys0[j] == k && !ok@[j])) by {
                    if !ok@[idx as int] {
                        if k == keys0[idx as int] {
                            assert(!self.known.contains(k));
                            assert(idx <= idx < n && keys0[idx as int] == k && !ok@[idx as int]);
                        } else {
                            assert(self.known.contains(k) == kn_pre.contains(k));
                            if exists|j: int| idx <= j < n && keys0[j] == k && !ok@[j] {
                                let j = choose|j: int| idx <= j < n && keys0[j] == k && !ok@[j];
                                assert(j != idx);
                                assert(idx + 1 <= j < n && keys0[j] == k && !ok@[j]);
                            }
                        }
                    } else {
                        if exists|j: int| idx <= j < n && keys0[j] == k && !ok@[j] {
                            let j = choose|j: int| idx <= j < n && keys0[j] == k && !ok@[j];
                            assert(j != idx);
                            assert(idx + 1 <= j < n && keys0[j] == k && !ok@[j]);
                        }
                    }
                }
            }
        }
        proof {
            assert(keys0.take(0) =~= Seq::<Seq<char>>::empty());
            assert(kinds0.take(0) =~= Seq::<SinkKind>::empty());
            assert(keys0.skip(0) =~= keys0);
            assert(kinds0.skip(0) =~= kinds0);
            assert(ok@.skip(0) =~= ok@);
            assert(reg.keys() =~= keep_flags(keys0, ok@));
            assert(reg.kinds() =~= keep_flags(kinds0, ok@));
            self.lemma_complete_unit_wrapup(old(self), reg, unit, keys0, ok@, kn1, backlog0);
        }
    }

    /// Discharges the session invariant and the summary clauses of
    /// `complete_unit` from the facts its three phases established.
    proof fn lemma_complete_unit_wrapup(
        &self,
        prev: &Self,
        reg: &SinkRegistry,
        unit: H264NalUnit,
        keys0: Seq<Seq<char>>,
        ok: Seq<bool>,
        kn1: KnownSet,
        backlog0: Seq<H264NalUnit>,
    )
        requires
            prev.wf(),
            distinct_seq(keys0),
            ok.len() == keys0.len(),
            reg.wf(),
            reg.keys() == keep_flags(keys0, ok),
            prev.produced().len() > 0,
            prev.produced().last() == au_rec(unit),
            unit.unit_code != SPS_CODE,
            unit.unit_code != PPS_CODE,
            forall|p: int|
                0 <= p < prev.srcs().len() ==> #[trigger] prev.srcs()[p] < prev.produced().len()
                    - 1,
            unit.unit_code == KEYFRAME_CODE ==> backlog0.len() == 0,
            backlog0 == prev.backlog@,
            self.seq_param == prev.seq_param,
            self.pic_param == prev.pic_param,
            self.produced@ == prev.produced@,
            self.backlog@ == (if backlog0.len() >= FRAME_BACKLOG_CAP {
                seq![backlog0[0], unit]
            } else {
                backlog0.push(unit)
            }),
            self.backlog_src@ == (if backlog0.len() >= FRAME_BACKLOG_CAP {
                prev.backlog_src@.take(1).push(prev.produced@.len() - 1)
            } else {
                prev.backlog_src@.push(prev.produced@.len() - 1)
            }),
            self.log@ == prev.log@ + log_events(prev, keys0, ok),
            kn1.wf(),
            self.known.wf(),
            forall|k: Seq<char>|
                #[trigger] kn1.contains(k) == (prev.known_contains(k) || exists|j: int|
                    0 <= j < keys0.len() && keys0[j] == k && ok[j]),
            forall|k: Seq<char>|
                #[trigger] self.known.contains(k) == (kn1.contains(k) && !(exists|j: int|
                    0 <= j < keys0.len() && keys0[j] == k && !ok[j])),
        ensures
            self.wf(),
            self.backlog_recs() == (if prev.backlog_recs().len() >= FRAME_BACKLOG_CAP {
                seq![prev.backlog_recs()[0], au_rec(unit)]
            } else {
                prev.backlog_recs().push(au_rec(unit))
            }),
            self.srcs().last() == prev.produced().len() - 1,
            forall|k: Seq<char>|
                #[trigger] self.known_contains(k) == ((exists|i: int|
                    0 <= i < keys0.len() && keys0[i] == k && ok[i]) || (prev.known_contains(k)
                    && !keys0.contains(k))),
            forall|i: int|
                0 <= i < ok.len() && !ok[i] ==> !reg.contains_key(#[trigger] keys0[i])
                    && !self.known_contains(keys0[i]),
    {
        let f = |u: H264NalUnit| au_rec(u);
        let plen = prev.produced@.len() as int;
        // The backlog after the pass, seen as ghost records.
        if backlog0.len() >= FRAME_BACKLOG_CAP {
            assert(self.backlog_recs() =~= seq![prev.backlog_recs()[0], au_rec(unit)]);
        } else {
            assert(self.backlog_recs() =~= prev.backlog_recs().push(au_rec(unit)));
        }
        // Backlog entries map to produced units, in production order,
        // with no keyframe produced after any of them.
        assert forall|p: int| 0 <= p < self.srcs().len() implies 0 <= #[trigger] self.srcs()[p]
            < self.produced().len() && self.produced()[self.srcs()[p]]
            == self.backlog_recs()[p] by {
            if p < self.srcs().len() - 1 {
                assert(self.srcs()[p] == prev.srcs()[p]);
                assert(prev.produced()[prev.srcs()[p]] == prev.backlog_recs()[p]);
            } else {
                assert(self.srcs()[p] == plen - 1);
            }
        }
        assert forall|p: int, q: int| 0 <= p < q < self.srcs().len() implies self.srcs()[p]
            < self.srcs()[q] by {
            assert(self.srcs()[p] == prev.srcs()[p]);
            if q < self.srcs().len() - 1 {
                assert(self.srcs()[q] == prev.srcs()[q]);
            }
        }
        assert forall|p: int, k: int|
            0 <= p < self.srcs().len() && #[trigger] self.srcs()[p] < k
                < self.produced().len() implies (#[trigger] self.produced()[k]).code
            != KEYFRAME_CODE by {
            if p < self.srcs().len() - 1 {
                assert(self.srcs()[p] == prev.srcs()[p]);
                if k < plen {
                    assert(prev.produced()[k].code != KEYFRAME_CODE);
                }
            }
        }
        // Every known key has received a bundle.
        assert forall|key: Seq<char>| #[trigger] self.known_contains(key) implies bundled_in(
            self.log(),
            key,
        ) by {
            assert(kn1.contains(key));
            if prev.known_contains(key) {
                assert(bundled_in(prev.log(), key));
                let i = choose|i: int|
                    0 <= i < prev.log().len() && prev.log()[i].key == key && prev.log()[i].bundle;
                assert(self.log()[i].key == key && self.log()[i].bundle);
            } else {
                let j = choose|j: int| 0 <= j < keys0.len() && keys0[j] == key && ok[j];
                lemma_log_events_success(prev, keys0, ok, j);
                let ev = log_events(prev, keys0, ok);
                let m = choose|m: int|
                    0 <= m < ev.len() && ev[m] == (WriteRec {
                        key: keys0[j],
                        bundle: !prev.known_contains(keys0[j]),
                    });
                assert(self.log()[prev.log().len() + m].key == key && self.log()[prev.log().len()
                    + m].bundle);
            }
        }
        // No raw write precedes its key's bundle.
        assert forall|i: int|
            0 <= i < self.log().len() && !(#[trigger] self.log()[i]).bundle implies exists|j: int|
            0 <= j < i && (#[trigger] self.log()[j]).key == self.log()[i].key
                && self.log()[j].bundle by {
            if i < prev.log().len() {
                assert(!prev.log()[i].bundle);
                let j = choose|j: int|
                    0 <= j < i && prev.log()[j].key == prev.log()[i].key && prev.log()[j].bundle;
                assert(self.log()[j].key == self.log()[i].key && self.log()[j].bundle);
            } else {
                let m = i - prev.log().len();
                lemma_log_events_member(prev, keys0, ok, m);
                assert(prev.known_contains(self.log()[i].key));
                assert(bundled_in(prev.log(), self.log()[i].key));
                let j = choose|j: int|
                    0 <= j < prev.log().len() && prev.log()[j].key == self.log()[i].key
                        && prev.log()[j].bundle;
                assert(self.log()[j].key == self.log()[i].key && self.log()[j].bundle);
            }
        }
        // The summary formula for the known-set.
        assert forall|k: Seq<char>|
            #[trigger] self.known_contains(k) == ((exists|i: int|
                0 <= i < keys0.len() && keys0[i] == k && ok[i]) || (prev.known_contains(k)
                && !keys0.contains(k))) by {
            if keys0.contains(k) {
                let j = choose|j: int| 0 <= j < keys0.len() && keys0[j] == k;
                assert(forall|j2: int|
                    0 <= j2 < keys0.len() && keys0[j2] == k ==> j2 == j) by {
                    assert(forall|j2: int|
                        0 <= j2 < keys0.len() && j2 != j ==> keys0[j2] != keys0[j]);
                }
                if ok[j] {
                    assert(kn1.contains(k));
                    assert(!(exists|j2: int| 0 <= j2 < keys0.len() && keys0[j2] == k && !ok[j2]));
                    assert(self.known_contains(k));
                    assert(exists|i: int| 0 <= i < keys0.len() && keys0[i] == k && ok[i]);
                } else {
                    assert(!self.known_contains(k));
                    assert(!(exists|i: int| 0 <= i < keys0.len() && keys0[i] == k && ok[i]));
                }
            } else {
                assert(!(exists|j: int| 0 <= j < keys0.len() && keys0[j] == k && ok[j]));
                assert(!(exists|j: int| 0 <= j < keys0.len() && keys0[j] == k && !ok[j]));
                assert(!(exists|i: int| 0 <= i < keys0.len() && keys0[i] == k && ok[i]));
                assert(self.known_contains(k) == prev.known_contains(k));
            }
        }
        // A failed sink is gone from the registry and from the known-set.
        assert forall|i: int| 0 <= i < ok.len() && !ok[i] implies !reg.contains_key(
            #[trigger] keys0[i],
        ) && !self.known_contains(keys0[i]) by {
            lemma_keep_flags_dropped(keys0, ok, i);
            if exists|j: int| 0 <= j < keys0.len() && keys0[j] == keys0[i] && ok[j] {
                let j = choose|j: int| 0 <= j < keys0.len() && keys0[j] == keys0[i] && ok[j];
                assert(j == i);
            }
            assert(keys0.contains(keys0[i]));
        }
    }

    /// Number of units in the backlog.
    pub fn backlog_len(&self) -> (n: usize)
        ensures
            n == self.backlog_recs().len(),
    {
        self.backlog.len()
    }

    /// Whether a sequence parameter set has been cached.
    pub fn has_sps(&self) -> (r: bool)
        ensures
            r == (self.sps() is Some),
    {
        self.seq_param.is_some()
    }

    /// Whether a picture parameter set has been cached.
    pub fn has_pps(&self) -> (r: bool)
        ensures
            r == (self.pps() is Some),
    {
        self.pic_param.is_some()
    }

    /// Law: a sink never receives a raw unit before it has received a
    /// catch-up bundle.  Any raw write in the session's log is preceded
    /// by a bundle write to the same key.
    pub proof fn lemma_no_raw_before_bundle(&self, i: int)
        requires
            self.wf(),
            0 <= i < self.log().len(),
            !self.log()[i].bundle,
        ensures
            exists|j: int|
                0 <= j < i && (#[trigger] self.log()[j]).key == self.log()[i].key
                    && self.log()[j].bundle,
    {
    }

    /// Law: after a keyframe is produced, the backlog used for the next
    /// catch-up bundle holds no unit produced before that keyframe.
    pub proof fn lemma_backlog_after_keyframe(&self, p: int, k: int)
        requires
            self.wf(),
            0 <= p < self.srcs().len(),
            0 <= k < self.produced().len(),
            self.produced()[k].code == KEYFRAME_CODE,
        ensures
            self.srcs()[p] >= k,
    {
        if self.srcs()[p] < k {
            assert(self.produced()[k].code != KEYFRAME_CODE);
        }
    }
}

} // verus!
