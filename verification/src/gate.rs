//! The voice activity gate.
//!
//! A frame is silent when its root-mean-square level is below a threshold.
//! Silent frames are still let through for a few frames after speech, so
//! that the end of a word is not cut off; after that they are suppressed.

use vstd::prelude::*;

verus! {

/// Frames let through after the last frame that was not silent.
pub const HANGOVER_LIMIT: usize = 10;

/// The level below which a frame is silent.
pub const SILENCE_THRESHOLD: u32 = 200;

/// The sum of the squares of the samples.
pub open spec fn energy(pcm: Seq<i16>) -> nat
    decreases pcm.len(),
{
    if pcm.len() == 0 {
        0
    } else {
        energy(pcm.drop_last()) + (pcm.last() as int * pcm.last() as int) as nat
    }
}

/// Whether the root mean square of `pcm` is below `threshold`: whether the
/// mean of the squares is below the square of the threshold. A frame
/// without samples is silent.
pub open spec fn silent(pcm: Seq<i16>, threshold: u32) -> bool {
    pcm.len() == 0 || energy(pcm) < threshold as nat * threshold as nat * pcm.len()
}

/// A sample's square is at most 2^30, so the energy of a frame is at most
/// 2^30 times its length.
proof fn lemma_energy_bound(pcm: Seq<i16>)
    ensures
        energy(pcm) <= pcm.len() * 0x4000_0000,
    decreases pcm.len(),
{
    if pcm.len() > 0 {
        lemma_energy_bound(pcm.drop_last());
        let s = pcm.last() as int;
        assert(0 <= s * s <= 0x4000_0000) by (nonlinear_arith)
            requires
                -0x8000 <= s < 0x8000,
        ;
    }
}

/// Whether a frame is silent at `threshold`.
pub fn is_silence(pcm: &[i16], threshold: u32) -> (quiet: bool)
    ensures
        quiet == silent(pcm@, threshold),
{
    if pcm.len() == 0 {
        return true;
    }
    let mut sum: u128 = 0;
    let mut i: usize = 0;
    while i < pcm.len()
        invariant
            i <= pcm.len(),
            sum == energy(pcm@.take(i as int)),
        decreases pcm.len() - i,
    {
        let sample: i64 = pcm[i] as i64;
        proof {
            assert(pcm@.take(i as int + 1).drop_last() =~= pcm@.take(i as int));
            lemma_energy_bound(pcm@.take(i as int));
            assert(0 <= sample * sample <= 0x4000_0000) by (nonlinear_arith)
                requires
                    -0x8000 <= sample < 0x8000,
            ;
            assert(i * 0x4000_0000 <= 0xffff_ffff_ffff_ffff * 0x4000_0000) by (nonlinear_arith)
                requires
                    i <= 0xffff_ffff_ffff_ffff,
            ;
        }
        let square: i64 = sample * sample;
        sum = sum + square as u128;
        i += 1;
    }
    assert(pcm@.take(i as int) =~= pcm@);
    assert(threshold as nat * threshold as nat <= 0xffff_ffff * 0xffff_ffff) by (nonlinear_arith)
        requires
            threshold <= 0xffff_ffff,
    ;
    let bound: u128 = threshold as u128 * threshold as u128;
    let len: u128 = pcm.len() as u128;
    assert(bound * len <= 0xffff_ffff * 0xffff_ffff * 0xffff_ffff_ffff_ffff) by (nonlinear_arith)
        requires
            bound <= 0xffff_ffff * 0xffff_ffff,
            len <= 0xffff_ffff_ffff_ffff,
    ;
    assert(threshold as nat * threshold as nat * pcm@.len() == bound * len) by (nonlinear_arith)
        requires
            bound == threshold as nat * threshold as nat,
            len == pcm@.len(),
    ;
    sum < bound * len
}

/// A frame of zeros is silent at any threshold above zero.
pub proof fn lemma_zeros_silent(pcm: Seq<i16>, threshold: u32)
    requires
        forall|i: int| 0 <= i < pcm.len() ==> pcm[i] == 0,
        threshold > 0,
    ensures
        silent(pcm, threshold),
{
    lemma_zeros_energy(pcm);
    if pcm.len() > 0 {
        assert(0 < threshold as nat * threshold as nat * pcm.len()) by (nonlinear_arith)
            requires
                threshold > 0,
                pcm.len() > 0,
        ;
    }
}

proof fn lemma_zeros_energy(pcm: Seq<i16>)
    requires
        forall|i: int| 0 <= i < pcm.len() ==> pcm[i] == 0,
    ensures
        energy(pcm) == 0,
    decreases pcm.len(),
{
    if pcm.len() > 0 {
        lemma_zeros_energy(pcm.drop_last());
    }
}

/// The energy of a frame is at least the square of any one of its samples.
proof fn lemma_energy_peak(pcm: Seq<i16>, i: int)
    requires
        0 <= i < pcm.len(),
    ensures
        energy(pcm) >= pcm[i] as int * pcm[i] as int,
    decreases pcm.len(),
{
    let s = pcm.last() as int;
    assert(s * s >= 0) by (nonlinear_arith);
    if i < pcm.len() - 1 {
        lemma_energy_peak(pcm.drop_last(), i);
    }
}

/// A frame is not silent if one of its samples alone carries the energy of
/// a whole frame at the threshold. At the threshold of 200, any frame of
/// 1920 samples that reaches full scale is such a frame.
pub proof fn lemma_peak_not_silent(pcm: Seq<i16>, threshold: u32, i: int)
    requires
        0 <= i < pcm.len(),
        pcm[i] as int * pcm[i] as int >= threshold as nat * threshold as nat * pcm.len(),
    ensures
        !silent(pcm, threshold),
{
    lemma_energy_peak(pcm, i);
}

/// A frame in which every sample is at least `threshold` away from zero is
/// not silent: its root mean square is at least the threshold.
pub proof fn lemma_loud_not_silent(pcm: Seq<i16>, threshold: u32)
    requires
        pcm.len() > 0,
        forall|i: int| 0 <= i < pcm.len() ==> pcm[i] >= threshold || -pcm[i] >= threshold,
    ensures
        !silent(pcm, threshold),
{
    lemma_loud_energy(pcm, threshold);
}

proof fn lemma_loud_energy(pcm: Seq<i16>, threshold: u32)
    requires
        forall|i: int| 0 <= i < pcm.len() ==> pcm[i] >= threshold || -pcm[i] >= threshold,
    ensures
        energy(pcm) >= threshold as nat * threshold as nat * pcm.len(),
    decreases pcm.len(),
{
    if pcm.len() > 0 {
        let front = pcm.drop_last();
        lemma_loud_energy(front, threshold);
        let s = pcm.last() as int;
        let t = threshold as int;
        assert(s * s >= t * t) by (nonlinear_arith)
            requires
                s >= t || -s >= t,
                t >= 0,
        ;
        assert(t * t * (front.len() + 1) == t * t * front.len() + t * t) by (nonlinear_arith);
    }
}

/// The hangover state between two frames.
pub struct GateView {
    /// Silent frames that will still be let through.
    pub hangover: nat,
    /// What `hangover` is set to by a frame that is not silent.
    pub limit: nat,
}

impl GateView {
    /// The state after a frame, and whether the frame is let through.
    pub open spec fn step(self, quiet: bool) -> (GateView, bool) {
        if !quiet {
            (GateView { hangover: self.limit, limit: self.limit }, true)
        } else if self.hangover == 0 {
            (self, false)
        } else {
            (GateView { hangover: (self.hangover - 1) as nat, limit: self.limit }, true)
        }
    }

    /// The state after a run of frames, and which of them are let through.
    pub open spec fn run(self, quiet: Seq<bool>) -> (GateView, Seq<bool>)
        decreases quiet.len(),
    {
        if quiet.len() == 0 {
            (self, Seq::empty())
        } else {
            let before = self.run(quiet.drop_last());
            let last = before.0.step(quiet.last());
            (last.0, before.1.push(last.1))
        }
    }
}

/// The hangover counter of the voice gate.
pub struct VoiceGate {
    hangover: usize,
    hangover_limit: usize,
}

impl View for VoiceGate {
    type V = GateView;

    closed spec fn view(&self) -> GateView {
        GateView { hangover: self.hangover as nat, limit: self.hangover_limit as nat }
    }
}

impl VoiceGate {
    #[verifier::type_invariant]
    spec fn inv(&self) -> bool {
        self.hangover <= self.hangover_limit
    }

    /// A gate that lets `hangover_limit` silent frames through after
    /// speech. It starts closed to silence.
    pub fn new(hangover_limit: usize) -> (gate: VoiceGate)
        ensures
            gate@ == (GateView { hangover: 0, limit: hangover_limit as nat }),
    {
        VoiceGate { hangover: 0, hangover_limit }
    }

    /// Takes note of one frame, silent or not, and says whether it is let
    /// through.
    pub fn pass(&mut self, quiet: bool) -> (open: bool)
        ensures
            final(self)@ == old(self)@.step(quiet).0,
            open == old(self)@.step(quiet).1,
            old(self)@.hangover <= old(self)@.limit,
            final(self)@.hangover <= final(self)@.limit,
    {
        proof {
            use_type_invariant(&*self);
        }
        if !quiet {
            self.hangover = self.hangover_limit;
            true
        } else if self.hangover == 0 {
            false
        } else {
            self.hangover = self.hangover - 1;
            true
        }
    }
}

/// A run of silent frames of length `n`.
pub open spec fn silence(n: nat) -> Seq<bool> {
    Seq::new(n, |i: int| true)
}

/// After a frame that is not silent, the next `limit` silent frames are let
/// through and every silent frame after them is suppressed: the k-th silent
/// frame passes exactly when k is at most the limit.
pub proof fn lemma_hangover(gate: GateView, n: nat, k: int)
    requires
        1 <= k <= n,
    ensures
        gate.step(false).1,
        gate.step(false).0.run(silence(n)).1.len() == n,
        gate.step(false).0.run(silence(n)).1[k - 1] == (k <= gate.limit),
        gate.step(false).0.run(silence(n)).0.hangover == if n <= gate.limit {
            gate.limit - n
        } else {
            0
        },
    decreases n,
{
    let open = gate.step(false).0;
    lemma_silence_run(open, n);
    if k < n {
        lemma_hangover(gate, (n - 1) as nat, k);
        assert(silence(n).drop_last() =~= silence((n - 1) as nat));
    } else {
        assert(silence(n).drop_last() =~= silence((n - 1) as nat));
        lemma_silence_run(open, (n - 1) as nat);
    }
}

/// What `n` silent frames leave of the hangover.
proof fn lemma_silence_run(gate: GateView, n: nat)
    ensures
        gate.run(silence(n)).1.len() == n,
        gate.run(silence(n)).0.limit == gate.limit,
        gate.run(silence(n)).0.hangover == if n <= gate.hangover {
            gate.hangover - n
        } else {
            0
        },
    decreases n,
{
    if n > 0 {
        lemma_silence_run(gate, (n - 1) as nat);
        assert(silence(n).drop_last() =~= silence((n - 1) as nat));
    }
}

} // verus!
