//! Dictation: the warm microphone and its pre-roll.
//!
//! The microphone stream stays open between recordings (closed after a minute of idling),
//! and incoming audio goes into a pre-roll ring of the last ~0.4 s, so that the first word
//! is not lost to the time a device takes to open: arming a warm stream starts the recording
//! with the pre-roll. Opening devices and converting sample formats is the caller's work; the
//! state kept and the decisions are here.
use vstd::prelude::*;
use std::collections::VecDeque;

use crate::text::str_eq;

verus! {

/// Seconds of idling after which the microphone is closed.
pub const IDLE_SECS: u64 = 60;

/// The last `max` items of `s` (all of them when `max` is 0 or `s` is shorter).
pub open spec fn keep_last<T>(s: Seq<T>, max: nat) -> Seq<T> {
    if max > 0 && s.len() > max {
        s.skip(s.len() - max)
    } else {
        s
    }
}

proof fn lemma_keep_last_push<T>(a: Seq<T>, x: T, max: nat)
    ensures
        keep_last(keep_last(a, max).push(x), max) == keep_last(a.push(x), max),
{
    if max > 0 && a.len() > max {
        assert(keep_last(a, max).push(x).skip(1) =~= a.push(x).skip(a.len() + 1 - max));
    } else if max > 0 && a.len() == max {
        assert(a.push(x).skip(1) =~= a.push(x).skip(a.len() + 1 - max));
    }
}

/// The ring does not depend on how the audio arrived: feeding `a`, then `b`, keeps what
/// feeding them at once keeps (the last `max` samples).
pub proof fn law_preroll_in_pieces<T>(a: Seq<T>, b: Seq<T>, max: nat)
    ensures
        keep_last(keep_last(a, max) + b, max) == keep_last(a + b, max),
    decreases b.len(),
{
    if b.len() == 0 {
        assert(keep_last(a, max) + b =~= keep_last(a, max));
        assert(a + b =~= a);
        if max > 0 && a.len() > max {
            assert(keep_last(a, max).len() == max);
        }
    } else {
        let b0 = b.drop_last();
        let x = b.last();
        law_preroll_in_pieces(a, b0, max);
        assert(keep_last(a, max) + b =~= (keep_last(a, max) + b0).push(x));
        assert(a + b =~= (a + b0).push(x));
        lemma_keep_last_push(keep_last(a, max) + b0, x, max);
        lemma_keep_last_push(a + b0, x, max);
    }
}

/// Audio shared with the capture callback: the pre-roll ring and the recording.
pub struct Preroll<T> {
    ring: VecDeque<T>,
    rec: Vec<T>,
    armed: bool,
    /// Ring capacity in samples; 0 keeps everything.
    maxlen: usize,
}

impl<T: Copy> Preroll<T> {
    pub closed spec fn ring(&self) -> Seq<T> {
        self.ring@
    }

    pub closed spec fn rec(&self) -> Seq<T> {
        self.rec@
    }

    pub closed spec fn is_armed(&self) -> bool {
        self.armed
    }

    pub closed spec fn capacity(&self) -> nat {
        self.maxlen as nat
    }

    /// The ring never holds more than its capacity.
    pub closed spec fn wf(&self) -> bool {
        self.maxlen == 0 || self.ring@.len() <= self.maxlen
    }

    /// An empty, disarmed buffer of the given capacity (set when a stream opens).
    pub fn new(maxlen: usize) -> (p: Self)
        ensures
            p.wf(),
            p.ring() == Seq::<T>::empty(),
            p.rec() == Seq::<T>::empty(),
            !p.is_armed(),
            p.capacity() == maxlen,
    {
        Preroll { ring: VecDeque::new(), rec: Vec::new(), armed: false, maxlen }
    }

    /// Audio from the device: it goes into the ring, which keeps the last `capacity`
    /// samples, and, while armed, onto the recording.
    pub fn feed(&mut self, samples: &[T])
        requires
            old(self).wf(),
        ensures
            final(self).wf(),
            final(self).ring() == keep_last(old(self).ring() + samples@, old(self).capacity()),
            final(self).rec() == (if old(self).is_armed() { old(self).rec() + samples@ } else { old(self).rec() }),
            final(self).is_armed() == old(self).is_armed(),
            final(self).capacity() == old(self).capacity(),
    {
        let ghost r0 = self.ring@;
        let ghost c0 = self.rec@;
        let mut i: usize = 0;
        assert(samples@.take(0) =~= Seq::<T>::empty());
        assert(r0 + samples@.take(0) =~= r0);
        while i < samples.len()
            invariant
                i <= samples@.len(),
                self.maxlen == old(self).maxlen,
                self.armed == old(self).armed,
                r0 == old(self).ring@,
                c0 == old(self).rec@,
                self.maxlen == 0 || self.ring@.len() <= self.maxlen,
                self.ring@ == keep_last(r0 + samples@.take(i as int), self.maxlen as nat),
                self.rec@ == (if self.armed { c0 + samples@.take(i as int) } else { c0 }),
            decreases samples@.len() - i,
        {
            let s = samples[i];
            let ghost before = self.ring@;
            self.ring.push_back(s);
            if self.maxlen > 0 && self.ring.len() > self.maxlen {
                self.ring.pop_front();
                assert(self.ring@ =~= before.push(s).skip(1));
            }
            if self.armed {
                self.rec.push(s);
            }
            proof {
                let a = r0 + samples@.take(i as int);
                assert(r0 + samples@.take(i + 1) =~= a.push(s));
                lemma_keep_last_push(a, s, self.maxlen as nat);
                assert(keep_last(before.push(s), self.maxlen as nat) =~= self.ring@);
                assert(c0 + samples@.take(i + 1) =~= (c0 + samples@.take(i as int)).push(s));
            }
            i = i + 1;
        }
        assert(samples@.take(samples@.len() as int) =~= samples@);
    }

    /// Arms the recording: it starts with the pre-roll.
    pub fn arm(&mut self)
        requires
            old(self).wf(),
        ensures
            final(self).wf(),
            final(self).is_armed(),
            final(self).rec() == old(self).ring(),
            final(self).ring() == old(self).ring(),
            final(self).capacity() == old(self).capacity(),
    {
        let mut rec: Vec<T> = Vec::new();
        let mut i: usize = 0;
        while i < self.ring.len()
            invariant
                i <= self.ring@.len(),
                rec@ == self.ring@.take(i as int),
            decreases self.ring@.len() - i,
        {
            rec.push(self.ring[i]);
            assert(self.ring@.take(i + 1) =~= self.ring@.take(i as int).push(self.ring@[i as int]));
            i = i + 1;
        }
        assert(self.ring@.take(self.ring@.len() as int) =~= self.ring@);
        self.rec = rec;
        self.armed = true;
    }

    /// Disarms and hands over the recording; the ring stays warm.
    pub fn disarm(&mut self) -> (r: Vec<T>)
        requires
            old(self).wf(),
        ensures
            final(self).wf(),
            r@ == old(self).rec(),
            !final(self).is_armed(),
            final(self).rec() == Seq::<T>::empty(),
            final(self).ring() == old(self).ring(),
            final(self).capacity() == old(self).capacity(),
    {
        self.armed = false;
        let mut r: Vec<T> = Vec::new();
        std::mem::swap(&mut r, &mut self.rec);
        r
    }

    /// Forgets the pre-roll (the stream was closed).
    pub fn clear_ring(&mut self)
        requires
            old(self).wf(),
        ensures
            final(self).wf(),
            final(self).ring() == Seq::<T>::empty(),
            final(self).rec() == old(self).rec(),
            final(self).is_armed() == old(self).is_armed(),
            final(self).capacity() == old(self).capacity(),
    {
        self.ring.clear();
    }
}

/// What a start needs from the caller.
#[derive(Clone, Copy, PartialEq, Eq, Structural, Debug)]
pub enum StartStep {
    /// The warm stream of the same device is open: arm at once.
    Arm,
    /// The stream is closed or of another device: (re)open it, then report.
    OpenStream,
}

/// The microphone: which device's stream is open, whether a recording is armed, and when
/// it was last active (milliseconds).
pub struct Mic {
    pub stream_open: bool,
    pub device: String,
    pub armed: bool,
    pub last_active_ms: u64,
}

impl Mic {
    /// A closed microphone.
    pub fn new() -> (m: Mic)
        ensures
            !m.stream_open,
            !m.armed,
            m.device@ == Seq::<char>::empty(),
    {
        Mic { stream_open: false, device: String::new(), armed: false, last_active_ms: 0 }
    }

    /// Whether a recording is going on (the trigger is armed).
    pub fn is_recording(&self) -> (b: bool)
        ensures
            b == self.armed,
    {
        self.armed
    }

    /// Start of a recording on `device` ("" is the default device). A stream that is
    /// closed, or open on another device, is dropped and has to be opened again.
    pub fn start(&mut self, device: &str) -> (s: StartStep)
        ensures
            (!old(self).stream_open || old(self).device@ != device@) ==> (s == StartStep::OpenStream
                && !final(self).stream_open),
            (old(self).stream_open && old(self).device@ == device@) ==> (s == StartStep::Arm
                && final(self).stream_open),
            final(self).device@ == old(self).device@,
            final(self).armed == old(self).armed,
            final(self).last_active_ms == old(self).last_active_ms,
    {
        if !self.stream_open || !str_eq(self.device.as_str(), device) {
            self.stream_open = false;
            StartStep::OpenStream
        } else {
            StartStep::Arm
        }
    }

    /// The caller opened (or failed to open) the stream of `device`. On success the
    /// microphone is armed; a failure is handed back and nothing is armed.
    pub fn opened(&mut self, device: &str, result: Result<(), String>, now_ms: u64) -> (r: Result<(), String>)
        ensures
            r == result,
            result is Ok ==> final(self).stream_open && final(self).device@ == device@ && final(self).armed
                && final(self).last_active_ms == now_ms,
            result is Err ==> !final(self).stream_open && final(self).armed == old(self).armed
                && final(self).device@ == old(self).device@,
    {
        if result.is_ok() {
            self.stream_open = true;
            self.device = device.to_owned();
            self.armed = true;
            self.last_active_ms = now_ms;
        } else {
            self.stream_open = false;
        }
        result
    }

    /// Arms a recording on `device` once its stream is up: `result` is the outcome of
    /// bringing it up (`Ok` for the warm stream). On `Ok` the microphone records and the
    /// recording starts with the pre-roll ring, at most `capacity` samples; an error is handed
    /// back, the recording state is kept and the buffer is not touched.
    pub fn arm_recording<T: Copy>(
        &mut self,
        buf: &mut Preroll<T>,
        device: &str,
        result: Result<(), String>,
        now_ms: u64,
    ) -> (r: Result<(), String>)
        requires
            old(buf).wf(),
        ensures
            r == result,
            final(buf).wf(),
            result is Ok ==> final(self).armed && final(self).stream_open && final(self).device@ == device@
                && final(self).last_active_ms == now_ms,
            result is Ok ==> final(buf).is_armed() && final(buf).rec() == old(buf).ring() && final(buf).ring()
                == old(buf).ring(),
            result is Ok && old(buf).capacity() > 0 ==> final(buf).rec().len() <= old(buf).capacity(),
            result is Err ==> final(self).armed == old(self).armed && !final(self).stream_open
                && final(self).device@ == old(self).device@ && *final(buf) == *old(buf),
    {
        let ok = result.is_ok();
        let r = self.opened(device, result, now_ms);
        if ok {
            buf.arm();
        }
        r
    }

    /// Arms on the warm stream.
    pub fn arm(&mut self, now_ms: u64)
        ensures
            final(self).armed,
            final(self).last_active_ms == now_ms,
            final(self).stream_open == old(self).stream_open,
            final(self).device@ == old(self).device@,
    {
        self.armed = true;
        self.last_active_ms = now_ms;
    }

    /// Stops the recording; the stream stays warm.
    pub fn stop(&mut self, now_ms: u64)
        ensures
            !final(self).armed,
            final(self).last_active_ms == now_ms,
            final(self).stream_open == old(self).stream_open,
            final(self).device@ == old(self).device@,
    {
        self.armed = false;
        self.last_active_ms = now_ms;
    }

    /// A periodic check: an open stream that is not recording and was idle for more than
    /// `IDLE_SECS` is closed (the caller drops it and clears the pre-roll). Returns whether
    /// it was.
    pub fn tick(&mut self, now_ms: u64) -> (closed: bool)
        ensures
            closed == (old(self).stream_open && !old(self).armed && now_ms > old(self).last_active_ms
                && now_ms - old(self).last_active_ms > IDLE_SECS * 1000),
            closed ==> !final(self).stream_open && final(self).device@ == Seq::<char>::empty(),
            !closed ==> final(self).stream_open == old(self).stream_open && final(self).device@ == old(
                self,
            ).device@,
            final(self).armed == old(self).armed,
            final(self).last_active_ms == old(self).last_active_ms,
    {
        if self.stream_open && !self.armed && now_ms > self.last_active_ms && now_ms
            - self.last_active_ms > IDLE_SECS * 1000 {
            self.stream_open = false;
            self.device = String::new();
            true
        } else {
            false
        }
    }
}

} // verus!
