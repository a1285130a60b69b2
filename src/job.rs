use vstd::prelude::*;
use vstd::string::StringExecFns;
use base64::Engine;
use crate::LocalJobEndState;
use crate::pcm::{apply_gain, gain_of, quantize, resample_pcm_by_rate, resampled};
use crate::tempo::{TempoFrameBuffer, frame_samples_for, join_frames, joined, ready_frames, after_frames};
use crate::pcm::pcm_of;

verus! {

/// Where a synthesis run stands: the index the next audio chunk gets, and how it ended, if
/// it has.
pub struct RunState {
    pub next_index: nat,
    pub ended: Option<LocalJobEndState>,
}

/// What happens to a run: a look at the cancellation flag, a block of audio (empty or
/// not) ready to hand on, or the end of the text.
pub enum RunEvent {
    Checkpoint(bool),
    Audio(bool),
    Finish,
}

/// A look at the cancellation flag: a set flag ends a run that has not ended as canceled.
pub open spec fn checkpoint_step(s: RunState, canceled: bool) -> RunState {
    if s.ended is None && canceled {
        RunState { next_index: s.next_index, ended: Some(LocalJobEndState::Canceled) }
    } else {
        s
    }
}

/// Audio that is not empty goes out under the next index while the run has not ended;
/// nothing goes out otherwise.
pub open spec fn audio_step(s: RunState, nonempty: bool) -> (RunState, Option<nat>) {
    if s.ended is None && nonempty {
        (RunState { next_index: s.next_index + 1, ended: None }, Some(s.next_index))
    } else {
        (s, None)
    }
}

/// The end of the text ends a run that has not ended as done.
pub open spec fn finish_step(s: RunState) -> RunState {
    if s.ended is None {
        RunState { next_index: s.next_index, ended: Some(LocalJobEndState::Done) }
    } else {
        s
    }
}

pub open spec fn run_step(s: RunState, e: RunEvent) -> (RunState, Option<nat>) {
    match e {
        RunEvent::Checkpoint(c) => (checkpoint_step(s, c), None),
        RunEvent::Audio(n) => audio_step(s, n),
        RunEvent::Finish => (finish_step(s), None),
    }
}

/// The state after the events, and the indices of the chunks handed on, in order.
pub open spec fn run_events(s: RunState, es: Seq<RunEvent>) -> (RunState, Seq<nat>)
    decreases es.len(),
{
    if es.len() == 0 {
        (s, Seq::empty())
    } else {
        let p = run_events(s, es.drop_last());
        let q = run_step(p.0, es.last());
        (q.0, if q.1 is Some {
            p.1.push(q.1->0)
        } else {
            p.1
        })
    }
}

/// A run that has just started.
pub open spec fn fresh_run() -> RunState {
    RunState { next_index: 0, ended: None }
}

/// Chunk indices start at 0 and go up by one, none skipped or repeated.
pub proof fn lemma_indices_consecutive(es: Seq<RunEvent>)
    ensures
        run_events(fresh_run(), es).1.len() == run_events(fresh_run(), es).0.next_index,
        forall|i: int|
            0 <= i < run_events(fresh_run(), es).1.len() ==> #[trigger] run_events(fresh_run(), es).1[i] == i,
    decreases es.len(),
{
    if es.len() > 0 {
        lemma_indices_consecutive(es.drop_last());
    }
}

/// Once a run has ended, no event hands on a chunk or changes how it ended.
pub proof fn lemma_ended_is_final(s: RunState, es: Seq<RunEvent>)
    requires
        s.ended is Some,
    ensures
        run_events(s, es).0 == s,
        run_events(s, es).1.len() == 0,
    decreases es.len(),
{
    if es.len() > 0 {
        lemma_ended_is_final(s, es.drop_last());
    }
}

proof fn lemma_run_split(s: RunState, es: Seq<RunEvent>, j: int)
    requires
        0 <= j <= es.len(),
    ensures
        run_events(s, es).0 == run_events(run_events(s, es.take(j)).0, es.skip(j)).0,
        run_events(s, es).1 == run_events(s, es.take(j)).1 + run_events(
            run_events(s, es.take(j)).0,
            es.skip(j),
        ).1,
    decreases es.len(),
{
    if j == es.len() {
        assert(es.take(j) =~= es);
        assert(es.skip(j) =~= Seq::<RunEvent>::empty());
        assert(run_events(s, es).1 + Seq::<nat>::empty() =~= run_events(s, es).1);
    } else {
        lemma_run_split(s, es.drop_last(), j);
        assert(es.drop_last().take(j) =~= es.take(j));
        assert(es.skip(j).drop_last() =~= es.drop_last().skip(j));
        assert(es.skip(j).last() == es.last());
        let a = run_events(s, es.take(j));
        let b = run_events(a.0, es.drop_last().skip(j));
        let q = run_step(b.0, es.last());
        if q.1 is Some {
            assert(a.1 + b.1.push(q.1->0) =~= (a.1 + b.1).push(q.1->0));
        }
    }
}

/// A cancellation flag that is seen set before any chunk goes out ends the run as canceled
/// with no chunk handed on, whatever comes after.
pub proof fn lemma_cancel_first(rest: Seq<RunEvent>)
    ensures
        run_events(fresh_run(), seq![RunEvent::Checkpoint(true)] + rest).0.ended == Some(
            LocalJobEndState::Canceled,
        ),
        run_events(fresh_run(), seq![RunEvent::Checkpoint(true)] + rest).1.len() == 0,
{
    let es = seq![RunEvent::Checkpoint(true)] + rest;
    lemma_run_split(fresh_run(), es, 1);
    assert(es.take(1).drop_last() =~= Seq::<RunEvent>::empty());
    assert(es.skip(1) =~= rest);
    assert(es.take(1).last() == RunEvent::Checkpoint(true));
    let e0 = run_events(fresh_run(), es.take(1).drop_last());
    assert(e0.0 == fresh_run() && e0.1.len() == 0);
    assert(run_events(fresh_run(), es.take(1)).1.len() == 0);
    let s1 = run_events(fresh_run(), es.take(1)).0;
    assert(s1.ended == Some(LocalJobEndState::Canceled));
    lemma_ended_is_final(s1, rest);
}

/// Once the flag is seen set after some chunks went out, no further chunk goes out: the
/// chunks handed on are those handed on before.
pub proof fn lemma_cancel_stops_delivery(es: Seq<RunEvent>, j: int)
    requires
        0 <= j < es.len(),
        es[j] == RunEvent::Checkpoint(true),
    ensures
        run_events(fresh_run(), es).1 == run_events(fresh_run(), es.take(j)).1,
        run_events(fresh_run(), es.take(j)).0.ended is None ==> run_events(fresh_run(), es).0.ended
            == Some(LocalJobEndState::Canceled),
{
    lemma_run_split(fresh_run(), es, j + 1);
    let pre = es.take(j + 1);
    assert(pre.drop_last() =~= es.take(j));
    let s1 = run_events(fresh_run(), pre).0;
    assert(s1.ended is Some);
    lemma_ended_is_final(s1, es.skip(j + 1));
    assert(run_events(fresh_run(), pre).1 =~= run_events(fresh_run(), es.take(j)).1);
    assert(run_events(fresh_run(), es).1 =~= run_events(fresh_run(), pre).1 + Seq::<nat>::empty());
}

/// The gain of `volume` applied to model samples, each clamped and quantized.
pub open spec fn gained(samples: Seq<i32>, volume: nat) -> Seq<i16> {
    Seq::new(samples.len(), |i: int| quantize(samples[i] as int, gain_of(volume as int)) as i16)
}

/// The rate (in thousandths) kept within [0.25, 4].
pub open spec fn clamped_rate(rate: nat) -> nat {
    if rate < 250 {
        250
    } else if rate > 4000 {
        4000
    } else {
        rate
    }
}

/// One block of 16-bit audio handed to the consumer, with its place in the job.
pub struct AudioChunk {
    pub chunk_index: usize,
    pub samples: Vec<i16>,
}

/// The decisions of one synthesis job: which audio goes out under which index, and when the
/// job ends. The caller runs the model and the tempo process and reports to it.
pub struct SynthesisRun {
    next_index: usize,
    ended: Option<LocalJobEndState>,
    rate: u32,
    volume: u32,
    tempo: Option<TempoFrameBuffer>,
}

impl SynthesisRun {
    pub closed spec fn state(&self) -> RunState {
        RunState { next_index: self.next_index as nat, ended: self.ended }
    }

    /// The rate, in thousandths, within [0.25, 4].
    pub closed spec fn rate_spec(&self) -> nat {
        self.rate as nat
    }

    /// The volume, in thousandths.
    pub closed spec fn volume_spec(&self) -> nat {
        self.volume as nat
    }

    /// Audio goes through the tempo process.
    pub closed spec fn uses_tempo(&self) -> bool {
        self.tempo is Some
    }

    /// The tempo process output not yet handed on.
    pub closed spec fn tempo_pending(&self) -> Seq<u8> {
        match self.tempo {
            Some(t) => t@.pending,
            None => Seq::empty(),
        }
    }

    /// Bytes in one frame of tempo process output.
    pub closed spec fn tempo_frame_bytes(&self) -> nat {
        match self.tempo {
            Some(t) => 2 * t@.frame_samples,
            None => 0,
        }
    }

    pub closed spec fn wf(&self) -> bool {
        &&& 250 <= self.rate <= 4000
        &&& self.tempo matches Some(t) ==> t.wf() && t@.frame_samples == frame_samples_for(self.rate as nat)
    }

    /// A run at `rate` and `volume` (thousandths; the rate is kept within [0.25, 4]); its
    /// audio goes through the tempo process when the rate is not one and such a process
    /// is running.
    pub fn new(rate: u32, volume: u32, tempo_running: bool) -> (r: Self)
        ensures
            r.wf(),
            r.state() == fresh_run(),
            r.rate_spec() == clamped_rate(rate as nat),
            r.volume_spec() == volume,
            r.uses_tempo() == (tempo_running && clamped_rate(rate as nat) != 1000),
            r.tempo_pending() == Seq::<u8>::empty(),
    {
        let rate: u32 = if rate < 250 {
            250
        } else if rate > 4000 {
            4000
        } else {
            rate
        };
        let tempo = if tempo_running && rate != 1000 {
            Some(TempoFrameBuffer::new(rate))
        } else {
            None
        };
        SynthesisRun { next_index: 0, ended: None, rate, volume, tempo }
    }

    /// The rate in thousandths, within [0.25, 4].
    pub fn rate(&self) -> (r: u32)
        ensures
            r == self.rate_spec(),
    {
        self.rate
    }

    /// The rate is not one, so the audio is re-timed.
    pub fn rate_active(&self) -> (r: bool)
        ensures
            r == (self.rate_spec() != 1000),
    {
        self.rate != 1000
    }

    pub fn uses_tempo_process(&self) -> (r: bool)
        ensures
            r == self.uses_tempo(),
    {
        self.tempo.is_some()
    }

    /// How the run ended, if it has.
    pub fn end_state(&self) -> (r: Option<LocalJobEndState>)
        ensures
            r == self.state().ended,
    {
        self.ended
    }

    /// The index the next chunk gets.
    pub fn next_chunk_index(&self) -> (r: usize)
        ensures
            r == self.state().next_index,
    {
        self.next_index
    }

    /// A look at the cancellation flag. Returns whether the run has ended; a run canceled
    /// here drops the tempo output it holds.
    pub fn checkpoint(&mut self, canceled: bool) -> (stop: bool)
        requires
            old(self).wf(),
        ensures
            final(self).wf(),
            final(self).state() == checkpoint_step(old(self).state(), canceled),
            stop == (final(self).state().ended is Some),
            final(self).rate_spec() == old(self).rate_spec(),
            final(self).volume_spec() == old(self).volume_spec(),
            final(self).uses_tempo() == old(self).uses_tempo(),
            final(self).tempo_pending() == if old(self).state().ended is None && canceled {
                Seq::<u8>::empty()
            } else {
                old(self).tempo_pending()
            },
    {
        if self.ended.is_none() && canceled {
            self.ended = Some(LocalJobEndState::Canceled);
            match &mut self.tempo {
                Some(t) => t.abort(),
                None => {},
            }
        }
        self.ended.is_some()
    }

    /// Hands `pcm` on under the next index when it is not empty and the run has not ended.
    fn deliver(&mut self, pcm: Vec<i16>) -> (r: Option<AudioChunk>)
        requires
            old(self).wf(),
            old(self).state().next_index < usize::MAX,
        ensures
            final(self).wf(),
            (final(self).state(), match r {
                Some(c) => Some(c.chunk_index as nat),
                None => None,
            }) == audio_step(old(self).state(), pcm@.len() > 0),
            r matches Some(c) ==> c.samples@ == pcm@,
            final(self).rate_spec() == old(self).rate_spec(),
            final(self).volume_spec() == old(self).volume_spec(),
            final(self).uses_tempo() == old(self).uses_tempo(),
            final(self).tempo_pending() == old(self).tempo_pending(),
    {
        if self.ended.is_none() && pcm.len() > 0 {
            let c = AudioChunk { chunk_index: self.next_index, samples: pcm };
            self.next_index = self.next_index + 1;
            Some(c)
        } else {
            None
        }
    }

    /// The gain of the run's volume applied to a block of model samples, for the tempo
    /// process.
    pub fn gain_block(&self, samples: &[i32]) -> (r: Vec<i16>)
        ensures
            r@ == gained(samples@, self.volume_spec()),
    {
        let r = apply_gain(samples, self.volume);
        assert(r@ =~= gained(samples@, self.volume_spec()));
        r
    }

    /// A block of model samples that does not go through the tempo process: the gain, then
    /// the resampler when the rate is not one; handed on when not empty.
    pub fn direct_audio(&mut self, samples: &[i32]) -> (r: Option<AudioChunk>)
        requires
            old(self).wf(),
            !old(self).uses_tempo(),
            old(self).state().next_index < usize::MAX,
            samples@.len() * 4 < usize::MAX,
        ensures
            final(self).wf(),
            ({
                let g = gained(samples@, old(self).volume_spec());
                let pcm = if old(self).rate_spec() != 1000 {
                    resampled(g, old(self).rate_spec(), 1000)
                } else {
                    g
                };
                &&& (final(self).state(), match r {
                    Some(c) => Some(c.chunk_index as nat),
                    None => None,
                }) == audio_step(old(self).state(), pcm.len() > 0)
                &&& r matches Some(c) ==> c.samples@ == pcm
            }),
            final(self).rate_spec() == old(self).rate_spec(),
            final(self).volume_spec() == old(self).volume_spec(),
            final(self).uses_tempo() == old(self).uses_tempo(),
    {
        let g = self.gain_block(samples);
        let pcm = if self.rate != 1000 {
            proof {
                assert(g@.len() * 1000 < usize::MAX * self.rate) by (nonlinear_arith)
                    requires
                        g@.len() * 4 < usize::MAX,
                        self.rate >= 250,
                ;
            }
            resample_pcm_by_rate(g.as_slice(), self.rate, 1000)
        } else {
            g
        };
        self.deliver(pcm)
    }

    /// Output of the tempo process: the whole frames buffered so far go out joined as one
    /// chunk when there are any; the rest stays buffered.
    pub fn tempo_output(&mut self, bytes: &[u8]) -> (r: Option<AudioChunk>)
        requires
            old(self).wf(),
            old(self).uses_tempo(),
            old(self).state().next_index < usize::MAX,
            old(self).tempo_pending().len() + bytes@.len() <= usize::MAX,
        ensures
            final(self).wf(),
            ({
                let b = old(self).tempo_pending() + bytes@;
                let fb = old(self).tempo_frame_bytes();
                let pcm = joined(ready_frames(b, fb));
                &&& (final(self).state(), match r {
                    Some(c) => Some(c.chunk_index as nat),
                    None => None,
                }) == audio_step(old(self).state(), pcm.len() > 0)
                &&& r matches Some(c) ==> c.samples@ == pcm
                &&& final(self).tempo_pending() == after_frames(b, fb)
            }),
            final(self).rate_spec() == old(self).rate_spec(),
            final(self).volume_spec() == old(self).volume_spec(),
            final(self).uses_tempo(),
    {
        let mut t = self.tempo.take().unwrap();
        t.push_output(bytes);
        let frames = t.take_ready_frames();
        self.tempo = Some(t);
        let pcm = join_frames(&frames);
        self.deliver(pcm)
    }

    /// The last output of the tempo process, once its input is closed: buffered, to go out
    /// with the rest when the run finishes.
    pub fn tempo_final_output(&mut self, bytes: &[u8])
        requires
            old(self).wf(),
            old(self).uses_tempo(),
            old(self).tempo_pending().len() + bytes@.len() <= usize::MAX,
        ensures
            final(self).wf(),
            final(self).state() == old(self).state(),
            final(self).tempo_pending() == old(self).tempo_pending() + bytes@,
            final(self).tempo_frame_bytes() == old(self).tempo_frame_bytes(),
            final(self).rate_spec() == old(self).rate_spec(),
            final(self).volume_spec() == old(self).volume_spec(),
            final(self).uses_tempo(),
    {
        let mut t = self.tempo.take().unwrap();
        t.push_output(bytes);
        self.tempo = Some(t);
    }

    /// Bytes of tempo output buffered and not yet handed on.
    pub fn tempo_pending_len(&self) -> (r: usize)
        ensures
            r == self.tempo_pending().len(),
    {
        match &self.tempo {
            Some(t) => t.pending_len(),
            None => 0,
        }
    }

    /// The end of the text, with a last look at the cancellation flag. A run that has not
    /// ended and is not canceled now hands on what the tempo process still had, as one
    /// chunk, and ends as done; a canceled run stays canceled and hands on nothing. Returns
    /// that chunk, if any, and how the run ended.
    pub fn finish(&mut self, canceled: bool) -> (r: (Option<AudioChunk>, LocalJobEndState))
        requires
            old(self).wf(),
            old(self).state().next_index < usize::MAX,
        ensures
            final(self).wf(),
            ({
                let c = checkpoint_step(old(self).state(), canceled);
                let b = old(self).tempo_pending();
                let fb = old(self).tempo_frame_bytes();
                let ready = ready_frames(b, fb);
                let tail = pcm_of(after_frames(b, fb));
                let pcm = if !old(self).uses_tempo() || c.ended is Some {
                    Seq::<i16>::empty()
                } else if tail.len() > 0 {
                    joined(ready.push(tail))
                } else {
                    joined(ready)
                };
                let d = audio_step(c, pcm.len() > 0);
                &&& final(self).state() == finish_step(d.0)
                &&& match r.0 {
                    Some(c) => Some(c.chunk_index as nat),
                    None => None,
                } == d.1
                &&& r.0 matches Some(c) ==> c.samples@ == pcm
                &&& Some(r.1) == final(self).state().ended
            }),
            final(self).rate_spec() == old(self).rate_spec(),
            final(self).volume_spec() == old(self).volume_spec(),
    {
        let mut out: Option<AudioChunk> = None;
        self.checkpoint(canceled);
        if self.ended.is_none() {
            match self.tempo.take() {
                Some(mut t) => {
                    let frames = t.finish();
                    self.tempo = Some(t);
                    let pcm = join_frames(&frames);
                    out = self.deliver(pcm);
                },
                None => {},
            }
            self.ended = Some(LocalJobEndState::Done);
        }
        match self.ended {
            Some(e) => (out, e),
            None => (out, LocalJobEndState::Done),
        }
    }
}

/// Most ids kept as suppressed; beyond it the set is emptied when a job starts.
pub const MAX_SUPPRESSED_JOBS: usize = 128;

/// `s` without the id `id`.
pub open spec fn without(s: Seq<Seq<char>>, id: Seq<char>) -> Seq<Seq<char>>
    decreases s.len(),
{
    if s.len() == 0 {
        s
    } else if s.last() == id {
        without(s.drop_last(), id)
    } else {
        without(s.drop_last(), id).push(s.last())
    }
}

/// `s` with the id `id`, added at the end when it is not there yet.
pub open spec fn with_id(s: Seq<Seq<char>>, id: Seq<char>) -> Seq<Seq<char>> {
    if s.contains(id) {
        s
    } else {
        s.push(id)
    }
}

/// The suppressed ids once a job `id` starts: `id` leaves the set, and the set is
/// emptied when it holds more than `MAX_SUPPRESSED_JOBS` ids.
pub open spec fn suppressed_after_start(s: Seq<Seq<char>>, id: Seq<char>) -> Seq<Seq<char>> {
    if without(s, id).len() > MAX_SUPPRESSED_JOBS {
        Seq::empty()
    } else {
        without(s, id)
    }
}

pub open spec fn strings(v: Seq<String>) -> Seq<Seq<char>> {
    v.map_values(|x: String| x@)
}

proof fn lemma_without_lacks(s: Seq<Seq<char>>, id: Seq<char>)
    ensures
        !without(s, id).contains(id),
    decreases s.len(),
{
    if s.len() > 0 {
        lemma_without_lacks(s.drop_last(), id);
        let w = without(s.drop_last(), id);
        if s.last() != id && w.push(s.last()).contains(id) {
            let j = choose|j: int| 0 <= j < w.push(s.last()).len() && w.push(s.last())[j] == id;
            assert(w[j] == id);
        }
    }
}

/// Relies on `uuid::Uuid::new_v4` and its hyphenated text form: a fresh random id of 36
/// characters.
#[verifier::external_body]
fn fresh_job_id() -> (r: String)
    ensures
        r@.len() == 36,
{
    uuid::Uuid::new_v4().to_string()
}

/// The jobs of one engine: which is active, whether the running one was asked to stop,
/// and which ids were canceled, so that their late events are dropped.
pub struct JobRegistry {
    last_job_id: Option<String>,
    running_job_id: Option<String>,
    cancel_requested: bool,
    suppressed_job_ids: Vec<String>,
}

/// What a registry holds.
pub struct RegistryView {
    pub last_job: Option<Seq<char>>,
    pub running_job: Option<Seq<char>>,
    pub cancel_requested: bool,
    pub suppressed: Seq<Seq<char>>,
}

pub open spec fn opt_string(o: Option<String>) -> Option<Seq<char>> {
    match o {
        Some(s) => Some(s@),
        None => None,
    }
}

impl View for JobRegistry {
    type V = RegistryView;

    closed spec fn view(&self) -> RegistryView {
        RegistryView {
            last_job: opt_string(self.last_job_id),
            running_job: opt_string(self.running_job_id),
            cancel_requested: self.cancel_requested,
            suppressed: strings(self.suppressed_job_ids@),
        }
    }
}

fn remove_id(v: &Vec<String>, id: &String) -> (r: Vec<String>)
    ensures
        strings(r@) == without(strings(v@), id@),
{
    let mut r: Vec<String> = Vec::new();
    let mut i: usize = 0;
    while i < v.len()
        invariant
            i <= v@.len(),
            strings(r@) == without(strings(v@.take(i as int)), id@),
        decreases v@.len() - i,
    {
        assert(strings(v@.take(i + 1)).drop_last() =~= strings(v@.take(i as int)));
        assert(strings(v@.take(i + 1)).last() == v@[i as int]@);
        if !(v[i] == *id) {
            let ghost r0 = r@;
            r.push(v[i].clone());
            assert(strings(r@) =~= strings(r0).push(v@[i as int]@));
        }
        i = i + 1;
    }
    assert(v@.take(v@.len() as int) =~= v@);
    r
}

fn contains_id(v: &Vec<String>, id: &String) -> (r: bool)
    ensures
        r == strings(v@).contains(id@),
{
    let mut i: usize = 0;
    while i < v.len()
        invariant
            i <= v@.len(),
            forall|j: int| 0 <= j < i ==> v@[j]@ != id@,
        decreases v@.len() - i,
    {
        if v[i] == *id {
            assert(strings(v@)[i as int] == id@);
            return true;
        }
        i = i + 1;
    }
    proof {
        if strings(v@).contains(id@) {
            let j = choose|j: int| 0 <= j < strings(v@).len() && strings(v@)[j] == id@;
            assert(v@[j]@ == id@);
        }
    }
    false
}

fn same_id(a: &Option<String>, id: &String) -> (r: bool)
    ensures
        r == (opt_string(*a) == Some(id@)),
{
    match a {
        Some(x) => *x == *id,
        None => false,
    }
}

impl JobRegistry {
    /// No job yet.
    pub fn new() -> (r: Self)
        ensures
            r@.last_job is None,
            r@.running_job is None,
            !r@.cancel_requested,
            r@.suppressed == Seq::<Seq<char>>::empty(),
    {
        let r = JobRegistry {
            last_job_id: None,
            running_job_id: None,
            cancel_requested: false,
            suppressed_job_ids: Vec::new(),
        };
        assert(r@.suppressed =~= Seq::<Seq<char>>::empty());
        r
    }

    /// Job `job_id` starts: it becomes the active and running job and leaves the suppressed
    /// set. Returns whether the job it supersedes was running and must be told to stop.
    pub fn begin_job(&mut self, job_id: String) -> (superseded: bool)
        ensures
            superseded == (old(self)@.running_job is Some),
            final(self)@.last_job == Some(job_id@),
            final(self)@.running_job == Some(job_id@),
            !final(self)@.cancel_requested,
            final(self)@.suppressed == suppressed_after_start(old(self)@.suppressed, job_id@),
            !final(self)@.suppressed.contains(job_id@),
    {
        let superseded = self.running_job_id.is_some();
        let kept = remove_id(&self.suppressed_job_ids, &job_id);
        proof {
            lemma_without_lacks(strings(self.suppressed_job_ids@), job_id@);
        }
        if kept.len() > MAX_SUPPRESSED_JOBS {
            self.suppressed_job_ids = Vec::new();
            assert(strings(self.suppressed_job_ids@) =~= Seq::<Seq<char>>::empty());
        } else {
            self.suppressed_job_ids = kept;
        }
        self.last_job_id = Some(job_id.clone());
        self.running_job_id = Some(job_id);
        self.cancel_requested = false;
        superseded
    }

    /// A new job with a fresh random id starts, as `begin_job` says. Returns its id and
    /// whether the job it supersedes must be told to stop.
    pub fn start_job(&mut self) -> (r: (String, bool))
        ensures
            r.0@.len() == 36,
            r.1 == (old(self)@.running_job is Some),
            final(self)@.last_job == Some(r.0@),
            final(self)@.running_job == Some(r.0@),
            !final(self)@.cancel_requested,
            final(self)@.suppressed == suppressed_after_start(old(self)@.suppressed, r.0@),
            !final(self)@.suppressed.contains(r.0@),
    {
        let id = fresh_job_id();
        let superseded = self.begin_job(id.clone());
        (id, superseded)
    }

    /// A cancel request from outside. With no active job nothing changes and `None` comes
    /// back. Otherwise the active job's id joins the suppressed set, the running job is
    /// asked to stop, the job is no longer active, and its id comes back.
    pub fn request_cancel(&mut self) -> (r: Option<String>)
        ensures
            old(self)@.last_job is None ==> r is None && final(self)@ == old(self)@,
            old(self)@.last_job matches Some(id) ==> {
                &&& r matches Some(x) && x@ == id
                &&& final(self)@.suppressed == with_id(old(self)@.suppressed, id)
                &&& final(self)@.cancel_requested == (old(self)@.running_job is Some || old(
                    self,
                )@.cancel_requested)
                &&& final(self)@.running_job == old(self)@.running_job
                &&& final(self)@.last_job is None
            },
    {
        match self.last_job_id.take() {
            None => None,
            Some(id) => {
                if !contains_id(&self.suppressed_job_ids, &id) {
                    let ghost s0 = self.suppressed_job_ids@;
                    self.suppressed_job_ids.push(id.clone());
                    assert(strings(self.suppressed_job_ids@) =~= strings(s0).push(id@));
                }
                if self.running_job_id.is_some() {
                    self.cancel_requested = true;
                }
                Some(id)
            },
        }
    }

    /// Job `job_id` is over, however it ended: it is no longer active or running, and
    /// its id leaves the suppressed set.
    pub fn finish_job(&mut self, job_id: &String)
        ensures
            final(self)@.last_job == if old(self)@.last_job == Some(job_id@) {
                None
            } else {
                old(self)@.last_job
            },
            final(self)@.running_job == if old(self)@.running_job == Some(job_id@) {
                None
            } else {
                old(self)@.running_job
            },
            final(self)@.cancel_requested == if old(self)@.running_job == Some(job_id@) {
                false
            } else {
                old(self)@.cancel_requested
            },
            final(self)@.suppressed == without(old(self)@.suppressed, job_id@),
    {
        if same_id(&self.last_job_id, job_id) {
            self.last_job_id = None;
        }
        if same_id(&self.running_job_id, job_id) {
            self.running_job_id = None;
            self.cancel_requested = false;
        }
        self.suppressed_job_ids = remove_id(&self.suppressed_job_ids, job_id);
    }

    /// The events of job `job_id` are to be dropped.
    pub fn is_job_suppressed(&self, job_id: &String) -> (r: bool)
        ensures
            r == self@.suppressed.contains(job_id@),
    {
        contains_id(&self.suppressed_job_ids, job_id)
    }

    /// The running job was asked to stop.
    pub fn is_cancel_requested(&self) -> (r: bool)
        ensures
            r == self@.cancel_requested,
    {
        self.cancel_requested
    }

    /// The active job's id, if there is one.
    pub fn active_job(&self) -> (r: Option<String>)
        ensures
            opt_string(r) == self@.last_job,
    {
        match &self.last_job_id {
            Some(x) => Some(x.clone()),
            None => None,
        }
    }
}

/// The byte at `i`, zero past the end.
pub open spec fn byte_or_zero(b: Seq<u8>, i: int) -> nat {
    if 0 <= i < b.len() {
        b[i] as nat
    } else {
        0
    }
}

/// Character `k` of the padded standard base64 text of `b`: each group of three bytes,
/// read as a 24-bit number, gives four characters of six bits each from the alphabet
/// `A-Z a-z 0-9 + /`; a last group of one or two bytes is padded with `=`.
pub open spec fn base64_char(b: Seq<u8>, k: int) -> char {
    let g = k / 4;
    let j = k % 4;
    let triple = byte_or_zero(b, 3 * g) * 65536 + byte_or_zero(b, 3 * g + 1) * 256 + byte_or_zero(
        b,
        3 * g + 2,
    );
    let sextet = if j == 0 {
        triple / 262144
    } else if j == 1 {
        triple / 4096 % 64
    } else if j == 2 {
        triple / 64 % 64
    } else {
        triple % 64
    };
    if (j == 2 && 3 * g + 1 >= b.len()) || (j == 3 && 3 * g + 2 >= b.len()) {
        '='
    } else {
        "ABCDEFGHIJKLMNOPQRSTUVWXYZabcdefghijklmnopqrstuvwxyz0123456789+/"@[sextet as int]
    }
}

/// The padded standard base64 text of `b`.
pub open spec fn base64_standard(b: Seq<u8>) -> Seq<char> {
    Seq::new(4 * ((b.len() + 2) / 3), |k: int| base64_char(b, k))
}

/// Relies on `base64::engine::general_purpose::STANDARD.encode`: the padded standard
/// base64 text of the bytes (RFC 4648), four characters for each three bytes or part of
/// three.
#[verifier::external_body]
fn base64_encode(b: &[u8]) -> (r: String)
    requires
        b@.len() / 3 * 4 + 4 <= usize::MAX,
    ensures
        r@ == base64_standard(b@),
        r@.len() == 4 * ((b@.len() + 2) / 3),
{
    base64::engine::general_purpose::STANDARD.encode(b)
}

/// The samples of an audio chunk as base64 text of their 16-bit little-endian bytes, as
/// the consumer receives them.
pub fn audio_chunk_base64(samples: &[i16]) -> (r: String)
    requires
        samples@.len() <= usize::MAX / 4,
    ensures
        r@ == base64_standard(crate::pcm::le_bytes(samples@)),
        r@.len() == 4 * ((2 * samples@.len() + 2) / 3),
{
    let bytes = crate::pcm::pcm_i16_to_le_bytes(samples);
    base64_encode(bytes.as_slice())
}

/// The text chunks of a job: the chunk budget kept within [100, 2000] characters, one
/// sentence a chunk.
pub open spec fn job_chunk_limit(chunk_max_chars: nat) -> nat {
    if chunk_max_chars < 100 {
        100
    } else if chunk_max_chars > 2000 {
        2000
    } else {
        chunk_max_chars
    }
}

/// The text chunks of a job from the model's sentences `split` of `text`.
pub fn job_text_chunks(split: Vec<String>, text: &str, chunk_max_chars: u32) -> (r: Vec<String>)
    ensures
        r@.map_values(|x: String| x@) == crate::text::capped_chunks(
            split@.map_values(|x: String| x@),
            text@,
            job_chunk_limit(chunk_max_chars as nat),
            crate::text::MAX_SENTENCES_PER_CHUNK as nat,
        ),
{
    let limit: usize = if chunk_max_chars < 100 {
        100
    } else if chunk_max_chars > 2000 {
        2000
    } else {
        chunk_max_chars as usize
    };
    crate::text::cap_chunks_by_chars(split, text, limit, crate::text::MAX_SENTENCES_PER_CHUNK)
}

/// The arguments of the tempo process for `rate` (thousandths, kept within [0.25, 4]) at
/// `sample_rate`; none for a sample rate of zero, where no such process can run.
pub fn tempo_command_args(rate: u32, sample_rate: u32) -> (r: Option<Vec<String>>)
    ensures
        sample_rate == 0 ==> r is None,
        sample_rate > 0 ==> (r matches Some(a) && exists|fs: Seq<u128>|
            {
                &&& crate::tempo::is_step_count(clamped_rate(rate as nat), fs.len())
                &&& forall|i: int|
                    0 <= i < fs.len() ==> crate::tempo::is_step_factor(
                        #[trigger] fs[i] as int,
                        clamped_rate(rate as nat),
                        fs.len(),
                    )
                &&& a@.map_values(|x: String| x@) == crate::tempo::raw_io_args(sample_rate as nat)
                    + crate::tempo::tempo_effect_args(fs)
            }),
{
    if sample_rate == 0 {
        return None;
    }
    let rate: u32 = if rate < 250 {
        250
    } else if rate > 4000 {
        4000
    } else {
        rate
    };
    let factors = crate::tempo::decompose_tempo_factors(rate);
    let args = crate::tempo::tempo_process_args(sample_rate, &factors);
    Some(args)
}

/// The event types after which the remote engine sends nothing more for a job.
pub open spec fn is_terminal_kind(kind: Seq<char>) -> bool {
    kind == "JOB_DONE"@ || kind == "JOB_CANCELED"@ || kind == "JOB_ERROR"@
}

fn chars_equal(a: &Vec<char>, b: &Vec<char>) -> (r: bool)
    ensures
        r == (a@ == b@),
{
    if a.len() != b.len() {
        return false;
    }
    let mut i: usize = 0;
    while i < a.len()
        invariant
            i <= a@.len(),
            a@.len() == b@.len(),
            a@.take(i as int) == b@.take(i as int),
        decreases a@.len() - i,
    {
        if a[i] != b[i] {
            return false;
        }
        assert(a@.take(i + 1) =~= a@.take(i as int).push(a@[i as int]));
        assert(b@.take(i + 1) =~= b@.take(i as int).push(b@[i as int]));
        i = i + 1;
    }
    assert(a@.take(a@.len() as int) =~= a@);
    assert(b@.take(b@.len() as int) =~= b@);
    true
}

/// The event type `kind` ends a job's stream.
pub fn is_terminal_event(kind: &str) -> (r: bool)
    ensures
        r == is_terminal_kind(kind@),
{
    let k = crate::text::chars_of(kind);
    let done = crate::text::chars_of("JOB_DONE");
    let canceled = crate::text::chars_of("JOB_CANCELED");
    let error = crate::text::chars_of("JOB_ERROR");
    chars_equal(&k, &done) || chars_equal(&k, &canceled) || chars_equal(&k, &error)
}

/// What the remote engine's stream delivered: a text event (with its type when it has
/// one), a close, another frame, or a read failure.
pub enum RemoteMessage {
    Text(Option<String>),
    Close,
    Other,
    ReadError,
    StreamEnd,
}

/// What to do with a remote message.
#[derive(PartialEq, Eq, Structural, Debug, Clone, Copy)]
pub enum RelayAction {
    /// Hand the event on and keep reading.
    Forward,
    /// Hand the event on; it ends the job's stream.
    ForwardLast,
    /// Read on; nothing to hand on.
    Skip,
    /// Stop reading; the job ended cleanly or was canceled.
    Stop,
    /// Stop reading; the job failed.
    Fail,
}

/// The relay's decision for one message: a suppressed job stops the relay; text events go
/// on, the last after a terminal one; a close or the end of the stream before any terminal
/// event, or a read failure, is a failure.
pub open spec fn relay_decision(suppressed: bool, saw_terminal: bool, m: RemoteMessage) -> RelayAction {
    if suppressed {
        RelayAction::Stop
    } else {
        match m {
            RemoteMessage::Text(k) => if k matches Some(kind) && is_terminal_kind(kind@) {
                RelayAction::ForwardLast
            } else {
                RelayAction::Forward
            },
            RemoteMessage::Other => RelayAction::Skip,
            RemoteMessage::ReadError => RelayAction::Fail,
            RemoteMessage::Close | RemoteMessage::StreamEnd => if saw_terminal {
                RelayAction::Stop
            } else {
                RelayAction::Fail
            },
        }
    }
}

/// Decides what the relay does with one message of the remote engine's stream for a job.
pub fn relay_step(suppressed: bool, saw_terminal: bool, m: &RemoteMessage) -> (r: RelayAction)
    ensures
        r == relay_decision(suppressed, saw_terminal, *m),
{
    if suppressed {
        return RelayAction::Stop;
    }
    match m {
        RemoteMessage::Text(k) => match k {
            Some(kind) => if is_terminal_event(kind.as_str()) {
                RelayAction::ForwardLast
            } else {
                RelayAction::Forward
            },
            None => RelayAction::Forward,
        },
        RemoteMessage::Other => RelayAction::Skip,
        RemoteMessage::ReadError => RelayAction::Fail,
        RemoteMessage::Close | RemoteMessage::StreamEnd => if saw_terminal {
            RelayAction::Stop
        } else {
            RelayAction::Fail
        },
    }
}

/// The models that read text aloud in a build: the Kyutai model in both, the Qwen custom
/// voice model in the full build only.
pub open spec fn reads_aloud(variant: crate::settings::BuildVariant, model: Seq<char>) -> bool {
    model == "kyutai_pocket_tts"@ || (variant == crate::settings::BuildVariant::Full && model
        == "qwen_custom_voice"@)
}

fn same_text(a: &str, b: &str) -> (r: bool)
    ensures
        r == (a@ == b@),
{
    chars_equal(&crate::text::chars_of(a), &crate::text::chars_of(b))
}

/// A request to speak `text` with `selected_model`: the trimmed text when it is not blank
/// and the model reads aloud in this build; otherwise the reason it is refused.
pub fn check_speak_request(text: &str, selected_model: &str, variant: crate::settings::BuildVariant) -> (r:
    Result<String, crate::EngineError>)
    ensures
        r is Ok <==> (crate::text::trim(text@).len() > 0 && reads_aloud(variant, selected_model@)),
        r matches Ok(t) ==> t@ == crate::text::trim(text@),
        r matches Err(e) ==> e.kind == crate::ErrorKind::ConfigurationError && e.message@ == if crate::text::trim(text@).len() == 0 {
            "Speak text cannot be empty"@
        } else {
            "This model does not read aloud in this build. Switch to kyutai_pocket_tts."@
        },
{
    let t = crate::text::trim_chars(&crate::text::chars_of(text));
    if t.len() == 0 {
        return Err(
            crate::EngineError {
                kind: crate::ErrorKind::ConfigurationError,
                message: String::from_str("Speak text cannot be empty"),
            },
        );
    }
    let kyutai = same_text(selected_model, "kyutai_pocket_tts");
    let custom = same_text(selected_model, "qwen_custom_voice");
    if !kyutai && !(custom && variant == crate::settings::BuildVariant::Full) {
        return Err(
            crate::EngineError {
                kind: crate::ErrorKind::ConfigurationError,
                message: String::from_str(
                    "This model does not read aloud in this build. Switch to kyutai_pocket_tts.",
                ),
            },
        );
    }
    Ok(crate::text::string_of(&t))
}

} // verus!
