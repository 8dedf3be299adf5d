//! The job controller: lifecycle of acquisition jobs.
//!
//! The controller owns the image store, the progress record, the
//! cancellation signal and the state of the current job. Whoever drives the
//! hardware asks `next_action` what to do, performs the motor movement and
//! the capture, and hands the captured frame to `step_frame`; the controller
//! stores it, observes the cancellation signal and advances. `begin_job`
//! accepts a new job after the previous sequencer has been drained; it
//! discards the old job's state wholesale, so captures of two jobs never
//! mix.
//!
//! The controller's well-formedness invariant ties the store to the job's
//! position: the stored names are exactly the names of the captures
//! completed so far, and the progress record points at the last completed
//! capture. The laws at the end of this module spell out what that yields
//! for completed and for cancelled runs.

use vstd::prelude::*;
use crate::image_store::ImageStore;
use crate::job::Auftrag;
use crate::job::JobPhase;
use crate::job::JobState;
use crate::job::NextAction;
use crate::job::STEPS_FOR_FULL_ROTATION;
use crate::job::all_names;
use crate::job::images_before_round;
use crate::job::lemma_all_names_member;
use crate::job::lemma_captured_le_total;
use crate::job::lemma_fresh_name;
use crate::job::lemma_images_before_nonneg;
use crate::job::lemma_skip_empty;
use crate::job::round_count;
use crate::job::total_images;
use crate::job::valid_pair;
use crate::names::image_name;
use crate::names::make_image_name;
use crate::progress::Fortschritt;

verus! {

/// How one sequencer step ended.
#[derive(Clone, Copy, Debug, PartialEq, Eq, Structural)]
pub enum StepOutcome {
    /// Captures remain; ask `next_action` again.
    Continuing,
    /// That was the last requested capture.
    Finished,
    /// The cancellation signal was observed; the job stopped short.
    Cancelled,
}

/// The progress record points at the last completed capture of a run that
/// stands at position `(r, k)`: at the zero state while nothing was
/// captured, at `(r, k - 1)` inside a round, and at the last image of the
/// last non-empty round once a round boundary was crossed.
pub open spec fn progress_ok(rounds: Seq<i32>, r: int, k: int, p: (int, int)) -> bool {
    if crate::job::captured_count(rounds, r, k) == 0 {
        p == (0int, 0int)
    } else if k > 0 {
        p == (r, k - 1)
    } else {
        exists|r2: int|
            0 <= r2 < r && #[trigger] round_count(rounds, r2) > 0 && (forall|r3: int|
                r2 < r3 < r ==> round_count(rounds, r3) == 0) && p == (
                r2,
                round_count(rounds, r2) - 1,
            )
    }
}

/// The progress record never runs ahead of the job specification: it is the
/// zero state or a capture the job asks for.
pub open spec fn progress_bounded(rounds: Seq<i32>, p: (int, int)) -> bool {
    p == (0int, 0int) || valid_pair(rounds, p.0, p.1)
}

pub proof fn lemma_progress_ok_bounded(rounds: Seq<i32>, r: int, k: int, p: (int, int))
    requires
        valid_pair(rounds, r, k) || (r == rounds.len() && k == 0),
        progress_ok(rounds, r, k, p),
    ensures
        progress_bounded(rounds, p),
{
    if crate::job::captured_count(rounds, r, k) == 0 {
    } else if k > 0 {
        assert(valid_pair(rounds, r, k - 1));
    } else {
        let r2 = choose|r2: int|
            0 <= r2 < r && #[trigger] round_count(rounds, r2) > 0 && (forall|r3: int|
                r2 < r3 < r ==> round_count(rounds, r3) == 0) && p == (
                r2,
                round_count(rounds, r2) - 1,
            );
        assert(valid_pair(rounds, r2, round_count(rounds, r2) - 1));
    }
}

/// Owns one rig's shared state and the lifecycle of its jobs.
pub struct JobController {
    store: ImageStore,
    progress: Fortschritt,
    cancel_requested: bool,
    job: Option<JobState>,
}

impl JobController {
    pub closed spec fn spec_store(&self) -> ImageStore {
        self.store
    }

    pub closed spec fn spec_progress(&self) -> (int, int) {
        self.progress@
    }

    pub closed spec fn spec_cancel(&self) -> bool {
        self.cancel_requested
    }

    pub closed spec fn spec_job(&self) -> Option<JobState> {
        self.job
    }

    /// The current job; meaningful only when one was submitted.
    pub open spec fn job_of(&self) -> JobState {
        match self.spec_job() {
            Some(j) => j,
            None => arbitrary(),
        }
    }

    /// A job was submitted and still has captures to go.
    pub open spec fn has_running_job(&self) -> bool {
        match self.spec_job() {
            Some(j) => j.spec_phase() == JobPhase::Running,
            None => false,
        }
    }

    /// The controller's invariant. The store holds exactly the names of the
    /// captures the current job has completed, one entry each; the progress
    /// record points at the last completed capture (for a cancelled job it
    /// keeps its pre-cancellation value, which stays within the job's
    /// bounds).
    pub open spec fn wf(&self) -> bool {
        &&& self.spec_store().wf()
        &&& match self.spec_job() {
            None => {
                &&& self.spec_store()@ == Map::<Seq<char>, Seq<u8>>::empty()
                &&& self.spec_store().names_seq() == Seq::<Seq<char>>::empty()
                &&& self.spec_progress() == (0int, 0int)
            },
            Some(j) => {
                &&& j.wf()
                &&& j.spec_rounds().len() <= i32::MAX as int
                &&& self.spec_store()@.dom() == j.spec_names()
                &&& self.spec_store().names_seq().len() == j.spec_captured()
                &&& (j.spec_phase() == JobPhase::Cancelled ==> progress_bounded(
                    j.spec_rounds(),
                    self.spec_progress(),
                ))
                &&& (j.spec_phase() != JobPhase::Cancelled ==> progress_ok(
                    j.spec_rounds(),
                    j.spec_round(),
                    j.spec_image(),
                    self.spec_progress(),
                ))
            },
        }
    }

    /// A fresh controller: empty store, zero progress, no job, signal clear.
    pub fn new() -> (c: JobController)
        ensures
            c.wf(),
            c.spec_job() is None,
            !c.spec_cancel(),
            c.spec_store()@ == Map::<Seq<char>, Seq<u8>>::empty(),
            c.spec_progress() == (0int, 0int),
    {
        JobController {
            store: ImageStore::new(),
            progress: Fortschritt::new(),
            cancel_requested: false,
            job: None,
        }
    }

    /// Read access to the image store, for listings and fetches.
    pub fn image_store(&self) -> (r: &ImageStore)
        ensures
            *r == self.spec_store(),
    {
        &self.store
    }

    /// Read access to the progress record.
    pub fn fortschritt(&self) -> (r: &Fortschritt)
        ensures
            r@ == self.spec_progress(),
    {
        &self.progress
    }

    /// Whether the current job still has captures to go.
    pub fn is_running(&self) -> (b: bool)
        ensures
            b == self.has_running_job(),
    {
        match &self.job {
            Some(j) => match j.phase() {
                JobPhase::Running => true,
                _ => false,
            },
            None => false,
        }
    }

    /// Raises the cancellation signal. The running sequencer observes it at
    /// its next per-image check; nothing else changes here.
    pub fn request_cancel(&mut self)
        requires
            old(self).wf(),
        ensures
            final(self).wf(),
            final(self).spec_cancel(),
            final(self).spec_store() == old(self).spec_store(),
            final(self).spec_progress() == old(self).spec_progress(),
            final(self).spec_job() == old(self).spec_job(),
    {
        self.cancel_requested = true;
    }

    /// Accepts a new job. The previous job's state is discarded wholesale:
    /// the cancellation signal is cleared, progress returns to the zero
    /// state, the store is wiped, and the sequencer is placed before the new
    /// job's first requested capture. The caller must have drained the
    /// previous sequencer (cancel, then join) before calling, so no capture
    /// of the old job can land after this reset. A job cannot have more
    /// rounds than the progress record can index.
    pub fn begin_job(&mut self, auftrag: Auftrag)
        requires
            old(self).wf(),
            auftrag.auftrag@.len() <= i32::MAX as int,
        ensures
            final(self).wf(),
            !final(self).spec_cancel(),
            final(self).spec_store()@ == Map::<Seq<char>, Seq<u8>>::empty(),
            final(self).spec_store().names_seq() == Seq::<Seq<char>>::empty(),
            final(self).spec_progress() == (0int, 0int),
            final(self).spec_job() is Some,
            final(self).job_of().spec_rounds() == auftrag.auftrag@,
            final(self).job_of().spec_captured() == 0,
            final(self).job_of().spec_names() == Set::<Seq<char>>::empty(),
            final(self).has_running_job() || final(self).job_of().spec_phase()
                == JobPhase::Finished,
    {
        self.cancel_requested = false;
        self.progress.reset();
        self.store.reset();
        self.job = Some(JobState::new(auftrag));
        proof {
            assert(self.spec_store()@.dom() =~= self.job_of().spec_names());
        }
    }

    /// What the hardware must do next; `Idle` when no job is running.
    pub fn next_action(&self) -> (a: NextAction)
        requires
            self.wf(),
        ensures
            match a {
                NextAction::Capture { round, image, pulses, wait_for_trigger } => {
                    &&& self.has_running_job()
                    &&& round as int == self.job_of().spec_round()
                    &&& image as int == self.job_of().spec_image()
                    &&& pulses as int == STEPS_FOR_FULL_ROTATION as int / round_count(
                        self.job_of().spec_rounds(),
                        self.job_of().spec_round(),
                    )
                    &&& wait_for_trigger == (self.job_of().spec_image() == 0)
                },
                NextAction::Idle => !self.has_running_job(),
            },
    {
        match &self.job {
            Some(j) => j.next_action(),
            None => NextAction::Idle,
        }
    }

    /// One sequencer step, after the hardware captured `frame` for the
    /// current position `(r, k)`: the frame is stored under
    /// `image_name(r, k)`; then the cancellation signal is checked — if it
    /// is raised the job stops (the progress record keeps its pre-capture
    /// value), otherwise progress moves to `(r, k)` and the position
    /// advances. A stopped job takes no further steps: this function asks
    /// for a running job, and `next_action` answers `Idle` from then on.
    pub fn step_frame(&mut self, frame: &[u8]) -> (res: StepOutcome)
        requires
            old(self).wf(),
            old(self).has_running_job(),
        ensures
            final(self).wf(),
            final(self).spec_cancel() == old(self).spec_cancel(),
            final(self).spec_store()@ == old(self).spec_store()@.insert(
                image_name(old(self).job_of().spec_round() as nat, old(self).job_of().spec_image() as nat),
                frame@,
            ),
            final(self).spec_store().names_seq() == old(self).spec_store().names_seq().push(
                image_name(old(self).job_of().spec_round() as nat, old(self).job_of().spec_image() as nat),
            ),
            final(self).spec_job() is Some,
            final(self).job_of().spec_rounds() == old(self).job_of().spec_rounds(),
            final(self).job_of().spec_captured() == old(self).job_of().spec_captured() + 1,
            old(self).spec_cancel() ==> {
                &&& res == StepOutcome::Cancelled
                &&& final(self).job_of().spec_phase() == JobPhase::Cancelled
                &&& final(self).spec_progress() == old(self).spec_progress()
            },
            !old(self).spec_cancel() ==> {
                &&& final(self).job_of().spec_phase() != JobPhase::Cancelled
                &&& final(self).spec_progress() == (
                    old(self).job_of().spec_round(),
                    old(self).job_of().spec_image(),
                )
                &&& (res == StepOutcome::Finished <==> final(self).job_of().spec_phase()
                    == JobPhase::Finished)
                &&& (res == StepOutcome::Continuing <==> final(self).job_of().spec_phase()
                    == JobPhase::Running)
            },
    {
        let ghost pre = *self;
        let ghost rounds = pre.job_of().spec_rounds();
        let ghost r0 = pre.job_of().spec_round();
        let ghost k0 = pre.job_of().spec_image();
        let ghost nm = image_name(r0 as nat, k0 as nat);

        let r: usize;
        let k: i32;
        match &self.job {
            Some(j) => {
                r = j.round();
                k = j.image();
            },
            None => {
                r = 0;
                k = 0;
                proof {
                    assert(false);
                }
            },
        }

        let name = make_image_name(r as u64, k as u64);
        proof {
            lemma_fresh_name(rounds, r0, k0);
            pre.spec_store().lemma_dom_names();
            assert(!pre.spec_store().names_seq().contains(nm));
        }
        self.store.store_image(name, frame);

        let cancelled = self.cancel_requested;
        match &mut self.job {
            Some(j) => {
                j.advance();
                if cancelled {
                    j.mark_cancelled();
                }
            },
            None => {},
        }

        proof {
            let j1 = self.job_of();
            assert(self.spec_store()@.dom() =~= pre.spec_store()@.dom().insert(nm));
            assert(j1.spec_names() == pre.job_of().spec_names().insert(nm));
            assert(self.spec_store()@.dom() == j1.spec_names());
        }

        if cancelled {
            proof {
                lemma_progress_ok_bounded(rounds, r0, k0, pre.spec_progress());
            }
            StepOutcome::Cancelled
        } else {
            self.progress.set_runde(r as i32);
            self.progress.set_aufnahme(k);
            let finished: bool;
            match &self.job {
                Some(j) => {
                    finished = match j.phase() {
                        JobPhase::Finished => true,
                        _ => false,
                    };
                },
                None => {
                    finished = false;
                    proof {
                        assert(false);
                    }
                },
            }
            proof {
                let j1 = self.job_of();
                let p = self.spec_progress();
                assert(p == (r0, k0));
                if j1.spec_round() == r0 {
                    assert(j1.spec_image() == k0 + 1);
                    assert(progress_ok(rounds, r0, k0 + 1, p));
                } else {
                    lemma_skip_empty(rounds, r0 + 1, j1.spec_round());
                    assert(images_before_round(rounds, j1.spec_round()) == images_before_round(
                        rounds,
                        r0,
                    ) + round_count(rounds, r0));
                    assert(k0 == round_count(rounds, r0) - 1);
                    lemma_images_before_nonneg(rounds, r0);
                    assert(crate::job::captured_count(rounds, j1.spec_round(), 0) > 0);
                    assert(progress_ok(rounds, j1.spec_round(), 0, p)) by {
                        assert(0 <= r0 < j1.spec_round() && round_count(rounds, r0) > 0 && (
                        forall|r3: int|
                            r0 < r3 < j1.spec_round() ==> round_count(rounds, r3) == 0) && p == (
                            r0,
                            round_count(rounds, r0) - 1,
                        ));
                    }
                }
            }
            if finished {
                StepOutcome::Finished
            } else {
                StepOutcome::Continuing
            }
        }
    }
}

/// Law: a run that finished without cancellation stored exactly one image
/// per requested capture — `total_images(rounds)` many, all names distinct,
/// and a name is stored exactly when some requested `(round, image)` pair
/// carries it: the stored names are a bijection with the requested pairs.
pub proof fn lemma_completed_run_bijection(c: JobController)
    requires
        c.wf(),
        c.spec_job() is Some,
        c.job_of().spec_phase() == JobPhase::Finished,
    ensures
        c.spec_store().names_seq().len() == total_images(c.job_of().spec_rounds()),
        forall|name: Seq<char>|
            #[trigger] c.spec_store()@.dom().contains(name) <==> exists|r2: int, k2: int|
                valid_pair(c.job_of().spec_rounds(), r2, k2) && name == image_name(
                    r2 as nat,
                    k2 as nat,
                ),
        forall|i: int, j: int|
            0 <= i < j < c.spec_store().names_seq().len() ==> c.spec_store().names_seq()[i]
                != c.spec_store().names_seq()[j],
{
    let j = c.job_of();
    let rounds = j.spec_rounds();
    assert(j.spec_names() == all_names(rounds));
    assert forall|name: Seq<char>| #[trigger] c.spec_store()@.dom().contains(name) <==> exists|
        r2: int,
        k2: int,
    | valid_pair(rounds, r2, k2) && name == image_name(r2 as nat, k2 as nat) by {
        lemma_all_names_member(rounds, name);
    }
    c.spec_store().lemma_names_distinct();
}

/// Law: the progress record never exceeds the job's bounds — it is the zero
/// state or points at a capture the job specification asks for.
pub proof fn lemma_progress_within_bounds(c: JobController)
    requires
        c.wf(),
        c.spec_job() is Some,
    ensures
        progress_bounded(c.job_of().spec_rounds(), c.spec_progress()),
{
    let j = c.job_of();
    if j.spec_phase() != JobPhase::Cancelled {
        lemma_progress_ok_bounded(
            j.spec_rounds(),
            j.spec_round(),
            j.spec_image(),
            c.spec_progress(),
        );
    }
}

/// Law: after a run over rounds that all ask for at least one image
/// finishes without cancellation, the progress record points at the last
/// image of the last round.
pub proof fn lemma_completed_progress(c: JobController)
    requires
        c.wf(),
        c.spec_job() is Some,
        c.job_of().spec_phase() == JobPhase::Finished,
        c.job_of().spec_rounds().len() > 0,
        forall|r: int|
            0 <= r < c.job_of().spec_rounds().len() ==> c.job_of().spec_rounds()[r] > 0,
    ensures
        c.spec_progress() == (
            c.job_of().spec_rounds().len() - 1,
            c.job_of().spec_rounds()[c.job_of().spec_rounds().len() - 1] - 1,
        ),
{
    let j = c.job_of();
    let rounds = j.spec_rounds();
    let len = rounds.len() as int;
    lemma_images_before_nonneg(rounds, len - 1);
    assert(round_count(rounds, len - 1) > 0);
    assert(crate::job::captured_count(rounds, len, 0) > 0);
    let p = c.spec_progress();
    let r2 = choose|r2: int|
        0 <= r2 < len && #[trigger] round_count(rounds, r2) > 0 && (forall|r3: int|
            r2 < r3 < len ==> round_count(rounds, r3) == 0) && p == (
            r2,
            round_count(rounds, r2) - 1,
        );
    if r2 < len - 1 {
        assert(round_count(rounds, len - 1) == 0);
        assert(false);
    }
}

/// Law: a job never stores more images than its specification asks for; in
/// particular a cancelled run stored at most as many as a completed run
/// would have.
pub proof fn lemma_store_bounded(c: JobController)
    requires
        c.wf(),
        c.spec_job() is Some,
    ensures
        c.spec_store().names_seq().len() <= total_images(c.job_of().spec_rounds()),
{
    let j = c.job_of();
    lemma_captured_le_total(j.spec_rounds(), j.spec_round(), j.spec_image());
}

} // verus!
