//! One acquisition job: its specification and the sequencer's position.
//!
//! A job is an ordered sequence of round sizes. The sequencer walks the
//! pairs `(round, image)` in lexicographic order, one completed capture per
//! step; `JobState` keeps that position normalized, so that a running job
//! always points at a capture the specification asks for. The specs below
//! count the captures completed before a position and collect their names;
//! they are the vocabulary of the controller's invariants.

use vstd::prelude::*;
use crate::names::image_name;
use crate::names::lemma_image_name_injective;

verus! {

/// Motor steps for one full turntable rotation.
pub const STEPS_FOR_FULL_ROTATION: i32 = 3200;

/// One job request: `auftrag[r]` images are to be captured in round `r`.
pub struct Auftrag {
    pub auftrag: Vec<i32>,
}

/// Number of images round `r` asks for; rounds that are absent or not
/// positive contribute none.
pub open spec fn round_count(rounds: Seq<i32>, r: int) -> int {
    if 0 <= r < rounds.len() && rounds[r] > 0 {
        rounds[r] as int
    } else {
        0
    }
}

/// Images captured by the rounds before `r` in a completed traversal.
pub open spec fn images_before_round(rounds: Seq<i32>, r: int) -> int
    decreases r,
{
    if r <= 0 {
        0
    } else {
        images_before_round(rounds, r - 1) + round_count(rounds, r - 1)
    }
}

/// Images a full, uncancelled run of the job captures.
pub open spec fn total_images(rounds: Seq<i32>) -> int {
    images_before_round(rounds, rounds.len() as int)
}

/// Captures completed once the sequencer stands before `(r, k)`.
pub open spec fn captured_count(rounds: Seq<i32>, r: int, k: int) -> int {
    images_before_round(rounds, r) + k
}

/// `(r, k)` denotes a capture the job specification asks for.
pub open spec fn valid_pair(rounds: Seq<i32>, r: int, k: int) -> bool {
    0 <= r < rounds.len() && 0 <= k < round_count(rounds, r)
}

/// `(r1, k1)` is captured strictly before `(r2, k2)`.
pub open spec fn pair_before(r1: int, k1: int, r2: int, k2: int) -> bool {
    r1 < r2 || (r1 == r2 && k1 < k2)
}

/// Names of the captures completed before position `(r, k)`.
pub open spec fn captured_names(rounds: Seq<i32>, r: int, k: int) -> Set<Seq<char>> {
    Set::new(
        |name: Seq<char>|
            exists|r2: int, k2: int|
                valid_pair(rounds, r2, k2) && pair_before(r2, k2, r, k) && name == image_name(
                    r2 as nat,
                    k2 as nat,
                ),
    )
}

/// Names of all captures the job asks for.
pub open spec fn all_names(rounds: Seq<i32>) -> Set<Seq<char>> {
    captured_names(rounds, rounds.len() as int, 0)
}

pub proof fn lemma_images_before_nonneg(rounds: Seq<i32>, r: int)
    ensures
        images_before_round(rounds, r) >= 0,
    decreases r,
{
    if r > 0 {
        lemma_images_before_nonneg(rounds, r - 1);
    }
}

pub proof fn lemma_images_before_monotone(rounds: Seq<i32>, r1: int, r2: int)
    requires
        r1 <= r2,
    ensures
        images_before_round(rounds, r1) <= images_before_round(rounds, r2),
    decreases r2 - r1,
{
    if r1 < r2 {
        lemma_images_before_monotone(rounds, r1, r2 - 1);
    }
}

/// A position inside the job never counts more captures than a full run.
pub proof fn lemma_captured_le_total(rounds: Seq<i32>, r: int, k: int)
    requires
        valid_pair(rounds, r, k) || (r == rounds.len() && k == 0),
    ensures
        captured_count(rounds, r, k) <= total_images(rounds),
{
    if valid_pair(rounds, r, k) {
        assert(images_before_round(rounds, r) + round_count(rounds, r) == images_before_round(
            rounds,
            r + 1,
        ));
        lemma_images_before_monotone(rounds, r + 1, rounds.len() as int);
    }
}

/// Rounds without images contribute neither captures nor names.
pub proof fn lemma_skip_empty(rounds: Seq<i32>, a: int, b: int)
    requires
        0 <= a <= b,
        forall|r2: int| a <= r2 < b ==> round_count(rounds, r2) == 0,
    ensures
        images_before_round(rounds, b) == images_before_round(rounds, a),
        captured_names(rounds, b, 0) == captured_names(rounds, a, 0),
    decreases b - a,
{
    if a < b {
        lemma_skip_empty(rounds, a, b - 1);
        assert(captured_names(rounds, b, 0) =~= captured_names(rounds, b - 1, 0)) by {
            assert forall|name: Seq<char>| captured_names(rounds, b, 0).contains(name)
                implies captured_names(rounds, b - 1, 0).contains(name) by {
                let (r2, k2) = choose|r2: int, k2: int|
                    valid_pair(rounds, r2, k2) && pair_before(r2, k2, b, 0) && name == image_name(
                        r2 as nat,
                        k2 as nat,
                    );
                assert(r2 != b - 1);
                assert(pair_before(r2, k2, b - 1, 0));
            }
        }
    }
}

/// Moving the position one capture onward adds exactly that capture's name.
pub proof fn lemma_insert_next(rounds: Seq<i32>, r: int, k: int)
    requires
        valid_pair(rounds, r, k),
    ensures
        captured_names(rounds, r, k + 1) == captured_names(rounds, r, k).insert(
            image_name(r as nat, k as nat),
        ),
{
    assert(captured_names(rounds, r, k + 1) =~= captured_names(rounds, r, k).insert(
        image_name(r as nat, k as nat),
    )) by {
        assert forall|name: Seq<char>| #[trigger] captured_names(rounds, r, k + 1).contains(name)
            implies captured_names(rounds, r, k).insert(image_name(r as nat, k as nat)).contains(
            name,
        ) by {
            let (r2, k2) = choose|r2: int, k2: int|
                valid_pair(rounds, r2, k2) && pair_before(r2, k2, r, k + 1) && name == image_name(
                    r2 as nat,
                    k2 as nat,
                );
            if !(r2 == r && k2 == k) {
                assert(pair_before(r2, k2, r, k));
            }
        }
    }
}

/// Standing at the end of a round is the same as standing before the next.
pub proof fn lemma_round_end(rounds: Seq<i32>, r: int)
    requires
        0 <= r < rounds.len(),
    ensures
        captured_names(rounds, r, round_count(rounds, r)) == captured_names(rounds, r + 1, 0),
        captured_count(rounds, r, round_count(rounds, r)) == captured_count(rounds, r + 1, 0),
{
    let c = round_count(rounds, r);
    assert(captured_names(rounds, r, c) =~= captured_names(rounds, r + 1, 0)) by {
        assert forall|name: Seq<char>| captured_names(rounds, r + 1, 0).contains(name)
            implies captured_names(rounds, r, c).contains(name) by {
            let (r2, k2) = choose|r2: int, k2: int|
                valid_pair(rounds, r2, k2) && pair_before(r2, k2, r + 1, 0) && name == image_name(
                    r2 as nat,
                    k2 as nat,
                );
            assert(pair_before(r2, k2, r, c));
        }
    }
}

/// The name of the capture at the current position is not among the names
/// already captured: the naming scheme is injective and earlier pairs are
/// strictly smaller.
pub proof fn lemma_fresh_name(rounds: Seq<i32>, r: int, k: int)
    requires
        valid_pair(rounds, r, k),
    ensures
        !captured_names(rounds, r, k).contains(image_name(r as nat, k as nat)),
{
    if captured_names(rounds, r, k).contains(image_name(r as nat, k as nat)) {
        let (r2, k2) = choose|r2: int, k2: int|
            valid_pair(rounds, r2, k2) && pair_before(r2, k2, r, k) && image_name(
                r as nat,
                k as nat,
            ) == image_name(r2 as nat, k2 as nat);
        lemma_image_name_injective(r as nat, k as nat, r2 as nat, k2 as nat);
        assert(false);
    }
}

/// A name belongs to a full run exactly when some requested capture carries
/// it.
pub proof fn lemma_all_names_member(rounds: Seq<i32>, name: Seq<char>)
    ensures
        all_names(rounds).contains(name) <==> exists|r2: int, k2: int|
            valid_pair(rounds, r2, k2) && name == image_name(r2 as nat, k2 as nat),
{
    if all_names(rounds).contains(name) {
        let (r2, k2) = choose|r2: int, k2: int|
            valid_pair(rounds, r2, k2) && pair_before(r2, k2, rounds.len() as int, 0)
                && name == image_name(r2 as nat, k2 as nat);
        assert(valid_pair(rounds, r2, k2) && name == image_name(r2 as nat, k2 as nat));
    }
    if exists|r2: int, k2: int| valid_pair(rounds, r2, k2) && name == image_name(
        r2 as nat,
        k2 as nat,
    ) {
        let (r2, k2) = choose|r2: int, k2: int|
            valid_pair(rounds, r2, k2) && name == image_name(r2 as nat, k2 as nat);
        assert(pair_before(r2, k2, rounds.len() as int, 0));
        assert(all_names(rounds).contains(name));
    }
}

/// Where a job stands.
#[derive(Clone, Copy, Debug, PartialEq, Eq, Structural)]
pub enum JobPhase {
    /// Captures remain; the sequencer keeps going.
    Running,
    /// Every requested capture happened.
    Finished,
    /// The cancellation signal was observed; the job stopped short.
    Cancelled,
}

/// What the hardware must do next for a job.
#[derive(Clone, Copy, Debug, PartialEq, Eq, Structural)]
pub enum NextAction {
    /// Move the motor by `pulses` steps, then capture image `image` of round
    /// `round`; before the first image of a round, first wait for the
    /// external trigger.
    Capture { round: usize, image: i32, pulses: i32, wait_for_trigger: bool },
    /// The job is over (finished or cancelled); nothing to do.
    Idle,
}

/// The sequencer's state for one job: the round sizes and the normalized
/// position of the next capture.
pub struct JobState {
    rounds: Vec<i32>,
    round: usize,
    image: i32,
    phase: JobPhase,
}

impl JobState {
    pub closed spec fn spec_rounds(&self) -> Seq<i32> {
        self.rounds@
    }

    pub closed spec fn spec_round(&self) -> int {
        self.round as int
    }

    pub closed spec fn spec_image(&self) -> int {
        self.image as int
    }

    pub closed spec fn spec_phase(&self) -> JobPhase {
        self.phase
    }

    /// The position either denotes a requested capture or stands one past
    /// the last round. A running job always points at a requested capture;
    /// a finished one stands exactly at the end.
    pub open spec fn wf(&self) -> bool {
        &&& valid_pair(self.spec_rounds(), self.spec_round(), self.spec_image()) || (
        self.spec_round() == self.spec_rounds().len() && self.spec_image() == 0)
        &&& self.spec_phase() == JobPhase::Running ==> valid_pair(
            self.spec_rounds(),
            self.spec_round(),
            self.spec_image(),
        )
        &&& self.spec_phase() == JobPhase::Finished ==> self.spec_round()
            == self.spec_rounds().len() && self.spec_image() == 0
    }

    /// Captures completed so far by this job.
    pub open spec fn spec_captured(&self) -> int {
        captured_count(self.spec_rounds(), self.spec_round(), self.spec_image())
    }

    /// Names of the captures completed so far by this job.
    pub open spec fn spec_names(&self) -> Set<Seq<char>> {
        captured_names(self.spec_rounds(), self.spec_round(), self.spec_image())
    }

    /// Starts a job: the position moves to the first requested capture, or
    /// the job is immediately finished when no round asks for an image.
    pub fn new(auftrag: Auftrag) -> (j: JobState)
        ensures
            j.wf(),
            j.spec_rounds() == auftrag.auftrag@,
            j.spec_captured() == 0,
            j.spec_names() == Set::<Seq<char>>::empty(),
            j.spec_phase() == JobPhase::Running || j.spec_phase() == JobPhase::Finished,
            j.spec_phase() == JobPhase::Finished ==> total_images(j.spec_rounds()) == 0,
    {
        let rounds = auftrag.auftrag;
        let round = Self::seek_round(&rounds, 0);
        let phase = if round < rounds.len() {
            JobPhase::Running
        } else {
            JobPhase::Finished
        };
        let j = JobState { rounds, round, image: 0, phase };
        proof {
            lemma_skip_empty(j.spec_rounds(), 0, j.spec_round());
            assert(j.spec_names() =~= Set::<Seq<char>>::empty()) by {
                if exists|name: Seq<char>| j.spec_names().contains(name) {
                    let name = choose|name: Seq<char>| j.spec_names().contains(name);
                    let (r2, k2) = choose|r2: int, k2: int|
                        valid_pair(j.spec_rounds(), r2, k2) && pair_before(
                            r2,
                            k2,
                            j.spec_round(),
                            0,
                        ) && name == image_name(r2 as nat, k2 as nat);
                    assert(round_count(j.spec_rounds(), r2) == 0);
                }
            }
            if j.spec_round() == j.spec_rounds().len() {
                lemma_skip_empty(j.spec_rounds(), 0, j.spec_rounds().len() as int);
            }
        }
        j
    }

    /// First round at or after `from` that asks for an image.
    fn seek_round(rounds: &Vec<i32>, from: usize) -> (r: usize)
        requires
            from <= rounds@.len(),
        ensures
            from <= r <= rounds@.len(),
            forall|r2: int| from <= r2 < r ==> round_count(rounds@, r2) == 0,
            r < rounds@.len() ==> round_count(rounds@, r as int) > 0,
    {
        let mut r = from;
        while r < rounds.len() && rounds[r] <= 0
            invariant
                from <= r <= rounds@.len(),
                forall|r2: int| from <= r2 < r ==> round_count(rounds@, r2) == 0,
            decreases rounds@.len() - r,
        {
            r = r + 1;
        }
        r
    }

    /// Round index of the next capture.
    pub fn round(&self) -> (r: usize)
        ensures
            r as int == self.spec_round(),
    {
        self.round
    }

    /// Image index of the next capture within its round.
    pub fn image(&self) -> (k: i32)
        ensures
            k as int == self.spec_image(),
    {
        self.image
    }

    /// Where the job stands.
    pub fn phase(&self) -> (p: JobPhase)
        ensures
            p == self.spec_phase(),
    {
        self.phase
    }

    /// What the hardware must do next.
    pub fn next_action(&self) -> (a: NextAction)
        requires
            self.wf(),
        ensures
            match a {
                NextAction::Capture { round, image, pulses, wait_for_trigger } => {
                    &&& self.spec_phase() == JobPhase::Running
                    &&& round as int == self.spec_round()
                    &&& image as int == self.spec_image()
                    &&& pulses as int == STEPS_FOR_FULL_ROTATION as int / round_count(
                        self.spec_rounds(),
                        self.spec_round(),
                    )
                    &&& wait_for_trigger == (self.spec_image() == 0)
                },
                NextAction::Idle => self.spec_phase() != JobPhase::Running,
            },
    {
        match self.phase {
            JobPhase::Running => {
                let n = self.rounds[self.round];
                NextAction::Capture {
                    round: self.round,
                    image: self.image,
                    pulses: STEPS_FOR_FULL_ROTATION / n,
                    wait_for_trigger: self.image == 0,
                }
            },
            JobPhase::Finished => NextAction::Idle,
            JobPhase::Cancelled => NextAction::Idle,
        }
    }

    /// Records that the capture at the current position completed, and moves
    /// to the next requested capture (or finishes).
    pub(crate) fn advance(&mut self)
        requires
            old(self).wf(),
            old(self).spec_phase() == JobPhase::Running,
        ensures
            final(self).wf(),
            final(self).spec_rounds() == old(self).spec_rounds(),
            final(self).spec_phase() == JobPhase::Running || final(self).spec_phase()
                == JobPhase::Finished,
            final(self).spec_captured() == old(self).spec_captured() + 1,
            final(self).spec_names() == old(self).spec_names().insert(
                image_name(old(self).spec_round() as nat, old(self).spec_image() as nat),
            ),
            final(self).spec_phase() == JobPhase::Finished ==> final(self).spec_captured()
                == total_images(final(self).spec_rounds()),
            final(self).spec_phase() == JobPhase::Running ==> (
                (final(self).spec_round() == old(self).spec_round()
                    && final(self).spec_image() == old(self).spec_image() + 1)
                || (final(self).spec_round() > old(self).spec_round()
                    && final(self).spec_image() == 0)
            ),
            forall|r3: int|
                old(self).spec_round() < r3 < final(self).spec_round() ==> round_count(
                    final(self).spec_rounds(),
                    r3,
                ) == 0,
            final(self).spec_round() >= old(self).spec_round(),
    {
        let ghost rounds = self.rounds@;
        let ghost r0 = self.round as int;
        let ghost k0 = self.image as int;
        proof {
            lemma_insert_next(rounds, r0, k0);
        }
        if self.image + 1 < self.rounds[self.round] {
            self.image = self.image + 1;
        } else {
            let len = self.rounds.len();
            proof {
                lemma_round_end(rounds, r0);
                assert(r0 < rounds.len());
            }
            let next = Self::seek_round(&self.rounds, self.round + 1);
            proof {
                lemma_skip_empty(rounds, r0 + 1, next as int);
            }
            self.round = next;
            self.image = 0;
            if next == len {
                self.phase = JobPhase::Finished;
            }
        }
    }

    /// Freezes the job after the cancellation signal was observed.
    pub(crate) fn mark_cancelled(&mut self)
        requires
            old(self).wf(),
        ensures
            final(self).wf(),
            final(self).spec_rounds() == old(self).spec_rounds(),
            final(self).spec_round() == old(self).spec_round(),
            final(self).spec_image() == old(self).spec_image(),
            final(self).spec_phase() == JobPhase::Cancelled,
    {
        self.phase = JobPhase::Cancelled;
    }
}

} // verus!
