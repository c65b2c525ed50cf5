use vstd::prelude::*;

use crate::coords::{BlockPos, FinePos, LookVec};
use crate::course::ParkourCourse;
use crate::jump::Jump;
use crate::port::Port;

verus! {

/// The classification the tracker reports for one participant and one tick.
#[derive(Clone, Copy, PartialEq, Eq, Structural, Debug)]
pub enum PlayerStateUpdate {
    /// The participant stands on the expected platform, is advancing
    /// normally, or is airborne with some remaining platform still reachable.
    OnCourse,
    /// The participant advanced by more than eight platforms in one tick;
    /// informational only, progress still advances.
    Skipped,
    /// The participant stands on a platform earlier than the confirmed one;
    /// informational only, nothing regresses.
    OnPastPlatform,
    /// The participant is airborne and no remaining platform is reachable:
    /// the collaborator layer must restore the stored checkpoint.
    TeleportedBack,
    /// The record is paused; no spatial evaluation was made.
    Paused,
}

/// Element `i` is the first whose landing volume contains `pos`, scanning the
/// timeline from its start.
pub open spec fn is_first_match(jumps: Seq<Jump>, pos: FinePos, i: int) -> bool {
    &&& 0 <= i < jumps.len()
    &&& jumps[i].endpoint.spec_on_platform(pos)
    &&& forall|m: int| 0 <= m < i ==> !(#[trigger] jumps[m]).endpoint.spec_on_platform(pos)
}

/// Some element's landing volume contains `pos`.
pub open spec fn any_match(jumps: Seq<Jump>, pos: FinePos) -> bool {
    exists|i: int| 0 <= i < jumps.len() && (#[trigger] jumps[i]).endpoint.spec_on_platform(pos)
}

/// Some element at index `from` or later is reachable from `pos` through the
/// approach cone.
pub open spec fn any_reachable_from(jumps: Seq<Jump>, pos: FinePos, from: int) -> bool {
    exists|i: int|
        from <= i < jumps.len() && (#[trigger] jumps[i]).endpoint.spec_is_reachable_from(pos)
}

/// When some element matches, a first match exists.
pub proof fn lemma_first_match_exists(jumps: Seq<Jump>, pos: FinePos, w: int)
    requires
        0 <= w < jumps.len(),
        jumps[w].endpoint.spec_on_platform(pos),
    ensures
        exists|i: int| #[trigger] is_first_match(jumps, pos, i),
    decreases w,
{
    if forall|m: int| 0 <= m < w ==> !(#[trigger] jumps[m]).endpoint.spec_on_platform(pos) {
        assert(is_first_match(jumps, pos, w));
    } else {
        let m = choose|m: int| 0 <= m < w && (#[trigger] jumps[m]).endpoint.spec_on_platform(pos);
        lemma_first_match_exists(jumps, pos, m);
    }
}

/// The first match is unique.
pub proof fn lemma_first_match_unique(jumps: Seq<Jump>, pos: FinePos, i: int, j: int)
    requires
        is_first_match(jumps, pos, i),
        is_first_match(jumps, pos, j),
    ensures
        i == j,
{
}

/// One participant's progress record: the index of the last confirmed
/// platform (monotonically non-decreasing except on explicit reset), the
/// checkpoint position and orientation used for corrective teleports, and the
/// pause flag.
pub struct PlayerOnCourse {
    pub last_platform: i32,
    pub last_valid_position: FinePos,
    pub last_valid_look: LookVec,
    pub paused: bool,
}

/// What one tracker tick computes from a record, the shared course, and the
/// participant's live position and orientation: the classification reported
/// and the record as it stands afterwards. A paused record short-circuits.
/// Otherwise the timeline is scanned from its start for the first element
/// whose landing volume contains the position: a match at the confirmed index
/// or earlier mutates nothing, while a later match confirms that index and
/// overwrites the checkpoint, reported as `Skipped` when the advance exceeds
/// eight platforms in one tick. With no match the participant is airborne: if
/// some element from the confirmed index onward is still reachable the tick
/// reports `OnCourse` and mutates nothing; otherwise it reports
/// `TeleportedBack`, again mutating nothing — restoring the participant to
/// the stored checkpoint is the collaborator layer's task.
pub open spec fn tracker_step(
    rec: PlayerOnCourse,
    jumps: Seq<Jump>,
    pos: FinePos,
    look: LookVec,
) -> (PlayerStateUpdate, PlayerOnCourse) {
    if rec.paused {
        (PlayerStateUpdate::Paused, rec)
    } else if any_match(jumps, pos) {
        let i = choose|i: int| #[trigger] is_first_match(jumps, pos, i);
        if i < rec.last_platform {
            (PlayerStateUpdate::OnPastPlatform, rec)
        } else if i == rec.last_platform {
            (PlayerStateUpdate::OnCourse, rec)
        } else {
            let advanced = PlayerOnCourse {
                last_platform: i as i32,
                last_valid_position: pos,
                last_valid_look: look,
                paused: false,
            };
            if i > rec.last_platform + 8 {
                (PlayerStateUpdate::Skipped, advanced)
            } else {
                (PlayerStateUpdate::OnCourse, advanced)
            }
        }
    } else if any_reachable_from(jumps, pos, rec.last_platform as int) {
        (PlayerStateUpdate::OnCourse, rec)
    } else {
        (PlayerStateUpdate::TeleportedBack, rec)
    }
}

impl PlayerOnCourse {
    /// The record's validity: the confirmed index is never negative.
    pub open spec fn wf(&self) -> bool {
        self.last_platform >= 0
    }

    /// Creates the record for a participant's first contact with a course
    /// starting at `start`: nothing confirmed beyond the first platform, the
    /// checkpoint at that platform's centroid, a fixed initial orientation,
    /// not paused.
    pub fn new(start: BlockPos) -> (rec: PlayerOnCourse)
        ensures
            rec.wf(),
            rec.last_platform == 0,
            rec.last_valid_position.x == start.x * 100 + 100,
            rec.last_valid_position.y == start.y * 100 + 100,
            rec.last_valid_position.z == start.z * 100 + 100,
            rec.last_valid_look == (LookVec { x: 100, y: 0, z: 0 }),
            !rec.paused,
    {
        PlayerOnCourse {
            last_platform: 0,
            last_valid_position: FinePos {
                x: (start.x as i64) * 100 + 100,
                y: (start.y as i64) * 100 + 100,
                z: (start.z as i64) * 100 + 100,
            },
            last_valid_look: LookVec { x: 100, y: 0, z: 0 },
            paused: false,
        }
    }

    /// The index of the last confirmed platform.
    pub fn current_platform(&self) -> (r: i32)
        ensures
            r == self.last_platform,
    {
        self.last_platform
    }

    /// How many platforms of the course lie at or beyond the last confirmed
    /// one.
    pub fn platforms_left(&self, course: &ParkourCourse) -> (r: i32)
        requires
            self.wf(),
            course.jumps_seq().len() <= i32::MAX,
        ensures
            r == course.jumps_seq().len() - self.last_platform,
    {
        course.len() - self.last_platform
    }

    /// Classifies the participant's position against the course for one tick
    /// and advances the record accordingly.
    pub fn update_player_state(
        &mut self,
        course: &ParkourCourse,
        pos: FinePos,
        look: LookVec,
    ) -> (r: PlayerStateUpdate)
        requires
            old(self).wf(),
            course.jumps_seq().len() <= i32::MAX,
        ensures
            final(self).wf(),
            (r, *final(self)) == tracker_step(*old(self), course.jumps_seq(), pos, look),
    {
        let ghost jumps = course.jumps_seq();
        if self.paused {
            return PlayerStateUpdate::Paused;
        }
        let n = course.jump_count();
        let last = self.last_platform;
        let mut i: usize = 0;
        while i < n
            invariant
                0 <= i <= n,
                n == jumps.len(),
                jumps == course.jumps_seq(),
                jumps.len() <= i32::MAX,
                *self == *old(self),
                self.wf(),
                !self.paused,
                last == self.last_platform,
                forall|m: int| 0 <= m < i ==> !(#[trigger] jumps[m]).endpoint.spec_on_platform(pos),
            decreases n - i,
        {
            let on = {
                let j = course.jump_at(i);
                j.endpoint.on_platform(pos)
            };
            if on {
                proof {
                    assert(is_first_match(jumps, pos, i as int));
                    let c = choose|c: int| #[trigger] is_first_match(jumps, pos, c);
                    lemma_first_match_unique(jumps, pos, c, i as int);
                }
                if i < last as usize {
                    return PlayerStateUpdate::OnPastPlatform;
                } else if i == last as usize {
                    return PlayerStateUpdate::OnCourse;
                }
                self.last_platform = i as i32;
                self.last_valid_position = pos;
                self.last_valid_look = look;
                if i > last as usize + 8 {
                    return PlayerStateUpdate::Skipped;
                }
                return PlayerStateUpdate::OnCourse;
            }
            i = i + 1;
        }
        proof {
            assert(!any_match(jumps, pos));
        }
        let mut k: usize = last as usize;
        while k < n
            invariant
                last <= k,
                n == jumps.len(),
                jumps == course.jumps_seq(),
                jumps.len() <= i32::MAX,
                *self == *old(self),
                self.wf(),
                !self.paused,
                last == self.last_platform,
                !any_match(jumps, pos),
                forall|m: int|
                    last <= m < k ==> !(#[trigger] jumps[m]).endpoint.spec_is_reachable_from(pos),
            decreases n - k,
        {
            let reachable = {
                let j = course.jump_at(k);
                j.endpoint.is_reachable_from(pos)
            };
            if reachable {
                return PlayerStateUpdate::OnCourse;
            }
            k = k + 1;
        }
        PlayerStateUpdate::TeleportedBack
    }

    /// Explicit reset: nothing is confirmed beyond the first platform again,
    /// and the checkpoint returns to the course's start anchor. The
    /// collaborator layer moves the participant there at the same time.
    pub fn reset(&mut self, start: BlockPos)
        ensures
            final(self).wf(),
            final(self).last_platform == 0,
            final(self).last_valid_position.x == start.x * 100 + 100,
            final(self).last_valid_position.y == start.y * 100 + 100,
            final(self).last_valid_position.z == start.z * 100 + 100,
            final(self).last_valid_look == (LookVec { x: 100, y: 0, z: 0 }),
            !final(self).paused,
    {
        *self = PlayerOnCourse::new(start);
    }

    /// The stored checkpoint: the position and orientation a corrective
    /// teleport restores.
    pub fn to_last_checkpoint(&self) -> (r: (FinePos, LookVec))
        ensures
            r.0 == self.last_valid_position,
            r.1 == self.last_valid_look,
    {
        (self.last_valid_position, self.last_valid_look)
    }

    /// Pauses the record: subsequent ticks short-circuit without spatial
    /// evaluation.
    pub fn pause(&mut self)
        ensures
            final(self).paused,
            final(self).last_platform == old(self).last_platform,
            final(self).last_valid_position == old(self).last_valid_position,
            final(self).last_valid_look == old(self).last_valid_look,
    {
        self.paused = true;
    }

    /// Resumes the record. The collaborator layer restores the participant to
    /// the stored checkpoint at the same time, so a participant who paused
    /// mid-air resumes on solid ground.
    pub fn resume(&mut self)
        ensures
            !final(self).paused,
            final(self).last_platform == old(self).last_platform,
            final(self).last_valid_position == old(self).last_valid_position,
            final(self).last_valid_look == old(self).last_valid_look,
    {
        self.paused = false;
    }
}

/// The record's checkpoint lies on some element's landing volume.
pub open spec fn checkpoint_on_course(rec: PlayerOnCourse, jumps: Seq<Jump>) -> bool {
    exists|i: int|
        0 <= i < jumps.len() && (#[trigger] jumps[i]).endpoint.spec_on_platform(
            rec.last_valid_position,
        )
}

/// A fresh record's checkpoint lies on the course's first platform.
pub proof fn lemma_start_checkpoint_valid(rec: PlayerOnCourse, jumps: Seq<Jump>, start: BlockPos)
    requires
        jumps.len() >= 1,
        jumps[0].endpoint == Port::TwoByTwo(start),
        rec.last_valid_position.x == start.x * 100 + 100,
        rec.last_valid_position.y == start.y * 100 + 100,
        rec.last_valid_position.z == start.z * 100 + 100,
    ensures
        checkpoint_on_course(rec, jumps),
{
    assert(jumps[0].endpoint.spec_on_platform(rec.last_valid_position));
}

/// *Tracker idempotence law.* When the participant stands exactly on the
/// confirmed platform, a tick reports `OnCourse` and changes nothing, and so
/// does a second tick with the same inputs.
pub proof fn lemma_tracker_idempotence(
    rec: PlayerOnCourse,
    jumps: Seq<Jump>,
    pos: FinePos,
    look: LookVec,
)
    requires
        !rec.paused,
        is_first_match(jumps, pos, rec.last_platform as int),
    ensures
        tracker_step(rec, jumps, pos, look) == (PlayerStateUpdate::OnCourse, rec),
        tracker_step(tracker_step(rec, jumps, pos, look).1, jumps, pos, look) == (
            PlayerStateUpdate::OnCourse,
            rec,
        ),
{
    let i = rec.last_platform as int;
    assert(any_match(jumps, pos));
    let c = choose|c: int| #[trigger] is_first_match(jumps, pos, c);
    lemma_first_match_unique(jumps, pos, c, i);
}

/// A tracker tick preserves the checkpoint's validity: the checkpoint is
/// either kept or overwritten with a position that itself lies on some
/// element's landing volume.
pub proof fn lemma_tracker_preserves_checkpoint(
    rec: PlayerOnCourse,
    jumps: Seq<Jump>,
    pos: FinePos,
    look: LookVec,
)
    requires
        checkpoint_on_course(rec, jumps),
    ensures
        checkpoint_on_course(tracker_step(rec, jumps, pos, look).1, jumps),
{
    let post = tracker_step(rec, jumps, pos, look).1;
    if post.last_valid_position != rec.last_valid_position {
        assert(any_match(jumps, pos));
        let w = choose|w: int|
            0 <= w < jumps.len() && (#[trigger] jumps[w]).endpoint.spec_on_platform(pos);
        lemma_first_match_exists(jumps, pos, w);
        let c = choose|c: int| #[trigger] is_first_match(jumps, pos, c);
        assert(jumps[c].endpoint.spec_on_platform(pos));
        assert(post.last_valid_position == pos);
    }
}

/// Committing one more element to the course preserves every record's
/// checkpoint validity.
pub proof fn lemma_commit_preserves_checkpoint(
    rec: PlayerOnCourse,
    pre: Seq<Jump>,
    post: Seq<Jump>,
)
    requires
        checkpoint_on_course(rec, pre),
        crate::course::commit_step(pre, post),
    ensures
        checkpoint_on_course(rec, post),
{
    let i = choose|i: int|
        0 <= i < pre.len() && (#[trigger] pre[i]).endpoint.spec_on_platform(
            rec.last_valid_position,
        );
    assert(pre[i] == post.take(pre.len() as int)[i]);
    assert(post.take(pre.len() as int)[i] == post[i]);
    assert(post[i].endpoint.spec_on_platform(rec.last_valid_position));
}

/// *Checkpoint safety law.* From any position the tracker judges off course
/// (airborne and unreachable), the corrective teleport restores the stored
/// checkpoint, and that checkpoint lies on some element's landing volume.
pub proof fn lemma_checkpoint_safety(
    rec: PlayerOnCourse,
    jumps: Seq<Jump>,
    pos: FinePos,
    look: LookVec,
)
    requires
        checkpoint_on_course(rec, jumps),
        tracker_step(rec, jumps, pos, look).0 == PlayerStateUpdate::TeleportedBack,
    ensures
        tracker_step(rec, jumps, pos, look).1.last_valid_position == rec.last_valid_position,
        exists|i: int|
            0 <= i < jumps.len() && (#[trigger] jumps[i]).endpoint.spec_on_platform(
                tracker_step(rec, jumps, pos, look).1.last_valid_position,
            ),
{
}

} // verus!
