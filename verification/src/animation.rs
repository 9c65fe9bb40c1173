//! Poses: picking the idle pose of a character class and putting its parts
//! in drawing order.

use vstd::prelude::*;
use crate::assets::AnimationSprite;
use crate::assets::Animations;

verus! {

/// `sorted` with `frame` put in behind the last part whose `z` is not larger.
pub open spec fn inserted(sorted: Seq<AnimationSprite>, frame: AnimationSprite) -> Seq<
    AnimationSprite,
>
    decreases sorted.len(),
{
    if sorted.len() == 0 {
        seq![frame]
    } else if sorted.last().z <= frame.z {
        sorted.push(frame)
    } else {
        inserted(sorted.drop_last(), frame).push(sorted.last())
    }
}

/// The parts by ascending `z`; parts of equal `z` keep their order.
pub open spec fn stable_sorted(frames: Seq<AnimationSprite>) -> Seq<AnimationSprite>
    decreases frames.len(),
{
    if frames.len() == 0 {
        Seq::empty()
    } else {
        inserted(stable_sorted(frames.drop_last()), frames.last())
    }
}

/// Whether the parts stand by ascending `z`.
pub open spec fn ordered(frames: Seq<AnimationSprite>) -> bool {
    forall|i: int, j: int| 0 <= i < j < frames.len() ==> frames[i].z <= frames[j].z
}

/// Putting a part in at the place where the smaller ones end is `inserted`.
proof fn lemma_inserted_at(sorted: Seq<AnimationSprite>, frame: AnimationSprite, at: int)
    requires
        0 <= at <= sorted.len(),
        at > 0 ==> sorted[at - 1].z <= frame.z,
        forall|k: int| at <= k < sorted.len() ==> sorted[k].z > frame.z,
    ensures
        inserted(sorted, frame) == sorted.insert(at, frame),
    decreases sorted.len(),
{
    if at < sorted.len() {
        lemma_inserted_at(sorted.drop_last(), frame, at);
        assert(sorted.insert(at, frame) =~= sorted.drop_last().insert(at, frame).push(
            sorted.last(),
        ));
    }
}

/// Putting a part into ordered parts keeps them ordered, adds that part and
/// moves no other past another.
pub proof fn lemma_inserted(sorted: Seq<AnimationSprite>, frame: AnimationSprite)
    requires
        ordered(sorted),
    ensures
        ordered(inserted(sorted, frame)),
        inserted(sorted, frame).to_multiset() == sorted.to_multiset().insert(frame),
        exists|at: int| 0 <= at <= sorted.len() && inserted(sorted, frame) == sorted.insert(at, frame),
    decreases sorted.len(),
{
    broadcast use vstd::seq_lib::group_to_multiset_ensures;

    if sorted.len() == 0 {
        assert(seq![frame] =~= sorted.insert(0, frame));
    } else if sorted.last().z <= frame.z {
        assert(sorted.push(frame) =~= sorted.insert(sorted.len() as int, frame));
    } else {
        let front = sorted.drop_last();
        lemma_inserted(front, frame);
        let at = choose|at: int| 0 <= at <= front.len() && inserted(front, frame) == front.insert(at, frame);
        let out = inserted(sorted, frame);
        assert(out =~= sorted.insert(at, frame));
    }
}

/// The sorted parts are ordered, and they are the parts that were given.
pub proof fn lemma_stable_sorted(frames: Seq<AnimationSprite>)
    ensures
        ordered(stable_sorted(frames)),
        stable_sorted(frames).to_multiset() == frames.to_multiset(),
        stable_sorted(frames).len() == frames.len(),
    decreases frames.len(),
{
    broadcast use vstd::seq_lib::group_to_multiset_ensures;

    if frames.len() > 0 {
        lemma_stable_sorted(frames.drop_last());
        lemma_inserted(stable_sorted(frames.drop_last()), frames.last());
        assert(frames =~= frames.drop_last().push(frames.last()));
    }
}

/// A copy of a part.
pub fn copy_frame(frame: &AnimationSprite) -> (r: AnimationSprite)
    ensures
        r == *frame,
{
    AnimationSprite {
        texture: frame.texture.clone(),
        position: frame.position,
        scale: frame.scale,
        rotation: frame.rotation,
        flipped: frame.flipped,
        z: frame.z,
    }
}

/// The parts of a pose in drawing order: by ascending `z`, parts of equal
/// `z` in the order in which they were given.
pub fn sort_by_z(frames: &Vec<AnimationSprite>) -> (r: Vec<AnimationSprite>)
    ensures
        r@ == stable_sorted(frames@),
{
    let n = frames.len();
    let mut sorted: Vec<AnimationSprite> = Vec::new();
    let mut i: usize = 0;
    while i < n
        invariant
            n == frames@.len(),
            i <= n,
            sorted@ == stable_sorted(frames@.take(i as int)),
            sorted@.len() == i,
        decreases n - i,
    {
        let frame = copy_frame(&frames[i]);
        let mut at: usize = sorted.len();
        while at > 0 && sorted[at - 1].z > frame.z
            invariant
                at <= sorted@.len(),
                forall|k: int| at <= k < sorted@.len() ==> sorted@[k].z > frame.z,
            decreases at,
        {
            at = at - 1;
        }
        proof {
            lemma_inserted_at(sorted@, frame, at as int);
            assert(frames@.take(i + 1).drop_last() =~= frames@.take(i as int));
        }
        sorted.insert(at, frame);
        i = i + 1;
    }
    assert(frames@.take(n as int) =~= frames@);
    sorted
}

/// The poses by name; of two poses under one name the later counts.
pub open spec fn track_map(tracks: Seq<(String, Vec<AnimationSprite>)>) -> Map<
    Seq<char>,
    Seq<AnimationSprite>,
>
    decreases tracks.len(),
{
    if tracks.len() == 0 {
        Map::empty()
    } else {
        track_map(tracks.drop_last()).insert(tracks.last().0@, tracks.last().1@)
    }
}

/// Poses behind place `from` that are not under `name` do not matter to what is under `name`.
pub proof fn lemma_track_map_tail(
    tracks: Seq<(String, Vec<AnimationSprite>)>,
    name: Seq<char>,
    from: int,
)
    requires
        0 <= from <= tracks.len(),
        forall|j: int| from <= j < tracks.len() ==> (#[trigger] tracks[j]).0@ != name,
    ensures
        track_map(tracks).contains_key(name) == track_map(tracks.take(from)).contains_key(name),
        track_map(tracks).contains_key(name) ==> track_map(tracks)[name] == track_map(
            tracks.take(from),
        )[name],
    decreases tracks.len(),
{
    if from == tracks.len() {
        assert(tracks.take(from) =~= tracks);
    } else {
        lemma_track_map_tail(tracks.drop_last(), name, from);
        assert(tracks.drop_last().take(from) =~= tracks.take(from));
    }
}

impl View for Animations {
    type V = Map<Seq<char>, Seq<AnimationSprite>>;

    open spec fn view(&self) -> Map<Seq<char>, Seq<AnimationSprite>> {
        track_map(self.tracks@)
    }
}

/// The idle pose: the robot's if there is one, else the spider's.
pub open spec fn idle_track(animations: Animations) -> Option<Seq<AnimationSprite>> {
    if animations@.contains_key("Robot_idle_001.png"@) {
        Some(animations@["Robot_idle_001.png"@])
    } else if animations@.contains_key("Spider_idle_001.png"@) {
        Some(animations@["Spider_idle_001.png"@])
    } else {
        None
    }
}

impl Animations {
    /// The place of the pose of the given name, if there is one.
    pub fn find(&self, name: &str) -> (r: Option<usize>)
        ensures
            match r {
                Some(i) => i < self.tracks@.len() && self@.contains_key(name@) && self@[name@]
                    == self.tracks@[i as int].1@,
                None => !self@.contains_key(name@),
            },
    {
        let wanted = String::from_str(name);
        let mut i: usize = self.tracks.len();
        while i > 0
            invariant
                i <= self.tracks@.len(),
                wanted@ == name@,
                forall|j: int| i <= j < self.tracks@.len() ==> (#[trigger] self.tracks@[j]).0@ != name@,
            decreases i,
        {
            i = i - 1;
            if self.tracks[i].0 == wanted {
                proof {
                    lemma_track_map_tail(self.tracks@, name@, i + 1);
                }
                return Some(i);
            }
        }
        proof {
            lemma_track_map_tail(self.tracks@, name@, 0);
        }
        None
    }

    /// The place of the idle pose, if there is one.
    pub fn find_idle(&self) -> (r: Option<usize>)
        ensures
            match r {
                Some(i) => i < self.tracks@.len() && idle_track(*self) == Some(
                    self.tracks@[i as int].1@,
                ),
                None => idle_track(*self).is_none(),
            },
    {
        match self.find("Robot_idle_001.png") {
            Some(i) => Some(i),
            None => self.find("Spider_idle_001.png"),
        }
    }
}

/// The parts whose `z` is the given one, in their order.
pub open spec fn with_z(frames: Seq<AnimationSprite>, z: i32) -> Seq<AnimationSprite>
    decreases frames.len(),
{
    if frames.len() == 0 {
        Seq::empty()
    } else if frames.last().z == z {
        with_z(frames.drop_last(), z).push(frames.last())
    } else {
        with_z(frames.drop_last(), z)
    }
}

/// A part that is put in comes behind the parts of its own `z`, and leaves
/// the parts of every other `z` as they were.
pub proof fn lemma_inserted_with_z(sorted: Seq<AnimationSprite>, frame: AnimationSprite, z: i32)
    ensures
        with_z(inserted(sorted, frame), z) == if frame.z == z {
            with_z(sorted, z).push(frame)
        } else {
            with_z(sorted, z)
        },
    decreases sorted.len(),
{
    if sorted.len() == 0 {
        assert(seq![frame].drop_last() =~= sorted);
    } else if sorted.last().z <= frame.z {
        assert(sorted.push(frame).drop_last() =~= sorted);
    } else {
        let front = inserted(sorted.drop_last(), frame);
        lemma_inserted_with_z(sorted.drop_last(), frame, z);
        assert(front.push(sorted.last()).drop_last() =~= front);
    }
}

/// Sorting is stable: the parts of any one `z` stand in the order in which
/// they were given.
pub proof fn lemma_sort_is_stable(frames: Seq<AnimationSprite>, z: i32)
    ensures
        with_z(stable_sorted(frames), z) == with_z(frames, z),
    decreases frames.len(),
{
    if frames.len() > 0 {
        lemma_sort_is_stable(frames.drop_last(), z);
        lemma_inserted_with_z(stable_sorted(frames.drop_last()), frames.last(), z);
    }
}

} // verus!
