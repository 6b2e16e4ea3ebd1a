//! The sprite manifest: which row of the sheet holds which animation, how many
//! frames it has, how fast it plays and whether it loops.
//!
//! Every sprite variant shares this one layout; the variants differ only in
//! what is drawn inside a frame.

use vstd::prelude::*;

use crate::text::str_eq;

verus! {

#[derive(Debug, Clone, Copy, PartialEq, Eq)]
pub struct Animation {
    pub name: &'static str,
    /// Row of the sheet, counted from the top.
    pub row: i32,
    pub frames: usize,
    /// Frames per second.
    pub fps: u32,
    pub looping: bool,
}

#[derive(Debug)]
pub struct Manifest {
    pub frame_width: i32,
    pub frame_height: i32,
    pub animations: Vec<Animation>,
}

/// The largest frame count, row index and frame edge a manifest may declare.
pub const MAX_FRAMES: usize = 1000;

pub const MAX_ROW: i32 = 1000;

pub const MAX_FRAME_EDGE: i32 = 4096;

impl Animation {
    pub open spec fn wf(self) -> bool {
        &&& 1 <= self.frames <= MAX_FRAMES
        &&& 1 <= self.fps
        &&& 0 <= self.row <= MAX_ROW
    }
}

impl Manifest {
    /// Frames are of a sane size, every animation is well formed, and no two
    /// animations share a name.
    pub open spec fn wf(self) -> bool {
        &&& 1 <= self.frame_width <= MAX_FRAME_EDGE
        &&& 1 <= self.frame_height <= MAX_FRAME_EDGE
        &&& forall|i: int| 0 <= i < self.animations@.len() ==> (#[trigger] self.animations@[i]).wf()
        &&& forall|i: int, j: int|
            0 <= i < j < self.animations@.len() ==> (#[trigger] self.animations@[i]).name@
                != (#[trigger] self.animations@[j]).name@
    }

    pub open spec fn has(self, name: Seq<char>) -> bool {
        exists|i: int| 0 <= i < self.animations@.len() && (#[trigger] self.animations@[i]).name@ == name
    }

    /// The animation called `name`, if the manifest has one.
    pub open spec fn get_spec(self, name: Seq<char>) -> Option<Animation> {
        if self.has(name) {
            let i = choose|i: int|
                0 <= i < self.animations@.len() && (#[trigger] self.animations@[i]).name@ == name;
            Some(self.animations@[i])
        } else {
            None
        }
    }

    /// The layout every sheet is drawn to: 64x64 frames, one animation per row.
    pub fn embedded() -> (m: Manifest)
        ensures
            m.wf(),
            m.frame_width == 64,
            m.frame_height == 64,
            m.animations@.len() == 8,
            m.animations@[0] == (Animation { name: "sleep", row: 0, frames: 4, fps: 3, looping: true }),
            m.animations@[1] == (Animation { name: "walk", row: 1, frames: 8, fps: 10, looping: true }),
            m.animations@[2] == (Animation { name: "scuttle", row: 2, frames: 8, fps: 18, looping: true }),
            m.animations@[3] == (Animation { name: "creep", row: 3, frames: 8, fps: 5, looping: true }),
            m.animations@[4] == (Animation { name: "think", row: 4, frames: 6, fps: 5, looping: true }),
            m.animations@[5] == (Animation { name: "wave", row: 5, frames: 6, fps: 8, looping: true }),
            m.animations@[6] == (Animation {
                name: "celebrate",
                row: 6,
                frames: 8,
                fps: 12,
                looping: false,
            }),
            m.animations@[7] == (Animation { name: "tumble", row: 7, frames: 10, fps: 12, looping: false }),
    {
        let mut animations: Vec<Animation> = Vec::new();
        animations.push(Animation { name: "sleep", row: 0, frames: 4, fps: 3, looping: true });
        animations.push(Animation { name: "walk", row: 1, frames: 8, fps: 10, looping: true });
        animations.push(Animation { name: "scuttle", row: 2, frames: 8, fps: 18, looping: true });
        animations.push(Animation { name: "creep", row: 3, frames: 8, fps: 5, looping: true });
        animations.push(Animation { name: "think", row: 4, frames: 6, fps: 5, looping: true });
        animations.push(Animation { name: "wave", row: 5, frames: 6, fps: 8, looping: true });
        animations.push(
            Animation { name: "celebrate", row: 6, frames: 8, fps: 12, looping: false },
        );
        animations.push(Animation { name: "tumble", row: 7, frames: 10, fps: 12, looping: false });
        let m = Manifest { frame_width: 64, frame_height: 64, animations };
        proof {
            reveal_strlit("sleep");
            reveal_strlit("walk");
            reveal_strlit("scuttle");
            reveal_strlit("creep");
            reveal_strlit("think");
            reveal_strlit("wave");
            reveal_strlit("celebrate");
            reveal_strlit("tumble");
            assert forall|i: int, j: int|
                0 <= i < j < m.animations@.len() implies (#[trigger] m.animations@[i]).name@
                != (#[trigger] m.animations@[j]).name@ by {
                let a = m.animations@[i].name@;
                let b = m.animations@[j].name@;
                if a.len() == b.len() {
                    assert(a[0] != b[0] || a[2] != b[2]);
                }
            }
        }
        m
    }

    /// Look an animation up by name.
    pub fn get(&self, name: &str) -> (r: Option<&Animation>)
        requires
            self.wf(),
        ensures
            match r {
                Some(a) => self.get_spec(name@) == Some(*a) && a.name@ == name@ && a.wf(),
                None => self.get_spec(name@) is None,
            },
    {
        let mut i: usize = 0;
        while i < self.animations.len()
            invariant
                i <= self.animations@.len(),
                self.wf(),
                forall|j: int| 0 <= j < i ==> (#[trigger] self.animations@[j]).name@ != name@,
            decreases self.animations@.len() - i,
        {
            if str_eq(self.animations[i].name, name) {
                proof {
                    let k = choose|k: int|
                        0 <= k < self.animations@.len() && (#[trigger] self.animations@[k]).name@
                            == name@;
                    if k != i as int {
                        assert(self.animations@[k].name@ == self.animations@[i as int].name@);
                    }
                }
                return Some(&self.animations[i]);
            }
            i += 1;
        }
        None
    }

    /// Every animation's name, in manifest order.
    pub fn names(&self) -> (r: Vec<&'static str>)
        ensures
            r@.len() == self.animations@.len(),
            forall|i: int| 0 <= i < r@.len() ==> #[trigger] r@[i] == self.animations@[i].name,
    {
        let mut r: Vec<&'static str> = Vec::new();
        let mut i: usize = 0;
        while i < self.animations.len()
            invariant
                i <= self.animations@.len(),
                r@.len() == i,
                forall|j: int| 0 <= j < i ==> #[trigger] r@[j] == self.animations@[j].name,
            decreases self.animations@.len() - i,
        {
            r.push(self.animations[i].name);
            i += 1;
        }
        r
    }
}

} // verus!
