//! Maps tracker state to an animation, and plays animations frame by frame.
//!
//! This is the only place that knows what "Bash means scuttle" implies. Where
//! the crab stands on the strip is measured in fractional pixels and kept by
//! the caller; what it decides from that (is it at its corner?) comes in as
//! a flag, and how it should move goes out as a `Movement`.

use vstd::prelude::*;

use crate::config::Reactions;
use crate::sprites::{Animation, Manifest, MAX_FRAMES};
use crate::text::str_eq;
use crate::tracker::State;

verus! {

/// Pixels per second for each gait.
pub const SPEED_WALK: u32 = 60;

pub const SPEED_SCUTTLE: u32 = 150;

pub const SPEED_CREEP: u32 = 24;

pub open spec fn gait_spec(tool_flavour: bool, name: Seq<char>) -> Seq<char> {
    if !tool_flavour {
        "walk"@
    } else if name == "Bash"@ || name == "BashOutput"@ {
        "scuttle"@
    } else if name == "Edit"@ || name == "Write"@ || name == "NotebookEdit"@ {
        "creep"@
    } else if name == "Read"@ || name == "Grep"@ || name == "Glob"@ {
        "walk"@
    } else if name.len() == 0 {
        // Between tools: the model itself is working.
        "think"@
    } else {
        "walk"@
    }
}

/// The gait for the tool in use. With tool flavour off every tool walks.
pub fn gait_for_tool(tool_flavour: bool, name: &str) -> (g: &'static str)
    ensures
        g@ == gait_spec(tool_flavour, name@),
{
    if !tool_flavour {
        return "walk";
    }
    if str_eq(name, "Bash") || str_eq(name, "BashOutput") {
        "scuttle"
    } else if str_eq(name, "Edit") || str_eq(name, "Write") || str_eq(name, "NotebookEdit") {
        "creep"
    } else if str_eq(name, "Read") || str_eq(name, "Grep") || str_eq(name, "Glob") {
        "walk"
    } else if name.is_empty() {
        "think"
    } else {
        "walk"
    }
}

pub open spec fn speed_spec(gait: Seq<char>) -> int {
    if gait == "scuttle"@ {
        SPEED_SCUTTLE as int
    } else if gait == "creep"@ {
        SPEED_CREEP as int
    } else if gait == "walk"@ {
        SPEED_WALK as int
    } else {
        0
    }
}

/// Pixels per second for a gait; zero for anything that stands still.
pub fn speed_for(gait: &str) -> (s: u32)
    ensures
        s == speed_spec(gait@),
{
    if str_eq(gait, "scuttle") {
        SPEED_SCUTTLE
    } else if str_eq(gait, "creep") {
        SPEED_CREEP
    } else if str_eq(gait, "walk") {
        SPEED_WALK
    } else {
        0
    }
}

pub open spec fn base_spec(state: State, reactions: Reactions, tool: Seq<char>, at_corner: bool) -> Seq<
    char,
> {
    match state {
        State::WaitingInput => if reactions.waiting {
            "wave"@
        } else {
            "think"@
        },
        State::Working => gait_spec(reactions.tool_flavour, tool),
        State::Idle => if at_corner {
            "sleep"@
        } else {
            "walk"@
        },
    }
}

/// The animation the crab should be showing, ignoring reactions: waving while
/// it waits for the user, the tool's gait while working, and asleep at its
/// corner (walking there until it arrives) while idle.
pub fn base_animation(state: State, reactions: &Reactions, tool: &str, at_corner: bool) -> (a:
    &'static str)
    ensures
        a@ == base_spec(state, *reactions, tool@, at_corner),
{
    match state {
        State::WaitingInput => if reactions.waiting {
            "wave"
        } else {
            "think"
        },
        State::Working => gait_for_tool(reactions.tool_flavour, tool),
        State::Idle => if at_corner {
            "sleep"
        } else {
            "walk"
        },
    }
}

/// How the crab moves this frame.
#[derive(Debug, Clone, Copy, PartialEq, Eq, Structural)]
pub enum Movement {
    /// It stays where it is.
    Still,
    /// It walks towards its sleeping corner and settles there.
    ToCorner,
    /// It patrols the strip at this many pixels per second, bouncing off
    /// both ends.
    Patrol(u32),
}

pub open spec fn movement_spec(
    held: bool,
    reacting: bool,
    state: State,
    reactions: Reactions,
    tool: Seq<char>,
) -> Movement {
    if held || reacting || state == State::WaitingInput {
        Movement::Still
    } else if state == State::Idle {
        Movement::ToCorner
    } else {
        let speed = speed_spec(gait_spec(reactions.tool_flavour, tool));
        if speed == 0 {
            Movement::Still
        } else {
            Movement::Patrol(speed as u32)
        }
    }
}

/// Grabbed, reacting or waiting: the crab stays put. Idle: it heads for its
/// corner. Working: it patrols at its gait's speed, or stays planted while
/// thinking.
pub fn movement(held: bool, reacting: bool, state: State, reactions: &Reactions, tool: &str) -> (m:
    Movement)
    ensures
        m == movement_spec(held, reacting, state, *reactions, tool@),
{
    if held || reacting || state == State::WaitingInput {
        return Movement::Still;
    }
    if state == State::Idle {
        return Movement::ToCorner;
    }
    let gait = gait_for_tool(reactions.tool_flavour, tool);
    let speed = speed_for(gait);
    if speed == 0 {
        Movement::Still
    } else {
        Movement::Patrol(speed)
    }
}

/// The most frames one tick may advance: a long stall must not turn into a
/// long catch-up loop.
pub fn catch_up_budget(frames: usize) -> (b: usize)
    requires
        frames <= usize::MAX / 2,
    ensures
        b == 2 * (if frames == 0 { 1 } else { frames as int }),
{
    if frames == 0 {
        2
    } else {
        frames * 2
    }
}

/// Where an animation of `frames` frames stands after `due` more frame
/// steps from `frame`, and whether a one-shot has run out: a loop wraps
/// round, a one-shot stops on its last frame.
pub open spec fn advanced(frame: int, frames: int, looping: bool, due: int) -> (int, bool) {
    if looping {
        ((frame + due) % frames, false)
    } else if frame + due < frames {
        (frame + due, false)
    } else {
        (frames - 1, true)
    }
}

proof fn lemma_mod_step(x: int, n: int)
    requires
        n >= 1,
        x >= 0,
    ensures
        (x + 1) % n == (if x % n + 1 < n { x % n + 1 } else { 0 }),
{
    vstd::arithmetic::div_mod::lemma_fundamental_div_mod(x, n);
    vstd::arithmetic::div_mod::lemma_mod_pos_bound(x, n);
    let q = x / n;
    let r = x % n;
    assert(x + 1 == q * n + (r + 1)) by (nonlinear_arith)
        requires
            x == n * q + r,
    ;
    if r + 1 < n {
        vstd::arithmetic::div_mod::lemma_fundamental_div_mod_converse(x + 1, n, q, r + 1);
    } else {
        assert(x + 1 == (q + 1) * n + 0) by (nonlinear_arith)
            requires
                x + 1 == q * n + (r + 1),
                r + 1 == n,
        ;
        vstd::arithmetic::div_mod::lemma_fundamental_div_mod_converse(x + 1, n, q + 1, 0);
    }
}

/// The animation clock: which animation is on screen, at which frame, and
/// the one-shot reaction playing, if any.
pub struct Animator {
    manifest: Manifest,
    reaction: Option<&'static str>,
    current: &'static str,
    frame: usize,
    exhausted: bool,
}

impl Animator {
    pub closed spec fn manifest_spec(&self) -> Manifest {
        self.manifest
    }

    /// The reaction playing, if any.
    pub closed spec fn reaction_spec(&self) -> Option<Seq<char>> {
        match self.reaction {
            Some(n) => Some(n@),
            None => None,
        }
    }

    /// The animation on screen.
    pub closed spec fn current_spec(&self) -> Seq<char> {
        self.current@
    }

    pub closed spec fn frame_spec(&self) -> int {
        self.frame as int
    }

    /// A one-shot animation has reached its end.
    pub closed spec fn exhausted_spec(&self) -> bool {
        self.exhausted
    }

    /// The manifest is well formed, a reaction is always one of its
    /// animations, and the frame is within the animation on screen (frame 0
    /// when that is not in the manifest).
    pub closed spec fn wf(&self) -> bool {
        &&& self.manifest.wf()
        &&& self.reaction matches Some(n) ==> self.manifest.has(n@)
        &&& match self.manifest.get_spec(self.current@) {
            Some(a) => self.frame < a.frames,
            None => self.frame == 0,
        }
    }

    pub fn new(manifest: Manifest) -> (a: Animator)
        requires
            manifest.wf(),
        ensures
            a.wf(),
            a.manifest_spec() == manifest,
            a.reaction_spec() is None,
            a.current_spec() == ""@,
            a.frame_spec() == 0,
            !a.exhausted_spec(),
    {
        let a = Animator { manifest, reaction: None, current: "", frame: 0, exhausted: false };
        proof {
            if a.manifest.get_spec(a.current@) is Some {
                let i = choose|i: int|
                    0 <= i < a.manifest.animations@.len() && (#[trigger] a.manifest.animations@[i]).name@
                        == ""@;
                assert(a.manifest.animations@[i].wf());
            }
        }
        a
    }

    pub fn manifest(&self) -> (m: &Manifest)
        ensures
            *m == self.manifest_spec(),
    {
        &self.manifest
    }

    pub fn reaction(&self) -> (r: Option<&'static str>)
        ensures
            match r {
                Some(n) => self.reaction_spec() == Some(n@),
                None => self.reaction_spec() is None,
            },
    {
        self.reaction
    }

    /// Start a one-shot reaction. Unknown names are refused rather than
    /// leaving the crab stuck on an animation that will never finish.
    pub fn play_reaction(&mut self, name: &str)
        requires
            old(self).wf(),
        ensures
            final(self).wf(),
            final(self).manifest_spec() == old(self).manifest_spec(),
            final(self).current_spec() == old(self).current_spec(),
            final(self).frame_spec() == old(self).frame_spec(),
            final(self).exhausted_spec() == old(self).exhausted_spec(),
            final(self).reaction_spec() == (if old(self).manifest_spec().has(name@) {
                Some(name@)
            } else {
                old(self).reaction_spec()
            }),
    {
        match self.manifest.get(name) {
            Some(anim) => {
                self.reaction = Some(anim.name);
                proof {
                    let i = choose|i: int|
                        0 <= i < self.manifest.animations@.len()
                            && (#[trigger] self.manifest.animations@[i]).name@ == name@;
                }
            },
            None => {},
        }
    }

    /// The animation actually on screen given the `base` one: a reaction if
    /// one is playing.
    pub fn active_animation(&self, base: &'static str) -> (a: &'static str)
        ensures
            a@ == match self.reaction_spec() {
                Some(n) => n,
                None => base@,
            },
    {
        match self.reaction {
            Some(name) => name,
            None => base,
        }
    }

    /// Put `wanted` on screen. Switching restarts it from frame 0, otherwise
    /// a one-shot re-triggered while already showing would never finish
    /// again. Returns whether it switched.
    pub fn sync(&mut self, wanted: &'static str) -> (switched: bool)
        requires
            old(self).wf(),
        ensures
            final(self).wf(),
            switched == (wanted@ != old(self).current_spec()),
            final(self).manifest_spec() == old(self).manifest_spec(),
            final(self).reaction_spec() == old(self).reaction_spec(),
            final(self).current_spec() == wanted@,
            switched ==> final(self).frame_spec() == 0 && !final(self).exhausted_spec(),
            !switched ==> final(self).frame_spec() == old(self).frame_spec()
                && final(self).exhausted_spec() == old(self).exhausted_spec(),
    {
        if str_eq(wanted, self.current) {
            return false;
        }
        self.current = wanted;
        self.frame = 0;
        self.exhausted = false;
        proof {
            if let Some(a) = self.manifest.get_spec(self.current@) {
                let i = choose|i: int|
                    0 <= i < self.manifest.animations@.len()
                        && (#[trigger] self.manifest.animations@[i]).name@ == self.current@;
                assert(self.manifest.animations@[i].wf());
            }
        }
        true
    }

    /// The animation on screen, if the manifest has it.
    pub fn current_animation(&self) -> (a: Option<&Animation>)
        requires
            self.wf(),
        ensures
            match a {
                Some(a) => self.manifest_spec().get_spec(self.current_spec()) == Some(*a) && a.wf(),
                None => self.manifest_spec().get_spec(self.current_spec()) is None,
            },
    {
        self.manifest.get(self.current)
    }

    pub fn is_exhausted(&self) -> (r: bool)
        ensures
            r == self.exhausted_spec(),
    {
        self.exhausted
    }

    pub fn frame_index(&self) -> (r: usize)
        ensures
            r == self.frame_spec(),
    {
        self.frame
    }

    /// Step the animation on screen `due` frames on. A loop wraps round; a
    /// one-shot stops on its last frame, and when it is the reaction playing,
    /// that reaction ends and releases the crab. Nothing moves once a
    /// one-shot has run out, or while the animation is not in the manifest.
    pub fn advance(&mut self, due: usize)
        requires
            old(self).wf(),
        ensures
            final(self).wf(),
            final(self).manifest_spec() == old(self).manifest_spec(),
            final(self).current_spec() == old(self).current_spec(),
            match old(self).manifest_spec().get_spec(old(self).current_spec()) {
                Some(a) => if old(self).exhausted_spec() {
                    final(self).frame_spec() == old(self).frame_spec() && final(self).exhausted_spec()
                        && final(self).reaction_spec() == old(self).reaction_spec()
                } else {
                    let (f, ex) = advanced(old(self).frame_spec(), a.frames as int, a.looping, due as int);
                    &&& final(self).frame_spec() == f
                    &&& final(self).exhausted_spec() == ex
                    &&& final(self).reaction_spec() == (if ex && old(self).reaction_spec() == Some(
                        old(self).current_spec(),
                    ) {
                        None
                    } else {
                        old(self).reaction_spec()
                    })
                },
                None => final(self).frame_spec() == old(self).frame_spec()
                    && final(self).exhausted_spec() == old(self).exhausted_spec()
                    && final(self).reaction_spec() == old(self).reaction_spec(),
            },
    {
        let anim = match self.manifest.get(self.current) {
            Some(a) => *a,
            None => {
                return;
            },
        };
        if self.exhausted {
            return;
        }
        let frames = anim.frames;
        let looping = anim.looping;
        let ghost f0 = self.frame as int;
        proof {
            vstd::arithmetic::div_mod::lemma_small_mod(f0 as nat, frames as nat);
        }
        let mut k: usize = 0;
        while k < due && !self.exhausted
            invariant
                1 <= frames <= MAX_FRAMES,
                0 <= f0 < frames,
                k <= due,
                self.frame < frames,
                self.manifest == old(self).manifest,
                self.current == old(self).current,
                self.reaction == old(self).reaction,
                looping ==> !self.exhausted && self.frame == (f0 + k) % (frames as int),
                !looping && !self.exhausted ==> self.frame == f0 + k && f0 + k < frames,
                !looping && self.exhausted ==> self.frame == frames - 1 && f0 + k == frames,
            decreases due - k,
        {
            proof {
                if looping {
                    lemma_mod_step(f0 + k, frames as int);
                }
            }
            if self.frame + 1 < frames {
                self.frame = self.frame + 1;
            } else if looping {
                self.frame = 0;
            } else {
                self.exhausted = true;
            }
            k += 1;
        }
        proof {
            if looping {
                vstd::arithmetic::div_mod::lemma_mod_bound((f0 + due) as int, frames as int);
            }
        }
        if self.exhausted {
            // The reaction that just ended releases the crab.
            let ends_reaction = match self.reaction {
                Some(name) => str_eq(name, self.current),
                None => false,
            };
            if ends_reaction {
                self.reaction = None;
            }
        }
    }

    /// The sheet row of the animation on screen, or -1 when it is not in
    /// the manifest.
    pub fn visual_row(&self) -> (r: i32)
        requires
            self.wf(),
        ensures
            r == match self.manifest_spec().get_spec(self.current_spec()) {
                Some(a) => a.row as int,
                None => -1,
            },
    {
        match self.manifest.get(self.current) {
            Some(a) => a.row,
            None => -1,
        }
    }

    /// Source rectangle on the sheet for the frame on screen:
    /// (x, y, width, height).
    pub fn source_frame(&self) -> (r: (i32, i32, i32, i32))
        requires
            self.wf(),
        ensures
            ({
                let fw = self.manifest_spec().frame_width as int;
                let fh = self.manifest_spec().frame_height as int;
                let row = match self.manifest_spec().get_spec(self.current_spec()) {
                    Some(a) => a.row as int,
                    None => 0,
                };
                r.0 == self.frame_spec() * fw && r.1 == row * fh && r.2 == fw && r.3 == fh
            }),
    {
        let fw = self.manifest.frame_width;
        let fh = self.manifest.frame_height;
        let row = match self.manifest.get(self.current) {
            Some(a) => a.row,
            None => 0,
        };
        let frame = self.frame as i32;
        assert(frame * fw <= 1000 * 4096) by (nonlinear_arith)
            requires
                0 <= frame <= 1000,
                0 <= fw <= 4096,
        ;
        assert(row * fh <= 1000 * 4096) by (nonlinear_arith)
            requires
                0 <= row <= 1000,
                0 <= fh <= 4096,
        ;
        (frame * fw, row * fh, fw, fh)
    }
}

/// A looping animation never runs out, and its frame always stays within
/// it, however far the clock runs.
pub proof fn law_loops_wrap_forever(frame: int, frames: int, due: int)
    requires
        0 <= frame < frames,
        due >= 0,
    ensures
        !advanced(frame, frames, true, due).1,
        0 <= advanced(frame, frames, true, due).0 < frames,
{
    vstd::arithmetic::div_mod::lemma_mod_bound(frame + due, frames);
}

/// A one-shot runs out exactly when the steps reach past its last frame,
/// and then rests on that frame.
pub proof fn law_one_shots_run_out(frame: int, frames: int, due: int)
    requires
        0 <= frame < frames,
        due >= 0,
    ensures
        advanced(frame, frames, false, due).1 <==> frame + due >= frames,
        advanced(frame, frames, false, due).1 ==> advanced(frame, frames, false, due).0 == frames - 1,
        0 <= advanced(frame, frames, false, due).0 < frames,
{
}

/// The crab moves only when nothing holds it in place: a grab, a reaction,
/// waiting for the user and thinking (working between tools, with tool
/// flavour on) all keep it still, an idle crab heads for its corner, and
/// only a working one patrols.
pub proof fn law_what_keeps_the_crab_still(
    held: bool,
    reacting: bool,
    state: State,
    reactions: Reactions,
    tool: Seq<char>,
)
    ensures
        held ==> movement_spec(held, reacting, state, reactions, tool) == Movement::Still,
        reacting ==> movement_spec(held, reacting, state, reactions, tool) == Movement::Still,
        state == State::WaitingInput ==> movement_spec(held, reacting, state, reactions, tool)
            == Movement::Still,
        state == State::Working && reactions.tool_flavour && tool.len() == 0 ==> movement_spec(
            held,
            reacting,
            state,
            reactions,
            tool,
        ) == Movement::Still,
        !held && !reacting && state == State::Idle ==> movement_spec(
            held,
            reacting,
            state,
            reactions,
            tool,
        ) == Movement::ToCorner,
        movement_spec(held, reacting, state, reactions, tool) is Patrol ==> state == State::Working,
{
    if state == State::Working && reactions.tool_flavour && tool.len() == 0 {
        reveal_strlit("Bash");
        reveal_strlit("BashOutput");
        reveal_strlit("Edit");
        reveal_strlit("Write");
        reveal_strlit("NotebookEdit");
        reveal_strlit("Read");
        reveal_strlit("Grep");
        reveal_strlit("Glob");
        reveal_strlit("think");
        reveal_strlit("scuttle");
        reveal_strlit("creep");
        reveal_strlit("walk");
        assert(gait_spec(true, tool) == "think"@);
        assert("think"@ != "scuttle"@ && "think"@ != "creep"@ && "think"@ != "walk"@) by {
            assert("think"@.len() != "scuttle"@.len());
            assert("think"@[0] != "creep"@[0]);
            assert("think"@[0] != "walk"@[0]);
        }
    }
}

/// A working crab that nothing holds moves at the speed of the gait it is
/// shown in: it patrols at that gait's speed, or stays planted for a gait
/// with none. With tool flavour off every tool walks, so it patrols at
/// walking speed whatever the tool.
pub proof fn law_patrol_follows_the_shown_gait(reactions: Reactions, tool: Seq<char>, at_corner: bool)
    ensures
        ({
            let speed = speed_spec(base_spec(State::Working, reactions, tool, at_corner));
            movement_spec(false, false, State::Working, reactions, tool) == if speed == 0 {
                Movement::Still
            } else {
                Movement::Patrol(speed as u32)
            }
        }),
        !reactions.tool_flavour ==> movement_spec(false, false, State::Working, reactions, tool)
            == Movement::Patrol(SPEED_WALK),
        !reactions.tool_flavour ==> base_spec(State::Working, reactions, tool, at_corner) == "walk"@,
{
    reveal_strlit("walk");
    reveal_strlit("scuttle");
    reveal_strlit("creep");
    assert("walk"@.len() != "scuttle"@.len() && "walk"@.len() != "creep"@.len());
}

} // verus!
