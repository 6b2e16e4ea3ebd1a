use crabwalk::brain::{
    base_animation, catch_up_budget, gait_for_tool, movement, speed_for, Animator, Movement,
    SPEED_CREEP, SPEED_SCUTTLE, SPEED_WALK,
};
use crabwalk::config::Reactions;
use crabwalk::sprites::Manifest;
use crabwalk::tracker::State;

fn working_animator() -> Animator {
    let mut a = Animator::new(Manifest::embedded());
    a.sync("scuttle");
    a
}

#[test]
fn tools_pick_their_gait() {
    let r = Reactions::default();
    for (tool, gait) in [
        ("Bash", "scuttle"),
        ("BashOutput", "scuttle"),
        ("Edit", "creep"),
        ("Write", "creep"),
        ("NotebookEdit", "creep"),
        ("Read", "walk"),
        ("Grep", "walk"),
        ("Glob", "walk"),
        ("", "think"),
        ("SomethingNew", "walk"),
    ] {
        assert_eq!(base_animation(State::Working, &r, tool, false), gait, "tool {tool}");
        assert_eq!(gait_for_tool(true, tool), gait, "tool {tool}");
    }
}

#[test]
fn tool_flavour_off_flattens_every_gait_to_walk() {
    let mut r = Reactions::default();
    r.tool_flavour = false;
    for tool in ["Bash", "Edit", "Read", ""] {
        assert_eq!(base_animation(State::Working, &r, tool, false), "walk", "tool {tool}");
    }
}

#[test]
fn thinking_is_planted() {
    let r = Reactions::default();
    assert_eq!(base_animation(State::Working, &r, "", false), "think");
    assert_eq!(movement(false, false, State::Working, &r, ""), Movement::Still);
}

#[test]
fn waiting_waves_in_place() {
    let r = Reactions::default();
    assert_eq!(base_animation(State::WaitingInput, &r, "Bash", false), "wave");
    assert_eq!(movement(false, false, State::WaitingInput, &r, "Bash"), Movement::Still);
}

#[test]
fn waiting_reaction_off_falls_back_to_think() {
    let mut r = Reactions::default();
    r.waiting = false;
    assert_eq!(base_animation(State::WaitingInput, &r, "", false), "think");
}

#[test]
fn idle_away_from_the_corner_walks_there() {
    let r = Reactions::default();
    assert_eq!(base_animation(State::Idle, &r, "", false), "walk");
    assert_eq!(movement(false, false, State::Idle, &r, ""), Movement::ToCorner);
}

#[test]
fn idle_at_the_corner_sleeps_and_stops() {
    let r = Reactions::default();
    assert_eq!(base_animation(State::Idle, &r, "", true), "sleep");
}

#[test]
fn a_held_brain_stays_put_until_released() {
    let r = Reactions::default();
    assert_eq!(movement(true, false, State::Working, &r, "Bash"), Movement::Still);
    assert_eq!(
        movement(false, false, State::Working, &r, "Bash"),
        Movement::Patrol(SPEED_SCUTTLE)
    );
}

#[test]
fn a_reaction_overrides_the_base_animation_and_pins_position() {
    let r = Reactions::default();
    let mut a = working_animator();
    a.play_reaction("celebrate");
    assert_eq!(a.active_animation("scuttle"), "celebrate");
    assert_eq!(
        movement(false, a.reaction().is_some(), State::Working, &r, "Bash"),
        Movement::Still
    );
}

#[test]
fn a_one_shot_reaction_clears_itself_when_it_ends() {
    let mut a = working_animator();
    a.play_reaction("celebrate");
    let wanted = a.active_animation("scuttle");
    assert!(a.sync(wanted));
    let anim = *a.current_animation().unwrap();
    assert_eq!(anim.name, "celebrate");
    assert!(!anim.looping);
    // Step one frame at a time, just past the end of the animation.
    let mut steps = 0;
    while a.reaction().is_some() && steps < anim.frames + 5 {
        a.advance(1);
        steps += 1;
    }
    assert!(a.reaction().is_none(), "celebrate should have released the crab");
    assert_eq!(steps, anim.frames);
    assert_eq!(a.active_animation("scuttle"), "scuttle");
}

#[test]
fn a_looping_animation_wraps_forever() {
    let mut a = working_animator();
    let anim = *a.current_animation().unwrap();
    assert!(anim.looping);
    for _ in 0..1000 {
        a.advance(1);
        assert!(a.frame_index() < anim.frames);
        assert!(!a.is_exhausted());
    }
    assert_eq!(a.frame_index(), 1000 % anim.frames);
}

#[test]
fn unknown_reactions_are_refused() {
    let mut a = working_animator();
    a.play_reaction("moonwalk");
    assert!(a.reaction().is_none());
}

#[test]
fn source_frame_follows_the_row_and_frame() {
    let mut a = working_animator();
    let scuttle_row = a.manifest().get("scuttle").unwrap().row;
    assert_eq!(a.source_frame(), (0, scuttle_row * 64, 64, 64));
    a.advance(1);
    assert_eq!(a.source_frame().0, 64);
    assert_eq!(a.visual_row(), scuttle_row);
}

#[test]
fn a_long_stall_does_not_spin_the_frame_clock() {
    let mut a = working_animator();
    let anim = *a.current_animation().unwrap();
    // A minute's worth of frames is capped to the catch-up budget.
    let due = 60 * anim.fps as usize;
    let budget = catch_up_budget(anim.frames);
    assert_eq!(budget, 2 * anim.frames);
    a.advance(due.min(budget));
    assert!(a.frame_index() < anim.frames);
}

#[test]
fn a_one_shot_rests_on_its_last_frame() {
    let mut a = Animator::new(Manifest::embedded());
    a.sync("tumble");
    a.advance(100);
    assert!(a.is_exhausted());
    assert_eq!(a.frame_index(), 9);
    a.advance(3);
    assert_eq!(a.frame_index(), 9);
}

#[test]
fn syncing_the_same_animation_keeps_its_frame() {
    let mut a = working_animator();
    a.advance(3);
    assert!(!a.sync("scuttle"));
    assert_eq!(a.frame_index(), 3);
    assert!(a.sync("walk"));
    assert_eq!(a.frame_index(), 0);
}

#[test]
fn an_unknown_animation_does_not_move() {
    let mut a = Animator::new(Manifest::embedded());
    a.sync("moonwalk");
    assert!(a.current_animation().is_none());
    assert_eq!(a.visual_row(), -1);
    a.advance(5);
    assert_eq!(a.frame_index(), 0);
}

#[test]
fn speeds_match_their_gaits() {
    assert_eq!(speed_for("scuttle"), SPEED_SCUTTLE);
    assert_eq!(speed_for("creep"), SPEED_CREEP);
    assert_eq!(speed_for("walk"), SPEED_WALK);
    assert_eq!(speed_for("think"), 0);
    assert_eq!(catch_up_budget(0), 2);
}

#[test]
fn patrol_speed_follows_the_tool() {
    let r = Reactions::default();
    assert_eq!(movement(false, false, State::Working, &r, "Edit"), Movement::Patrol(SPEED_CREEP));
    assert_eq!(movement(false, false, State::Working, &r, "Read"), Movement::Patrol(SPEED_WALK));
}

#[test]
fn a_pinned_brain_still_patrols() {
    // Pinning is not an input to movement at all: a pinned crab roams as
    // an unpinned one does.
    let r = Reactions::default();
    assert_eq!(
        movement(false, false, State::Working, &r, "Bash"),
        Movement::Patrol(SPEED_SCUTTLE)
    );
}

#[test]
fn a_pinned_idle_brain_still_walks_to_its_corner() {
    let r = Reactions::default();
    assert_eq!(movement(false, false, State::Idle, &r, ""), Movement::ToCorner);
    assert_eq!(base_animation(State::Idle, &r, "", false), "walk", "still walking, not asleep in place");
}
