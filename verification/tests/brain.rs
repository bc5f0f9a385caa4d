use crowd2x::brain::goal::{Backoff, GoalId, BLOCKED_TICKS, MAX_BACKOFF};
use crowd2x::brain::goals::drink::{self, DrinkGoal};
use crowd2x::brain::goals::eat::{self, EatGoal};
use crowd2x::brain::goals::wander::WanderGoal;
use crowd2x::brain::task::{ActionState, TaskResult};

#[test]
fn every_goal_has_an_emoji() {
    for goal in GoalId::all() {
        assert!(!goal.emoji().is_empty(), "{goal:?} has no emoji");
    }
}

#[test]
fn a_goal_that_keeps_being_impossible_is_held_off_for_longer_each_time() {
    let mut goals = Backoff::new();
    let mut lengths = Vec::new();
    for _ in 0..10 {
        goals.block(GoalId::Eat);
        lengths.push(goals.cooldown(GoalId::Eat));
    }
    assert_eq!(&lengths[..3], [BLOCKED_TICKS, BLOCKED_TICKS * 2, BLOCKED_TICKS * 4]);
    assert_eq!(*lengths.last().unwrap(), BLOCKED_TICKS << MAX_BACKOFF);

    goals.progressed(GoalId::Eat);
    goals.block(GoalId::Eat);
    assert_eq!(goals.cooldown(GoalId::Eat), BLOCKED_TICKS);
}

#[test]
fn idle_cannot_be_blocked() {
    let mut goals = Backoff::new();
    goals.block(GoalId::Idle);
    assert_eq!(goals.cooldown(GoalId::Idle), 0);
}

#[test]
fn a_cooldown_runs_out_one_tick_at_a_time() {
    let mut goals = Backoff::new();
    goals.block(GoalId::Drink);
    for left in (0..BLOCKED_TICKS).rev() {
        goals.tick_cooldowns();
        assert_eq!(goals.cooldown(GoalId::Drink), left);
    }
    goals.tick_cooldowns();
    assert_eq!(goals.cooldown(GoalId::Drink), 0, "and stays at nothing");
    assert_eq!(goals.strikes(GoalId::Drink), 1);
}

#[test]
fn goal_names_and_slots_follow_declaration_order() {
    let names: Vec<&str> = GoalId::all().iter().map(|g| g.name()).collect();
    assert_eq!(names, ["idle", "wander", "eat", "drink", "relieve", "play", "sleep"]);
    for (i, goal) in GoalId::all().into_iter().enumerate() {
        assert_eq!(goal.index(), i);
    }
}

#[test]
fn a_task_is_finished_when_it_failed_or_succeeded() {
    assert!(TaskResult::Failed.is_finished());
    assert!(TaskResult::Success.is_finished());
    assert!(!TaskResult::Executing.is_finished());
    assert!(!TaskResult::InProgress.is_finished());
    assert_eq!(TaskResult::of(ActionState::Running), TaskResult::Executing);
    assert_eq!(TaskResult::of(ActionState::Finished), TaskResult::Success);
    assert_eq!(TaskResult::of(ActionState::Failed), TaskResult::Failed);
    assert_eq!(TaskResult::InProgress.name(), "in progress");
    assert_eq!(TaskResult::default(), TaskResult::InProgress);
}

#[test]
fn a_new_goal_has_not_started() {
    assert_eq!(DrinkGoal::new().stage(), drink::Stage::Finding);
    assert_eq!(EatGoal::new().stage(), eat::Stage::Finding);
    assert_eq!(WanderGoal::new().target(), None);
    assert_eq!(drink::Stage::Drinking.name(), "drinking");
    assert_eq!(eat::Stage::Clearing.name(), "clearing its hand");
}
