use crowd2x::brain::goal::{GoalId, GoalProgress, BLOCKED_TICKS};
use crowd2x::brain::goals::play::PlayGoal;
use crowd2x::brain::goals::relieve::RelieveGoal;
use crowd2x::brain::goals::sleep::{pick_bed, SleepGoal};
use crowd2x::brain::goals::wander::WanderGoal;
use crowd2x::brain::goals::{stand_beside, GoalCtx, Note, Stand, Surroundings, PATIENCE};
use crowd2x::brain::mind::{Mind, Senses};
use crowd2x::brain::task::{ActionState, Step, TaskResult, Tasks};
use crowd2x::brain::tasks::{Doing, Order, Outcome};
use crowd2x::feature::Features;
use crowd2x::item::ItemKind;
use crowd2x::map::{Point, Size, TileMap, FLOOR};
use crowd2x::occupancy::Occupancy;
use crowd2x::testing::prop_at;
use crowd2x::uid::{EntityType, Uid};

fn uid(body: u64) -> Uid {
    Uid::new(EntityType::Human, body)
}

/// A 14 by 10 floor with a toilet at 11, 7.
fn toilet_map() -> TileMap {
    let mut map = TileMap::new(Size::new(14, 10), FLOOR);
    prop_at(&mut map, "toilet", Point::new(11, 7));
    map
}

fn ctx<'a>(world: &'a Surroundings<'a>, here: Point, who: Uid) -> GoalCtx<'a> {
    GoalCtx {
        world,
        here,
        uid: who,
        has_needs: true,
        has_hands: true,
        held: None,
        blocked_by: None,
        finished: None,
    }
}

#[test]
fn the_stand_beside_a_toilet_is_the_nearest_free_cell_next_to_it() {
    let map = toilet_map();
    let occupancy = Occupancy::new(map.size());
    let features = Features::from_map(&map);
    let world = Surroundings { map: &map, occupancy: &occupancy, features: &features, tick: 1 };
    // Two cells are thirteen steps away; the lower one in point order wins.
    assert_eq!(stand_beside(&world, Point::new(2, 2), uid(1), Point::new(11, 7)), Stand::At(Point::new(10, 7)));
    assert_eq!(stand_beside(&world, Point::new(10, 7), uid(1), Point::new(11, 7)), Stand::Here);
}

#[test]
fn a_bursting_human_walks_beside_the_nearest_toilet_uses_it_and_says_so() {
    let map = toilet_map();
    let occupancy = Occupancy::new(map.size());
    let features = Features::from_map(&map);
    let world = Surroundings { map: &map, occupancy: &occupancy, features: &features, tick: 1 };
    let who = uid(7);
    let mut goal = RelieveGoal::new();
    let mut tasks: Tasks<Step> = Tasks::new();
    let mut notes = Vec::new();

    let start = ctx(&world, Point::new(2, 2), who);
    assert_eq!(goal.process(&start, &mut tasks, &mut notes, TaskResult::InProgress), GoalProgress::Working);
    assert_eq!(goal.target(), Some(Point::new(11, 7)));
    assert_eq!(
        tasks.to_vec(),
        [Step::MoveTo { cell: Point::new(10, 7) }, Step::UseToilet { toilet: Point::new(11, 7) }]
    );

    // The walk ends; the use is next.
    let walk = tasks.pop_front().unwrap();
    let arrived = GoalCtx { here: Point::new(10, 7), finished: Some(walk), ..start };
    assert_eq!(goal.process(&arrived, &mut tasks, &mut notes, TaskResult::Success), GoalProgress::Working);
    assert_eq!(tasks.to_vec(), [Step::UseToilet { toilet: Point::new(11, 7) }]);

    let used = tasks.pop_front().unwrap();
    let done = GoalCtx { here: Point::new(11, 7), finished: Some(used), ..start };
    assert_eq!(goal.process(&done, &mut tasks, &mut notes, TaskResult::Success), GoalProgress::Achieved);
    assert_eq!(goal.target(), None);
    assert!(matches!(notes[..], [Note::Relieved { toilet, .. }] if toilet == Point::new(11, 7)));
}

#[test]
fn with_no_toilet_in_the_world_relieving_is_impossible() {
    let map = TileMap::new(Size::new(12, 12), FLOOR);
    let occupancy = Occupancy::new(map.size());
    let features = Features::from_map(&map);
    let world = Surroundings { map: &map, occupancy: &occupancy, features: &features, tick: 1 };
    let mut goal = RelieveGoal::new();
    let mut tasks: Tasks<Step> = Tasks::new();
    let mut notes = Vec::new();
    let here = ctx(&world, Point::new(6, 6), uid(1));
    assert_eq!(goal.process(&here, &mut tasks, &mut notes, TaskResult::InProgress), GoalProgress::Blocked);
    assert!(tasks.is_empty());
    assert!(notes.is_empty());
}

#[test]
fn a_walk_blocked_by_a_body_is_retried_after_a_wait_until_patience_runs_out() {
    let map = toilet_map();
    let occupancy = Occupancy::new(map.size());
    let features = Features::from_map(&map);
    let world = Surroundings { map: &map, occupancy: &occupancy, features: &features, tick: 1 };
    let mut goal = RelieveGoal::new();
    let mut tasks: Tasks<Step> = Tasks::new();
    let mut notes = Vec::new();
    let start = ctx(&world, Point::new(2, 2), uid(3));
    goal.process(&start, &mut tasks, &mut notes, TaskResult::InProgress);

    let blocked = GoalCtx {
        blocked_by: Some(uid(4)),
        finished: Some(Step::MoveTo { cell: Point::new(10, 7) }),
        ..start
    };
    for retry in 1..=PATIENCE {
        assert_eq!(goal.process(&blocked, &mut tasks, &mut notes, TaskResult::Failed), GoalProgress::Working);
        assert_eq!(tasks.to_vec()[0], Step::Wait, "retry {retry} waits first");
        assert_eq!(tasks.len(), 3);
    }
    assert_eq!(goal.process(&blocked, &mut tasks, &mut notes, TaskResult::Failed), GoalProgress::Blocked);
    assert!(tasks.is_empty());
    assert_eq!(goal.target(), None);
}

#[test]
fn a_walk_with_no_way_there_is_given_up_at_once() {
    let map = toilet_map();
    let occupancy = Occupancy::new(map.size());
    let features = Features::from_map(&map);
    let world = Surroundings { map: &map, occupancy: &occupancy, features: &features, tick: 1 };
    let mut goal = RelieveGoal::new();
    let mut tasks: Tasks<Step> = Tasks::new();
    let mut notes = Vec::new();
    let start = ctx(&world, Point::new(2, 2), uid(3));
    goal.process(&start, &mut tasks, &mut notes, TaskResult::InProgress);
    let nowhere = GoalCtx { finished: Some(Step::MoveTo { cell: Point::new(10, 7) }), ..start };
    assert_eq!(goal.process(&nowhere, &mut tasks, &mut notes, TaskResult::Failed), GoalProgress::Blocked);
}

#[test]
fn a_player_goes_to_the_nearest_computer_it_is_shown() {
    let map = TileMap::new(Size::new(12, 12), FLOOR);
    let occupancy = Occupancy::new(map.size());
    let features = Features::from_map(&map);
    let world = Surroundings { map: &map, occupancy: &occupancy, features: &features, tick: 1 };
    let computers = vec![Point::new(9, 9), Point::new(3, 2)];
    let mut goal = PlayGoal::new();
    let mut tasks: Tasks<Step> = Tasks::new();
    let mut notes = Vec::new();
    let here = ctx(&world, Point::new(2, 2), uid(1));
    assert_eq!(
        goal.process(&here, &mut tasks, &mut notes, TaskResult::InProgress, &computers),
        GoalProgress::Working
    );
    assert_eq!(goal.target(), Some(Point::new(3, 2)));
    // Already beside it: nothing to walk.
    assert_eq!(tasks.to_vec(), [Step::UseComputer { computer: Point::new(3, 2) }]);

    let played = GoalCtx { finished: tasks.pop_front(), ..here };
    assert_eq!(
        goal.process(&played, &mut tasks, &mut notes, TaskResult::Success, &computers),
        GoalProgress::Achieved
    );
    assert!(matches!(notes[..], [Note::Played { computer, .. }] if computer == Point::new(3, 2)));
}

#[test]
fn a_bed_is_chosen_by_where_it_lies_whose_it_is_and_how_tired_it_is() {
    let map = TileMap::new(Size::new(12, 12), FLOOR);
    let mut occupancy = Occupancy::new(map.size());
    let features = Features::from_map(&map);
    let beds = vec![Point::new(4, 3), Point::new(8, 3), Point::new(4, 7)];
    let me = uid(1);
    assert!(occupancy.claim(Point::new(4, 3), uid(999)).is_ok());
    let world = Surroundings { map: &map, occupancy: &occupancy, features: &features, tick: 1 };

    // Lying in one: that one, whoever's.
    assert_eq!(pick_bed(&world, Point::new(4, 7), me, &beds, None, false, 0), Some(Point::new(4, 7)));
    // Its own, free.
    assert_eq!(
        pick_bed(&world, Point::new(0, 0), me, &beds, Some(Point::new(8, 3)), false, 0),
        Some(Point::new(8, 3))
    );
    // Its own, taken, and not critical: none.
    assert_eq!(pick_bed(&world, Point::new(0, 0), me, &beds, Some(Point::new(4, 3)), false, 0), None);
    // Critical: a free one, never the taken one.
    assert_eq!(
        pick_bed(&world, Point::new(0, 0), me, &beds, Some(Point::new(4, 3)), true, 0),
        Some(Point::new(8, 3))
    );
    assert_eq!(pick_bed(&world, Point::new(0, 0), me, &beds, None, true, 1), Some(Point::new(4, 7)));
    assert_eq!(pick_bed(&world, Point::new(0, 0), me, &beds, None, true, 2), None);
    // The random pick lands on a free bed.
    let ctx = ctx(&world, Point::new(0, 0), me);
    for _ in 0..4 {
        let bed = SleepGoal::choose_bed(&ctx, &beds, None, true).unwrap();
        assert!(bed == Point::new(8, 3) || bed == Point::new(4, 7), "{bed:?}");
    }
}

#[test]
fn a_sleeper_kept_out_of_its_bed_by_somebody_in_it_waits_and_tries_again() {
    let map = TileMap::new(Size::new(12, 12), FLOOR);
    let occupancy = Occupancy::new(map.size());
    let features = Features::from_map(&map);
    let world = Surroundings { map: &map, occupancy: &occupancy, features: &features, tick: 1 };
    let bed = Point::new(5, 5);
    let mut goal = SleepGoal::new();
    let mut tasks: Tasks<Step> = Tasks::new();
    let mut notes = Vec::new();
    let here = ctx(&world, Point::new(5, 4), uid(1));
    assert_eq!(goal.decide(&here, &mut tasks, &mut notes, TaskResult::InProgress, Some(bed)), GoalProgress::Working);
    assert_eq!(tasks.to_vec(), [Step::Sleep { bed }]);
    let refused = GoalCtx { blocked_by: Some(uid(2)), finished: tasks.pop_front(), ..here };
    assert_eq!(goal.decide(&refused, &mut tasks, &mut notes, TaskResult::Failed, Some(bed)), GoalProgress::Working);
    assert_eq!(tasks.to_vec(), [Step::Wait, Step::Sleep { bed }]);

    // A stretch slept is achieved, and noted with the bed.
    let slept = GoalCtx { finished: Some(Step::Sleep { bed }), ..here };
    let mut fresh: Tasks<Step> = Tasks::new();
    assert_eq!(goal.decide(&slept, &mut fresh, &mut notes, TaskResult::Success, Some(bed)), GoalProgress::Achieved);
    assert!(matches!(notes[..], [Note::Slept { bed: b, .. }] if b == bed));
}

#[test]
fn a_wanderer_walks_to_what_it_picked_and_is_done_when_it_gets_there() {
    let map = TileMap::new(Size::new(12, 12), FLOOR);
    let occupancy = Occupancy::new(map.size());
    let features = Features::from_map(&map);
    let world = Surroundings { map: &map, occupancy: &occupancy, features: &features, tick: 5 };
    let mut goal = WanderGoal::new();
    let mut tasks: Tasks<Step> = Tasks::new();
    let mut notes = Vec::new();
    let here = ctx(&world, Point::new(6, 6), uid(1));
    let target = Point::new(8, 3);
    assert_eq!(goal.decide(&here, &mut tasks, &mut notes, TaskResult::InProgress, Some(target)), GoalProgress::Working);
    assert_eq!(goal.target(), Some(target));
    assert_eq!(tasks.to_vec(), [Step::MoveTo { cell: target }]);

    let walked = GoalCtx { finished: tasks.pop_front(), ..here };
    assert_eq!(goal.decide(&walked, &mut tasks, &mut notes, TaskResult::Success, None), GoalProgress::Achieved);
    assert_eq!(goal.target(), None);
}

#[test]
fn a_wanderer_waits_for_a_body_but_gives_up_on_a_wall_and_says_so_on_the_second() {
    let map = TileMap::new(Size::new(12, 12), FLOOR);
    let occupancy = Occupancy::new(map.size());
    let features = Features::from_map(&map);
    let world = Surroundings { map: &map, occupancy: &occupancy, features: &features, tick: 64 };
    let mut goal = WanderGoal::new();
    let mut tasks: Tasks<Step> = Tasks::new();
    let mut notes = Vec::new();
    let here = ctx(&world, Point::new(6, 6), uid(1));
    let target = Point::new(8, 3);
    goal.decide(&here, &mut tasks, &mut notes, TaskResult::InProgress, Some(target));

    let bumped = GoalCtx { blocked_by: Some(uid(2)), finished: tasks.pop_front(), ..here };
    assert_eq!(goal.decide(&bumped, &mut tasks, &mut notes, TaskResult::Failed, None), GoalProgress::Working);
    assert_eq!(tasks.to_vec(), [Step::Wait, Step::MoveTo { cell: target }]);

    let walled = GoalCtx { blocked_by: None, finished: Some(Step::MoveTo { cell: target }), ..here };
    assert_eq!(goal.decide(&walled, &mut tasks, &mut notes, TaskResult::Failed, None), GoalProgress::Blocked);
    assert!(tasks.is_empty());
    assert!(matches!(notes[..], [Note::NowhereToGo { .. }]), "tick 64 is a tick to say so");
}

#[test]
fn a_wanderer_picks_a_passable_cell_nearby() {
    let map = TileMap::new(Size::new(12, 12), FLOOR);
    let occupancy = Occupancy::new(map.size());
    let features = Features::from_map(&map);
    for tick in 0..20 {
        let world = Surroundings { map: &map, occupancy: &occupancy, features: &features, tick };
        let here = ctx(&world, Point::new(6, 6), uid(tick + 1));
        if let Some(cell) = WanderGoal::pick(&here) {
            assert_ne!(cell, Point::new(6, 6));
            assert!(map.is_passable(cell));
            assert!((cell.x - 6).abs() <= 6 && (cell.y - 6).abs() <= 6);
        }
    }
}

#[test]
fn a_mind_hands_over_to_the_goal_on_top_and_starts_its_first_task() {
    let map = toilet_map();
    let occupancy = Occupancy::new(map.size());
    let features = Features::from_map(&map);
    let world = Surroundings { map: &map, occupancy: &occupancy, features: &features, tick: 1 };
    let none: Vec<Point> = Vec::new();
    let senses = Senses {
        world: &world,
        here: Point::new(2, 2),
        uid: uid(9),
        has_needs: true,
        has_hands: true,
        held: None,
        computers: &none,
        beds: &none,
        critical: false,
    };
    let mut mind = Mind::human();
    let mut notes = Vec::new();
    mind.tick();
    let (changed, task) = mind.react(&senses, GoalId::Relieve, &mut notes);
    assert!(changed);
    assert_eq!(mind.top_goal(), GoalId::Relieve);
    assert_eq!(task, Some(Step::MoveTo { cell: Point::new(10, 7) }));
    assert_eq!(mind.tasks().to_vec(), [Step::UseToilet { toilet: Point::new(11, 7) }]);

    // The walk is under way: nothing is asked of the goal while it runs.
    assert!(!mind.record(TaskResult::Executing, None));
    let (changed, task) = mind.react(&senses, GoalId::Relieve, &mut notes);
    assert!(!changed);
    assert_eq!(task, Some(Step::MoveTo { cell: Point::new(10, 7) }));

    // The walk ends; the next tick the use is taken up.
    assert!(mind.record(TaskResult::Success, None));
    assert_eq!(mind.last_result(), TaskResult::Success);
    assert_eq!(mind.current_task(), None);
    let there = Senses { here: Point::new(10, 7), ..senses };
    let (_, task) = mind.react(&there, GoalId::Relieve, &mut notes);
    assert_eq!(task, Some(Step::UseToilet { toilet: Point::new(11, 7) }));
}

#[test]
fn a_goal_found_impossible_is_held_off_and_a_dog_pursues_only_wandering() {
    let map = TileMap::new(Size::new(12, 12), FLOOR);
    let occupancy = Occupancy::new(map.size());
    let features = Features::from_map(&map);
    let world = Surroundings { map: &map, occupancy: &occupancy, features: &features, tick: 1 };
    let none: Vec<Point> = Vec::new();
    let senses = Senses {
        world: &world,
        here: Point::new(2, 2),
        uid: uid(9),
        has_needs: true,
        has_hands: true,
        held: None,
        computers: &none,
        beds: &none,
        critical: false,
    };
    let mut mind = Mind::human();
    let mut notes = Vec::new();
    // No toilet anywhere.
    let (_, task) = mind.react(&senses, GoalId::Relieve, &mut notes);
    assert_eq!(task, None);
    assert_eq!(mind.cooldown(GoalId::Relieve), BLOCKED_TICKS);

    let mut dog = Mind::dog();
    let (changed, task) = dog.react(&senses, GoalId::Eat, &mut notes);
    assert!(changed);
    assert_eq!(task, None, "nothing in a dog pursues eating");
    assert_eq!(dog.cooldown(GoalId::Eat), 0, "and nothing found it impossible either");
    assert!(notes.is_empty());
}

#[test]
fn a_toilet_is_stepped_into_then_used_and_a_use_from_afar_fails() {
    let toilet = Point::new(5, 5);
    let step = Step::UseToilet { toilet };
    assert_eq!(step.order(Point::new(2, 5), true, None, Doing::Nothing), Order::Fail);
    assert_eq!(step.order(Point::new(4, 5), false, None, Doing::Nothing), Order::Fail);
    assert_eq!(step.order(Point::new(4, 5), true, None, Doing::Nothing), Order::Enter(toilet));
    assert_eq!(step.order(toilet, true, None, Doing::Nothing), Order::Interact(toilet));
    assert_eq!(step.order(toilet, true, None, Doing::Interacting), Order::Advance);
    assert_eq!(step.conclude(Doing::Moving, ActionState::Finished), (TaskResult::Executing, Outcome::Interact(toilet)));
    assert_eq!(step.conclude(Doing::Interacting, ActionState::Finished), (TaskResult::Success, Outcome::Relieved));
    assert_eq!(step.conclude(Doing::Interacting, ActionState::Running), (TaskResult::Executing, Outcome::Nothing));
    assert_eq!(Step::Sleep { bed: toilet }.conclude(Doing::Interacting, ActionState::Finished).1, Outcome::Slept);
}

#[test]
fn taking_needs_an_empty_hand_and_consuming_needs_the_item_in_it() {
    let fridge = Point::new(3, 3);
    let take = Step::Take { from: fridge, item: ItemKind::Food };
    assert_eq!(take.order(Point::new(3, 4), true, Some(None), Doing::Nothing), Order::Interact(fridge));
    assert_eq!(take.order(Point::new(3, 4), true, Some(Some(ItemKind::Water)), Doing::Nothing), Order::Fail);
    assert_eq!(take.order(Point::new(3, 4), true, None, Doing::Nothing), Order::Fail, "no hands");
    assert_eq!(take.conclude(Doing::Interacting, ActionState::Finished).1, Outcome::Took(ItemKind::Food));

    let eat = Step::Consume { item: ItemKind::Food };
    assert_eq!(eat.order(Point::new(0, 0), true, Some(Some(ItemKind::Food)), Doing::Nothing), Order::Consume);
    assert_eq!(eat.order(Point::new(0, 0), true, Some(Some(ItemKind::Water)), Doing::Nothing), Order::Fail);
    assert_eq!(eat.conclude(Doing::Consuming, ActionState::Finished), (TaskResult::Success, Outcome::Consumed(ItemKind::Food)));

    let walk = Step::MoveTo { cell: fridge };
    assert_eq!(walk.order(Point::new(0, 0), true, None, Doing::Nothing), Order::WalkTo(fridge));
    assert_eq!(Order::WalkTo(fridge).started(false), TaskResult::Failed);
    assert_eq!(Order::WalkTo(fridge).started(true), TaskResult::Executing);
    assert_eq!(walk.conclude(Doing::Moving, ActionState::Failed), (TaskResult::Failed, Outcome::Nothing));
    assert_eq!(Step::Wait.order(Point::new(0, 0), false, None, Doing::Nothing), Order::Wait);
}

#[test]
fn a_bored_mind_hands_over_to_play_and_sits_down_beside_the_nearest_computer() {
    let map = TileMap::new(Size::new(14, 10), FLOOR);
    let occupancy = Occupancy::new(map.size());
    let features = Features::from_map(&map);
    let world = Surroundings { map: &map, occupancy: &occupancy, features: &features, tick: 1 };
    let computers = vec![Point::new(12, 2), Point::new(6, 6)];
    let none: Vec<Point> = Vec::new();
    let senses = Senses {
        world: &world,
        here: Point::new(2, 6),
        uid: uid(9),
        has_needs: true,
        has_hands: true,
        held: None,
        computers: &computers,
        beds: &none,
        critical: false,
    };
    let mut mind = Mind::human();
    let mut notes = Vec::new();
    let (changed, task) = mind.react(&senses, GoalId::Play, &mut notes);
    assert!(changed);
    assert_eq!(mind.top_goal(), GoalId::Play);
    assert_eq!(task, Some(Step::MoveTo { cell: Point::new(5, 6) }));
    assert_eq!(mind.tasks().to_vec(), [Step::UseComputer { computer: Point::new(6, 6) }]);

    // Sat down, the go is taken up, and its end is a line in the log.
    assert!(mind.record(TaskResult::Success, None));
    let there = Senses { here: Point::new(5, 6), ..senses };
    let (_, task) = mind.react(&there, GoalId::Play, &mut notes);
    assert_eq!(task, Some(Step::UseComputer { computer: Point::new(6, 6) }));
    assert!(mind.record(TaskResult::Success, None));
    let (_, task) = mind.react(&there, GoalId::Play, &mut notes);
    assert_eq!(task, None);
    assert!(matches!(notes.as_slice(), [Note::Played { computer, .. }] if *computer == Point::new(6, 6)));
}

#[test]
fn a_tired_mind_goes_to_its_own_bed_and_a_dog_never_sleeps() {
    let map = TileMap::new(Size::new(14, 10), FLOOR);
    let occupancy = Occupancy::new(map.size());
    let features = Features::from_map(&map);
    let world = Surroundings { map: &map, occupancy: &occupancy, features: &features, tick: 1 };
    let (near, own) = (Point::new(4, 3), Point::new(10, 7));
    let beds = vec![near, own];
    let none: Vec<Point> = Vec::new();
    let senses = Senses {
        world: &world,
        here: Point::new(3, 3),
        uid: uid(9),
        has_needs: true,
        has_hands: true,
        held: None,
        computers: &none,
        beds: &beds,
        critical: false,
    };
    let mut mind = Mind::human();
    mind.set_home(own);
    let mut notes = Vec::new();
    let (changed, task) = mind.react(&senses, GoalId::Sleep, &mut notes);
    assert!(changed);
    assert_eq!(mind.top_goal(), GoalId::Sleep);
    assert_eq!(task, Some(Step::MoveTo { cell: Point::new(9, 7) }));
    assert_eq!(mind.tasks().to_vec(), [Step::Sleep { bed: own }]);

    // With no bed of its own and short of critical, nothing: held off.
    let mut homeless = Mind::human();
    let (_, task) = homeless.react(&senses, GoalId::Sleep, &mut notes);
    assert_eq!(task, None);
    assert_eq!(homeless.cooldown(GoalId::Sleep), BLOCKED_TICKS);

    let mut dog = Mind::dog();
    let (_, task) = dog.react(&senses, GoalId::Sleep, &mut notes);
    assert_eq!(task, None, "nothing in a dog pursues sleep");
    assert!(notes.is_empty());
}

#[test]
fn a_wanderer_sets_off_for_the_first_roll_that_lands_somewhere_it_can_stand() {
    let mut map = TileMap::new(Size::new(12, 12), FLOOR);
    map.set_terrain(Point::new(7, 6), crowd2x::map::WALL);
    let occupancy = Occupancy::new(map.size());
    let features = Features::from_map(&map);
    let world = Surroundings { map: &map, occupancy: &occupancy, features: &features, tick: 1 };
    let here = ctx(&world, Point::new(6, 6), uid(3));
    // Its own cell, then a wall, then off the map, then a floor cell.
    let rolls = vec![(0, 0), (1, 0), (6, 0), (0, -6), (2, 2)];
    assert_eq!(WanderGoal::pick_from(&here, &rolls), Some(Point::new(6, 0)));
    assert_eq!(WanderGoal::pick_from(&here, &vec![(0, 0), (1, 0)]), None);
    assert_eq!(WanderGoal::pick_from(&here, &Vec::new()), None);
}
