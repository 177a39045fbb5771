use antsim::ant::{pick_weighted, Ant, AntMoveResult};
use antsim::cell::Cell;
use antsim::colony::Colony;
use antsim::coordinate::Coordinate;
use antsim::field::Field;
use antsim::food::Food;
use antsim::simulation::{Simulation, COLONY_COUNT, FIELD_HEIGHT, FIELD_WIDTH};

fn open_field(width: i32, height: i32) -> Field {
    Field::with_obstacles(width, height, &vec![false; (width * height) as usize])
}

fn c(x: i32, y: i32) -> Coordinate {
    Coordinate::new(x, y)
}

#[test]
fn coordinate_distance_is_floored_euclidean() {
    assert_eq!(c(0, 0).distance_to(c(3, 4)), 5);
    assert_eq!(c(0, 0).distance_to(c(1, 1)), 1);
    assert_eq!(c(2, 2).distance_to(c(2, 2)), 0);
    assert_eq!(c(5, 1).distance_to(c(1, 4)), 5);
    assert_eq!(c(0, 0).distance_to(c(2, 3)), 3);
    assert_eq!(c(i32::MIN, i32::MIN).distance_to(c(i32::MAX, i32::MAX)), 6074000998);
}

#[test]
fn cell_constructors_and_attraction() {
    let a = Cell::new(c(1, 2));
    assert_eq!(a.position, c(1, 2));
    assert_eq!((a.pheromones, a.food, a.is_obstacle), (0, 0, false));
    let b = Cell::new_ex(c(3, 4), true);
    assert!(b.is_obstacle);
    assert_eq!(a.get_attraction(), 10);
    let mut d = Cell::new(c(0, 0));
    d.pheromones = 7;
    d.food = 5;
    assert_eq!(d.get_attraction(), 22);
    assert_eq!(a.distance_to(&Cell::new(c(4, 5))), 4);
}

#[test]
fn attraction_grows_with_trail_and_food() {
    let mut a = Cell::new(c(0, 0));
    let base = a.get_attraction();
    a.pheromones = 1;
    let more_trail = a.get_attraction();
    assert!(more_trail > base);
    a.food = 1;
    assert!(a.get_attraction() > more_trail);
    a.pheromones = i32::MAX;
    a.food = i32::MAX;
    assert_eq!(a.get_attraction(), 10 + 2 * (i32::MAX as i64));
}

#[test]
fn cell_tick_stops_at_zero() {
    let mut a = Cell::new(c(0, 0));
    a.pheromones = 2;
    a.tick();
    assert_eq!(a.pheromones, 1);
    a.tick();
    a.tick();
    a.tick();
    assert_eq!(a.pheromones, 0);
}

#[test]
fn cell_additions_saturate() {
    let mut a = Cell::new(c(0, 0));
    a.add_pheromones(30);
    assert_eq!(a.pheromones, 30);
    a.add_pheromones(1i64 << 40);
    assert_eq!(a.pheromones, i32::MAX);
    a.add_food(5);
    assert_eq!(a.food, 5);
    a.add_food(i32::MAX);
    assert_eq!(a.food, i32::MAX);
}

#[test]
fn field_layout_is_column_major() {
    let f = open_field(4, 3);
    assert_eq!((f.width, f.height), (4, 3));
    let cells = f.get_cells();
    assert_eq!(cells.len(), 12);
    assert_eq!(cells[0].position, c(0, 0));
    assert_eq!(cells[1].position, c(0, 1));
    assert_eq!(cells[3].position, c(1, 0));
    assert_eq!(cells[10].position, c(3, 1));
    assert_eq!(f.get(2, 1).position, c(2, 1));
    assert_eq!(f.get_by_pos(c(3, 2)).position, c(3, 2));
}

#[test]
fn field_with_obstacles_marks_given_cells() {
    let mut obstacles = vec![false; 9];
    obstacles[4] = true;
    let f = Field::with_obstacles(3, 3, &obstacles);
    assert!(f.get(1, 1).is_obstacle);
    assert!(!f.get(0, 1).is_obstacle);
    assert_eq!(f.get_cells().iter().filter(|x| x.is_obstacle).count(), 1);
}

#[test]
fn field_mutable_access_writes_one_cell() {
    let mut f = open_field(3, 3);
    f.get_mut(1, 2).pheromones = 4;
    f.get_mut_by_pos(c(0, 0)).food = 3;
    let probe = Cell::new(c(2, 2));
    f.get_as_mut(&probe).pheromones = 9;
    assert_eq!(f.get(1, 2).pheromones, 4);
    assert_eq!(f.get(0, 0).food, 3);
    assert_eq!(f.get(2, 2).pheromones, 9);
    assert_eq!(f.get(1, 1).pheromones, 0);
}

#[test]
fn field_new_places_about_a_fifth_obstacles() {
    let f = Field::new(100, 100);
    assert_eq!(f.get_cells().len(), 10000);
    let n = f.get_cells().iter().filter(|x| x.is_obstacle).count();
    assert!(n > 1500 && n < 2500, "obstacles: {}", n);
    assert!(f.get_cells().iter().all(|x| x.food == 0 && x.pheromones == 0));
    assert_eq!(f.get(99, 0).position, c(99, 0));
}

#[test]
fn steps_from_center_in_clockwise_order() {
    let f = open_field(3, 3);
    let steps: Vec<Coordinate> = f.steps_from_pos(c(1, 1)).iter().map(|x| x.position).collect();
    assert_eq!(
        steps,
        vec![c(0, 0), c(1, 0), c(2, 0), c(2, 1), c(2, 2), c(1, 2), c(0, 2), c(0, 1)]
    );
}

#[test]
fn steps_from_corner_stay_inside() {
    let f = open_field(3, 3);
    let steps: Vec<Coordinate> = f.steps_from(f.get(0, 0)).iter().map(|x| x.position).collect();
    assert_eq!(steps, vec![c(1, 0), c(1, 1), c(0, 1)]);
    let steps: Vec<Coordinate> = f.steps_from_pos(c(2, 2)).iter().map(|x| x.position).collect();
    assert_eq!(steps, vec![c(1, 1), c(2, 1), c(1, 2)]);
}

#[test]
fn steps_skip_obstacles() {
    let mut obstacles = vec![false; 9];
    obstacles[0] = true; // (0, 0)
    obstacles[5] = true; // (1, 2)
    let f = Field::with_obstacles(3, 3, &obstacles);
    let steps: Vec<Coordinate> = f.steps_from_pos(c(1, 1)).iter().map(|x| x.position).collect();
    assert_eq!(steps, vec![c(1, 0), c(2, 0), c(2, 1), c(2, 2), c(0, 2), c(0, 1)]);
}

#[test]
fn place_food_adds_a_source() {
    let mut f = open_field(3, 3);
    f.place_food_by_pos(c(2, 1));
    assert_eq!(f.get(2, 1).food, 10000);
    f.place_food_by_pos(c(2, 1));
    assert_eq!(f.get(2, 1).food, 20000);
    f.place_food(c(0, 0), 7);
    assert_eq!(f.get(0, 0).food, 7);
    f.place_food(c(0, 0), i32::MAX);
    assert_eq!(f.get(0, 0).food, i32::MAX);
}

#[test]
fn field_tick_never_goes_below_zero() {
    let mut f = open_field(2, 2);
    f.get_mut(0, 0).pheromones = 3;
    f.get_mut(1, 1).pheromones = 1;
    f.tick();
    assert_eq!(f.get(0, 0).pheromones, 2);
    assert_eq!(f.get(1, 1).pheromones, 0);
    for _ in 0..10 {
        f.tick();
    }
    assert!(f.get_cells().iter().all(|x| x.pheromones == 0));
}

#[test]
fn pick_weighted_follows_cumulative_weights() {
    let w = vec![10i64, 20, 5];
    assert_eq!(pick_weighted(&w, 0), 0);
    assert_eq!(pick_weighted(&w, 9), 0);
    assert_eq!(pick_weighted(&w, 10), 1);
    assert_eq!(pick_weighted(&w, 29), 1);
    assert_eq!(pick_weighted(&w, 30), 2);
    assert_eq!(pick_weighted(&w, 34), 2);
}

#[test]
fn new_ant_explores_from_home() {
    let a = Ant::new(c(2, 3));
    assert_eq!(a.home(), c(2, 3));
    assert_eq!(a.current_cell, c(2, 3));
    assert_eq!(a.current(), c(2, 3));
    assert!(!a.is_returning());
    assert!(!a.is_good_returning());
    assert_eq!(a.distance_to_food(), 0);
    assert_eq!(a.path(), &vec![c(2, 3)]);
}

#[test]
fn can_move_to_rules() {
    let f = open_field(3, 3);
    let a = Ant::new(c(1, 1));
    assert!(a.can_move_to(f.get(0, 0)));
    assert!(!a.can_move_to(f.get(1, 1)));
    let blocked = Cell::new_ex(c(0, 1), true);
    assert!(!a.can_move_to(&blocked));
    assert_eq!(a.candidate_steps(&f).len(), 8);
}

#[test]
fn step_to_extends_trail_while_exploring() {
    let f = open_field(3, 3);
    let mut a = Ant::new(c(1, 1));
    a.step_to(f.get(2, 2));
    assert_eq!(a.current_cell, c(2, 2));
    assert_eq!(a.path(), &vec![c(1, 1), c(2, 2)]);
    assert!(!a.can_move_to(f.get(1, 1)));
}

#[test]
fn food_at_home_scenario() {
    let mut f = open_field(3, 3);
    f.place_food_by_pos(c(1, 1));
    let mut a = Ant::new(c(1, 1));
    a.check_current_cell(&mut f);
    assert_eq!(f.get(1, 1).food, 9999);
    assert_eq!(a.distance_to_food(), 0);
    assert!(a.is_returning());
    assert!(a.is_good_returning());
    assert_eq!(f.get(1, 1).pheromones, 0);
    let r = a.make_move(&f);
    assert_eq!(r, AntMoveResult::Moved);
    assert!(!a.is_returning());
    assert!(!a.is_good_returning());
    assert_ne!(a.current_cell, c(1, 1));
    assert_eq!(a.path().len(), 2);
    assert_eq!(a.path()[0], c(1, 1));
}

#[test]
fn stuck_explorer_turns_back_in_place() {
    let mut obstacles = vec![true; 9];
    obstacles[4] = false;
    let f = Field::with_obstacles(3, 3, &obstacles);
    let mut a = Ant::new(c(1, 1));
    assert_eq!(a.make_move(&f), AntMoveResult::Moved);
    assert!(a.is_returning());
    assert!(!a.is_good_returning());
    assert_eq!(a.current_cell, c(1, 1));
    assert_eq!(a.path(), &vec![c(1, 1)]);
}

#[test]
fn move_picks_one_open_neighbour() {
    let f = open_field(3, 3);
    for _ in 0..20 {
        let mut a = Ant::new(c(0, 0));
        assert_eq!(a.make_move(&f), AntMoveResult::Moved);
        let p = a.current_cell;
        assert!(p == c(1, 0) || p == c(1, 1) || p == c(0, 1));
        assert_eq!(a.path(), &vec![c(0, 0), p]);
    }
}

#[test]
fn return_trip_leaves_trail_scaled_by_distance() {
    // A one-cell-wide corridor: every move is forced.
    let mut f = open_field(1, 4);
    f.place_food_by_pos(c(0, 2));
    let mut a = Ant::new(c(0, 0));
    let mut trail = Vec::new();
    for _ in 0..5 {
        a.check_current_cell(&mut f);
        assert_eq!(a.make_move(&f), AntMoveResult::Moved);
        trail.push(a.current_cell);
        let p = a.path();
        assert!(!p.is_empty());
        assert_eq!(p[0], c(0, 0));
    }
    assert_eq!(trail, vec![c(0, 1), c(0, 2), c(0, 1), c(0, 0), c(0, 1)]);
    assert_eq!(f.get(0, 2).pheromones, 20);
    assert_eq!(f.get(0, 1).pheromones, 20);
    assert_eq!(f.get(0, 0).pheromones, 20);
    assert_eq!(f.get(0, 3).pheromones, 0);
}

#[test]
fn trail_never_repeats_while_exploring() {
    let f = open_field(6, 6);
    for _ in 0..10 {
        let mut a = Ant::new(c(2, 3));
        for _ in 0..60 {
            if a.make_move(&f) == AntMoveResult::Died {
                break;
            }
            let p = a.path().clone();
            assert!(!p.is_empty());
            assert_eq!(p[0], c(2, 3));
            if !a.is_returning() {
                for i in 0..p.len() {
                    for j in (i + 1)..p.len() {
                        assert_ne!(p[i], p[j]);
                    }
                }
            }
        }
    }
}

#[test]
fn returning_ant_with_blocked_trail_dies() {
    let mut line = open_field(1, 3);
    let mut a = Ant::new(c(0, 0));
    assert_eq!(a.make_move(&line), AntMoveResult::Moved);
    assert_eq!(a.current_cell, c(0, 1));
    line.place_food_by_pos(c(0, 1));
    a.check_current_cell(&mut line);
    assert!(a.is_returning());
    let blocked = Field::with_obstacles(1, 3, &vec![true, false, false]);
    assert_eq!(a.make_move(&blocked), AntMoveResult::Died);
}

#[test]
fn dead_ant_is_replaced_by_fresh_one() {
    let mut line = open_field(1, 3);
    let mut colony = Colony::new(c(0, 0), 1);
    colony.move_ants(&mut line);
    assert_eq!(colony.population()[0].current_cell, c(0, 1));
    line.place_food_by_pos(c(0, 1));
    colony.check_cells(&mut line);
    assert!(colony.population()[0].is_returning());
    let mut blocked = Field::with_obstacles(1, 3, &vec![true, false, false]);
    colony.move_ants(&mut blocked);
    let a = &colony.population()[0];
    assert_eq!(colony.population().len(), 1);
    assert_eq!(a.current_cell, c(0, 0));
    assert!(!a.is_returning());
    assert_eq!(a.path(), &vec![c(0, 0)]);
}

#[test]
fn colony_is_filled_and_never_exceeds_capacity() {
    let mut f = open_field(5, 5);
    f.place_food_by_pos(c(4, 4));
    let mut colony = Colony::new(c(2, 2), 3);
    assert_eq!(colony.population().len(), 3);
    assert!(colony.population().iter().all(|a| a.current_cell == c(2, 2)));
    colony.spawn_if_capacity();
    assert_eq!(colony.population().len(), 3);
    for _ in 0..200 {
        colony.tick(&mut f);
        f.tick();
        assert!(colony.population().len() <= 3);
    }
    assert_eq!(colony.population().len(), 3);
}

#[test]
fn spawn_fills_an_empty_colony_one_ant_at_a_time() {
    let mut colony = Colony::empty(c(1, 1), 2);
    assert_eq!(colony.population().len(), 0);
    colony.spawn_if_capacity();
    assert_eq!(colony.population().len(), 1);
    assert_eq!(colony.population()[0].current_cell, c(1, 1));
    assert!(!colony.population()[0].is_returning());
    colony.spawn_if_capacity();
    colony.spawn_if_capacity();
    colony.spawn_if_capacity();
    assert_eq!(colony.population().len(), 2);
}

#[test]
fn spawn_does_nothing_without_room() {
    let mut colony = Colony::new(c(1, 1), 0);
    colony.spawn_if_capacity();
    assert_eq!(colony.population().len(), 0);
    assert_eq!(colony.max_ants, 0);
}

#[test]
fn food_keeps_its_position() {
    assert_eq!(Food::new(c(7, 8)).pos, c(7, 8));
}

#[test]
fn simulation_layout_and_one_update() {
    let (mut sim, foods) = Simulation::new();
    assert_eq!(sim.field().width, FIELD_WIDTH);
    assert_eq!(sim.field().height, FIELD_HEIGHT);
    assert_eq!(sim.colonies().len(), COLONY_COUNT);
    assert_eq!(foods.len(), 20);
    for food in &foods {
        assert!(sim.field().get_by_pos(food.pos).food > 0);
    }
    sim.update();
    assert!(sim.colonies().iter().all(|col| col.population().len() == 1000));
}

#[test]
fn simulation_from_parts_runs_phases_then_decay() {
    let mut f = open_field(1, 3);
    f.place_food_by_pos(c(0, 0));
    let colonies = vec![Colony::new(c(0, 0), 1)];
    let mut sim = Simulation::from_parts(f, colonies);
    sim.update();
    // The ant found food at home (distance 0), turned back, then started
    // exploring again at once.
    assert_eq!(sim.field().get(0, 0).food, 9999);
    assert_eq!(sim.colonies()[0].population()[0].current_cell, c(0, 1));
}
