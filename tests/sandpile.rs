use sandpile::{
    add_grain, add_random_grain, is_stable, render, run, stabilize, topple, ConfigError, Pile,
    SandBox, Simulation, State,
};

fn grid(rows: [[u32; 3]; 3]) -> SandBox {
    SandBox::from_rows(&rows.iter().map(|r| r.to_vec()).collect()).unwrap()
}

fn total(sand_box: &SandBox) -> u32 {
    sand_box.rows().iter().map(|r| r.iter().sum::<u32>()).sum()
}

const EMPTY_3BY3: [[u32; 3]; 3] = [[0; 3]; 3];
const ONE_GRAIN_3BY3: [[u32; 3]; 3] = [[0, 0, 0], [0, 0, 1], [0, 0, 0]];
const UNSTABLE_3BY3: [[u32; 3]; 3] = [[0, 0, 0], [0, 4, 0], [0, 0, 0]];
const TOPPLED_3BY3: [[u32; 3]; 3] = [[0, 1, 0], [1, 0, 1], [0, 1, 0]];
const BORDER_UNSTABLE_3BY3: [[u32; 3]; 3] = [[0, 0, 0], [0, 0, 4], [0, 0, 0]];
const BORDER_TOPPLED_3BY3: [[u32; 3]; 3] = [[0, 0, 1], [0, 1, 0], [0, 0, 1]];
const CORNER_UNSTABLE_3BY3: [[u32; 3]; 3] = [[0, 0, 0], [0, 0, 0], [0, 0, 4]];
const CORNER_TOPPLED_3BY3: [[u32; 3]; 3] = [[0, 0, 0], [0, 0, 1], [0, 1, 0]];
const CASCADE_UNSTABLE_3BY3: [[u32; 3]; 3] = [[0, 0, 0], [0, 4, 3], [0, 0, 0]];
const CASCADE_STABILIZED_3BY3: [[u32; 3]; 3] = [[0, 1, 1], [1, 1, 0], [0, 1, 1]];

fn rows_of(rows: [[u32; 3]; 3]) -> Vec<Vec<u32>> {
    rows.iter().map(|r| r.to_vec()).collect()
}

#[test]
fn empty_pile() {
    let pile = Pile::new();
    assert!(pile.height == 0);
}

#[test]
fn new_pile_plus_grain() {
    let mut pile = Pile::new();
    pile.add_grain();
    assert!(pile.height == 1);
}

#[test]
fn state() {
    assert_eq!(is_stable(&grid(EMPTY_3BY3)), State::Stable);
    assert_eq!(is_stable(&grid(UNSTABLE_3BY3)), State::Unstable((1, 1)));
}

#[test]
fn dropping_one_grain() {
    let mut sand_box = grid(EMPTY_3BY3);
    add_grain(&mut sand_box, (1, 2));
    assert_eq!(sand_box.rows(), rows_of(ONE_GRAIN_3BY3));
}

#[test]
fn topple_3by3() {
    let mut sand_box = grid(UNSTABLE_3BY3);
    topple(&mut sand_box, (1, 1));
    assert_eq!(sand_box.rows(), rows_of(TOPPLED_3BY3), "CENTER TOPPLE");

    let mut sand_box = grid(BORDER_UNSTABLE_3BY3);
    topple(&mut sand_box, (1, 2));
    assert_eq!(sand_box.rows(), rows_of(BORDER_TOPPLED_3BY3), "BORDER TOPPLE");

    let mut sand_box = grid(CORNER_UNSTABLE_3BY3);
    topple(&mut sand_box, (2, 2));
    assert_eq!(sand_box.rows(), rows_of(CORNER_TOPPLED_3BY3), "CORNER TOPPLE");
}

#[test]
fn stabilize_3by3() {
    let mut sand_box = grid(UNSTABLE_3BY3);
    stabilize(&mut sand_box);
    assert_eq!(sand_box.rows(), rows_of(TOPPLED_3BY3), "CENTER TOPPLE");

    let mut sand_box = grid(BORDER_UNSTABLE_3BY3);
    stabilize(&mut sand_box);
    assert_eq!(sand_box.rows(), rows_of(BORDER_TOPPLED_3BY3), "BORDER TOPPLE");

    let mut sand_box = grid(CORNER_UNSTABLE_3BY3);
    stabilize(&mut sand_box);
    assert_eq!(sand_box.rows(), rows_of(CORNER_TOPPLED_3BY3), "CORNER TOPPLE");

    let mut sand_box = grid(CASCADE_UNSTABLE_3BY3);
    stabilize(&mut sand_box);
    assert_eq!(sand_box.rows(), rows_of(CASCADE_STABILIZED_3BY3), "CORNER TOPPLE");
}

#[test]
fn pile_drop_and_stability() {
    let mut pile = Pile { height: 6 };
    assert!(!pile.is_stable());
    pile.drop_grains();
    assert_eq!(pile.height, 2);
    assert!(pile.is_stable());
    assert!(!Pile { height: 4 }.is_stable());
    assert!(Pile { height: 3 }.is_stable());
}

#[test]
fn single_add_stays_stable() {
    let mut sand_box = SandBox::new(3);
    add_grain(&mut sand_box, (1, 2));
    assert_eq!(sand_box.height(1, 2), 1);
    assert_eq!(total(&sand_box), 1);
    assert_eq!(is_stable(&sand_box), State::Stable);
}

#[test]
fn topple_mass_by_position() {
    let mut center = grid(UNSTABLE_3BY3);
    topple(&mut center, (1, 1));
    assert_eq!(total(&center), 4);

    let mut edge = grid(BORDER_UNSTABLE_3BY3);
    topple(&mut edge, (1, 2));
    assert_eq!(total(&edge), 3);

    let mut corner = grid(CORNER_UNSTABLE_3BY3);
    topple(&mut corner, (2, 2));
    assert_eq!(total(&corner), 2);
}

#[test]
fn first_unstable_in_row_major_order() {
    let sand_box = grid([[0, 0, 0], [0, 3, 5], [7, 0, 0]]);
    assert_eq!(is_stable(&sand_box), State::Unstable((1, 2)));
}

#[test]
fn stabilize_result_is_stable() {
    let mut sand_box = SandBox::new(5);
    for _ in 0..100 {
        add_grain(&mut sand_box, (2, 2));
    }
    stabilize(&mut sand_box);
    assert_eq!(is_stable(&sand_box), State::Stable);
    assert!(total(&sand_box) <= 100);
    assert!(sand_box.rows().iter().all(|r| r.iter().all(|h| *h < 4)));
}

#[test]
fn stabilize_twice_changes_nothing() {
    let mut sand_box = grid(CASCADE_UNSTABLE_3BY3);
    stabilize(&mut sand_box);
    let once = sand_box.rows();
    stabilize(&mut sand_box);
    assert_eq!(sand_box.rows(), once);
}

#[test]
fn stabilize_keeps_a_stable_grid() {
    let mut sand_box = grid([[3, 2, 1], [0, 3, 3], [1, 1, 0]]);
    stabilize(&mut sand_box);
    assert_eq!(sand_box.rows(), vec![vec![3, 2, 1], vec![0, 3, 3], vec![1, 1, 0]]);
}

#[test]
fn other_topple_order_gives_same_grid() {
    let start = [[0, 0, 0], [0, 4, 4], [0, 0, 0]];
    let mut by_scan = grid(start);
    stabilize(&mut by_scan);

    // the scan topples (1, 1) first; here (1, 2) goes first
    let mut by_hand = grid(start);
    topple(&mut by_hand, (1, 2));
    while let State::Unstable(cell) = is_stable(&by_hand) {
        topple(&mut by_hand, cell);
    }
    assert_eq!(by_hand.rows(), by_scan.rows());
}

#[test]
fn cascade_loses_grains_only_at_edge() {
    let mut sand_box = grid(CASCADE_UNSTABLE_3BY3);
    stabilize(&mut sand_box);
    // the centre topple keeps all 4; the edge topple loses 1
    assert_eq!(total(&sand_box), 7 - 1);
}

#[test]
fn random_grain_adds_one() {
    let mut sand_box = SandBox::new(4);
    add_random_grain(&mut sand_box);
    assert_eq!(total(&sand_box), 1);
    assert_eq!(sand_box.size(), 4);
}

#[test]
fn from_rows_rejects_non_square() {
    assert!(SandBox::from_rows(&vec![vec![0, 0], vec![0]]).is_none());
    assert!(SandBox::from_rows(&vec![vec![0, 0, 0], vec![0, 0, 0]]).is_none());
    assert!(SandBox::from_rows(&vec![]).is_some());
}

#[test]
fn run_rejects_bad_configuration() {
    assert_eq!(run(0, 5, (0, 0)).err(), Some(ConfigError::EmptyGrid));
    assert_eq!(run(3, 5, (3, 1)).err(), Some(ConfigError::InjectionOutOfBounds));
    assert_eq!(run(3, 5, (1, 3)).err(), Some(ConfigError::InjectionOutOfBounds));
    assert_eq!(run(usize::MAX, 5, (0, 0)).err(), Some(ConfigError::GridTooLarge));
}

#[test]
fn run_four_grains_at_centre() {
    let sand_box = run(3, 4, (1, 1)).unwrap();
    assert_eq!(sand_box.rows(), rows_of(TOPPLED_3BY3));
    let none = run(3, 0, (1, 1)).unwrap();
    assert_eq!(none.rows(), rows_of(EMPTY_3BY3));
}

#[test]
fn simulation_steps_one_round_at_a_time() {
    let mut sim = Simulation::new(3, 2, (0, 0)).unwrap();
    assert!(!sim.is_done());
    sim.step();
    assert_eq!(sim.sand_box().height(0, 0), 1);
    sim.step();
    assert!(sim.is_done());
    assert_eq!(sim.sand_box().height(0, 0), 2);
    let mut rest = Simulation::new(3, 2, (0, 0)).unwrap();
    rest.simulate();
    assert_eq!(rest.sand_box().rows(), sim.sand_box().rows());
}

#[test]
fn render_digits_per_row() {
    let text = render(&grid(TOPPLED_3BY3)).unwrap();
    assert_eq!(text, b"010\n101\n010\n".to_vec());
    assert!(render(&grid([[0, 0, 0], [0, 10, 0], [0, 0, 0]])).is_none());
    assert_eq!(render(&grid([[9, 0, 0], [0, 0, 0], [0, 0, 0]])).unwrap(), b"900\n000\n000\n".to_vec());
}
