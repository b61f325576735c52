use apogeetrak::geometry::Position;
use apogeetrak::labels::{observe, LabelAction, LabelBoard, LabelState, Observation};
use apogeetrak::visibility::{ScreenPoint, ViewProjection};

fn px(x: u32, y: u32) -> ScreenPoint {
    ScreenPoint { x, y }
}

fn shown(satellite: u64, x: u32, y: u32) -> Observation {
    Observation { satellite, screen: Some(px(x, y)) }
}

fn unseen(satellite: u64) -> Observation {
    Observation { satellite, screen: None }
}

#[test]
fn new_board_is_empty() {
    let board = LabelBoard::new();
    assert_eq!(board.len(), 0);
    assert_eq!(board.label(7), None);
}

#[test]
fn label_is_created_on_first_sight() {
    let mut board = LabelBoard::new();
    let actions = board.reconcile(&vec![shown(1, 10, 20), unseen(2)]);
    assert_eq!(actions, vec![LabelAction::Create(px(10, 20)), LabelAction::Nothing]);
    assert_eq!(board.len(), 1);
    assert_eq!(board.label(1), Some(LabelState { position: px(10, 20), hidden: false }));
    assert_eq!(board.label(2), None);
}

#[test]
fn label_is_moved_and_not_made_anew() {
    let mut board = LabelBoard::new();
    board.reconcile(&vec![shown(1, 10, 20)]);
    let actions = board.reconcile(&vec![shown(1, 11, 22)]);
    assert_eq!(actions, vec![LabelAction::Show(px(11, 22))]);
    assert_eq!(board.label(1), Some(LabelState { position: px(11, 22), hidden: false }));
    assert_eq!(board.len(), 1);
}

#[test]
fn label_is_hidden_where_it_stands() {
    let mut board = LabelBoard::new();
    board.reconcile(&vec![shown(1, 10, 20)]);
    let actions = board.reconcile(&vec![unseen(1)]);
    assert_eq!(actions, vec![LabelAction::Hide]);
    assert_eq!(board.label(1), Some(LabelState { position: px(10, 20), hidden: true }));
    // it stays hidden, and comes back without being made anew
    assert_eq!(board.reconcile(&vec![unseen(1)]), vec![LabelAction::Hide]);
    assert_eq!(board.reconcile(&vec![shown(1, 5, 6)]), vec![LabelAction::Show(px(5, 6))]);
    assert_eq!(board.label(1), Some(LabelState { position: px(5, 6), hidden: false }));
}

#[test]
fn label_goes_with_its_satellite() {
    let mut board = LabelBoard::new();
    board.reconcile(&vec![shown(1, 10, 20), shown(2, 30, 40), shown(3, 50, 60)]);
    assert_eq!(board.len(), 3);
    let actions = board.reconcile(&vec![unseen(3), shown(1, 1, 1)]);
    assert_eq!(actions, vec![LabelAction::Hide, LabelAction::Show(px(1, 1))]);
    assert_eq!(board.len(), 2);
    assert_eq!(board.label(2), None);
    assert_eq!(board.label(3), Some(LabelState { position: px(50, 60), hidden: true }));
    // a satellite that comes back gets a new label
    assert_eq!(board.reconcile(&vec![shown(2, 9, 9)]), vec![LabelAction::Create(px(9, 9))]);
    assert_eq!(board.len(), 1);
}

#[test]
fn empty_frame_clears_the_board() {
    let mut board = LabelBoard::new();
    board.reconcile(&vec![shown(1, 10, 20), shown(2, 30, 40)]);
    assert!(board.reconcile(&vec![]).is_empty());
    assert_eq!(board.len(), 0);
}

#[test]
fn observations_of_one_satellite_count_in_order() {
    let mut board = LabelBoard::new();
    let actions = board.reconcile(&vec![unseen(4), shown(4, 1, 2), shown(4, 3, 4), unseen(4)]);
    assert_eq!(
        actions,
        vec![
            LabelAction::Nothing,
            LabelAction::Create(px(1, 2)),
            LabelAction::Show(px(3, 4)),
            LabelAction::Hide
        ]
    );
    assert_eq!(board.label(4), Some(LabelState { position: px(3, 4), hidden: true }));
    assert_eq!(board.len(), 1);
}

#[test]
fn many_satellites() {
    let mut board = LabelBoard::new();
    let frame: Vec<Observation> = (0..1000).map(|i| shown(i, i as u32, 0)).collect();
    let actions = board.reconcile(&frame);
    assert!(actions.iter().enumerate().all(|(i, a)| *a == LabelAction::Create(px(i as u32, 0))));
    let frame: Vec<Observation> =
        (0..1000).filter(|i| i % 2 == 0).map(|i| if i % 4 == 0 { unseen(i) } else { shown(i, 7, 7) }).collect();
    let actions = board.reconcile(&frame);
    assert_eq!(actions.len(), 500);
    assert_eq!(board.len(), 500);
    assert_eq!(board.label(4), Some(LabelState { position: px(4, 0), hidden: true }));
    assert_eq!(board.label(6), Some(LabelState { position: px(7, 7), hidden: false }));
    assert_eq!(board.label(5), None);
}

#[test]
fn observation_needs_sight_and_screen() {
    let m = ViewProjection {
        rows: [[1, 0, 0, 0], [0, 1, 0, 0], [0, 0, 1, 0], [0, 0, -1, 20_000_000]],
    };
    let camera = Position::new(0, 0, 20_000_000).unwrap();
    let centre = Position::origin();
    let look = |x: i64, y: i64, z: i64| {
        observe(9, &Position::new(x, y, z).unwrap(), &camera, &centre, 6_378_000, &m, 800, 600)
    };
    // in front of the planet
    assert_eq!(look(0, 0, 7_000_000), shown(9, 400, 300));
    // behind it
    assert_eq!(look(0, 0, -7_000_000), unseen(9));
    // beside it, but off the screen
    assert_eq!(look(40_000_000, 0, 0), unseen(9));
    // beside it and on the screen
    assert_eq!(look(10_000_000, 0, 0), shown(9, 600, 300));
    // behind the camera
    assert_eq!(look(0, 0, 30_000_000), unseen(9));
}
