use tetris::settings::Settings;
use tetris::tetrisfield::TetrisField;
use tetris::tetromino::Block;
use tetris::tetromino::Rotation;
use tetris::tetromino::Tetromino;
use tetris::tetromino::I;
use tetris::tetromino::J;
use tetris::tetromino::L;
use tetris::tetromino::O;
use tetris::tetromino::S;
use tetris::tetromino::T;
use tetris::tetromino::Z;

fn field(cols: u16, rows: u16) -> TetrisField {
    TetrisField::new(&Settings { cols, rows, delay: 500 })
}

fn block(tetromino: Tetromino, rotation: Rotation, x: i16, y: i16) -> Block {
    Block { tetromino, rotation, x, y, saved: None }
}

fn i(rotation: Rotation, x: i16, y: i16) -> Block {
    block(Tetromino::from(I()), rotation, x, y)
}

fn o(x: i16, y: i16) -> Block {
    block(Tetromino::from(O()), Rotation::Default, x, y)
}

fn t(rotation: Rotation, x: i16, y: i16) -> Block {
    block(Tetromino::from(T()), rotation, x, y)
}

fn place(b: &Block) -> (i16, i16, Rotation) {
    (b.x, b.y, b.rotation)
}

fn empty(cols: usize, rows: usize) -> Vec<Vec<u8>> {
    vec![vec![0u8; cols]; rows]
}

#[test]
fn new_field_is_empty() {
    assert_eq!(field(10, 20).field().0, empty(10, 20));
    assert_eq!(field(4, 4).field().0, empty(4, 4));
    assert_eq!(field(7, 5).field().0, empty(7, 5));
}

#[test]
fn in_bounds_of_a_field_of_ten_by_twenty() {
    let f = field(10, 20);
    assert!(f.in_bounds(0, 0, false));
    assert!(f.in_bounds(9, 19, false));
    assert!(!f.in_bounds(-1, 0, false));
    assert!(!f.in_bounds(10, 0, false));
    assert!(!f.in_bounds(0, 20, false));
    assert!(!f.in_bounds(0, -1, false));
    assert!(f.in_bounds(0, -1, true));
    assert!(f.in_bounds(9, i16::MIN, true));
    assert!(!f.in_bounds(0, 20, true));
    assert!(!f.in_bounds(-1, -1, true));
    assert!(!f.in_bounds(10, -1, true));
    assert!(!f.in_bounds(i16::MAX, i16::MAX, true));
}

#[test]
fn overflow_at_the_walls_and_the_floor() {
    let f = field(10, 20);
    assert!(!f.has_overflow(&o(0, 0)));
    assert!(f.has_overflow(&o(-1, 0)));
    assert!(!f.has_overflow(&o(8, 0)));
    assert!(f.has_overflow(&o(9, 0)));
    assert!(!f.has_overflow(&o(0, 18)));
    assert!(f.has_overflow(&o(0, 19)));
    assert!(f.has_overflow(&o(0, 20)));
}

#[test]
fn no_overflow_above_the_field() {
    let f = field(10, 20);
    assert!(!f.has_overflow(&o(4, -1)));
    assert!(!f.has_overflow(&o(4, -5)));
    assert!(!f.has_overflow(&o(4, i16::MIN)));
    assert!(f.has_overflow(&o(-1, -5)));
}

#[test]
fn overflow_counts_occupied_cells_only() {
    let f = field(10, 20);
    assert!(f.has_overflow(&t(Rotation::Default, -1, 0)));
    assert!(!f.has_overflow(&t(Rotation::CW, -1, 0)));
    assert!(f.has_overflow(&t(Rotation::CW, -2, 0)));
    assert!(!f.has_overflow(&i(Rotation::CCW, -1, 0)));
    assert!(f.has_overflow(&i(Rotation::CCW, -2, 0)));
    assert!(!f.has_overflow(&i(Rotation::CCW, 8, 0)));
    assert!(f.has_overflow(&i(Rotation::CCW, 9, 0)));
    assert!(!f.has_overflow(&i(Rotation::Default, 3, 18)));
    assert!(f.has_overflow(&i(Rotation::Default, 3, 19)));
    assert!(!f.has_overflow(&t(Rotation::Default, 0, 18)));
}

#[test]
fn overflow_at_the_ends_of_the_coordinate_range() {
    let f = field(10, 20);
    assert!(f.has_overflow(&o(i16::MAX, 0)));
    assert!(f.has_overflow(&o(i16::MIN, 0)));
    assert!(f.has_overflow(&o(0, i16::MAX)));
    assert!(!f.has_collision(&o(i16::MAX, i16::MAX)));
    assert!(!f.has_collision(&o(i16::MIN, i16::MIN)));
}

#[test]
fn no_collision_in_an_empty_field() {
    let f = field(10, 20);
    assert!(!f.has_collision(&o(0, 0)));
    assert!(!f.has_collision(&o(-1, 0)));
    assert!(!f.has_collision(&o(4, 19)));
    assert!(!f.has_collision(&i(Rotation::Default, 3, -1)));
}

#[test]
fn collision_with_locked_cells() {
    let mut f = field(10, 20);
    f.lock(&o(0, 18));
    assert!(f.has_collision(&o(0, 18)));
    assert!(f.has_collision(&o(1, 18)));
    assert!(!f.has_collision(&o(2, 18)));
    assert!(!f.has_collision(&o(0, 16)));
    assert!(f.has_collision(&o(0, 17)));
    assert!(f.has_collision(&o(-1, 18)));
    assert!(!f.has_collision(&o(-2, 18)));
    assert!(f.has_collision(&o(1, 19)));
}

#[test]
fn collision_counts_occupied_cells_only() {
    let mut f = field(10, 20);
    f.lock(&o(0, 18));
    // The box of the T covers the taken cells, its occupied cells do not.
    assert!(!f.has_collision(&t(Rotation::Default, 1, 16)));
    assert!(f.has_collision(&t(Rotation::Default, 1, 17)));
    assert!(!f.has_collision(&t(Rotation::CW, 1, 17)));
    assert!(f.has_collision(&t(Rotation::CW, 0, 17)));
}

#[test]
fn try_move_takes_a_free_place() {
    let f = field(10, 20);
    let mut b = t(Rotation::Default, 3, -1);
    assert!(f.try_move(&mut b, -1, 0));
    assert_eq!(place(&b), (2, -1, Rotation::Default));
    assert_eq!(b.saved, None);
    assert!(f.try_move(&mut b, 0, 1));
    assert_eq!(place(&b), (2, 0, Rotation::Default));
    assert!(f.try_move(&mut b, 5, 18));
    assert_eq!(place(&b), (7, 18, Rotation::Default));
    assert!(f.try_move(&mut b, 0, 0));
    assert_eq!(place(&b), (7, 18, Rotation::Default));
}

#[test]
fn try_move_refuses_to_leave_the_field() {
    let f = field(10, 20);
    let mut b = t(Rotation::Default, 0, 18);
    assert!(!f.try_move(&mut b, -1, 0));
    assert_eq!(place(&b), (0, 18, Rotation::Default));
    assert_eq!(b.saved, None);
    assert!(!f.try_move(&mut b, 0, 1));
    assert_eq!(place(&b), (0, 18, Rotation::Default));
    assert!(!f.try_move(&mut b, 8, 0));
    assert_eq!(place(&b), (0, 18, Rotation::Default));
    assert!(f.try_move(&mut b, 7, 0));
    assert_eq!(place(&b), (7, 18, Rotation::Default));
}

#[test]
fn try_move_goes_above_the_field() {
    let f = field(10, 20);
    let mut b = o(4, 18);
    assert!(f.try_move(&mut b, 0, -10));
    assert_eq!(place(&b), (4, 8, Rotation::Default));
    assert!(f.try_move(&mut b, 0, -100));
    assert_eq!(place(&b), (4, -92, Rotation::Default));
}

#[test]
fn try_move_refuses_a_taken_place() {
    let mut f = field(10, 20);
    f.lock(&o(0, 18));
    let mut b = o(2, 18);
    assert!(!f.try_move(&mut b, -1, 0));
    assert_eq!(place(&b), (2, 18, Rotation::Default));
    let mut above = o(0, 16);
    assert!(!f.try_move(&mut above, 0, 1));
    assert_eq!(place(&above), (0, 16, Rotation::Default));
    assert!(f.try_move(&mut above, 2, 2));
    assert_eq!(place(&above), (2, 18, Rotation::Default));
}

#[test]
fn try_move_refuses_a_place_no_block_can_hold() {
    let f = field(10, 20);
    let mut high = o(4, i16::MIN + 1);
    assert!(!f.try_move(&mut high, 0, -5));
    assert_eq!(place(&high), (4, i16::MIN + 1, Rotation::Default));
    assert!(f.try_move(&mut high, 0, -1));
    assert_eq!(place(&high), (4, i16::MIN, Rotation::Default));
    let mut b = o(5, 0);
    assert!(!f.try_move(&mut b, i16::MAX, 0));
    assert!(!f.try_move(&mut b, i16::MIN, 0));
    assert!(!f.try_move(&mut b, 0, i16::MAX));
    assert_eq!(place(&b), (5, 0, Rotation::Default));
    assert_eq!(b.saved, None);
}

#[test]
fn try_move_forgets_a_pending_move() {
    let f = field(10, 20);
    let mut b = o(4, 4);
    b.begin(5, 5, Rotation::Default);
    assert!(f.try_move(&mut b, 1, 0));
    assert_eq!(place(&b), (6, 5, Rotation::Default));
    assert_eq!(b.saved, None);
}

#[test]
fn try_rotate_turns_in_place_where_there_is_room() {
    let f = field(10, 20);
    let mut b = t(Rotation::Default, 3, 5);
    assert!(f.try_rotate(&mut b));
    assert_eq!(place(&b), (3, 5, Rotation::CW));
    assert_eq!(b.saved, None);
    let mut s = block(Tetromino::from(S()), Rotation::Default, 3, 5);
    assert!(f.try_rotate(&mut s));
    assert_eq!(place(&s), (3, 5, Rotation::CCW));
    assert!(f.try_rotate(&mut s));
    assert_eq!(place(&s), (3, 5, Rotation::Default));
}

#[test]
fn four_turns_in_the_open_bring_a_block_back() {
    let f = field(10, 20);
    for kind in [Tetromino::from(T()), Tetromino::from(J()), Tetromino::from(L())] {
        let mut b = block(kind, Rotation::Default, 3, 5);
        let mut seen = Vec::new();
        for _ in 0..4 {
            assert!(f.try_rotate(&mut b));
            seen.push(b.rotation);
        }
        assert_eq!(
            seen,
            vec![Rotation::CW, Rotation::Reverse, Rotation::CCW, Rotation::Default]
        );
        assert_eq!(place(&b), (3, 5, Rotation::Default));
    }
}

#[test]
fn try_rotate_kicks_off_the_wall() {
    let f = field(10, 20);
    let mut b = t(Rotation::CW, -1, 5);
    assert!(!f.has_overflow(&b));
    assert!(f.try_rotate(&mut b));
    assert_eq!(place(&b), (0, 5, Rotation::Reverse));
    assert_eq!(b.saved, None);
}

#[test]
fn try_rotate_kicks_off_taken_cells() {
    let mut f = field(10, 20);
    f.lock(&o(4, 7));
    let mut b = t(Rotation::Default, 3, 5);
    assert!(!f.has_collision(&b));
    assert!(f.try_rotate(&mut b));
    assert_eq!(place(&b), (2, 5, Rotation::CW));
}

#[test]
fn try_rotate_gives_up_when_no_kick_fits() {
    let f = field(10, 20);
    let mut b = i(Rotation::Default, 3, 18);
    assert!(!f.has_overflow(&b));
    assert!(!f.try_rotate(&mut b));
    assert_eq!(place(&b), (3, 18, Rotation::Default));
    assert_eq!(b.saved, None);
}

#[test]
fn try_rotate_of_the_square_changes_nothing() {
    let f = field(10, 20);
    let mut b = o(4, 4);
    assert!(f.try_rotate(&mut b));
    assert_eq!(place(&b), (4, 4, Rotation::Default));
}

#[test]
fn altitude_in_an_empty_field() {
    let f = field(10, 20);
    assert_eq!(f.altitude(&i(Rotation::Default, 3, -1)), 19);
    assert_eq!(f.altitude(&o(4, -1)), 19);
    assert_eq!(f.altitude(&t(Rotation::Default, 3, -1)), 19);
    assert_eq!(f.altitude(&i(Rotation::CCW, 3, -1)), 17);
    assert_eq!(f.altitude(&o(4, 18)), 0);
    assert_eq!(f.altitude(&o(4, 10)), 8);
}

#[test]
fn altitude_stops_at_the_highest_taken_cell_below() {
    let mut f = field(10, 20);
    f.lock(&o(4, 18));
    assert_eq!(f.altitude(&i(Rotation::Default, 3, -1)), 17);
    assert_eq!(f.altitude(&o(2, -1)), 19);
    assert_eq!(f.altitude(&o(3, -1)), 17);
    assert_eq!(f.altitude(&o(5, 0)), 16);
    assert_eq!(f.altitude(&o(6, 0)), 18);
}

#[test]
fn altitude_is_the_least_over_the_columns() {
    let mut f = field(10, 20);
    f.lock(&o(0, 18));
    let b = t(Rotation::Default, 1, 0);
    assert_eq!(f.altitude(&b), 16);
    // The stem of the turned T hangs lower than its arm.
    let turned = t(Rotation::CW, 0, 0);
    assert_eq!(f.altitude(&turned), 15);
    let beside = t(Rotation::CW, 1, 0);
    assert_eq!(f.altitude(&beside), 17);
}

#[test]
fn altitude_looks_below_the_block_only() {
    let mut f = field(10, 20);
    f.lock(&o(0, 5));
    assert_eq!(f.altitude(&o(0, 10)), 8);
    assert_eq!(f.altitude(&o(0, 0)), 3);
}

#[test]
fn altitude_of_blocks_outside_the_field() {
    let f = field(10, 20);
    assert_eq!(f.altitude(&o(4, -100)), 118);
    assert_eq!(f.altitude(&o(4, i16::MIN)), 32786);
    assert_eq!(f.altitude(&o(4, 25)), 0);
    assert_eq!(f.altitude(&o(4, 19)), 0);
    assert_eq!(f.altitude(&o(-5, 0)), 18);
    assert_eq!(f.altitude(&o(30, 0)), 18);
}

#[test]
fn drop_moves_the_block_by_its_altitude() {
    let mut f = field(10, 20);
    f.lock(&o(0, 18));
    let mut b = t(Rotation::Default, 1, 0);
    assert_eq!(f.drop(&mut b), 16);
    assert_eq!(place(&b), (1, 16, Rotation::Default));
    assert_eq!(b.saved, None);
    assert_eq!(f.drop(&mut b), 0);
    assert_eq!(place(&b), (1, 16, Rotation::Default));
    let mut high = o(4, i16::MIN);
    assert_eq!(f.drop(&mut high), 32786);
    assert_eq!(place(&high), (4, 18, Rotation::Default));
}

#[test]
fn a_dropped_block_rests_on_what_stops_it() {
    let mut f = field(10, 12);
    f.lock(&t(Rotation::Default, 0, 10));
    f.lock(&o(4, 10));
    f.lock(&i(Rotation::CCW, 6, 8));
    f.lock(&block(Tetromino::from(Z()), Rotation::Default, 3, 7));
    let kinds = [
        Tetromino::from(I()),
        Tetromino::from(T()),
        Tetromino::from(J()),
        Tetromino::from(L()),
        Tetromino::from(S()),
        Tetromino::from(Z()),
        Tetromino::from(O()),
    ];
    let rotations = [Rotation::Default, Rotation::CW, Rotation::Reverse, Rotation::CCW];
    let mut tried = 0;
    for kind in kinds {
        for rotation in rotations {
            for x in -3..10 {
                let mut b = block(kind, rotation, x, -3);
                if f.has_overflow(&b) || f.has_collision(&b) {
                    continue;
                }
                let distance = f.altitude(&b);
                assert!(distance >= 0);
                for step in 0..=distance {
                    let on_the_way = block(kind, rotation, x, -3 + step as i16);
                    assert!(!f.has_collision(&on_the_way));
                    assert!(!f.has_overflow(&on_the_way));
                }
                assert_eq!(f.drop(&mut b), distance);
                assert_eq!(b.y as i32, -3 + distance);
                let further = block(kind, rotation, x, b.y + 1);
                assert!(f.has_collision(&further) || f.has_overflow(&further));
                assert!(!f.try_move(&mut b, 0, 1));
                tried += 1;
            }
        }
    }
    assert!(tried > 100);
}

#[test]
fn lock_writes_the_block_and_names_its_rows() {
    let mut f = field(10, 20);
    let lines = f.lock(&t(Rotation::Default, 0, 17));
    assert_eq!(lines, vec![17, 18]);
    let mut expected = empty(10, 20);
    expected[17][1] = 2;
    expected[18][0] = 2;
    expected[18][1] = 2;
    expected[18][2] = 2;
    assert_eq!(f.field().0, expected);
}

#[test]
fn lock_drops_the_cells_above_the_field() {
    let mut f = field(10, 20);
    assert_eq!(f.lock(&o(4, -1)), vec![0]);
    let mut expected = empty(10, 20);
    expected[0][4] = 7;
    expected[0][5] = 7;
    assert_eq!(f.field().0, expected);
    assert_eq!(f.lock(&o(7, -2)), Vec::<u16>::new());
    assert_eq!(f.lock(&i(Rotation::Default, 0, i16::MIN)), Vec::<u16>::new());
    assert_eq!(f.field().0, expected);
}

#[test]
fn lock_drops_the_cells_beside_and_below_the_field() {
    let mut f = field(10, 20);
    assert_eq!(f.lock(&o(-1, 5)), vec![5, 6]);
    assert_eq!(f.lock(&o(9, 19)), vec![19]);
    assert_eq!(f.lock(&o(10, 3)), Vec::<u16>::new());
    assert_eq!(f.lock(&o(3, 20)), Vec::<u16>::new());
    let mut expected = empty(10, 20);
    expected[5][0] = 7;
    expected[6][0] = 7;
    expected[19][9] = 7;
    assert_eq!(f.field().0, expected);
}

#[test]
fn lock_names_the_rows_of_an_upright_i_from_the_top_down() {
    let mut f = field(10, 20);
    assert_eq!(f.lock(&i(Rotation::CCW, 3, 10)), vec![10, 11, 12, 13]);
    assert_eq!(f.lock(&i(Rotation::CCW, 3, -2)), vec![0, 1]);
}

#[test]
fn lock_writes_over_what_was_there() {
    let mut f = field(10, 20);
    f.lock(&t(Rotation::Default, 0, 17));
    f.lock(&o(1, 17));
    let mut expected = empty(10, 20);
    expected[17][1] = 7;
    expected[17][2] = 7;
    expected[18][0] = 2;
    expected[18][1] = 7;
    expected[18][2] = 7;
    assert_eq!(f.field().0, expected);
}

#[test]
fn a_locked_block_collides_with_the_field_from_then_on() {
    let mut f = field(10, 20);
    let b = block(Tetromino::from(L()), Rotation::CCW, 4, 9);
    assert!(!f.has_collision(&b));
    f.lock(&b);
    assert!(f.has_collision(&b));
    let before = f.field().0;
    f.lock(&b);
    assert_eq!(f.field().0, before);
}

#[test]
fn a_block_locked_above_the_field_leaves_no_trace() {
    let mut f = field(10, 20);
    f.lock(&o(0, 18));
    let before = f.field().0;
    let b = t(Rotation::Default, 3, -2);
    assert!(!f.has_collision(&b));
    assert_eq!(f.lock(&b), Vec::<u16>::new());
    assert!(!f.has_collision(&b));
    assert_eq!(f.field().0, before);
}

#[test]
fn field_with_block_draws_the_block_and_leaves_the_field() {
    let mut f = field(10, 20);
    f.lock(&o(0, 18));
    let before = f.field().0;
    let seen = f.field_with_block(&t(Rotation::Default, 3, -1)).0;
    let mut expected = before.clone();
    expected[0][3] = 2;
    expected[0][4] = 2;
    expected[0][5] = 2;
    assert_eq!(seen, expected);
    assert_eq!(f.field().0, before);
    let over = f.field_with_block(&o(1, 18)).0;
    let mut expected = before.clone();
    expected[18][1] = 7;
    expected[18][2] = 7;
    expected[19][1] = 7;
    expected[19][2] = 7;
    assert_eq!(over, expected);
    assert_eq!(f.field_with_block(&o(20, 40)).0, before);
}

#[test]
fn check_filled_clears_a_single_full_row() {
    let mut f = field(4, 6);
    f.lock(&o(0, 2));
    f.lock(&i(Rotation::Default, 0, 4));
    assert_eq!(
        f.field().0,
        vec![
            vec![0, 0, 0, 0],
            vec![0, 0, 0, 0],
            vec![7, 7, 0, 0],
            vec![7, 7, 0, 0],
            vec![0, 0, 0, 0],
            vec![1, 1, 1, 1],
        ]
    );
    assert_eq!(f.check_filled(vec![5]), 1);
    assert_eq!(
        f.field().0,
        vec![
            vec![0, 0, 0, 0],
            vec![0, 0, 0, 0],
            vec![0, 0, 0, 0],
            vec![7, 7, 0, 0],
            vec![7, 7, 0, 0],
            vec![0, 0, 0, 0],
        ]
    );
}

#[test]
fn check_filled_clears_a_full_row_in_the_middle() {
    let mut f = field(4, 6);
    f.lock(&t(Rotation::Default, 0, 0));
    f.lock(&i(Rotation::Default, 0, 2));
    f.lock(&o(2, 4));
    let before = f.field().0;
    assert_eq!(before[3], vec![1, 1, 1, 1]);
    assert_eq!(f.check_filled(vec![1, 3, 4]), 1);
    let after = f.field().0;
    assert_eq!(after.len(), 6);
    assert_eq!(after[0], vec![0, 0, 0, 0]);
    assert_eq!(after[1], before[0]);
    assert_eq!(after[2], before[1]);
    assert_eq!(after[3], before[2]);
    assert_eq!(after[4], before[4]);
    assert_eq!(after[5], before[5]);
    assert_eq!(after[1], vec![0, 2, 0, 0]);
    assert_eq!(after[2], vec![2, 2, 2, 0]);
    assert_eq!(after[5], vec![0, 0, 7, 7]);
}

#[test]
fn check_filled_leaves_rows_that_are_not_full() {
    let mut f = field(4, 6);
    f.lock(&o(0, 2));
    f.lock(&i(Rotation::Default, 0, 4));
    let before = f.field().0;
    assert_eq!(f.check_filled(vec![3]), 0);
    assert_eq!(f.check_filled(vec![0, 1, 2, 3, 4]), 0);
    assert_eq!(f.check_filled(vec![]), 0);
    assert_eq!(f.field().0, before);
}

#[test]
fn check_filled_passes_over_lines_outside_the_field() {
    let mut f = field(4, 6);
    f.lock(&i(Rotation::Default, 0, 4));
    let before = f.field().0;
    assert_eq!(f.check_filled(vec![6, 100, 65535]), 0);
    assert_eq!(f.field().0, before);
    assert_eq!(f.check_filled(vec![65535, 5, 6]), 1);
    assert_eq!(f.field().0, empty(4, 6));
}

#[test]
fn check_filled_looks_at_the_named_rows_only() {
    let mut f = field(4, 6);
    f.lock(&i(Rotation::Default, 0, 4));
    let before = f.field().0;
    assert_eq!(f.check_filled(vec![4]), 0);
    assert_eq!(f.field().0, before);
    assert_eq!(before[5], vec![1, 1, 1, 1]);
}

#[test]
fn check_filled_takes_lines_in_any_order_and_more_than_once() {
    let mut f = field(4, 6);
    f.lock(&o(1, 1));
    f.lock(&i(Rotation::Default, 0, 3));
    f.lock(&i(Rotation::Default, 0, 4));
    assert_eq!(f.check_filled(vec![5, 4, 5]), 2);
    assert_eq!(
        f.field().0,
        vec![
            vec![0, 0, 0, 0],
            vec![0, 0, 0, 0],
            vec![0, 0, 0, 0],
            vec![0, 7, 7, 0],
            vec![0, 7, 7, 0],
            vec![0, 0, 0, 0],
        ]
    );
}

#[test]
fn check_filled_clears_full_rows_that_are_apart() {
    let mut f = field(4, 6);
    f.lock(&i(Rotation::Default, 0, 4));
    f.lock(&i(Rotation::Default, 0, 2));
    f.lock(&t(Rotation::Default, 0, 3));
    assert_eq!(
        f.field().0,
        vec![
            vec![0, 0, 0, 0],
            vec![0, 0, 0, 0],
            vec![0, 0, 0, 0],
            vec![1, 2, 1, 1],
            vec![2, 2, 2, 0],
            vec![1, 1, 1, 1],
        ]
    );
    assert_eq!(f.check_filled(vec![3, 4, 5]), 2);
    assert_eq!(
        f.field().0,
        vec![
            vec![0, 0, 0, 0],
            vec![0, 0, 0, 0],
            vec![0, 0, 0, 0],
            vec![0, 0, 0, 0],
            vec![0, 0, 0, 0],
            vec![2, 2, 2, 0],
        ]
    );
}

fn five_wide_with_rows(full: i16) -> TetrisField {
    let mut f = field(5, 8);
    for k in 0..full {
        f.lock(&i(Rotation::Default, 0, 6 - k));
    }
    f
}

#[test]
fn consume_without_a_full_row_only_locks() {
    let mut f = five_wide_with_rows(0);
    assert_eq!(f.consume(i(Rotation::CCW, 3, 4)), 0);
    let mut expected = empty(5, 8);
    for row in 4..8 {
        expected[row][4] = 1;
    }
    assert_eq!(f.field().0, expected);
}

#[test]
fn consume_clears_one_row() {
    let mut f = five_wide_with_rows(1);
    assert_eq!(f.consume(i(Rotation::CCW, 3, 4)), 1);
    let mut expected = empty(5, 8);
    for row in 5..8 {
        expected[row][4] = 1;
    }
    assert_eq!(f.field().0, expected);
}

#[test]
fn consume_clears_two_rows() {
    let mut f = five_wide_with_rows(2);
    assert_eq!(f.consume(i(Rotation::CCW, 3, 4)), 2);
    let mut expected = empty(5, 8);
    for row in 6..8 {
        expected[row][4] = 1;
    }
    assert_eq!(f.field().0, expected);
}

#[test]
fn consume_clears_three_rows() {
    let mut f = five_wide_with_rows(3);
    assert_eq!(f.consume(i(Rotation::CCW, 3, 4)), 3);
    let mut expected = empty(5, 8);
    expected[7][4] = 1;
    assert_eq!(f.field().0, expected);
}

#[test]
fn consume_clears_four_rows() {
    let mut f = five_wide_with_rows(4);
    assert_eq!(f.consume(i(Rotation::CCW, 3, 4)), 4);
    assert_eq!(f.field().0, empty(5, 8));
}

#[test]
fn consume_clears_only_rows_the_block_lies_in() {
    let mut f = field(4, 6);
    f.lock(&i(Rotation::Default, 0, 4));
    assert_eq!(f.consume(o(0, 2)), 0);
    assert_eq!(f.field().0[5], vec![1, 1, 1, 1]);
    assert_eq!(f.consume(block(Tetromino::from(J()), Rotation::Default, 0, 4)), 1);
    assert_eq!(
        f.field().0,
        vec![
            vec![0, 0, 0, 0],
            vec![0, 0, 0, 0],
            vec![0, 0, 0, 0],
            vec![7, 7, 0, 0],
            vec![7, 7, 0, 0],
            vec![3, 0, 0, 0],
        ]
    );
}

#[test]
fn the_field_keeps_its_size() {
    let mut f = five_wide_with_rows(4);
    f.consume(i(Rotation::CCW, 3, 4));
    f.check_filled(vec![0, 1, 2, 3, 4, 5, 6, 7]);
    f.lock(&o(1, 1));
    let cells = f.field().0;
    assert_eq!(cells.len(), 8);
    for row in cells.iter() {
        assert_eq!(row.len(), 5);
    }
}
