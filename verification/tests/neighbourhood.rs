use spatial_game::payoff::{calculate_score, pick_leader};
use spatial_game::torus::{after, before, neighbors_on};
use spatial_game::{Alpha, Patch, PlayingField, Strategy, SCALE, TIE_TOLERANCE};

fn patches_of(letters: &str) -> [Patch; 8] {
    let mut patches = [Patch::new(Strategy::Leeching); 8];
    for (i, c) in letters.chars().enumerate() {
        if c == 'H' {
            patches[i] = Patch { strategy: Strategy::Helping, score: 123 };
        }
    }
    patches
}

#[test]
fn ring_wraps_both_ways() {
    assert_eq!(before(0, 5), 4);
    assert_eq!(before(3, 5), 2);
    assert_eq!(before(5, 5), 4);
    assert_eq!(before(0, 1), 0);
    assert_eq!(after(4, 5), 0);
    assert_eq!(after(3, 5), 4);
    assert_eq!(after(9, 5), 0);
    assert_eq!(after(0, 1), 0);
    assert_eq!(before(usize::MAX, usize::MAX), usize::MAX - 1);
    assert_eq!(after(usize::MAX - 1, usize::MAX), 0);
}

#[test]
fn neighbours_of_an_inner_cell() {
    assert_eq!(
        neighbors_on(5, 4, 2, 1),
        [(1, 0), (1, 1), (1, 2), (2, 0), (2, 2), (3, 0), (3, 1), (3, 2)]
    );
}

#[test]
fn neighbours_of_the_origin_wrap() {
    let field = PlayingField::with_patches(vec![vec![Patch::new(Strategy::Helping); 3]; 4]).unwrap();
    assert_eq!(
        field.neighbors_of(0, 0),
        [(3, 2), (3, 0), (3, 1), (0, 2), (0, 1), (1, 2), (1, 0), (1, 1)]
    );
}

#[test]
fn neighbours_of_the_last_cell_wrap() {
    let field = PlayingField::with_patches(vec![vec![Patch::new(Strategy::Helping); 3]; 4]).unwrap();
    assert_eq!(
        field.neighbors_of(3, 2),
        [(2, 1), (2, 2), (2, 0), (3, 1), (3, 0), (0, 1), (0, 2), (0, 0)]
    );
}

#[test]
fn neighbours_are_always_on_the_grid() {
    for (w, h) in [(1, 1), (1, 3), (2, 2), (3, 1), (4, 6)] {
        let field = PlayingField::with_patches(vec![vec![Patch::new(Strategy::Helping); h]; w]).unwrap();
        for x in 0..w + 2 {
            for y in 0..h + 2 {
                for (nx, ny) in field.neighbors_of(x, y) {
                    assert!(nx < w);
                    assert!(ny < h);
                }
            }
        }
    }
}

#[test]
fn neighbours_on_small_grids_repeat() {
    assert_eq!(neighbors_on(1, 1, 0, 0), [(0, 0); 8]);
    assert_eq!(
        neighbors_on(2, 2, 0, 0),
        [(1, 1), (1, 0), (1, 1), (0, 1), (0, 1), (1, 1), (1, 0), (1, 1)]
    );
    assert_eq!(
        neighbors_on(1, 3, 0, 1),
        [(0, 0), (0, 1), (0, 2), (0, 0), (0, 2), (0, 0), (0, 1), (0, 2)]
    );
}

#[test]
fn coordinates_off_the_grid_are_wrapped() {
    assert_eq!(neighbors_on(5, 4, 7, 9), neighbors_on(5, 4, 2, 1));
}

#[test]
fn helper_is_paid_a_point_for_each_helper() {
    let patch = Patch::new(Strategy::Helping);
    let alpha = Alpha { micros: 1_300_000 };
    assert_eq!(calculate_score(&patch, &patches_of("LLLLLLLL"), alpha), 0);
    assert_eq!(calculate_score(&patch, &patches_of("HLLHLLHL"), alpha), 3_000_000);
    assert_eq!(calculate_score(&patch, &patches_of("HHHHHHHH"), alpha), 8_000_000);
    assert_eq!(calculate_score(&patch, &patches_of("LLLLLLLH"), alpha), SCALE);
}

#[test]
fn leecher_is_paid_alpha_for_each_helper() {
    let patch = Patch::new(Strategy::Leeching);
    let alpha = Alpha { micros: 1_300_000 };
    assert_eq!(calculate_score(&patch, &patches_of("LLLLLLLL"), alpha), 0);
    assert_eq!(calculate_score(&patch, &patches_of("HLLHLLHL"), alpha), 3_900_000);
    assert_eq!(calculate_score(&patch, &patches_of("HHHHHHHH"), alpha), 10_400_000);
    assert_eq!(calculate_score(&patch, &patches_of("HHHHHHHH"), Alpha { micros: 0 }), 0);
    assert_eq!(
        calculate_score(&patch, &patches_of("HHHHHHHH"), Alpha { micros: u32::MAX }),
        34_359_738_360
    );
}

#[test]
fn first_of_the_highest_leads() {
    assert_eq!(pick_leader(&[0; 9]), 0);
    assert_eq!(pick_leader(&[5, 5, 5, 5, 5, 5, 5, 5, 5]), 0);
    assert_eq!(pick_leader(&[1, 2, 9, 4, 9, 6, 9, 8, 9]), 2);
    assert_eq!(pick_leader(&[10, 20, 30, 40, 50, 60, 70, 80, 90]), 8);
    assert_eq!(pick_leader(&[90, 80, 70, 60, 50, 40, 30, 20, 10]), 0);
    assert_eq!(pick_leader(&[0, 0, 0, 0, u64::MAX, 0, 0, 0, u64::MAX]), 4);
}

#[test]
fn lead_changes_only_beyond_the_tolerance() {
    assert_eq!(TIE_TOLERANCE, 1);
    assert_eq!(pick_leader(&[100, 101, 0, 0, 0, 0, 0, 0, 0]), 0);
    assert_eq!(pick_leader(&[100, 102, 0, 0, 0, 0, 0, 0, 0]), 1);
    assert_eq!(pick_leader(&[100, 101, 102, 0, 0, 0, 0, 0, 0]), 2);
    assert_eq!(pick_leader(&[100, 101, 102, 103, 0, 0, 0, 0, 0]), 2);
    assert_eq!(pick_leader(&[u64::MAX - 1, u64::MAX, 0, 0, 0, 0, 0, 0, 0]), 0);
}

#[test]
fn picture_has_a_line_for_each_row() {
    let field = PlayingField::with_patches(vec![
        vec![Patch::new(Strategy::Helping), Patch::new(Strategy::Leeching)],
        vec![Patch::new(Strategy::Leeching), Patch::new(Strategy::Leeching)],
        vec![Patch::new(Strategy::Helping), Patch::new(Strategy::Helping)],
    ]).unwrap();
    let text: String = field.picture().into_iter().collect();
    assert_eq!(text, "\u{1F7E2}\u{1F7E1}\n\u{1F7E1}\u{1F7E1}\n\u{1F7E2}\u{1F7E2}\n\n");
    assert_eq!(Strategy::Helping.glyph(), '🟢');
    assert_eq!(Strategy::Leeching.glyph(), '🟡');
}
