use spatial_game::{GridError, Patch, PlayingField, Strategy};
use std::cell::Cell;

#[test]
fn new_patch_is_unpaid() {
    assert_eq!(Patch::new(Strategy::Helping), Patch { strategy: Strategy::Helping, score: 0 });
    assert_eq!(Patch::new(Strategy::Leeching), Patch { strategy: Strategy::Leeching, score: 0 });
}

#[test]
fn coin_decides_strategy() {
    assert_eq!(Strategy::from_coin(true), Strategy::Helping);
    assert_eq!(Strategy::from_coin(false), Strategy::Leeching);
}

#[test]
fn from_layout_keeps_the_patches() {
    let patches = vec![
        vec![Patch::new(Strategy::Helping), Patch { strategy: Strategy::Leeching, score: 3 }],
        vec![Patch::new(Strategy::Leeching), Patch::new(Strategy::Helping)],
        vec![Patch::new(Strategy::Leeching), Patch::new(Strategy::Leeching)],
    ];
    let field = PlayingField::from_layout(patches.clone()).unwrap();
    assert_eq!(field.width(), 3);
    assert_eq!(field.height(), 2);
    assert_eq!(field.patches(), &patches);
    assert_eq!(field.strategy_at(0, 1), Strategy::Leeching);
    assert_eq!(field.score_at(0, 1), 3);
    assert_eq!(field.strategy_at(1, 1), Strategy::Helping);
    assert_eq!(field.score_at(2, 0), 0);
}

#[test]
fn with_patches_keeps_the_patches() {
    let patches = vec![vec![Patch::new(Strategy::Leeching); 4]; 2];
    let field = PlayingField::with_patches(patches.clone()).unwrap();
    assert_eq!(field.width(), 2);
    assert_eq!(field.height(), 4);
    assert_eq!(field.patches(), &patches);
}

#[test]
fn from_layout_refuses_empty_layout() {
    assert_eq!(PlayingField::from_layout(vec![]).err(), Some(GridError::EmptyLayout));
    assert_eq!(PlayingField::from_layout(vec![vec![]]).err(), Some(GridError::EmptyLayout));
    assert_eq!(
        PlayingField::from_layout(vec![vec![], vec![], vec![]]).err(),
        Some(GridError::EmptyLayout)
    );
}

#[test]
fn from_layout_refuses_ragged_layout() {
    let p = Patch::new(Strategy::Helping);
    assert_eq!(
        PlayingField::from_layout(vec![vec![p, p], vec![p]]).err(),
        Some(GridError::RaggedLayout)
    );
    assert_eq!(
        PlayingField::from_layout(vec![vec![p], vec![p], vec![p, p]]).err(),
        Some(GridError::RaggedLayout)
    );
    assert_eq!(
        PlayingField::from_layout(vec![vec![p], vec![]]).err(),
        Some(GridError::RaggedLayout)
    );
    assert_eq!(
        PlayingField::from_layout(vec![vec![], vec![p]]).err(),
        Some(GridError::RaggedLayout)
    );
}

#[test]
fn with_patches_refuses_empty_layout() {
    assert_eq!(PlayingField::with_patches(vec![]).err(), Some(GridError::EmptyLayout));
    assert_eq!(PlayingField::with_patches(vec![vec![]]).err(), Some(GridError::EmptyLayout));
    assert_eq!(
        PlayingField::with_patches(vec![vec![], vec![]]).err(),
        Some(GridError::EmptyLayout)
    );
}

#[test]
fn with_patches_refuses_ragged_layout() {
    let p = Patch::new(Strategy::Leeching);
    assert_eq!(
        PlayingField::with_patches(vec![vec![p, p, p], vec![p, p, p], vec![p, p]]).err(),
        Some(GridError::RaggedLayout)
    );
    assert_eq!(
        PlayingField::with_patches(vec![vec![p], vec![p, p]]).err(),
        Some(GridError::RaggedLayout)
    );
    assert_eq!(
        PlayingField::with_patches(vec![vec![], vec![p]]).err(),
        Some(GridError::RaggedLayout)
    );
    assert_eq!(
        PlayingField::with_patches(vec![vec![p], vec![]]).err(),
        Some(GridError::RaggedLayout)
    );
}

#[test]
fn from_draws_fills_row_after_row() {
    let h = Strategy::Helping;
    let l = Strategy::Leeching;
    let field = PlayingField::from_draws(2, 3, &vec![h, l, l, l, h, h]).unwrap();
    assert_eq!(field.width(), 2);
    assert_eq!(field.height(), 3);
    assert_eq!(
        field.patches(),
        &vec![
            vec![Patch::new(h), Patch::new(l), Patch::new(l)],
            vec![Patch::new(l), Patch::new(h), Patch::new(h)],
        ]
    );
    assert_eq!(field.strategy_at(1, 0), l);
    assert_eq!(field.strategy_at(0, 2), l);
    assert_eq!(field.score_at(1, 2), 0);
}

#[test]
fn from_draws_refuses_zero_dimensions() {
    assert_eq!(PlayingField::from_draws(0, 3, &vec![]).err(), Some(GridError::InvalidDimensions));
    assert_eq!(PlayingField::from_draws(3, 0, &vec![]).err(), Some(GridError::InvalidDimensions));
    assert_eq!(PlayingField::from_draws(0, 0, &vec![]).err(), Some(GridError::InvalidDimensions));
}

#[test]
fn create_lays_the_draws_out_row_after_row() {
    let calls = Cell::new(0usize);
    let field = PlayingField::create(2, 3, || {
        calls.set(calls.get() + 1);
        Strategy::from_coin(calls.get() == 1 || calls.get() >= 5)
    })
    .unwrap();
    assert_eq!(calls.get(), 6);
    let h = Patch::new(Strategy::Helping);
    let l = Patch::new(Strategy::Leeching);
    assert_eq!(field.patches(), &vec![vec![h, l, l], vec![l, h, h]]);
}

#[test]
fn create_refuses_zero_dimensions() {
    assert_eq!(
        PlayingField::create(0, 3, || Strategy::Helping).err(),
        Some(GridError::InvalidDimensions)
    );
    assert_eq!(
        PlayingField::create(3, 0, || Strategy::Helping).err(),
        Some(GridError::InvalidDimensions)
    );
    assert_eq!(
        PlayingField::create(0, 0, || Strategy::Helping).err(),
        Some(GridError::InvalidDimensions)
    );
    assert_eq!(PlayingField::new(0, 5).err(), Some(GridError::InvalidDimensions));
    assert_eq!(PlayingField::new(5, 0).err(), Some(GridError::InvalidDimensions));
}

#[test]
fn create_draws_every_patch_from_the_seed() {
    let helping = PlayingField::create(3, 2, || Strategy::Helping).unwrap();
    assert_eq!(helping.width(), 3);
    assert_eq!(helping.height(), 2);
    assert_eq!(helping.patches(), &vec![vec![Patch::new(Strategy::Helping); 2]; 3]);

    let leeching = PlayingField::create(1, 1, || Strategy::Leeching).unwrap();
    assert_eq!(leeching.patches(), &vec![vec![Patch::new(Strategy::Leeching)]]);
}

#[test]
fn create_calls_the_seed_once_for_each_patch() {
    let calls = Cell::new(0usize);
    let field = PlayingField::create(4, 5, || {
        calls.set(calls.get() + 1);
        Strategy::from_coin(calls.get() % 3 == 0)
    })
    .unwrap();
    assert_eq!(calls.get(), 20);
    let mut helping = 0;
    for x in 0..4 {
        for y in 0..5 {
            assert_eq!(field.score_at(x, y), 0);
            if field.strategy_at(x, y) == Strategy::Helping {
                helping += 1;
            }
        }
    }
    assert_eq!(helping, 6);
}

#[test]
fn new_field_has_the_size_asked_for_and_no_scores() {
    let field = PlayingField::new(7, 4).unwrap();
    assert_eq!(field.width(), 7);
    assert_eq!(field.height(), 4);
    assert_eq!(field.patches().len(), 7);
    for row in field.patches() {
        assert_eq!(row.len(), 4);
        for patch in row {
            assert_eq!(patch.score, 0);
        }
    }
}

#[test]
fn new_field_holds_both_strategies() {
    // 4096 tosses of a fair coin all falling alike is out of the question.
    let field = PlayingField::new(64, 64).unwrap();
    let helping: usize = field
        .patches()
        .iter()
        .map(|row| row.iter().filter(|p| p.strategy == Strategy::Helping).count())
        .sum();
    assert!(helping > 0);
    assert!(helping < 64 * 64);
}

#[test]
fn sample_gives_both_strategies() {
    // 4096 tosses of a fair coin all falling alike is out of the question.
    let mut generator = rand::thread_rng();
    let mut helping = 0;
    for _ in 0..4096 {
        if Strategy::sample(&mut generator) == Strategy::Helping {
            helping += 1;
        }
    }
    assert!(helping > 0);
    assert!(helping < 4096);
}
