use mcmc::LagWalk;

#[test]
fn walk_over_ten_draws() {
    let mut walk = LagWalk::new(10);
    assert_eq!(walk.position(), 1);
    let mut pairs = Vec::new();
    while walk.is_open() {
        pairs.push(walk.pair());
        walk.advance();
    }
    // s = 1, 3, 5 satisfy s < 10 - 4
    assert_eq!(pairs, vec![(2, 3), (4, 5), (6, 7)]);
    assert_eq!(walk.position(), 7);
    assert_eq!(walk.tail(), 8);
    assert_eq!(walk.monotone_lags(), vec![1, 3]);
}

#[test]
fn walk_over_four_draws_is_closed() {
    let walk = LagWalk::new(4);
    assert!(!walk.is_open());
    assert_eq!(walk.position(), 1);
    assert_eq!(walk.tail(), 2);
    assert_eq!(walk.monotone_lags(), Vec::<usize>::new());
}

#[test]
fn walk_over_five_draws_is_closed() {
    let walk = LagWalk::new(5);
    assert!(!walk.is_open());
    assert_eq!(walk.tail(), 2);
}

#[test]
fn walk_over_eight_draws() {
    let mut walk = LagWalk::new(8);
    assert!(walk.is_open());
    assert_eq!(walk.pair(), (2, 3));
    walk.advance();
    assert!(walk.is_open());
    assert_eq!(walk.pair(), (4, 5));
    walk.advance();
    assert!(!walk.is_open());
    assert_eq!(walk.position(), 5);
    assert_eq!(walk.tail(), 6);
    assert_eq!(walk.monotone_lags(), vec![1]);
}
