use erc721_ledger::flipper::Flipper;

#[test]
fn default_works() {
    let flipper = Flipper::default();
    assert_eq!(flipper.get(), false);
}

#[test]
fn flip_works() {
    let mut flipper = Flipper::new(false);
    assert_eq!(flipper.get(), false);

    flipper.flip();
    assert_eq!(flipper.get(), true);
}

#[test]
fn flip_twice_restores() {
    let mut flipper = Flipper::new(true);
    flipper.flip();
    assert_eq!(flipper.get(), false);
    flipper.flip();
    assert_eq!(flipper.get(), true);
}
