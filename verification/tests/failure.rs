use aircode_client::failure::Failure;

#[test]
fn every_failure_has_its_own_line() {
    assert_eq!(Failure::Transport.describe(), "the remote service could not be reached");
    assert_eq!(Failure::Shape.describe(), "the remote service sent an unexpected page");
    assert_eq!(Failure::Storage.describe(), "the mirror directory could not be used");
    assert_eq!(Failure::OutOfTurn.describe(), "a reply came out of turn");
}
