use irtt_client::cancellation::CancellationToken;

#[test]
fn cancel_is_idempotent_and_visible_through_clones() {
    let token = CancellationToken::new();
    let clone = token.clone();

    token.cancel();
    token.cancel();

    assert!(token.is_cancelled());
    assert!(clone.is_cancelled());
}

#[test]
fn token_starts_uncancelled() {
    let token = CancellationToken::new();
    assert!(!token.is_cancelled());
    assert!(!token.clone().is_cancelled());
}
