use bee_tangle::native_token::{
    is_unique_sorted, validate_unique_sorted, Error, NativeToken, NativeTokens, TokenId,
    TOKEN_ID_LENGTH,
};
use primitive_types::U256;
use std::cmp::Ordering;

fn token_id(first: u8, last: u8) -> TokenId {
    let mut bytes = [0u8; 38];
    bytes[0] = first;
    bytes[37] = last;
    TokenId::new(bytes)
}

fn token(first: u8, last: u8, amount: u64) -> NativeToken {
    NativeToken::new(token_id(first, last), U256::from(amount))
}

#[test]
fn a_native_token_holds_its_id_and_its_amount() {
    let amount = U256::from_dec_str("115792089237316195423570985008687907853269984665640564039457")
        .unwrap();
    let native_token = NativeToken::new(token_id(3, 4), amount);
    assert_eq!(native_token.token_id(), &token_id(3, 4));
    assert_eq!(native_token.amount(), &amount);
    assert_eq!(native_token.clone(), native_token);
    assert_eq!(token_id(3, 4).as_bytes()[0], 3);
    assert_eq!(token_id(3, 4).as_bytes()[37], 4);
    assert_eq!(TOKEN_ID_LENGTH, 38);
}

#[test]
fn native_tokens_are_sorted_by_their_ids() {
    let tokens = NativeTokens::new(vec![
        token(3, 0, 30),
        token(1, 9, 19),
        token(2, 0, 20),
        token(1, 2, 12),
        token(0, 255, 1),
    ])
    .unwrap();
    assert_eq!(tokens.len(), 5);
    assert_eq!(
        tokens.as_slice(),
        &[token(0, 255, 1), token(1, 2, 12), token(1, 9, 19), token(2, 0, 20), token(3, 0, 30)]
    );
    assert!(is_unique_sorted(tokens.as_slice()));

    let empty = NativeTokens::new(vec![]).unwrap();
    assert_eq!(empty.len(), 0);
}

#[test]
fn native_tokens_with_the_same_id_are_refused() {
    assert_eq!(
        NativeTokens::new(vec![token(1, 0, 5), token(2, 0, 5), token(1, 0, 6)]),
        Err(Error::NativeTokensNotUniqueSorted)
    );
    assert_eq!(
        NativeTokens::new(vec![token(1, 0, 5), token(1, 0, 5)]),
        Err(Error::NativeTokensNotUniqueSorted)
    );
}

#[test]
fn more_native_tokens_than_the_maximum_are_refused() {
    assert_eq!(NativeTokens::COUNT_MAX, 256);
    let many = |count: usize| -> Vec<NativeToken> {
        (0..count).rev().map(|n| token((n / 256) as u8, (n % 256) as u8, n as u64)).collect()
    };
    let full = NativeTokens::new(many(256)).unwrap();
    assert_eq!(full.len(), 256);
    assert_eq!(full.as_slice()[0], token(0, 0, 0));
    assert_eq!(full.as_slice()[255], token(0, 255, 255));

    assert_eq!(NativeTokens::new(many(257)), Err(Error::InvalidNativeTokenCount(257)));
    // The number is looked at before the identifiers.
    let mut doubled = many(300);
    doubled[0] = doubled[1].clone();
    assert_eq!(NativeTokens::new(doubled), Err(Error::InvalidNativeTokenCount(300)));
    assert_eq!(NativeTokens::new(many(70000)), Err(Error::InvalidNativeTokenCount(70000)));
}

#[test]
fn the_check_of_the_order_can_be_left_out() {
    let unsorted = [token(2, 0, 1), token(1, 0, 1)];
    let doubled = [token(1, 0, 1), token(1, 0, 2)];
    let sorted = [token(1, 0, 1), token(1, 1, 1), token(2, 0, 1)];

    assert_eq!(validate_unique_sorted::<true>(&unsorted), Err(Error::NativeTokensNotUniqueSorted));
    assert_eq!(validate_unique_sorted::<true>(&doubled), Err(Error::NativeTokensNotUniqueSorted));
    assert_eq!(validate_unique_sorted::<true>(&sorted), Ok(()));
    assert_eq!(validate_unique_sorted::<true>(&[]), Ok(()));
    assert_eq!(validate_unique_sorted::<false>(&unsorted), Ok(()));
    assert_eq!(validate_unique_sorted::<false>(&doubled), Ok(()));

    assert!(!is_unique_sorted(&unsorted));
    assert!(!is_unique_sorted(&doubled));
    assert!(is_unique_sorted(&sorted));
    assert!(is_unique_sorted(&sorted[..1]));
}

#[test]
fn token_ids_are_ordered_as_in_a_dictionary() {
    assert_eq!(token_id(1, 200).order(&token_id(2, 0)), Ordering::Less);
    assert_eq!(token_id(2, 0).order(&token_id(1, 200)), Ordering::Greater);
    assert_eq!(token_id(1, 1).order(&token_id(1, 2)), Ordering::Less);
    assert_eq!(token_id(1, 1).order(&token_id(1, 1)), Ordering::Equal);
    assert_eq!(token_id(1, 1).first_difference(&token_id(1, 2)), Some(37));
    assert_eq!(token_id(1, 1).first_difference(&token_id(3, 2)), Some(0));
    assert_eq!(token_id(1, 1).first_difference(&token_id(1, 1)), None);
    // The order is that of the derived comparison.
    for (a, b) in [(token_id(1, 200), token_id(2, 0)), (token_id(9, 1), token_id(9, 0))] {
        assert_eq!(a.order(&b), a.cmp(&b));
        assert_eq!(b.order(&a), b.cmp(&a));
    }
}

#[test]
fn native_tokens_can_be_made_from_a_vector_and_copied() {
    let tokens = NativeTokens::try_from(vec![token(2, 0, 20), token(1, 0, 10)]).unwrap();
    assert_eq!(tokens.len(), 2);
    // The tokens are reached through the collection itself.
    assert_eq!(tokens.iter().map(|t| *t.amount()).collect::<Vec<_>>(), vec![
        U256::from(10u64),
        U256::from(20u64)
    ]);
    assert_eq!(tokens[0], token(1, 0, 10));
    let copy = tokens.clone();
    assert_eq!(copy, tokens);
    assert_eq!(copy.as_slice(), tokens.as_slice());

    assert_eq!(
        NativeTokens::try_from(vec![token(1, 0, 1), token(1, 0, 2)]),
        Err(Error::NativeTokensNotUniqueSorted)
    );
}
