use simple_wasmi_vm::account::BankAccount;
use simple_wasmi_vm::address::{
    canonicalize, canonicalize_normalized, digit_sum, humanize, humanize_text, riffle_shuffle,
    validate, validate_normalized, CanonicalAddress, CANONICAL_LENGTH,
};
use simple_wasmi_vm::error::SimpleVMError;

fn canonical_of_123() -> Vec<u8> {
    let mut expected = vec![0u8; 54];
    expected[16] = 49;
    expected[30] = 50;
    expected[44] = 51;
    expected
}

#[test]
fn digit_sum_adds_all_bytes() {
    assert_eq!(digit_sum(&[]), 0);
    assert_eq!(digit_sum(&[1, 2, 3]), 6);
    assert_eq!(digit_sum(&[255, 255]), 510);
    assert_eq!(digit_sum(&[255u8; 54]), 13_770);
}

#[test]
fn riffle_interleaves_the_halves_second_half_first() {
    assert_eq!(riffle_shuffle(&[1, 2, 3, 4, 5, 6]), vec![4, 1, 5, 2, 6, 3]);
    assert_eq!(riffle_shuffle(&[1, 2]), vec![2, 1]);
    assert_eq!(riffle_shuffle::<u8>(&[]), Vec::<u8>::new());
}

#[test]
fn riffle_works_on_any_items_that_can_be_cloned() {
    let words = vec![String::from("a"), String::from("b"), String::from("c"), String::from("d")];
    assert_eq!(riffle_shuffle(&words), vec!["c", "a", "d", "b"]);
}

#[test]
fn twenty_riffles_restore_a_canonical_buffer() {
    let start: Vec<u8> = (0..54).collect();
    let mut buffer = start.clone();
    for round in 1..=20 {
        buffer = riffle_shuffle(&buffer);
        assert_eq!(buffer == start, round == 20, "after {round} riffles");
    }
}

#[test]
fn canonical_address_of_a_short_text() {
    let address = canonicalize("123").unwrap();
    assert_eq!(address.0, canonical_of_123());
}

#[test]
fn canonical_address_of_a_long_number() {
    let address = canonicalize("4294967295").unwrap();
    assert_eq!(
        address.0,
        vec![
            52, 57, 57, 0, 0, 0, 0, 0, 0, 0, 0, 0, 0, 0, 50, 54, 53, 0, 0, 0, 0, 0, 0, 0, 0, 0, 0, 0, 57,
            55, 0, 0, 0, 0, 0, 0, 0, 0, 0, 0, 0, 0, 52, 50, 0, 0, 0, 0, 0, 0, 0, 0, 0, 0
        ]
    );
}

#[test]
fn canonical_address_of_a_text_of_full_length() {
    let text = "abcdefghijklmnopqrstuvwxyz0123456789abcdefghijklmnopqr";
    assert_eq!(text.len(), CANONICAL_LENGTH);
    let address = canonicalize(text).unwrap();
    assert_eq!(
        address.0,
        vec![
            97, 101, 105, 109, 113, 99, 103, 107, 111, 115, 119, 48, 52, 55, 98, 102, 106, 110, 114, 100,
            104, 108, 112, 116, 120, 49, 53, 56, 99, 103, 107, 111, 97, 101, 105, 109, 113, 117, 121, 50,
            54, 57, 100, 104, 108, 112, 98, 102, 106, 110, 114, 118, 122, 51
        ]
    );
    assert_eq!(humanize_text(&address), Ok(String::from(text)));
}

#[test]
fn canonical_address_always_has_the_canonical_length() {
    for text in ["abc", "1234567", "a-rather-longer-address-of-some-account"] {
        assert_eq!(canonicalize(text).unwrap().0.len(), 54);
    }
}

#[test]
fn canonicalize_folds_case() {
    let upper = canonicalize("ABC").unwrap();
    let lower = canonicalize("abc").unwrap();
    assert_eq!(upper, lower);
    let mut expected = vec![0u8; 54];
    expected[7] = 98;
    expected[21] = 99;
    expected[48] = 97;
    assert_eq!(upper.0, expected);
    assert_eq!(humanize_text(&upper), Ok(String::from("abc")));
}

#[test]
fn canonicalize_normalized_takes_the_text_as_it_is() {
    assert_eq!(canonicalize_normalized("123").unwrap().0, canonical_of_123());
    assert_ne!(canonicalize_normalized("ABC").unwrap(), canonicalize_normalized("abc").unwrap());
}

#[test]
fn text_shorter_than_three_bytes_is_no_address() {
    for text in ["", "1", "12", "ab"] {
        assert_eq!(canonicalize(text), Err(SimpleVMError::InvalidAddress), "{text:?}");
    }
    assert!(canonicalize("123").is_ok());
}

#[test]
fn text_longer_than_the_canonical_length_is_no_address() {
    let longest = "1".repeat(54);
    let too_long = "1".repeat(55);
    assert!(canonicalize(&longest).is_ok());
    assert_eq!(canonicalize(&too_long), Err(SimpleVMError::InvalidAddress));
    assert_eq!(canonicalize(&"x".repeat(1000)), Err(SimpleVMError::InvalidAddress));
}

#[test]
fn length_of_an_address_is_counted_in_bytes() {
    // Two characters of two bytes each make four bytes.
    assert!(canonicalize("éé").is_ok());
    // Twenty-eight such characters make fifty-six.
    assert_eq!(canonicalize(&"é".repeat(28)), Err(SimpleVMError::InvalidAddress));
}

#[test]
fn humanize_refuses_another_length() {
    assert_eq!(humanize(&CanonicalAddress(vec![])), Err(SimpleVMError::InvalidAddress));
    assert_eq!(humanize(&CanonicalAddress(vec![49; 53])), Err(SimpleVMError::InvalidAddress));
    assert_eq!(humanize(&CanonicalAddress(vec![49; 55])), Err(SimpleVMError::InvalidAddress));
    assert_eq!(humanize_text(&CanonicalAddress(vec![49; 53])), Err(SimpleVMError::InvalidAddress));
}

#[test]
fn humanize_refuses_bytes_that_are_no_text() {
    let address = CanonicalAddress(vec![0xff; 54]);
    assert_eq!(humanize_text(&address), Err(SimpleVMError::InvalidAddress));
    assert_eq!(humanize(&address), Err(SimpleVMError::InvalidAddress));
}

#[test]
fn humanize_refuses_text_that_spells_no_account() {
    let address = canonicalize("abc").unwrap();
    assert_eq!(humanize_text(&address), Ok(String::from("abc")));
    assert_eq!(humanize(&address), Err(SimpleVMError::InvalidAddress));
}

#[test]
fn humanize_finds_the_account_behind_an_address() {
    assert_eq!(humanize(&CanonicalAddress(canonical_of_123())), Ok(BankAccount(123)));
    assert_eq!(humanize(&canonicalize("4294967295").unwrap()), Ok(BankAccount(u32::MAX)));
    assert_eq!(humanize(&canonicalize("10000").unwrap()), Ok(BankAccount(10_000)));
}

#[test]
fn humanize_of_zero_bytes_is_empty_text() {
    let address = CanonicalAddress(vec![0; 54]);
    assert_eq!(humanize_text(&address), Ok(String::new()));
    assert_eq!(humanize(&address), Err(SimpleVMError::InvalidAddress));
}

#[test]
fn round_trip_gives_the_text_back() {
    for text in [
        "123",
        "abc",
        "100",
        "cosmos1qypqxpq9qcrsszg2pvxq6rs0zqg3yyc5lzv7xu",
        "with space and ünïcödé",
        "abcdefghijklmnopqrstuvwxyz0123456789abcdefghijklmnopqr",
    ] {
        let address = canonicalize(text).unwrap();
        assert_eq!(humanize_text(&address), Ok(String::from(text)), "{text:?}");
    }
}

#[test]
fn round_trip_drops_zero_bytes_of_the_text() {
    let address = canonicalize("a\0b\0c").unwrap();
    assert_eq!(humanize_text(&address), Ok(String::from("abc")));
}

#[test]
fn round_trip_of_account_texts_gives_the_accounts() {
    for number in [100, 101, 999, 1_000, 65_536, 10_000, 123_456_789, u32::MAX] {
        let account = BankAccount(number);
        let address = canonicalize(&account.to_addr()).unwrap();
        assert_eq!(humanize(&address), Ok(account));
        assert_eq!(humanize_text(&address), Ok(account.to_addr()));
    }
}

#[test]
fn validate_accepts_the_text_of_an_account() {
    assert_eq!(validate("123"), Ok(Ok(())));
    assert_eq!(validate("10000"), Ok(Ok(())));
    assert_eq!(validate("4294967295"), Ok(Ok(())));
}

#[test]
fn validate_accepts_other_spellings_of_an_account() {
    assert_eq!(validate("0123"), Ok(Ok(())));
    assert_eq!(validate("+123"), Ok(Ok(())));
}

#[test]
fn validate_refuses_what_canonicalize_refuses() {
    assert_eq!(validate("12"), Ok(Err(SimpleVMError::InvalidAddress)));
    assert_eq!(validate(&"1".repeat(55)), Ok(Err(SimpleVMError::InvalidAddress)));
}

#[test]
fn validate_refuses_text_that_spells_no_account() {
    assert_eq!(validate("abc"), Ok(Err(SimpleVMError::InvalidAddress)));
    assert_eq!(validate("4294967296"), Ok(Err(SimpleVMError::InvalidAddress)));
}

#[test]
fn validate_refuses_text_of_which_only_the_round_trip_spells_an_account() {
    // Without its zero byte the text spells 123; as it stands it spells nothing.
    assert_eq!(validate("12\u{0}3"), Ok(Err(SimpleVMError::InvalidAddress)));
    // The round trip gives account 12.
    assert_eq!(humanize(&canonicalize("12\u{0}").unwrap()), Ok(BankAccount(12)));
    assert_eq!(validate("12\u{0}"), Ok(Err(SimpleVMError::InvalidAddress)));
    assert_eq!(validate_normalized("12\u{0}", "12\u{0}"), Ok(Err(SimpleVMError::InvalidAddress)));
}

#[test]
fn validate_itself_never_fails() {
    for text in ["", "1", "12", "123", "abc", "12\u{0}3", "+", "-12", "4294967296", "é12"] {
        assert!(validate(text).is_ok(), "{text:?}");
    }
    assert!(validate(&"9".repeat(100)).is_ok());
}

#[test]
fn validate_normalized_compares_the_two_readings() {
    assert_eq!(validate_normalized("123", "123"), Ok(Ok(())));
    assert_eq!(validate_normalized("123", "124"), Ok(Err(SimpleVMError::InvalidAddress)));
    assert_eq!(validate_normalized("abc", "123"), Ok(Err(SimpleVMError::InvalidAddress)));
    assert_eq!(validate_normalized("123", "12"), Ok(Err(SimpleVMError::InvalidAddress)));
}

#[test]
fn canonical_address_is_taken_from_and_turned_into_bytes() {
    let address = CanonicalAddress::try_from(vec![1, 2, 3]).unwrap();
    assert_eq!(address, CanonicalAddress(vec![1, 2, 3]));
    let bytes: Vec<u8> = address.into();
    assert_eq!(bytes, vec![1, 2, 3]);
}

#[test]
fn round_trip_gives_back_many_texts() {
    let mut seed: u64 = 11;
    for _ in 0..500 {
        seed = seed.wrapping_mul(6364136223846793005).wrapping_add(1442695040888963407);
        let len = 3 + (seed >> 33) as usize % 52;
        let text: String = (0..len)
            .map(|i| {
                seed = seed.wrapping_mul(6364136223846793005).wrapping_add(i as u64 + 1);
                char::from(b'!' + ((seed >> 33) % 32) as u8)
            })
            .collect();
        let address = canonicalize(&text).unwrap();
        assert_eq!(address.0.len(), 54);
        assert_eq!(humanize_text(&address), Ok(text.clone()), "{text:?}");
    }
}
