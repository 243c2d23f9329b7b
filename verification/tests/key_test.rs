use axis::errors::Error;
use axis::key::{Key, Pair};

fn counting() -> [u8; 32] {
    let mut raw = [0u8; 32];
    for (i, b) in raw.iter_mut().enumerate() {
        *b = i as u8;
    }
    raw
}

#[test]
fn key_text_is_base64() {
    assert_eq!(
        Key([0u8; 32]).to_string(),
        "AAAAAAAAAAAAAAAAAAAAAAAAAAAAAAAAAAAAAAAAAAA="
    );
    assert_eq!(
        Key(counting()).to_string(),
        "AAECAwQFBgcICQoLDA0ODxAREhMUFRYXGBkaGxwdHh8="
    );
}

#[test]
fn key_from_text() {
    let key = Key::from_str("AAECAwQFBgcICQoLDA0ODxAREhMUFRYXGBkaGxwdHh8=").unwrap();
    assert_eq!(key.0, counting());
}

#[test]
fn key_text_round_trip() {
    let key = Key([7u8; 32]);
    let text = key.to_string();
    assert_ne!(text.as_bytes(), &key.0[..]);
    assert_eq!(Key::from_str(&text), Ok(key));
}

#[test]
fn key_from_text_that_is_not_base64() {
    assert_eq!(Key::from_str("not base64!"), Err(Error::Base64));
    assert_eq!(Key::from_str("AAEC AwQF"), Err(Error::Base64));
}

#[test]
fn key_from_text_that_is_too_short() {
    assert_eq!(Key::from_str("c2hvcnQ="), Err(Error::KeyLength));
    assert_eq!(Key::from_str(""), Err(Error::KeyLength));
}

#[test]
fn key_from_text_that_is_too_long_takes_the_first_bytes() {
    let key =
        Key::from_str("AAECAwQFBgcICQoLDA0ODxAREhMUFRYXGBkaGxwdHh8gISIjJCUmJw==").unwrap();
    assert_eq!(key.0, counting());
}

#[test]
fn key_from_bytes_takes_the_first_32() {
    let bytes: Vec<u8> = (0u8..40).collect();
    assert_eq!(Key::from_bytes(&bytes).0, counting());
}

#[test]
fn keys_are_the_same_by_their_bytes() {
    assert!(Key([1u8; 32]).same(&Key([1u8; 32])));
    assert!(!Key([1u8; 32]).same(&Key(counting())));
}

#[test]
fn pair_file_holds_public_then_private() {
    let pair = Pair {
        public: Key([1u8; 32]),
        private: Key([2u8; 32]),
    };
    let file = pair.encode();
    assert_eq!(file.len(), 64);
    assert_eq!(&file[..32], &[1u8; 32][..]);
    assert_eq!(&file[32..], &[2u8; 32][..]);
    assert_eq!(Pair::decode(&file), Ok(pair));
}

#[test]
fn pair_file_of_another_length_is_refused() {
    assert_eq!(Pair::decode(&[0u8; 63]), Err(Error::Crypto));
    assert_eq!(Pair::decode(&[0u8; 65]), Err(Error::Crypto));
    assert_eq!(Pair::decode(&[]), Err(Error::Crypto));
}

#[test]
fn pair_is_created_once_and_loaded_ever_after() {
    let (first, file) = Pair::create([8u8; 32], counting());
    let file = file.expect("a new pair comes with the bytes of its file");
    assert_eq!(file, first.encode());

    let (second, again) = Pair::new(Some(&file)).unwrap();
    assert_eq!(second, first);
    assert_eq!(again, None);

    let (third, again) = Pair::new(Some(&file)).unwrap();
    assert_eq!(third, first);
    assert_eq!(again, None);
    assert_eq!(third.encode(), file);
}

#[test]
fn pair_without_a_file_is_made_anew_or_fails() {
    match Pair::new(None) {
        Ok((first, file)) => {
            let file = file.expect("a new pair comes with the bytes of its file");
            assert_eq!(file, first.encode());
            assert_ne!(first.public, first.private);
            assert_eq!(Pair::new(Some(&file)), Ok((first, None)));
            let (other, _) = Pair::new(None).unwrap();
            assert_ne!(other, first);
        }
        Err(e) => assert_eq!(e, Error::Crypto),
    }
}

#[test]
fn pair_of_a_broken_file_is_an_error() {
    assert_eq!(Pair::new(Some(&[9u8; 10])), Err(Error::Crypto));
}

#[test]
fn pair_create_keeps_the_halves() {
    let (pair, file) = Pair::create([3u8; 32], [4u8; 32]);
    assert_eq!(pair.public, Key([3u8; 32]));
    assert_eq!(pair.private, Key([4u8; 32]));
    assert_eq!(file, Some(pair.encode()));
    assert_eq!(pair.fingerprint(), Key([3u8; 32]));
}

#[test]
fn pair_text_shows_both_halves() {
    let pair = Pair {
        public: Key([0u8; 32]),
        private: Key(counting()),
    };
    assert_eq!(
        pair.to_string(),
        "pub: AAAAAAAAAAAAAAAAAAAAAAAAAAAAAAAAAAAAAAAAAAA=\npri: AAECAwQFBgcICQoLDA0ODxAREhMUFRYXGBkaGxwdHh8="
    );
}
