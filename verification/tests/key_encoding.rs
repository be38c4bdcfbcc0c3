use sadik_storage::{contruct_storage_key, word_to_be_bytes, NamespaceType, Placement};

fn user<'a>(namespace: &'a [u8], key: &'a [u8]) -> Placement<'a> {
    Placement { namespace_type: NamespaceType::User, namespace, key }
}

fn system<'a>(namespace: &'a [u8], key: &'a [u8]) -> Placement<'a> {
    Placement { namespace_type: NamespaceType::System, namespace, key }
}

fn expected_key(tag: u8, namespace: &[u8], key: &[u8]) -> Vec<u8> {
    let mut expected = vec![tag];
    expected.extend_from_slice(&namespace.len().to_be_bytes());
    expected.extend_from_slice(namespace);
    expected.extend_from_slice(key);
    expected
}

#[test]
fn word_bytes_are_big_endian() {
    let samples: [usize; 9] = [0, 1, 4, 255, 256, 257, 65_535, 16_909_060, usize::MAX];
    for n in samples {
        assert_eq!(word_to_be_bytes(n), n.to_be_bytes().to_vec());
    }
}

#[test]
fn word_bytes_have_the_width_of_a_word() {
    assert_eq!(word_to_be_bytes(0).len(), std::mem::size_of::<usize>());
    assert_eq!(word_to_be_bytes(usize::MAX), vec![255u8; std::mem::size_of::<usize>()]);
}

#[test]
fn word_bytes_put_the_low_digit_last() {
    let bytes = word_to_be_bytes(0x0102_0304);
    let width = bytes.len();
    assert_eq!(&bytes[width - 4..], &[1u8, 2, 3, 4]);
    assert!(bytes[..width - 4].iter().all(|byte| *byte == 0));
}

#[test]
fn key_layout_is_tag_length_namespace_key() {
    let encoded = contruct_storage_key(&user(b"test", b"somekey"));
    assert_eq!(encoded, expected_key(0, b"test", b"somekey"));
    if std::mem::size_of::<usize>() == 8 {
        assert_eq!(
            encoded,
            vec![
                0, 0, 0, 0, 0, 0, 0, 0, 4, b't', b'e', b's', b't', b's', b'o', b'm', b'e', b'k',
                b'e', b'y'
            ]
        );
    }
}

#[test]
fn system_tag_is_one() {
    let encoded = contruct_storage_key(&system(b"test", b"somekey"));
    assert_eq!(encoded, expected_key(1, b"test", b"somekey"));
    assert_eq!(encoded[0], 1);
}

#[test]
fn empty_placement_is_tag_and_zero_length() {
    let encoded = contruct_storage_key(&user(b"", b""));
    assert_eq!(encoded.len(), 1 + std::mem::size_of::<usize>());
    assert!(encoded.iter().all(|byte| *byte == 0));
}

#[test]
fn long_namespace_length_takes_two_digits() {
    let namespace = vec![7u8; 300];
    let encoded = contruct_storage_key(&system(&namespace, b"k"));
    let width = std::mem::size_of::<usize>();
    assert_eq!(encoded.len(), 1 + width + 300 + 1);
    assert_eq!(&encoded[width - 1..width + 1], &[1u8, 44]);
    assert_eq!(encoded, expected_key(1, &namespace, b"k"));
}

#[test]
fn encoding_is_stable() {
    let first = contruct_storage_key(&user(b"stable", b"key"));
    let second = contruct_storage_key(&user(b"stable", b"key"));
    assert_eq!(first, second);
}

#[test]
fn namespace_type_alone_changes_the_key() {
    assert_ne!(
        contruct_storage_key(&user(b"test", b"somekey")),
        contruct_storage_key(&system(b"test", b"somekey"))
    );
}

#[test]
fn shifting_bytes_between_namespace_and_key_changes_the_key() {
    assert_ne!(
        contruct_storage_key(&user(b"ab", b"c")),
        contruct_storage_key(&user(b"a", b"bc"))
    );
    assert_ne!(
        contruct_storage_key(&user(b"", b"abc")),
        contruct_storage_key(&user(b"abc", b""))
    );
}

#[test]
fn key_bytes_cannot_imitate_a_length_prefix() {
    let width = std::mem::size_of::<usize>();
    let short = b"x";
    let mut key_with_prefix = 1usize.to_be_bytes().to_vec();
    key_with_prefix.extend_from_slice(short);
    let absorbed = contruct_storage_key(&user(b"", &key_with_prefix));
    let plain = contruct_storage_key(&user(short, b""));
    assert_ne!(absorbed, plain);
    assert_eq!(absorbed.len(), 1 + width + width + 1);
    assert_eq!(plain.len(), 1 + width + 1);

    let mut namespace_with_prefix = 0usize.to_be_bytes().to_vec();
    namespace_with_prefix.extend_from_slice(short);
    assert_ne!(
        contruct_storage_key(&user(&namespace_with_prefix, b"")),
        contruct_storage_key(&user(b"", short))
    );
}

#[test]
fn distinct_placements_have_distinct_keys() {
    let parts: [&[u8]; 6] = [b"", b"a", b"b", b"ab", b"ba", &[0, 0, 0, 0, 0, 0, 0, 1]];
    let mut placements: Vec<(u8, &[u8], &[u8])> = Vec::new();
    for tag in 0..2u8 {
        for namespace in parts {
            for key in parts {
                placements.push((tag, namespace, key));
            }
        }
    }
    let encoded: Vec<Vec<u8>> = placements
        .iter()
        .map(|(tag, namespace, key)| {
            if *tag == 0 {
                contruct_storage_key(&user(namespace, key))
            } else {
                contruct_storage_key(&system(namespace, key))
            }
        })
        .collect();
    for i in 0..encoded.len() {
        for j in 0..encoded.len() {
            assert_eq!(encoded[i] == encoded[j], i == j);
        }
    }
}
