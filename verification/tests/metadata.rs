use rtdownloader::bencode::{encode_bytes, encode_integer, encode_list, order_keys, Dictionary, KeyOrder};
use rtdownloader::magnet::{
    info_bytes_to_string, info_str_to_bytes, magnet_link, parse_info_hash,
};
use rtdownloader::torrent::{
    calculate_info_hash, complete_info, encode_file, encode_info, validate_info, Info,
    MetadataError, RawInfo, TorrentFile,
};

fn minimal_info() -> Info {
    Info {
        name: String::from("a.txt"),
        collections: None,
        pieces: vec![0u8; 20],
        piece_length: 16384,
        length: Some(0),
        files: None,
        private: None,
        path: None,
        source: None,
        root_hash: None,
    }
}

fn known_vector() -> Vec<u8> {
    let mut expected = b"d6:lengthi0e4:name5:a.txt12:piece lengthi16384e6:pieces20:".to_vec();
    expected.extend_from_slice(&[0u8; 20]);
    expected.push(b'e');
    expected
}

#[test]
fn integers_are_written_in_decimal() {
    assert_eq!(encode_integer(0), b"i0e".to_vec());
    assert_eq!(encode_integer(7), b"i7e".to_vec());
    assert_eq!(encode_integer(16384), b"i16384e".to_vec());
    assert_eq!(encode_integer(-42), b"i-42e".to_vec());
    assert_eq!(encode_integer(i64::MAX), b"i9223372036854775807e".to_vec());
    assert_eq!(encode_integer(i64::MIN), b"i-9223372036854775808e".to_vec());
}

#[test]
fn byte_strings_carry_their_length() {
    assert_eq!(encode_bytes(b""), b"0:".to_vec());
    assert_eq!(encode_bytes(b"spam"), b"4:spam".to_vec());
    assert_eq!(encode_bytes(b"piece length"), b"12:piece length".to_vec());
}

#[test]
fn lists_wrap_their_items() {
    let items = vec![encode_bytes(b"a"), encode_integer(3)];
    assert_eq!(encode_list(&items), b"l1:ai3ee".to_vec());
    assert_eq!(encode_list(&Vec::new()), b"le".to_vec());
}

#[test]
fn keys_are_ordered_by_raw_bytes() {
    assert_eq!(order_keys(b"name", b"piece length"), KeyOrder::Before);
    assert_eq!(order_keys(b"piece length", b"pieces"), KeyOrder::Before);
    assert_eq!(order_keys(b"pieces", b"piece length"), KeyOrder::After);
    assert_eq!(order_keys(b"pieces", b"pieces"), KeyOrder::Same);
    assert_eq!(order_keys(b"", b"a"), KeyOrder::Before);
    assert_eq!(order_keys(b"ab", b"a"), KeyOrder::After);
    assert_eq!(order_keys(&[0xff], &[0x7f, 0x00]), KeyOrder::After);
}

#[test]
fn dictionary_emits_keys_in_order_when_inserted_in_reverse() {
    let mut d = Dictionary::new();
    d.insert(b"pieces".to_vec(), encode_bytes(b"xy"));
    d.insert(b"piece length".to_vec(), encode_integer(2));
    d.insert(b"name".to_vec(), encode_bytes(b"n"));
    assert_eq!(d.encode(), b"d4:name1:n12:piece lengthi2e6:pieces2:xye".to_vec());
}

#[test]
fn dictionary_encoding_ignores_insertion_order() {
    let mut a = Dictionary::new();
    a.insert(b"b".to_vec(), encode_integer(1));
    a.insert(b"a".to_vec(), encode_integer(2));
    a.insert(b"c".to_vec(), encode_integer(3));
    let mut b = Dictionary::new();
    b.insert(b"c".to_vec(), encode_integer(3));
    b.insert(b"a".to_vec(), encode_integer(2));
    b.insert(b"b".to_vec(), encode_integer(1));
    assert_eq!(a.encode(), b.encode());
    assert_eq!(a.encode(), b"d1:ai2e1:bi1e1:ci3ee".to_vec());
}

#[test]
fn dictionary_keeps_the_last_value_of_a_key() {
    let mut d = Dictionary::new();
    d.insert(b"k".to_vec(), encode_integer(1));
    d.insert(b"k".to_vec(), encode_integer(2));
    assert_eq!(d.encode(), b"d1:ki2ee".to_vec());
    assert_eq!(Dictionary::new().encode(), b"de".to_vec());
}

#[test]
fn minimal_info_encodes_to_the_known_vector() {
    assert_eq!(encode_info(&minimal_info()), known_vector());
}

#[test]
fn minimal_info_hash_is_the_digest_of_the_known_vector() {
    let expected: [u8; 20] = [
        231, 189, 46, 17, 65, 15, 1, 39, 52, 98, 238, 60, 101, 205, 13, 155, 103, 96, 173, 255,
    ];
    assert_eq!(calculate_info_hash(&minimal_info()), expected);
    let direct: [u8; 20] = <sha1::Sha1 as sha1::Digest>::digest(known_vector()).into();
    assert_eq!(calculate_info_hash(&minimal_info()), direct);
}

#[test]
fn info_hash_does_not_depend_on_how_the_value_was_built() {
    let a = minimal_info();
    let mut b = Info {
        name: String::new(),
        collections: Some(vec![String::from("x")]),
        pieces: Vec::new(),
        piece_length: 0,
        length: None,
        files: None,
        private: Some(1),
        path: None,
        source: None,
        root_hash: None,
    };
    b.private = None;
    b.length = Some(0);
    b.collections = None;
    b.piece_length = 16384;
    b.pieces.extend_from_slice(&[0u8; 20]);
    b.name.push_str("a.txt");
    assert_eq!(calculate_info_hash(&a), calculate_info_hash(&b));
}

#[test]
fn info_hash_differs_when_a_field_differs() {
    let a = minimal_info();
    let mut b = minimal_info();
    b.piece_length = 32768;
    assert_ne!(calculate_info_hash(&a), calculate_info_hash(&b));
}

#[test]
fn multi_file_info_emits_only_the_fields_present() {
    let info = Info {
        name: String::from("d"),
        collections: None,
        pieces: (0u8..20).collect(),
        piece_length: 32768,
        length: None,
        files: Some(vec![
            TorrentFile {
                path: vec![String::from("a"), String::from("b.txt")],
                crc32: None,
                md5: Some(String::from("abc")),
                sha1: None,
                mtime: None,
                length: 7,
            },
            TorrentFile {
                path: vec![String::from("c")],
                crc32: None,
                md5: None,
                sha1: None,
                mtime: None,
                length: 9,
            },
        ]),
        private: Some(1),
        path: None,
        source: None,
        root_hash: None,
    };
    let mut expected = b"d5:filesld6:lengthi7e3:md53:abc4:pathl1:a5:b.txteed6:lengthi9e4:pathl1:ceee4:name1:d12:piece lengthi32768e6:pieces20:".to_vec();
    expected.extend(0u8..20);
    expected.extend_from_slice(b"7:privatei1ee");
    assert_eq!(encode_info(&info), expected);
    assert_eq!(
        info_bytes_to_string(&calculate_info_hash(&info)),
        "deb8c285a334d5585a81f16d4849558c86e898ef"
    );
}

#[test]
fn all_optional_fields_come_out_sorted() {
    let mut info = minimal_info();
    info.collections = Some(vec![String::from("c1")]);
    info.private = Some(0);
    info.path = Some(vec![String::from("p")]);
    info.source = Some(String::from("s"));
    info.root_hash = Some(String::from("r"));
    let mut expected = b"d11:collectionsl2:c1e6:lengthi0e4:name5:a.txt4:pathl1:pe12:piece lengthi16384e6:pieces20:".to_vec();
    expected.extend_from_slice(&[0u8; 20]);
    expected.extend_from_slice(b"7:privatei0e9:root hash1:r6:source1:se");
    assert_eq!(encode_info(&info), expected);
}

#[test]
fn file_with_every_field() {
    let f = TorrentFile {
        path: vec![String::from("x")],
        crc32: Some(String::from("1")),
        md5: Some(String::from("2")),
        sha1: Some(String::from("3")),
        mtime: Some(String::from("4")),
        length: 5,
    };
    assert_eq!(
        encode_file(&f),
        b"d5:crc321:16:lengthi5e3:md51:25:mtime1:44:pathl1:xe4:sha11:3e".to_vec()
    );
}

#[test]
fn text_is_encoded_by_its_utf8_bytes() {
    let mut info = minimal_info();
    info.name = String::from("é");
    let encoded = encode_info(&info);
    let needle = b"4:name2:\xc3\xa9";
    assert!(encoded.windows(needle.len()).any(|w| w == needle));
}

#[test]
fn validation_wants_exactly_one_of_length_and_files() {
    assert_eq!(validate_info(&minimal_info()), Ok(()));
    let mut neither = minimal_info();
    neither.length = None;
    assert_eq!(validate_info(&neither), Err(MetadataError::MalformedMetadata));
    let mut both = minimal_info();
    both.files = Some(Vec::new());
    assert_eq!(validate_info(&both), Err(MetadataError::MalformedMetadata));
    let mut files_only = minimal_info();
    files_only.length = None;
    files_only.files = Some(Vec::new());
    assert_eq!(validate_info(&files_only), Ok(()));
}

#[test]
fn validation_wants_whole_digests() {
    let mut info = minimal_info();
    info.pieces = vec![0u8; 21];
    assert_eq!(validate_info(&info), Err(MetadataError::MalformedMetadata));
    info.pieces = Vec::new();
    assert_eq!(validate_info(&info), Ok(()));
    info.pieces = vec![1u8; 40];
    assert_eq!(validate_info(&info), Ok(()));
}

#[test]
fn hash_is_formatted_in_lowercase_hex() {
    let mut h = [0u8; 20];
    h[0] = 0xAB;
    h[1] = 0x01;
    h[19] = 0xF0;
    assert_eq!(info_bytes_to_string(&h), "ab010000000000000000000000000000000000f0");
}

#[test]
fn hash_round_trip() {
    let mut h = [0u8; 20];
    for i in 0..20 {
        h[i] = (i * 13 + 7) as u8;
    }
    assert_eq!(info_str_to_bytes(&info_bytes_to_string(&h)), h);
    assert_eq!(parse_info_hash(&info_bytes_to_string(&[0xffu8; 20])), Some([0xffu8; 20]));
}

#[test]
fn hash_text_is_read_in_either_case() {
    let lower = "e7bd2e11410f01273462ee3c65cd0d9b6760adff";
    let upper = "E7BD2E11410F01273462EE3C65CD0D9B6760ADFF";
    assert_eq!(parse_info_hash(lower), parse_info_hash(upper));
    assert_eq!(info_str_to_bytes(lower)[0], 0xe7);
    assert_eq!(info_str_to_bytes(lower)[19], 0xff);
}

#[test]
fn hash_text_of_wrong_shape_is_refused() {
    assert_eq!(parse_info_hash(""), None);
    assert_eq!(parse_info_hash("abc"), None);
    assert_eq!(parse_info_hash("e7bd2e11410f01273462ee3c65cd0d9b6760adf"), None);
    assert_eq!(parse_info_hash("e7bd2e11410f01273462ee3c65cd0d9b6760adffaa"), None);
    assert_eq!(parse_info_hash("g7bd2e11410f01273462ee3c65cd0d9b6760adff"), None);
    assert_eq!(parse_info_hash("é7bd2e11410f01273462ee3c65cd0d9b6760adf"), None);
}

fn reference_text(s: &str) -> serde_bencode::value::Value {
    serde_bencode::value::Value::Bytes(s.as_bytes().to_vec())
}

#[test]
fn encoding_agrees_with_serde_bencode() {
    let mut info = minimal_info();
    info.private = Some(1);
    info.source = Some(String::from("src"));
    info.collections = Some(vec![String::from("one"), String::from("two")]);
    let mut dict = std::collections::HashMap::new();
    dict.insert(b"name".to_vec(), reference_text("a.txt"));
    dict.insert(b"pieces".to_vec(), serde_bencode::value::Value::Bytes(vec![0u8; 20]));
    dict.insert(b"piece length".to_vec(), serde_bencode::value::Value::Int(16384));
    dict.insert(b"length".to_vec(), serde_bencode::value::Value::Int(0));
    dict.insert(b"private".to_vec(), serde_bencode::value::Value::Int(1));
    dict.insert(b"source".to_vec(), reference_text("src"));
    dict.insert(
        b"collections".to_vec(),
        serde_bencode::value::Value::List(vec![reference_text("one"), reference_text("two")]),
    );
    let reference = serde_bencode::to_bytes(&serde_bencode::value::Value::Dict(dict)).unwrap();
    assert_eq!(encode_info(&info), reference);
}

#[test]
fn negative_integers_agree_with_serde_bencode() {
    for v in [-1i64, -10, -9223372036854775808, 9, 10, 99, 100, 1234567890] {
        let reference = serde_bencode::to_bytes(&serde_bencode::value::Value::Int(v)).unwrap();
        assert_eq!(encode_integer(v), reference);
    }
}

#[test]
fn magnet_link_carries_the_hash() {
    let hash = calculate_info_hash(&minimal_info());
    assert_eq!(
        magnet_link(&hash),
        "magnet:?xt=urn:btih:e7bd2e11410f01273462ee3c65cd0d9b6760adff"
    );
}

fn minimal_raw() -> RawInfo {
    RawInfo {
        name: Some(String::from("a.txt")),
        collections: None,
        pieces: Some(vec![0u8; 20]),
        piece_length: Some(16384),
        length: Some(0),
        files: None,
        private: None,
        path: None,
        source: Some(String::from("s")),
        root_hash: None,
    }
}

#[test]
fn complete_fields_make_a_descriptor() {
    let info = complete_info(minimal_raw()).unwrap();
    assert_eq!(info.name, "a.txt");
    assert_eq!(info.pieces, vec![0u8; 20]);
    assert_eq!(info.piece_length, 16384);
    assert_eq!(info.length, Some(0));
    assert_eq!(info.source, Some(String::from("s")));
    assert!(info.files.is_none());
    assert!(info.private.is_none());
}

#[test]
fn missing_required_fields_are_malformed() {
    let mut raw = minimal_raw();
    raw.name = None;
    assert_eq!(complete_info(raw).unwrap_err(), MetadataError::MalformedMetadata);
    let mut raw = minimal_raw();
    raw.pieces = None;
    assert_eq!(complete_info(raw).unwrap_err(), MetadataError::MalformedMetadata);
    let mut raw = minimal_raw();
    raw.piece_length = None;
    assert_eq!(complete_info(raw).unwrap_err(), MetadataError::MalformedMetadata);
}

#[test]
fn length_and_files_exclude_each_other() {
    let mut raw = minimal_raw();
    raw.length = None;
    assert_eq!(complete_info(raw).unwrap_err(), MetadataError::MalformedMetadata);
    let mut raw = minimal_raw();
    raw.files = Some(Vec::new());
    assert_eq!(complete_info(raw).unwrap_err(), MetadataError::MalformedMetadata);
    let mut raw = minimal_raw();
    raw.pieces = Some(vec![0u8; 19]);
    assert_eq!(complete_info(raw).unwrap_err(), MetadataError::MalformedMetadata);
}
