use stringwars::cyclic::CyclicDriver;
use stringwars::edit::{edit_step, run_edit, EditCandidate};
use stringwars::hash::{hash_step, run_hash, HashCandidate};
use stringwars::search::{fuzz_one, fuzz_split, run_search, search_step, SearchCandidate};
use stringwars::tokenize::Span;

const ALL_EDIT: [EditCandidate; 8] = [
    EditCandidate::StringzillaBytes,
    EditCandidate::StringzillaBytesBounded,
    EditCandidate::StringzillaUtf8,
    EditCandidate::StringzillaUtf8Bounded,
    EditCandidate::RapidfuzzBytes,
    EditCandidate::RapidfuzzBytesBounded,
    EditCandidate::RapidfuzzChars,
    EditCandidate::RapidfuzzCharsBounded,
];

#[test]
fn edit_distances_agree_on_kitten() {
    for c in ALL_EDIT {
        assert_eq!(run_edit(c, b"kitten", b"sitting", 5), Some(3), "{:?}", c);
    }
}

#[test]
fn bounded_edit_distances_stop_at_the_bound() {
    assert_eq!(run_edit(EditCandidate::StringzillaBytesBounded, b"kitten", b"sitting", 1), Some(1));
    assert_eq!(run_edit(EditCandidate::StringzillaBytes, b"kitten", b"sitting", 1), Some(3));
    assert_eq!(run_edit(EditCandidate::RapidfuzzBytesBounded, b"kitten", b"sitting", 1), None);
    assert_eq!(run_edit(EditCandidate::RapidfuzzCharsBounded, b"kitten", b"sitting", 2), None);
    assert_eq!(run_edit(EditCandidate::RapidfuzzBytesBounded, b"kitten", b"sitting", 3), Some(3));
}

#[test]
fn utf8_distances_count_characters() {
    let a = "héllo".as_bytes();
    let b = "hello".as_bytes();
    assert_eq!(run_edit(EditCandidate::StringzillaBytes, a, b, 0), Some(2));
    assert_eq!(run_edit(EditCandidate::RapidfuzzBytes, a, b, 0), Some(2));
    assert_eq!(run_edit(EditCandidate::StringzillaUtf8, a, b, 0), Some(1));
    assert_eq!(run_edit(EditCandidate::RapidfuzzChars, a, b, 0), Some(1));
}

#[test]
fn edit_step_walks_the_pairs() {
    let data = b"abc\nabd\nxy\nxy";
    let pairs = vec![
        (Span { start: 0, end: 3 }, Span { start: 4, end: 7 }),
        (Span { start: 8, end: 10 }, Span { start: 11, end: 13 }),
    ];
    let bounds = vec![0, 0];
    let mut d = CyclicDriver::new(2);
    let got: Vec<Option<usize>> = (0..3)
        .map(|_| edit_step(EditCandidate::RapidfuzzBytes, data, &pairs, &bounds, &mut d))
        .collect();
    assert_eq!(got, vec![Some(1), Some(0), Some(1)]);
}

#[test]
fn xxh3_is_the_library_hash() {
    let st = ahash::RandomState::new();
    assert_eq!(run_hash(HashCandidate::Xxh3, &st, b""), 0x2D06800538D394C2);
    assert_eq!(run_hash(HashCandidate::Xxh3, &st, b"abc"), xxhash_rust::xxh3::xxh3_64(b"abc"));
    let a1 = run_hash(HashCandidate::AHash, &st, b"abc");
    let a2 = run_hash(HashCandidate::AHash, &st, b"abc");
    assert_eq!(a1, a2);
}

#[test]
fn hash_step_cycles_units() {
    let st = ahash::RandomState::new();
    let data = b"ab\ncd";
    let units = vec![Span { start: 0, end: 2 }, Span { start: 3, end: 5 }];
    let mut d = CyclicDriver::new(2);
    let h0 = hash_step(HashCandidate::Xxh3, &st, data, &units, &mut d);
    let h1 = hash_step(HashCandidate::Xxh3, &st, data, &units, &mut d);
    let h2 = hash_step(HashCandidate::Xxh3, &st, data, &units, &mut d);
    assert_eq!(h0, xxhash_rust::xxh3::xxh3_64(b"ab"));
    assert_eq!(h1, xxhash_rust::xxh3::xxh3_64(b"cd"));
    assert_eq!(h2, h0);
}

#[test]
fn searches_find_first_and_last() {
    let h = b"abcabc";
    assert_eq!(run_search(SearchCandidate::MemchrFind, h, b"bc"), Some(1));
    assert_eq!(run_search(SearchCandidate::StringzillaFind, h, b"bc"), Some(1));
    assert_eq!(run_search(SearchCandidate::MemchrRfind, h, b"bc"), Some(4));
    assert_eq!(run_search(SearchCandidate::StringzillaRfind, h, b"bc"), Some(4));
    assert_eq!(run_search(SearchCandidate::MemchrFind, h, b"zz"), None);
    assert_eq!(run_search(SearchCandidate::StringzillaRfind, h, b"zz"), None);
}

#[test]
fn search_step_uses_words_as_needles() {
    let data = b"to be or not to be";
    let needles = vec![Span { start: 0, end: 2 }, Span { start: 3, end: 5 }];
    let mut d = CyclicDriver::new(2);
    assert_eq!(search_step(SearchCandidate::MemchrRfind, data, &needles, &mut d), Some(13));
    assert_eq!(search_step(SearchCandidate::MemchrRfind, data, &needles, &mut d), Some(16));
    assert_eq!(search_step(SearchCandidate::StringzillaFind, data, &needles, &mut d), Some(0));
}

#[test]
fn fuzz_short_input_is_a_no_op() {
    assert_eq!(fuzz_split(&[9]), None);
    assert_eq!(fuzz_one(&[9]), None);
    assert_eq!(fuzz_one(&[]), None);
}

#[test]
fn fuzz_split_scenario() {
    let data = [5u8, b'a', b'b', b'c'];
    assert_eq!(fuzz_split(&data), Some(1));
    assert_eq!(fuzz_one(&data), Some(None));
    assert_eq!(fuzz_split(&[0, 7]), Some(1));
    assert_eq!(fuzz_one(&[0, 1, 0, 1]), Some(Some(1)));
    assert_eq!(fuzz_split(&[4, 4, 4, 4]), Some(0));
    assert_eq!(fuzz_one(&[4, 4, 4, 4]), Some(Some(0)));
}

#[test]
fn char_distances_on_multibyte_text() {
    let a = "日本語".as_bytes();
    let b = "日本".as_bytes();
    assert_eq!(run_edit(EditCandidate::StringzillaUtf8, a, b, 0), Some(1));
    assert_eq!(run_edit(EditCandidate::RapidfuzzChars, a, b, 0), Some(1));
    assert_eq!(run_edit(EditCandidate::RapidfuzzCharsBounded, a, b, 0), None);
    assert_eq!(run_edit(EditCandidate::StringzillaUtf8Bounded, "ñandú".as_bytes(), "nandu".as_bytes(), 1), Some(1));
    assert_eq!(run_edit(EditCandidate::StringzillaBytes, a, b, 0), Some(3));
}
