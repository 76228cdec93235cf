use stringwars::config::{parse_error_bound, parse_max_pairs, parse_mode, ConfigError, Mode};
use stringwars::cyclic::CyclicDriver;
use stringwars::pairing::{make_pairs, pair_bound, pair_bounds, prepare_pairs};
use stringwars::throughput::total_bytes;
use stringwars::tokenize::{split_lines, split_words, tokenize, Span};

fn sp(start: usize, end: usize) -> Span {
    Span { start, end }
}

fn texts<'a>(data: &'a [u8], units: &[Span]) -> Vec<&'a [u8]> {
    units.iter().map(|u| &data[u.start..u.end]).collect()
}

#[test]
fn lines_scenario_three_units_one_pair() {
    let data = b"ab\ncde\nf";
    let units = tokenize(data, Mode::Lines).unwrap();
    assert_eq!(texts(data, &units), vec![&b"ab"[..], &b"cde"[..], &b"f"[..]]);
    let pairs = make_pairs(&units, None).unwrap();
    assert_eq!(pairs.len(), 1);
    assert_eq!(&data[pairs[0].0.start..pairs[0].0.end], b"ab");
    assert_eq!(&data[pairs[0].1.start..pairs[0].1.end], b"cde");
}

#[test]
fn lines_trailing_newline_adds_no_unit() {
    assert_eq!(split_lines(b"a\nb\n"), vec![sp(0, 1), sp(2, 3)]);
    assert_eq!(split_lines(b"a\nb"), vec![sp(0, 1), sp(2, 3)]);
    assert_eq!(split_lines(b""), vec![]);
}

#[test]
fn lines_keep_empty_lines_and_drop_carriage_returns() {
    assert_eq!(split_lines(b"\n\n"), vec![sp(0, 0), sp(1, 1)]);
    assert_eq!(split_lines(b"a\r\nb\r"), vec![sp(0, 1), sp(3, 5)]);
    assert_eq!(split_lines(b"x\n\ny"), vec![sp(0, 1), sp(2, 2), sp(3, 4)]);
}

#[test]
fn line_count_matches_newlines() {
    let data = b"one\ntwo\n\nfour";
    assert_eq!(split_lines(data).len(), 3 + 1);
    let data = b"one\ntwo\n";
    assert_eq!(split_lines(data).len(), 2);
}

#[test]
fn words_drop_empty_runs() {
    let data = b"  alpha \t beta\n\ngamma  ";
    let units = split_words(data);
    assert_eq!(texts(data, &units), vec![&b"alpha"[..], &b"beta"[..], &b"gamma"[..]]);
    assert!(units.iter().all(|u| u.start < u.end));
}

#[test]
fn words_split_on_unicode_whitespace() {
    let data = "a\u{3000}b\u{a0}c\u{2009}d\u{85}e".as_bytes();
    let units = split_words(data);
    let got: Vec<&str> = texts(data, &units)
        .into_iter()
        .map(|b| std::str::from_utf8(b).unwrap())
        .collect();
    assert_eq!(got, vec!["a", "b", "c", "d", "e"]);
    let text = "a\u{3000}b\u{a0}c\u{2009}d\u{85}e";
    assert_eq!(got, text.split_whitespace().collect::<Vec<_>>());
    let data = "né ü".as_bytes();
    assert_eq!(split_words(data).len(), 2);
}

#[test]
fn file_mode_is_one_unit_even_when_empty() {
    assert_eq!(tokenize(b"", Mode::File).unwrap(), vec![sp(0, 0)]);
    assert_eq!(tokenize(b"a b\nc", Mode::File).unwrap(), vec![sp(0, 5)]);
}

#[test]
fn no_units_is_an_error() {
    assert!(matches!(tokenize(b"   \n\t", Mode::Words), Err(ConfigError::NoUnits)));
    assert!(matches!(tokenize(b"", Mode::Lines), Err(ConfigError::NoUnits)));
}

#[test]
fn unknown_mode_names_the_value() {
    match parse_mode("paragraphs", true) {
        Err(ConfigError::UnknownMode { value, file_allowed }) => {
            assert_eq!(value, "paragraphs");
            assert!(file_allowed);
        }
        other => panic!("unexpected {:?}", other),
    }
    assert!(matches!(
        parse_mode("file", false),
        Err(ConfigError::UnknownMode { file_allowed: false, .. })
    ));
    assert_eq!(parse_mode("lines", false).unwrap(), Mode::Lines);
    assert_eq!(parse_mode("words", true).unwrap(), Mode::Words);
    assert_eq!(parse_mode("file", true).unwrap(), Mode::File);
}

#[test]
fn pair_counts_follow_the_cap() {
    let units: Vec<Span> = (0..7).map(|i| sp(i, i + 1)).collect();
    assert_eq!(make_pairs(&units, None).unwrap().len(), 3);
    assert_eq!(make_pairs(&units, Some(2)).unwrap().len(), 2);
    assert_eq!(make_pairs(&units, Some(10)).unwrap().len(), 3);
    let pairs = make_pairs(&units, Some(2)).unwrap();
    assert_eq!(pairs, vec![(sp(0, 1), sp(1, 2)), (sp(2, 3), sp(3, 4))]);
}

#[test]
fn too_few_units_and_no_pairs_are_errors() {
    assert!(matches!(make_pairs(&vec![], None), Err(ConfigError::TooFewUnits)));
    assert!(matches!(make_pairs(&vec![sp(0, 1)], None), Err(ConfigError::TooFewUnits)));
    let units = vec![sp(0, 1), sp(1, 2)];
    assert!(matches!(make_pairs(&units, Some(0)), Err(ConfigError::NoPairs)));
}

#[test]
fn kitten_sitting_bound() {
    assert_eq!(pair_bound(6, 7, 15), 1);
    assert_eq!(pair_bound(6, 7, 0), 0);
    assert_eq!(pair_bound(6, 7, 100), 7);
    assert_eq!(pair_bound(200, 40, 15), 30);
    assert_eq!(pair_bound(usize::MAX, 1, u64::MAX), usize::MAX);
}

#[test]
fn bounds_follow_pairs() {
    let data = b"kitten\nsitting\nab\nabcdefghijklmnopqrst";
    let (pairs, bounds) = prepare_pairs(data, Mode::Lines, None, 15).unwrap();
    assert_eq!(pairs.len(), 2);
    assert_eq!(bounds, vec![1, 3]);
    assert_eq!(pair_bounds(&pairs, 50), vec![3, 10]);
    assert!(matches!(
        prepare_pairs(b"single", Mode::Lines, None, 15),
        Err(ConfigError::TooFewUnits)
    ));
    assert!(matches!(prepare_pairs(b"a b", Mode::Words, Some(0), 15), Err(ConfigError::NoPairs)));
}

#[test]
fn cyclic_replay_repeats_pool() {
    let pool = vec![10u32, 20, 30];
    let mut d = CyclicDriver::new(pool.len());
    let seen: Vec<u32> = (0..6).map(|_| d.draw(&pool)).collect();
    assert_eq!(seen, vec![10, 20, 30, 10, 20, 30]);
    assert_eq!(d.position, 0);
    let mut one = CyclicDriver::new(1);
    assert_eq!(one.next_index(), 0);
    assert_eq!(one.next_index(), 0);
}

#[test]
fn throughput_sums_unit_bytes() {
    let data = b"ab\ncde\nf";
    let units = tokenize(data, Mode::Lines).unwrap();
    assert_eq!(total_bytes(&units), 6);
    assert_eq!(total_bytes(&vec![]), 0);
}

#[test]
fn numeric_settings() {
    assert_eq!(parse_error_bound(None).unwrap(), 15);
    assert_eq!(parse_error_bound(Some("40")).unwrap(), 40);
    assert_eq!(parse_error_bound(Some("+7")).unwrap(), 7);
    assert_eq!(parse_error_bound(Some("18446744073709551615")).unwrap(), u64::MAX);
    assert!(matches!(parse_error_bound(Some("18446744073709551616")), Err(ConfigError::BadErrorBound { .. })));
    match parse_error_bound(Some("ten")) {
        Err(ConfigError::BadErrorBound { value }) => assert_eq!(value, "ten"),
        other => panic!("unexpected {:?}", other),
    }
    assert!(parse_error_bound(Some("")).is_err());
    assert!(parse_error_bound(Some("-1")).is_err());
    assert_eq!(parse_max_pairs(None), 100);
    assert_eq!(parse_max_pairs(Some("5")), 5);
    assert_eq!(parse_max_pairs(Some("five")), 100);
    assert_eq!(parse_max_pairs(Some("")), 100);
}
