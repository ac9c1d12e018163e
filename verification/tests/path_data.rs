use svgo_rs::path_data::{canonical_number, render, tokenize, PathToken};

fn number(raw: &str, fixed: Option<&str>) -> PathToken {
    PathToken::Number { raw: raw.to_string(), fixed: fixed.map(|text| text.to_string()) }
}

#[test]
fn tokenize_splits_commands_numbers_and_separators() {
    assert_eq!(
        tokenize("M 10.5,-2e3z"),
        vec![
            PathToken::Command('M'),
            PathToken::Separator,
            number("10.5", None),
            PathToken::Separator,
            number("-2e3", None),
            PathToken::Command('z'),
        ]
    );
}

#[test]
fn tokenize_of_nothing_is_nothing() {
    assert_eq!(tokenize(""), Vec::<PathToken>::new());
}

#[test]
fn tokenize_takes_every_command_letter() {
    let letters = "MmLlHhVvCcSsQqTtAaZz";
    let expected: Vec<PathToken> = letters.chars().map(PathToken::Command).collect();
    assert_eq!(tokenize(letters), expected);
}

#[test]
fn tokenize_keeps_interior_signs_in_one_token() {
    assert_eq!(tokenize("1-2"), vec![number("1-2", None)]);
    assert_eq!(tokenize("1e-5"), vec![number("1e-5", None)]);
    assert_eq!(tokenize("1.2.3"), vec![number("1.2.3", None)]);
    assert_eq!(tokenize("-"), vec![number("-", None)]);
    assert_eq!(tokenize("."), vec![number(".", None)]);
}

#[test]
fn tokenize_reads_exponent_marker_alone_as_other() {
    assert_eq!(
        tokenize("1 e5"),
        vec![number("1", None), PathToken::Separator, PathToken::Other('e'), number("5", None)]
    );
    assert_eq!(tokenize("E"), vec![PathToken::Other('E')]);
}

#[test]
fn tokenize_keeps_other_characters() {
    assert_eq!(
        tokenize("x\t\u{e9}+"),
        vec![
            PathToken::Other('x'),
            PathToken::Other('\t'),
            PathToken::Other('\u{e9}'),
            PathToken::Other('+'),
        ]
    );
}

#[test]
fn tokenize_ends_a_number_at_a_command() {
    assert_eq!(
        tokenize("10L20"),
        vec![number("10", None), PathToken::Command('L'), number("20", None)]
    );
}

#[test]
fn canonical_number_strips_zeros_then_point() {
    assert_eq!(canonical_number("100.00"), "100");
    assert_eq!(canonical_number("10.120"), "10.12");
    assert_eq!(canonical_number("1.50"), "1.5");
    assert_eq!(canonical_number("0.05"), "0.05");
    assert_eq!(canonical_number("-3.000"), "-3");
    assert_eq!(canonical_number("0.00"), "0");
    assert_eq!(canonical_number("-0.00"), "-0");
    assert_eq!(canonical_number("12.34"), "12.34");
}

#[test]
fn canonical_number_without_point_loses_trailing_zeros() {
    assert_eq!(canonical_number("7"), "7");
    assert_eq!(canonical_number("100"), "1");
    assert_eq!(canonical_number("0"), "");
    assert_eq!(canonical_number(""), "");
}

#[test]
fn canonical_number_strips_one_point_only() {
    assert_eq!(canonical_number("5."), "5");
    assert_eq!(canonical_number("5.."), "5.");
    assert_eq!(canonical_number("inf"), "inf");
    assert_eq!(canonical_number("NaN"), "NaN");
}

#[test]
fn canonical_number_keeps_at_most_the_given_places() {
    for (fixed, places) in [("3.14159", 5usize), ("2.500", 3), ("9.000", 3), ("0.10", 2)] {
        let out = canonical_number(fixed);
        let digits = match out.find('.') {
            Some(at) => out.len() - at - 1,
            None => 0,
        };
        assert!(digits <= places);
        assert!(!out.ends_with('.'));
        assert!(digits == 0 || !out.ends_with('0'));
    }
}

#[test]
fn render_writes_one_space_between_numbers() {
    let tokens = vec![
        PathToken::Command('M'),
        PathToken::Separator,
        number("100.000", Some("100.00")),
        PathToken::Separator,
        number("200.000", Some("200.00")),
    ];
    assert_eq!(render(&tokens), "M100 200");
}

#[test]
fn render_writes_one_space_whatever_separates() {
    let one = number("1", Some("1.00"));
    let two = number("2", Some("2.00"));
    let point_five = number(".5", Some("0.50"));
    let minus_two = number("-2", Some("-2.00"));

    let comma = vec![one.clone(), PathToken::Separator, two.clone()];
    assert_eq!(render(&comma), "1 2");

    let many = vec![
        one.clone(),
        PathToken::Separator,
        PathToken::Separator,
        PathToken::Separator,
        two.clone(),
    ];
    assert_eq!(render(&many), "1 2");

    let before_point = vec![one.clone(), PathToken::Separator, point_five.clone()];
    assert_eq!(render(&before_point), "1 0.5");

    let before_minus = vec![one.clone(), PathToken::Separator, minus_two.clone()];
    assert_eq!(render(&before_minus), "1 -2");

    let nothing_between = vec![one, two];
    assert_eq!(render(&nothing_between), "1 2");
}

#[test]
fn render_drops_separators_elsewhere() {
    let tokens = vec![
        PathToken::Separator,
        PathToken::Command('M'),
        PathToken::Separator,
        number("1", Some("1.00")),
        PathToken::Separator,
        PathToken::Command('L'),
        PathToken::Separator,
        number("2", Some("2.00")),
        PathToken::Separator,
    ];
    assert_eq!(render(&tokens), "M1L2");
}

#[test]
fn render_writes_no_space_before_a_command() {
    let tokens = vec![
        number("1", Some("1.00")),
        PathToken::Separator,
        PathToken::Command('Z'),
        PathToken::Separator,
        PathToken::Command('m'),
    ];
    assert_eq!(render(&tokens), "1Zm");
}

#[test]
fn render_writes_what_is_no_number_as_it_is() {
    let tokens = vec![
        number("1", Some("1.00")),
        PathToken::Separator,
        number("1-2", None),
        PathToken::Separator,
        number("3", Some("3.00")),
    ];
    // The malformed token takes the space owed to it and leaves none owed.
    assert_eq!(render(&tokens), "1 1-23");
}

#[test]
fn render_keeps_the_space_owed_across_other_characters() {
    let tokens = vec![number("1", Some("1.00")), PathToken::Other('x'), number("2", Some("2.00"))];
    assert_eq!(render(&tokens), "1x 2");
}

#[test]
fn render_keeps_commands_and_their_case() {
    let tokens = tokenize("MmLlHhVvCcSsQqTtAaZz");
    assert_eq!(render(&tokens), "MmLlHhVvCcSsQqTtAaZz");
}

#[test]
fn render_of_unread_numbers_writes_them_as_they_are() {
    assert_eq!(render(&tokenize("M 1.50,2.50 L 3")), "M1.502.50L3");
}

#[test]
fn render_of_nothing_is_empty() {
    assert_eq!(render(&Vec::new()), "");
}
