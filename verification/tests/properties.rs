use parsec::{any, end, exact, one_of, InputRef, ParseError, Parser};

fn chars_of(s: &str) -> Vec<char> {
    s.chars().collect()
}

// Running the same parser from the same cursor state yields the same
// outcome and the same final offset.
#[test]
fn determinism_same_state_same_outcome() {
    let cs = chars_of("abcdef");
    let input = cs.as_slice();
    let lit = chars_of("abc");
    let parser = exact(lit.as_slice());

    let mut first_run = InputRef::new(&input);
    let mut second_run = InputRef::new(&input);
    let r1 = parser.go(&mut first_run);
    let r2 = parser.go(&mut second_run);
    assert_eq!(r1, r2);
    assert_eq!(first_run.offset(), second_run.offset());

    let bad = chars_of("abx");
    let failing = exact(bad.as_slice());
    let mut first_run = InputRef::new(&input);
    let mut second_run = InputRef::new(&input);
    let r1 = failing.go(&mut first_run);
    let r2 = failing.go(&mut second_run);
    assert_eq!(r1, r2);
    assert_eq!(first_run.offset(), second_run.offset());
}

// A successful attempt never leaves the cursor before its entry offset,
// and a zero-consumption success leaves it exactly unchanged.
#[test]
fn non_retreat_on_success() {
    let cs = chars_of("xyz");
    let input = cs.as_slice();
    let mut input_ref = InputRef::new(&input);
    let lit = chars_of("xy");
    let parser = exact(lit.as_slice());

    let entry = input_ref.offset();
    assert!(parser.go(&mut input_ref).is_ok());
    assert!(input_ref.offset() >= entry);

    let entry = input_ref.offset();
    let parser = any();
    assert_eq!(parser.go(&mut input_ref), Ok('z'));
    assert!(input_ref.offset() >= entry);

    let entry = input_ref.offset();
    let parser = end();
    assert_eq!(parser.go(&mut input_ref), Ok(()));
    assert_eq!(input_ref.offset(), entry);
}

// When the first branch of an alternative fails after partially consuming
// input, the combined outcome and final offset equal running the second
// branch alone from the original offset.
#[test]
fn alternative_independence_after_partial_consumption() {
    let cs = chars_of("axb");
    let input = cs.as_slice();
    let ab = chars_of("ab");
    let ax = chars_of("ax");

    let mut combined = InputRef::new(&input);
    let parser = exact(ab.as_slice()).or(exact(ax.as_slice()));
    let combined_result = parser.go(&mut combined);

    let mut alone = InputRef::new(&input);
    let second_only = exact(ax.as_slice());
    let alone_result = second_only.go(&mut alone);

    assert_eq!(combined_result, alone_result);
    assert_eq!(combined.offset(), alone.offset());
    assert_eq!(combined_result, Ok(ax.as_slice()));
}

// literal-match("abc") over "abcdef": success, slice "abc", offset 3.
// Over "abxdef": failure, offset left at 2.
#[test]
fn literal_match_offsets() {
    let cs = chars_of("abcdef");
    let input = cs.as_slice();
    let mut input_ref = InputRef::new(&input);
    let abc = chars_of("abc");
    let parser = exact(abc.as_slice());

    assert_eq!(parser.go(&mut input_ref), Ok(abc.as_slice()));
    assert_eq!(input_ref.offset(), 3);

    let cs = chars_of("abxdef");
    let input = cs.as_slice();
    let mut input_ref = InputRef::new(&input);
    let parser = exact(abc.as_slice());

    assert_eq!(parser.go(&mut input_ref), Err(ParseError::SyntaxError));
    assert_eq!(input_ref.offset(), 2);
}

// any-token filtered to digits, repeated with a floor of one into an
// ordered accumulator: over "123abc" it collects the digits and stops at
// offset 3; over "abc" it fails at offset 0.
#[test]
fn digits_repeated_into_ordered_accumulator() {
    let cs = chars_of("123abc");
    let input = cs.as_slice();
    let mut input_ref = InputRef::new(&input);
    let parser = any()
        .filter(|c: &char| c.is_ascii_digit())
        .repeated()
        .at_least(1)
        .collect::<Vec<_>>();

    assert_eq!(parser.go(&mut input_ref), Ok(vec!['1', '2', '3']));
    assert_eq!(input_ref.offset(), 3);

    let cs = chars_of("abc");
    let input = cs.as_slice();
    let mut input_ref = InputRef::new(&input);
    let parser = any()
        .filter(|c: &char| c.is_ascii_digit())
        .repeated()
        .at_least(1)
        .collect::<Vec<_>>();

    assert_eq!(parser.go(&mut input_ref), Err(ParseError::SyntaxError));
    assert_eq!(input_ref.offset(), 0);
}

// first-match-of(["cat","car"]) over "car": success "car". Over "cap":
// failure with the offset restored to 0.
#[test]
fn first_match_of_candidates() {
    let cat = chars_of("cat");
    let car = chars_of("car");

    let cs = chars_of("car");
    let input = cs.as_slice();
    let mut input_ref = InputRef::new(&input);
    let parser = one_of(vec![cat.as_slice(), car.as_slice()]);
    assert_eq!(parser.go(&mut input_ref), Ok(car.as_slice()));

    let cs = chars_of("cap");
    let input = cs.as_slice();
    let mut input_ref = InputRef::new(&input);
    let parser = one_of(vec![cat.as_slice(), car.as_slice()]);
    assert_eq!(parser.go(&mut input_ref), Err(ParseError::SyntaxError));
    assert_eq!(input_ref.offset(), 0);
}

// Braces padded by whitespace, sequenced with keep-second, consume the
// whole padded input.
#[test]
fn padded_braces_consume_all() {
    let cs = chars_of("{  }");
    let input = cs.as_slice();
    let mut input_ref = InputRef::new(&input);

    let white_space = any()
        .filter(|c: &char| c == &' ')
        .repeated()
        .at_least(0)
        .collect::<String>();

    let parser = exact('{')
        .padded(white_space.clone())
        .right_bind(exact('}').padded(white_space))
        .left_bind(end());

    assert!(parser.go(&mut input_ref).is_ok());
    assert_eq!(input_ref.offset(), 4);
}

// Round-trip: for a source exactly equal to the literal, literal-match
// succeeds and the returned slice equals the literal exactly.
#[test]
fn literal_round_trip() {
    for text in ["", "a", "ab", "such a literal", "{}[]()"] {
        let lit = chars_of(text);
        let cs = chars_of(text);
        let input = cs.as_slice();
        let mut input_ref = InputRef::new(&input);
        let parser = exact(lit.as_slice());
        assert_eq!(parser.go(&mut input_ref), Ok(lit.as_slice()));
        assert_eq!(input_ref.offset(), lit.len());
    }

    let bytes = b"raw bytes" as &[u8];
    let mut input_ref = InputRef::new(&bytes);
    let parser = exact(bytes);
    assert_eq!(parser.go(&mut input_ref), Ok(bytes));
    assert_eq!(input_ref.offset(), bytes.len());
}

// An absorbed optional-phase failure is not rewound: if the failing inner
// attempt itself consumed input before failing, the cursor stays where that
// attempt stopped. Here the third attempt of "ab" consumes the trailing 'a'
// before hitting the end of input.
#[test]
fn absorbed_optional_failure_keeps_cursor_position() {
    let cs = chars_of("ababa");
    let input = cs.as_slice();
    let mut input_ref = InputRef::new(&input);
    let ab = chars_of("ab");
    let parser = exact(ab.as_slice()).repeated().at_least(1).collect::<Vec<_>>();

    assert_eq!(
        parser.go(&mut input_ref),
        Ok(vec![ab.as_slice(), ab.as_slice()])
    );
    assert_eq!(input_ref.offset(), 5);
}

// The cursor's own operations: advance, peek, rewind, and slicing.
#[test]
fn cursor_operations() {
    let cs = chars_of("abc");
    let input = cs.as_slice();
    let mut input_ref = InputRef::new(&input);

    assert_eq!(input_ref.start(), 0);
    assert_eq!(input_ref.peek(), (1, Some('a')));
    assert_eq!(input_ref.offset(), 0);
    assert_eq!(input_ref.next(), (1, Some('a')));
    assert_eq!(input_ref.next_token(), Some('b'));
    assert_eq!(input_ref.next_offset(), 3);
    assert_eq!(input_ref.peek_token(), None);
    assert_eq!(input_ref.next(), (3, None));
    assert_eq!(input_ref.slice(1, 3), &['b', 'c']);

    input_ref.rewind(1);
    assert_eq!(input_ref.offset(), 1);
    assert_eq!(input_ref.peek_token(), Some('b'));
}

// The discard sink accepts every push and stays empty.
#[test]
fn discard_sink_collects_nothing() {
    let cs = chars_of("aaa");
    let input = cs.as_slice();
    let mut input_ref = InputRef::new(&input);
    let parser = any().repeated().at_least(1).collect::<()>();
    assert_eq!(parser.go(&mut input_ref), Ok(()));
    assert_eq!(input_ref.offset(), 3);
}

// The top-level run entry builds its own cursor at the start offset.
#[test]
fn parse_runs_from_start() {
    let cs = chars_of("abc");
    let input = cs.as_slice();
    let ab = chars_of("ab");
    let parser = exact(ab.as_slice());
    assert_eq!(parser.parse(input), Ok(ab.as_slice()));

    let cs = chars_of("xbc");
    let input = cs.as_slice();
    let parser = exact(ab.as_slice());
    assert_eq!(parser.parse(input), Err(ParseError::SyntaxError));
}

// An exact repetition count is honoured and its failure reported.
#[test]
fn exactly_counts_matches() {
    let cs = chars_of("aaab");
    let input = cs.as_slice();
    let mut input_ref = InputRef::new(&input);
    let parser = any()
        .filter(|c: &char| c == &'a')
        .repeated()
        .exactly(3)
        .collect::<String>();
    assert_eq!(parser.go(&mut input_ref), Ok(String::from("aaa")));
    assert_eq!(input_ref.offset(), 3);

    input_ref.rewind(input_ref.start());
    let parser = any()
        .filter(|c: &char| c == &'a')
        .repeated()
        .exactly(4)
        .collect::<String>();
    assert_eq!(parser.go(&mut input_ref), Err(ParseError::SyntaxError));
}
