use parsec::{any, end, exact, one_of, InputRef, ParseError, Parser};
use std::collections::HashSet;

fn chars_of(s: &str) -> Vec<char> {
    s.chars().collect()
}

// Sanity check `exact` combinator
// Success case
#[test]
fn test_exact_simple_string_ok() {
    let cs = chars_of("hello world");
    let input = cs.as_slice();
    let mut input_ref = InputRef::new(&input);

    let hello = chars_of("hello");
    let parser = exact(hello.as_slice());

    assert_eq!(parser.go(&mut input_ref), Ok(hello.as_slice()));
    assert_eq!(input_ref.offset(), "hello".len());

    let world = chars_of(" world");
    let parser = exact(world.as_slice());
    assert_eq!(parser.go(&mut input_ref), Ok(world.as_slice()));
    assert_eq!(input_ref.offset(), "hello world".len());
}

// Sanity check for `exact` combinator
// error case
#[test]
fn test_exact_simple_string_err() {
    let input = b"hello world" as &[u8];
    let mut input_ref = InputRef::new(&input);

    let parser = exact(b"hellqasd" as &[u8]);

    assert_eq!(parser.go(&mut input_ref), Err(ParseError::SyntaxError));
    assert_eq!(input_ref.offset(), "hell".len());
}

// Sanity check for `end` combinator
// Success case.
#[test]
fn test_end_ok() {
    let cs = chars_of("");
    let input = cs.as_slice();
    let mut input_ref = InputRef::new(&input);
    let parser = end();

    assert_eq!(parser.go(&mut input_ref), Ok(()));
    assert_eq!(input_ref.offset(), 0);
}

// Sanity check for `end` combinator
// Error case.
#[test]
fn test_end_err() {
    let cs = chars_of("characters left in the input");
    let input = cs.as_slice();
    let mut input_ref = InputRef::new(&input);
    let parser = end();

    assert_eq!(parser.go(&mut input_ref), Err(ParseError::SyntaxError));
    assert_eq!(input_ref.offset(), 0);
}

// Sanity check for `any` combinator
// Success case
#[test]
fn test_any_ok() {
    let cs = chars_of("any");
    let input = cs.as_slice();
    let mut input_ref = InputRef::new(&input);
    let parser = any();

    assert_eq!(parser.go(&mut input_ref), Ok('a'));
    assert_eq!(input_ref.offset(), "a".len());

    assert_eq!(parser.go(&mut input_ref), Ok('n'));
    assert_eq!(input_ref.offset(), "ab".len());

    assert_eq!(parser.go(&mut input_ref), Ok('y'));
    assert_eq!(input_ref.offset(), "any".len());
}

// Sanity check for `any` combinator
// Success case
#[test]
fn test_any_err() {
    let cs = chars_of("");
    let input = cs.as_slice();
    let mut input_ref = InputRef::new(&input);
    let parser = any();

    assert_eq!(parser.go(&mut input_ref), Err(ParseError::SyntaxError));
    assert_eq!(input_ref.offset(), 0);
}

// Sanity check for `map` operator
#[test]
fn test_map() {
    let cs = chars_of("123");
    let input = cs.as_slice();
    let mut input_ref = InputRef::new(&input);
    let lit = chars_of("123");
    let parser = exact(lit.as_slice()).map(|string: &[char]| {
        string.iter().collect::<String>().parse::<u32>().ok()
    });

    assert_eq!(parser.go(&mut input_ref), Ok(Some(123)));
    assert_eq!(input_ref.offset(), "123".len());
    assert_eq!(parser.go(&mut input_ref), Err(ParseError::SyntaxError));
}

// Sanity check for `bind` operator
#[test]
fn test_bind() {
    let cs = chars_of("123456");
    let input = cs.as_slice();
    let mut input_ref = InputRef::new(&input);
    let a = chars_of("123");
    let b = chars_of("456");
    let parser = exact(a.as_slice()).right_bind(exact(b.as_slice())).left_bind(end());

    assert_eq!(parser.go(&mut input_ref), Ok(b.as_slice()));
    assert_eq!(input_ref.offset(), "123456".len());

    input_ref.rewind(input_ref.start());

    let parser = exact(a.as_slice())
        .right_bind(exact(b.as_slice()))
        .map(|string: &[char]| string.iter().collect::<String>().parse::<u32>().ok());

    assert_eq!(parser.go(&mut input_ref), Ok(Some(456)));
    assert_eq!(input_ref.offset(), "123456".len());

    input_ref.rewind(input_ref.start());

    let parser = exact(a.as_slice())
        .left_bind(exact(b.as_slice()))
        .map(|string: &[char]| string.iter().collect::<String>().parse::<u32>().ok());

    assert_eq!(parser.go(&mut input_ref), Ok(Some(123)));
    assert_eq!(input_ref.offset(), "123456".len());
}

#[test]
fn test_bind_with_separated_value() {
    let cs = chars_of("123-456");
    let input = cs.as_slice();
    let mut input_ref = InputRef::new(&input);
    let a = chars_of("123");
    let dash = chars_of("-");
    let b = chars_of("456");
    let parser = exact(a.as_slice())
        .left_bind(exact(dash.as_slice()))
        .right_bind(exact(b.as_slice()))
        .map(|string: &[char]| string.iter().collect::<String>().parse::<u32>().ok());

    assert_eq!(parser.go(&mut input_ref), Ok(Some(456)));

    input_ref.rewind(input_ref.start());

    let parser = exact(a.as_slice())
        .left_bind(exact(dash.as_slice()))
        .left_bind(exact(b.as_slice()))
        .map(|string: &[char]| string.iter().collect::<String>().parse::<u32>().ok());

    assert_eq!(parser.go(&mut input_ref), Ok(Some(123)));
    assert_eq!(input_ref.offset(), "123-456".len());
}

// Sanity check for `And` operator
#[test]
fn test_and() {
    let cs = chars_of("https://");
    let input = cs.as_slice();
    let mut input_ref = InputRef::new(&input);
    let https_lit = chars_of("https");
    let slashes_lit = chars_of("//");
    let colon_lit = chars_of(":");
    let er_lit = chars_of("er");
    let https = exact(https_lit.as_slice());
    let slashes = exact(slashes_lit.as_slice());

    let parser = https.left_bind(exact(colon_lit.as_slice())).and(slashes);

    assert_eq!(
        parser.go(&mut input_ref),
        Ok((https_lit.as_slice(), slashes_lit.as_slice()))
    );

    input_ref.rewind(input_ref.start());

    let parser = exact(https_lit.as_slice())
        .left_bind(exact(er_lit.as_slice()))
        .right_bind(exact(slashes_lit.as_slice()));

    assert_eq!(parser.go(&mut input_ref), Err(ParseError::SyntaxError));
    assert_eq!(input_ref.offset(), "https".len());
}

// Sanity check for `Repeated` operator
#[test]
fn test_repeated() {
    let cs = chars_of("hhhhhhoooooo");
    let input = cs.as_slice();
    let mut input_ref = InputRef::new(&input);

    let h = vec!['h'];
    let o = vec!['o'];

    let parser = exact('h').repeated().at_least(3).at_most(4).collect::<Vec<_>>();

    assert_eq!(parser.go(&mut input_ref), Ok(vec![h.as_slice(); 4]));
    assert_eq!(input_ref.offset(), 4);

    input_ref.rewind(input_ref.start());

    let parser = exact('h').repeated().at_least(1).collect::<Vec<_>>();
    assert_eq!(parser.go(&mut input_ref), Ok(vec![h.as_slice(); 6]));
    assert_eq!(input_ref.offset(), 6);

    input_ref.rewind(input_ref.start());

    let parser = exact('h')
        .repeated()
        .at_least(1)
        .collect::<Vec<_>>()
        .and(exact('o').repeated().at_least(1).collect::<Vec<_>>())
        .left_bind(end());

    assert_eq!(
        parser.go(&mut input_ref),
        Ok((vec![h.as_slice(); 6], vec![o.as_slice(); 6]))
    );
}

#[test]
fn test_repeated_err() {
    let cs = chars_of("hhhhhooooo");
    let input = cs.as_slice();
    let mut input_ref = InputRef::new(&input);
    let parser = exact('h').repeated().at_least(100).at_most(400).collect::<Vec<_>>();

    assert_eq!(
        parser.go(&mut input_ref),
        Err::<Vec<_>, _>(ParseError::SyntaxError)
    );
}

#[test]
fn test_filter_ok() {
    let cs = chars_of("132letters");
    let input = cs.as_slice();
    let mut input_ref = InputRef::new(&input);

    let digits = any()
        .filter(|c: &char| c.is_ascii_digit())
        .repeated()
        .at_least(1)
        .collect::<Vec<_>>();

    let letters = any()
        .filter(|c: &char| c.is_ascii_alphabetic())
        .repeated()
        .at_least(1)
        .collect::<Vec<_>>();

    assert_eq!(digits.go(&mut input_ref), Ok(vec!['1', '3', '2']));
    assert_eq!(input_ref.offset(), "132".len());
    assert_eq!(
        letters.go(&mut input_ref),
        Ok(vec!['l', 'e', 't', 't', 'e', 'r', 's'])
    );

    input_ref.rewind(input_ref.start());

    let parser = digits.left_bind::<_, Vec<_>>(letters).left_bind(end());
    assert_eq!(parser.go(&mut input_ref), Ok(vec!['1', '3', '2']));
}

#[test]
fn test_floating_point_number() {
    let cs = chars_of("-123.234");
    let input = cs.as_slice();
    let mut input_ref = InputRef::new(&input);

    let digit_seq = any()
        .filter(|c: &char| c.is_ascii_digit())
        .repeated()
        .at_least(1)
        .collect::<Vec<_>>();

    let parser = exact('-')
        .right_bind(digit_seq.clone())
        .left_bind(exact('.'))
        .and(digit_seq);

    assert_eq!(
        parser.go(&mut input_ref),
        Ok((vec!['1', '2', '3'], vec!['2', '3', '4']))
    );
    assert_eq!(input_ref.offset(), "-123.234".len());

    input_ref.rewind(input_ref.start());

    let digit_seq = any()
        .filter(|c: &char| c.is_ascii_digit())
        .repeated()
        .exactly(3)
        .collect::<String>();

    let parser = exact('-')
        .right_bind(digit_seq.clone())
        .left_bind(exact('.'))
        .and(digit_seq);

    assert_eq!(
        parser.go(&mut input_ref),
        Ok((String::from("123"), String::from("234")))
    );
    assert_eq!(input_ref.offset(), "-123.234".len());

    input_ref.rewind(input_ref.start());

    let digit_seq = any()
        .filter(|c: &char| c.is_ascii_digit())
        .repeated()
        .at_least(2)
        .at_most(3)
        .collect::<String>();

    let parser = exact('-')
        .right_bind(digit_seq.clone())
        .left_bind(exact('.'))
        .and(digit_seq);

    assert_eq!(
        parser.go(&mut input_ref),
        Ok((String::from("123"), String::from("234")))
    );
    assert_eq!(input_ref.offset(), "-123.234".len());
}

#[test]
fn identifier() {
    let cs = chars_of("ident_ifier");
    let input = cs.as_slice();
    let mut input_ref = InputRef::new(&input);
    let parser = any()
        .filter(|c: &char| c.is_ascii())
        .repeated()
        .at_least(1)
        .collect::<String>();

    assert_eq!(parser.go(&mut input_ref), Ok(String::from("ident_ifier")));
    assert_eq!(input_ref.offset(), "ident_ifier".len());

    input_ref.rewind(input_ref.start());

    let parser = any()
        .filter(|c: &char| c.is_ascii())
        .repeated()
        .at_least(1)
        .collect::<HashSet<_>>();

    assert_eq!(
        parser.go(&mut input_ref),
        Ok(HashSet::from([
            'i', 'd', 'e', 'n', 't', '_', 'i', 'f', 'i', 'e', 'r'
        ]))
    );
}

#[test]
fn test_one_of() {
    let cs = chars_of("12345");
    let input = cs.as_slice();
    let mut input_ref = InputRef::new(&input);

    let parser = one_of(vec!['1', '2', '3']);

    let one = vec!['1'];
    assert_eq!(parser.go(&mut input_ref), Ok(one.as_slice()));
    assert_eq!(input_ref.offset(), 1);

    input_ref.rewind(input_ref.start());

    let c124 = chars_of("124");
    let c1235 = chars_of("1235");
    let c122 = chars_of("122");
    let c12345 = chars_of("12345");
    let parser = one_of(vec![
        c124.as_slice(),
        c1235.as_slice(),
        c122.as_slice(),
        c12345.as_slice(),
    ])
    .left_bind(end());

    assert_eq!(parser.go(&mut input_ref), Ok(c12345.as_slice()));
    assert_eq!(input_ref.offset(), "12345".len());

    input_ref.rewind(input_ref.start());

    let parser = one_of(vec![c124.as_slice(), c1235.as_slice(), c122.as_slice()]);

    assert_eq!(parser.go(&mut input_ref), Err(ParseError::SyntaxError));
    assert_eq!(input_ref.offset(), input_ref.start());

    input_ref.rewind(input_ref.start());

    let parser = one_of(vec![c124.as_slice(), c1235.as_slice(), c122.as_slice()]);

    assert_eq!(parser.go(&mut input_ref), Err(ParseError::SyntaxError));
    assert_eq!(input_ref.offset(), input_ref.start());
}

#[test]
fn test_padded_by() {
    let cs = chars_of(r#" { "key1": "value1", "key2": "value2", } "#);
    let input = cs.as_slice();
    let mut input_ref = InputRef::new(&input);
    assert_eq!(input_ref.offset(), 0);

    let white_space = any()
        .filter(|c: &char| c == &' ')
        .repeated()
        .at_least(0)
        .collect::<String>();

    let left_brace = exact('{').padded(white_space.clone());
    let right_brace = exact('}').padded(white_space.clone());
    let column = exact(':').padded(white_space.clone());
    let comma = exact(',').padded(white_space.clone());

    let string = exact('"')
        .right_bind(
            any()
                .filter(|c: &char| c.is_ascii_alphanumeric())
                .repeated()
                .at_least(1)
                .collect::<String>(),
        )
        .left_bind(exact('"'));

    let kvp = string.clone().left_bind(column).and(string);

    let json_file = left_brace
        .clone()
        .right_bind(kvp.clone())
        .left_bind(comma.clone())
        .and(kvp.clone())
        .left_bind(comma)
        .left_bind(right_brace);

    let kvp1 = (String::from("key1"), String::from("value1"));
    let kvp2 = (String::from("key2"), String::from("value2"));

    assert_eq!(json_file.go(&mut input_ref), Ok((kvp1, kvp2)));
}

#[test]
fn test_string() {
    let cs = chars_of(r#"    "       string"   "#);
    let input = cs.as_slice();
    let mut input_ref = InputRef::new(&input);
    let white_space = any()
        .filter(|c: &char| c == &' ')
        .repeated()
        .at_least(0)
        .collect::<String>();

    let string = exact('"').padded(white_space).right_bind(
        any()
            .filter(|c: &char| c.is_ascii_alphabetic())
            .repeated()
            .at_least(1)
            .collect::<String>(),
    );

    assert_eq!(string.go(&mut input_ref), Ok(String::from("string")));
}

#[test]
fn test_or() {
    let cs = chars_of("http://localhost");
    let input = cs.as_slice();
    let mut input_ref = InputRef::new(&input);

    let https = chars_of("https");
    let http = chars_of("http");
    let parser = exact(https.as_slice()).or(exact(http.as_slice()));
    assert_eq!(parser.go(&mut input_ref), Ok(http.as_slice()));

    input_ref.rewind(input_ref.start());

    let a = chars_of("http::");
    let b = chars_of("httppp");
    let c = chars_of("htttt");
    let parser = exact(a.as_slice()).or(exact(b.as_slice())).or(exact(c.as_slice()));

    assert_eq!(parser.go(&mut input_ref), Err(ParseError::SyntaxError));
}

#[test]
fn test_long_string() {
    let size: usize = 1_000_000;
    let long_string = vec!['c'; size]
        .into_iter()
        .chain(vec!['d'; size].into_iter())
        .collect::<Vec<char>>();

    let input = long_string.as_slice();
    let mut input_ref = InputRef::new(&input);

    let bounded_parser = |at_least, at_most| {
        any()
            .filter(|c: &char| c == &'c')
            .repeated()
            .at_least(at_least)
            .at_most(at_most)
            .collect::<String>()
            .and(
                any()
                    .filter(|c: &char| c == &'d')
                    .repeated()
                    .at_least(at_least)
                    .at_most(at_most)
                    .collect::<String>(),
            )
    };

    let string = |c, n| vec![c; n].into_iter().collect::<String>();

    let parser = bounded_parser(1, size);
    assert_eq!(
        parser.go(&mut input_ref),
        Ok((string('c', size), string('d', size)))
    );

    assert_eq!(input_ref.offset(), size << 1);

    input_ref.rewind(input_ref.start());

    let parser = bounded_parser(size + 1, size + 2);
    assert_eq!(parser.go(&mut input_ref), Err(ParseError::SyntaxError));
    assert_eq!(input_ref.offset(), size);
}
