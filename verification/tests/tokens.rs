use rask::parser::h1::tokens::{
    batched_byte_valid, batched_validate, is_class_token, is_header_name_token,
    is_header_value_token, is_request_target_token, validate_tokens, TokenClass, BATCH_WIDTH,
};

const CLASSES: [TokenClass; 3] = [
    TokenClass::HeaderName,
    TokenClass::HeaderValue,
    TokenClass::Target,
];

fn scalar_is(c: TokenClass, b: u8) -> bool {
    match c {
        TokenClass::HeaderName => is_header_name_token(b),
        TokenClass::HeaderValue => is_header_value_token(b),
        TokenClass::Target => is_request_target_token(b),
    }
}

fn scalar_consume(c: TokenClass, input: &[u8]) -> usize {
    let mut n = 0;
    while n < input.len() && scalar_is(c, input[n]) {
        n += 1;
    }
    n
}

#[test]
fn batched_agrees_with_scalar_on_every_single_byte() {
    for &c in CLASSES.iter() {
        for b in 0..=255u8 {
            let input = [b];
            let consumed = validate_tokens(c, &input, 0);
            let expect = if scalar_is(c, b) { 1 } else { 0 };
            assert_eq!(expect, consumed, "class {:?}, byte 0x{:02x}", c, b);
            assert_eq!(scalar_is(c, b), batched_byte_valid(c, b), "byte 0x{:02x}", b);
        }
    }
}

#[test]
fn scalar_classifiers_match_the_rfc_tables() {
    for b in 0..=255u8 {
        let tchar = b.is_ascii_alphanumeric()
            || matches!(
                b,
                b'!' | b'#' | b'$' | b'%' | b'&' | b'\'' | b'*' | b'+' | b'-' | b'.' | b'^'
                    | b'_' | b'`' | b'|' | b'~'
            );
        assert_eq!(tchar, is_header_name_token(b), "tchar 0x{:02x}", b);
        let vchar = (b > 0x1f || b == 0x09) && b != 0x7f;
        assert_eq!(vchar, is_header_value_token(b), "value 0x{:02x}", b);
        let target = (0x21..=0x7e).contains(&b);
        assert_eq!(target, is_request_target_token(b), "target 0x{:02x}", b);
    }
}

#[test]
fn batched_consumption_equals_scalar_consumption() {
    // Runs that stop before, at, and after every window boundary.
    for &c in CLASSES.iter() {
        for valid_len in 0..40usize {
            for total_len in valid_len..44usize {
                let mut input = vec![b'a'; valid_len];
                while input.len() < total_len {
                    input.push(b'\0');
                }
                assert_eq!(
                    scalar_consume(c, &input),
                    validate_tokens(c, &input, 0),
                    "class {:?}, valid {}, total {}",
                    c,
                    valid_len,
                    total_len
                );
            }
        }
    }
}

#[test]
fn batched_consumption_equals_scalar_consumption_from_an_offset() {
    let input: &[u8] = b"abc def\x01ghij klmnopqrstuvwxyz0123456789";
    for &c in CLASSES.iter() {
        for pos in 0..=input.len() {
            assert_eq!(
                pos + scalar_consume(c, &input[pos..]),
                validate_tokens(c, input, pos),
                "class {:?}, pos {}",
                c,
                pos
            );
        }
    }
}

#[test]
fn batched_validator_stays_inside_short_inputs() {
    // Inputs shorter than a window never enter the batched path; the
    // reported position stays within the input.
    for &c in CLASSES.iter() {
        for len in 0..BATCH_WIDTH {
            let input = vec![b'a'; len];
            match batched_validate(c, &input, 0) {
                Ok(p) => panic!("stopped inside a window of a short input at {}", p),
                Err(p) => assert!(p <= len),
            }
            assert_eq!(len, validate_tokens(c, &input, 0));
        }
    }
}

#[test]
fn batched_validator_reports_stop_inside_window() {
    let mut input = vec![b'a'; 2 * BATCH_WIDTH];
    input[BATCH_WIDTH + 3] = b'\0';
    for &c in CLASSES.iter() {
        match batched_validate(c, &input, 0) {
            Ok(p) => assert_eq!(BATCH_WIDTH + 3, p),
            Err(p) => panic!("expected a stop inside the window, got tail at {}", p),
        }
    }
}
