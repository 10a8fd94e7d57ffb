use tsukuyomi::extractor::{
    chain_after_left, chain_after_right, or_after_left, or_after_right_fresh,
    or_after_right_racing, ready, Chain, ChainFirst, ExtractError, ExtractStatus, Or,
    OrFirst, OrFuture,
};

fn err(msg: &str) -> ExtractError {
    ExtractError { message: msg.to_owned() }
}

// The scenario of an `Or` of two parsers: the first parses an integer
// parameter and fails on non-numeric text, the second takes the raw
// text.  The continuation type is unused because both are synchronous.
fn parse_integer_param(raw: &str) -> Result<ExtractStatus<String, ()>, ExtractError> {
    match raw.parse::<i64>() {
        Ok(n) => Ok(ExtractStatus::Ready(format!("int:{}", n))),
        Err(_) => Err(err("not an integer")),
    }
}

fn parse_string_param(raw: &str) -> Result<ExtractStatus<String, ()>, ExtractError> {
    if raw.is_empty() {
        Err(err("empty parameter"))
    } else {
        Ok(ExtractStatus::Ready(format!("str:{}", raw)))
    }
}

#[test]
fn or_takes_first_when_it_succeeds() {
    match or_after_left::<String, ()>(parse_integer_param("42")) {
        OrFirst::Done(v) => assert_eq!(v, "int:42"),
        _ => panic!("the first extractor succeeded; the second must not run"),
    }
}

#[test]
fn or_falls_back_to_second_on_synchronous_failure() {
    // First fails on non-numeric input, so the second one is attempted.
    match or_after_left::<String, ()>(parse_integer_param("forty-two")) {
        OrFirst::TryRightFresh => {}
        _ => panic!("the first extractor failed; the second must be attempted"),
    }
    let out = or_after_right_fresh::<String, (), ()>(parse_string_param("forty-two"));
    match out {
        Ok(ExtractStatus::Ready(v)) => assert_eq!(v, "str:forty-two"),
        _ => panic!("the fallback extractor's value must be returned"),
    }
}

#[test]
fn or_returns_second_error_when_both_fail() {
    match or_after_left::<String, ()>(parse_integer_param("")) {
        OrFirst::TryRightFresh => {}
        _ => panic!("the first extractor failed; the second must be attempted"),
    }
    let out = or_after_right_fresh::<String, (), ()>(parse_string_param(""));
    match out {
        Err(e) => assert_eq!(e.message, "empty parameter"),
        _ => panic!("with both failing, the second extractor's error is the outcome"),
    }
}

#[test]
fn or_pending_left_and_ready_right() {
    // The left side suspended; a right side that answers at once wins.
    let out = or_after_right_racing::<u32, u8, ()>(7, Ok(ExtractStatus::Ready(5)));
    assert!(matches!(out, ExtractStatus::Ready(5)));
}

#[test]
fn or_pending_both_races() {
    let out = or_after_right_racing::<u32, u8, u8>(7, Ok(ExtractStatus::Pending(9)));
    assert!(matches!(out, ExtractStatus::Pending(OrFuture::Both(7, 9))));
}

#[test]
fn or_pending_left_and_failed_right() {
    let out = or_after_right_racing::<u32, u8, ()>(7, Err(err("broken")));
    assert!(matches!(out, ExtractStatus::Pending(OrFuture::Left(7))));
}

#[test]
fn chain_pairs_in_declaration_order() {
    let first = chain_after_left::<u32, ()>(Ok(ExtractStatus::Ready(1)));
    let a = match first {
        ChainFirst::NeedRight(a) => a,
        _ => panic!("a ready left side starts the right side"),
    };
    let out = chain_after_right::<u32, u32, ()>(a, Ok(ExtractStatus::Ready(2)));
    match out {
        Ok(ExtractStatus::Ready(pair)) => assert_eq!(pair, (1, 2)),
        _ => panic!("both values must come out as a pair"),
    }
}

#[test]
fn chain_does_not_start_second_while_first_pends() {
    let first = chain_after_left::<u32, u8>(Ok(ExtractStatus::Pending(3)));
    assert!(matches!(first, ChainFirst::Suspended(3)));
}

#[test]
fn chain_surfaces_first_failure() {
    let first = chain_after_left::<u32, ()>(Err(err("first broke")));
    match first {
        ChainFirst::Failed(e) => assert_eq!(e.message, "first broke"),
        _ => panic!("the first failure must be surfaced"),
    }
}

#[test]
fn chain_second_failure_after_first_value() {
    let out = chain_after_right::<u32, u32, ()>(1, Err(err("second broke")));
    match out {
        Err(e) => assert_eq!(e.message, "second broke"),
        _ => panic!("the right side's failure must be surfaced"),
    }
}

#[test]
fn ready_never_suspends() {
    assert!(matches!(ready::<u32>(Ok(4)), Ok(ExtractStatus::Ready(4))));
    assert!(matches!(ready::<u32>(Err(err("no"))), Err(_)));
}

#[test]
fn combinators_carry_their_parts() {
    let or = Or::new(1u8, 2u8);
    assert_eq!((or.left, or.right), (1, 2));
    let chain = Chain::new(3u8, 4u8);
    assert_eq!((chain.left, chain.right), (3, 4));
}
