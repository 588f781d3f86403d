use bytes::BytesMut;
use resp_codec::{
    parse, parse_batch, parse_err, parse_int, parse_multi_batch, parse_single_line, ParseError,
    Resp,
};

fn from_text(s: &str) -> Resp {
    Resp::from_resp(&BytesMut::from(s))
}

#[test]
fn test_parse_single_line() {
    let (_, resp) = parse_single_line(b"+OK\r\n").unwrap();

    if let Resp::StringLine(ok) = resp {
        assert_eq!(ok, "OK".to_string())
    } else {
        panic!("not a simple string");
    }
}

#[test]
fn test_parse_err() {
    let (_, resp) = parse_err(b"-Error\r\n").unwrap();

    if let Resp::Error(err) = resp {
        assert_eq!(err, "Error".to_string())
    } else {
        panic!("not an error reply");
    }
}

#[test]
fn test_parse_int() {
    let (_, resp) = parse_int(b":-1\r\n").unwrap();

    if let Resp::Int(int) = resp {
        assert_eq!(int, -1)
    } else {
        panic!("not an integer");
    }
}

#[test]
fn test_parse_batch() {
    let (_, none_resp) = parse_batch(b"$-1\r\n").unwrap();
    if let Resp::Batch(none) = none_resp {
        assert_eq!(none, None);
    } else {
        panic!("not a bulk string");
    }
    let (_, value_resp) = parse_batch(b"$6\r\nfoobar\r\n").unwrap();
    if let Resp::Batch(value) = value_resp {
        assert_eq!(value, Some("foobar".to_string()));
    } else {
        panic!("not a bulk string");
    }
    let (_, value_resp) = parse_batch(b"$0\r\n\r\n").unwrap();
    if let Resp::Batch(value) = value_resp {
        assert_eq!(value, Some("".to_string()));
    } else {
        panic!("not a bulk string");
    }
}

#[test]
fn test_parse_multi_batch() {
    let (_, none_resp) = parse_multi_batch(b"*0\r\n").unwrap();
    if let Resp::MultiBatch(responses) = none_resp {
        assert_eq!(responses.unwrap().len(), 0);
    } else {
        panic!("not an array");
    }

    let (_, value_resp) = parse_multi_batch(b"*2\r\n$3\r\nfoo\r\n$3\r\nbar\r\n").unwrap();
    if let Resp::MultiBatch(responses) = value_resp {
        assert_eq!(responses.as_ref().unwrap().len(), 2);
        assert_eq!(
            responses,
            Some(vec![
                Resp::Batch(Some("foo".to_string())),
                Resp::Batch(Some("bar".to_string()))
            ])
        );
    } else {
        panic!("not an array");
    }
}

#[test]
fn simple_string_whole_buffer() {
    assert_eq!(from_text("+OK\r\n"), Resp::StringLine("OK".to_string()));
    let (rest, _) = parse(b"+OK\r\n").unwrap();
    assert!(rest.is_empty());
}

#[test]
fn error_whole_buffer() {
    assert_eq!(from_text("-Error\r\n"), Resp::Error("Error".to_string()));
}

#[test]
fn integer_whole_buffer() {
    assert_eq!(from_text(":-1\r\n"), Resp::Int(-1));
    assert_eq!(from_text(":1000\r\n"), Resp::Int(1000));
    assert_eq!(from_text(":-9223372036854775808\r\n"), Resp::Int(i64::MIN));
    assert_eq!(from_text(":9223372036854775807\r\n"), Resp::Int(i64::MAX));
}

#[test]
fn integer_out_of_range_is_malformed() {
    assert!(matches!(from_text(":9223372036854775808\r\n"), Resp::BadReply(_)));
    assert!(matches!(from_text(":12a\r\n"), Resp::BadReply(_)));
    assert!(matches!(from_text(":\r\n"), Resp::BadReply(_)));
    assert!(matches!(from_text(":-\r\n"), Resp::BadReply(_)));
}

#[test]
fn bulk_strings_whole_buffer() {
    assert_eq!(from_text("$-1\r\n"), Resp::Batch(None));
    assert_eq!(from_text("$6\r\nfoobar\r\n"), Resp::Batch(Some("foobar".to_string())));
    assert_eq!(from_text("$0\r\n\r\n"), Resp::Batch(Some(String::new())));
}

#[test]
fn bulk_string_may_hold_line_breaks() {
    assert_eq!(from_text("$4\r\na\r\nb\r\n"), Resp::Batch(Some("a\r\nb".to_string())));
}

#[test]
fn bulk_string_with_wrong_length_is_malformed() {
    assert!(matches!(from_text("$7\r\nfoobar\r\n"), Resp::BadReply(_)));
    assert!(matches!(from_text("$x\r\nfoobar\r\n"), Resp::BadReply(_)));
}

#[test]
fn empty_and_null_arrays_differ() {
    assert_eq!(from_text("*0\r\n"), Resp::MultiBatch(Some(vec![])));
    assert_eq!(from_text("*-1\r\n"), Resp::MultiBatch(None));
}

#[test]
fn array_of_bulk_strings() {
    assert_eq!(
        from_text("*2\r\n$3\r\nfoo\r\n$3\r\nbar\r\n"),
        Resp::MultiBatch(Some(vec![
            Resp::Batch(Some("foo".to_string())),
            Resp::Batch(Some("bar".to_string())),
        ]))
    );
}

#[test]
fn nested_arrays() {
    assert_eq!(
        from_text("*2\r\n*1\r\n:1\r\n+x\r\n"),
        Resp::MultiBatch(Some(vec![
            Resp::MultiBatch(Some(vec![Resp::Int(1)])),
            Resp::StringLine("x".to_string()),
        ]))
    );
}

#[test]
fn trailing_bytes_are_reported() {
    assert_eq!(
        from_text("+OK\r\nxyz"),
        Resp::BadReply("remaining bytes: xyz".to_string())
    );
    assert_eq!(
        from_text("*2\r\n$3\r\nfoo\r\n$3\r\nbar\r\n:1\r\n"),
        Resp::BadReply("remaining bytes: :1\r\n".to_string())
    );
}

#[test]
fn short_array_reports_both_counts() {
    assert_eq!(
        from_text("*3\r\n$3\r\nfoo\r\n"),
        Resp::BadReply("expect 3 items, got 1".to_string())
    );
    assert_eq!(
        from_text("*2\r\n:1\r\n?\r\n"),
        Resp::BadReply("expect 2 items, got 1".to_string())
    );
}

#[test]
fn unknown_sentinel_is_malformed() {
    assert_eq!(
        from_text("?OK\r\n"),
        Resp::BadReply("no reply matches the input".to_string())
    );
    assert_eq!(
        from_text(""),
        Resp::BadReply("no reply matches the input".to_string())
    );
    assert_eq!(parse(b"OK\r\n"), Err(ParseError::Unrecognized));
}

#[test]
fn missing_line_end_is_malformed() {
    assert!(matches!(from_text("+OK"), Resp::BadReply(_)));
    assert!(matches!(from_text("+OK\n"), Resp::BadReply(_)));
}

#[test]
fn sentinel_parsers_reject_other_kinds() {
    assert_eq!(parse_single_line(b"-Error\r\n"), Err(ParseError::Unrecognized));
    assert_eq!(parse_err(b"+OK\r\n"), Err(ParseError::Unrecognized));
    assert_eq!(parse_int(b"$-1\r\n"), Err(ParseError::Unrecognized));
    assert_eq!(parse_batch(b"*0\r\n"), Err(ParseError::Unrecognized));
    assert_eq!(parse_multi_batch(b":1\r\n"), Err(ParseError::Unrecognized));
}

#[test]
fn parse_hands_back_the_rest() {
    let (rest, resp) = parse(b":5\r\n+OK\r\n").unwrap();
    assert_eq!(resp, Resp::Int(5));
    assert_eq!(rest, b"+OK\r\n");
}

#[test]
fn invalid_utf8_text_is_replaced() {
    let buf = BytesMut::from(&b"+a\xffb\r\n"[..]);
    assert_eq!(Resp::from_resp(&buf), Resp::StringLine("a\u{fffd}b".to_string()));
}

#[test]
fn parse_response_on_slices() {
    assert_eq!(Resp::parse_response(b":42\r\n"), Resp::Int(42));
}

#[test]
fn render_each_kind() {
    assert_eq!(Resp::StringLine("OK".to_string()).render(), "+ OK");
    assert_eq!(Resp::Error("bad".to_string()).render(), "- bad");
    assert_eq!(Resp::Int(-12).render(), ": -12");
    assert_eq!(Resp::Batch(Some("v".to_string())).render(), "$ v");
    assert_eq!(Resp::Batch(None).render(), "$-1");
    assert_eq!(Resp::MultiBatch(None).render(), "*-1");
    assert_eq!(
        Resp::BadReply("oops".to_string()).render(),
        "parse reply failed: oops"
    );
    assert_eq!(
        Resp::MultiBatch(Some(vec![
            Resp::Int(1),
            Resp::Batch(Some("foo".to_string()))
        ]))
        .render(),
        "* 2\r\n: 1\r\n$ foo"
    );
    assert_eq!(Resp::MultiBatch(Some(vec![])).render(), "* 0\r\n");
}
