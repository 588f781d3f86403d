use resp_codec::{Commands, ExistOP};

fn frame(c: &Commands) -> Vec<u8> {
    c.to_bytes().to_vec()
}

#[test]
fn ping_frame() {
    assert_eq!(frame(&Commands::Ping), b"*1\r\n$4\r\nPING\r\n".to_vec());
}

#[test]
fn get_frame() {
    let c = Commands::Get { key: "key".to_string() };
    assert_eq!(frame(&c), b"*2\r\n$3\r\nGET\r\n$3\r\nkey\r\n".to_vec());
    assert_eq!(c.encode(), frame(&c));
}

#[test]
fn set_frame_with_options() {
    let c = Commands::SetKey {
        key: "k".to_string(),
        value: "hello".to_string(),
        ex: Some(10),
        px: Some(250),
        x: Some(ExistOP::NX),
    };
    assert_eq!(
        frame(&c),
        b"*8\r\n$3\r\nSET\r\n$1\r\nk\r\n$5\r\nhello\r\n$2\r\nEX\r\n$2\r\n10\r\n$2\r\nPX\r\n$3\r\n250\r\n$2\r\nNX\r\n"
            .to_vec()
    );
}

#[test]
fn set_frame_plain() {
    let c = Commands::SetKey {
        key: "k".to_string(),
        value: "".to_string(),
        ex: None,
        px: None,
        x: Some(ExistOP::XX),
    };
    assert_eq!(
        frame(&c),
        b"*4\r\n$3\r\nSET\r\n$1\r\nk\r\n$0\r\n\r\n$2\r\nXX\r\n".to_vec()
    );
}

#[test]
fn incr_frame() {
    let c = Commands::Incr { key: "n".to_string() };
    assert_eq!(frame(&c), b"*2\r\n$4\r\nINCR\r\n$1\r\nn\r\n".to_vec());
}

#[test]
fn lrange_frame_with_negative_stop() {
    let c = Commands::Lrange { key: "l".to_string(), start: 0, stop: -1 };
    assert_eq!(
        frame(&c),
        b"*4\r\n$6\r\nLRANGE\r\n$1\r\nl\r\n$1\r\n0\r\n$2\r\n-1\r\n".to_vec()
    );
    let c = Commands::Lrange { key: "l".to_string(), start: i64::MIN, stop: 1234567890 };
    assert_eq!(
        frame(&c),
        b"*4\r\n$6\r\nLRANGE\r\n$1\r\nl\r\n$20\r\n-9223372036854775808\r\n$10\r\n1234567890\r\n"
            .to_vec()
    );
}

#[test]
fn rpush_frame() {
    let c = Commands::Rpush {
        key: "list".to_string(),
        values: vec!["a".to_string(), "bc".to_string()],
    };
    assert_eq!(
        frame(&c),
        b"*4\r\n$5\r\nRPUSH\r\n$4\r\nlist\r\n$1\r\na\r\n$2\r\nbc\r\n".to_vec()
    );
    let c = Commands::Rpush { key: "list".to_string(), values: vec![] };
    assert_eq!(frame(&c), b"*2\r\n$5\r\nRPUSH\r\n$4\r\nlist\r\n".to_vec());
}

#[test]
fn length_counts_bytes_not_chars() {
    let c = Commands::Get { key: "é".to_string() };
    assert_eq!(frame(&c), "*2\r\n$3\r\nGET\r\n$2\r\né\r\n".as_bytes().to_vec());
}

#[test]
fn exist_flag_from_text() {
    assert!(matches!(ExistOP::from_str("nx"), Ok(ExistOP::NX)));
    assert!(matches!(ExistOP::from_str("NX"), Ok(ExistOP::NX)));
    assert!(matches!(ExistOP::from_str("xX"), Ok(ExistOP::XX)));
    assert_eq!(
        ExistOP::from_str("ab").err(),
        Some("unexpected string, 'NX' or 'XX' expected".to_string())
    );
    assert!(ExistOP::from_str("nxx").is_err());
}
