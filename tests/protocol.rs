use kvs::{
    encode_frame, get_response, header_value, parse_get_response, parse_void_response,
    void_response, Command, CommandResult, KvError,
};

#[test]
fn net_test_read_write() {
    let cmd = Command::Put {
        key: "key".to_string(),
        val: "val".to_string(),
    };

    let buf = encode_frame(&cmd.encode().unwrap());
    let size = header_value(&buf[0..4]) as usize;
    let read_cmd = Command::decode(&buf[4..4 + size]).unwrap();

    assert_eq!(format!("{:?}", read_cmd), format!("{:?}", cmd));
}

#[test]
fn command_and_result_round_trip() {
    for c in [
        Command::Get { key: "a".into() },
        Command::Remove { key: "b".into() },
        Command::Put { key: "c".into(), val: "d".into() },
    ] {
        let back = Command::decode(&c.encode().unwrap()).unwrap();
        assert_eq!(format!("{:?}", back), format!("{:?}", c));
    }
    for r in [
        CommandResult::Success,
        CommandResult::Value("v".into()),
        CommandResult::Error("Key not found".into()),
    ] {
        let back = CommandResult::decode(&r.encode().unwrap()).unwrap();
        assert_eq!(format!("{:?}", back), format!("{:?}", r));
    }
}

#[test]
fn void_response_outcomes() {
    assert!(parse_void_response(CommandResult::Success).is_ok());
    match parse_void_response(CommandResult::Error("boom".into())) {
        Err(KvError::Server { msg }) => assert_eq!(msg, "boom"),
        other => panic!("unexpected {:?}", other),
    }
    match parse_void_response(CommandResult::Value("x".into())) {
        Err(KvError::UnexpectedResult { val }) => assert_eq!(val, "x"),
        other => panic!("unexpected {:?}", other),
    }
}

#[test]
fn get_response_outcomes() {
    assert_eq!(parse_get_response(CommandResult::Success).unwrap(), None);
    assert_eq!(parse_get_response(CommandResult::Value("v".into())).unwrap(), Some("v".to_string()));
    assert!(matches!(
        parse_get_response(CommandResult::Error("e".into())),
        Err(KvError::Server { .. })
    ));
}

#[test]
fn decode_rejects_unknown_tag() {
    let bytes = CommandResult::Value("v".into()).encode().unwrap();
    assert!(matches!(Command::decode(&bytes), Err(KvError::BsonDeserialize(_))));
    assert!(matches!(Command::decode(&[0, 1]), Err(KvError::BsonDeserialize(_))));
}

#[test]
fn server_responses() {
    assert!(matches!(get_response(Ok(Some("v".into()))), CommandResult::Value(v) if v == "v"));
    assert!(matches!(get_response(Ok(None)), CommandResult::Success));
    assert!(matches!(get_response(Err("e".into())), CommandResult::Error(m) if m == "e"));
    assert!(matches!(void_response(Ok(())), CommandResult::Success));
    assert!(matches!(void_response(Err("Key not found".into())), CommandResult::Error(m) if m == "Key not found"));
}
