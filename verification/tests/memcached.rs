use memsanity::{
    delete_command, delete_reply, get_command, mget_command, set_command, store_reply,
    DriverError, MemcachedClientFactory, ProtocolKind, ReplyStep, RetrievalReply, Span,
    TargetSpec,
};

fn target() -> TargetSpec {
    TargetSpec { name: "mc".to_string(), address: "127.0.0.1:11211".to_string() }
}

#[test]
fn factory_builds_memcached_clients_only() {
    let c = MemcachedClientFactory.build(ProtocolKind::Memcached, target()).unwrap();
    assert_eq!(c.at, "127.0.0.1:11211");
    let e = MemcachedClientFactory.build(ProtocolKind::Redis, target()).unwrap_err();
    assert!(matches!(e, DriverError::UnsupportedProtocol));
    assert_eq!(e.message(), "unsupported protocol for MemcachedClientFactory");
}

#[test]
fn set_command_frames_the_value() {
    assert_eq!(set_command("k", "hello", None), "set k 0 0 5\r\nhello\r\n");
    assert_eq!(set_command("k", "hello", Some(Span { secs: 3, nanos: 0 })), "set k 0 3 5\r\nhello\r\n");
    assert_eq!(set_command("k", "héllo", None), "set k 0 0 6\r\nhéllo\r\n");
    assert_eq!(set_command("k", "", Some(Span { secs: 0, nanos: 500_000_000 })), "set k 0 0 0\r\n\r\n");
}

#[test]
fn set_command_cuts_expiry_to_32_bits() {
    let ttl = Span { secs: (1u64 << 32) + 5, nanos: 0 };
    assert_eq!(set_command("k", "v", Some(ttl)), "set k 0 5 1\r\nv\r\n");
}

#[test]
fn other_commands() {
    assert_eq!(get_command("user:1"), "get user:1\r\n");
    let keys = vec!["a".to_string(), "b".to_string(), "c".to_string()];
    assert_eq!(mget_command(&keys), "get a b c\r\n");
    assert_eq!(mget_command(&[]), "get \r\n");
    assert_eq!(delete_command("k"), "delete k\r\n");
}

#[test]
fn store_reply_accepts_stored_only() {
    assert!(store_reply("STORED\r\n").is_ok());
    let e = store_reply("NOT_STORED\r\n").unwrap_err();
    assert_eq!(e.message(), "unexpected response: NOT_STORED");
    let e = store_reply("").unwrap_err();
    assert_eq!(e.message(), "unexpected response: ");
}

#[test]
fn delete_reply_accepts_deleted_and_not_found() {
    assert!(delete_reply("DELETED\r\n").is_ok());
    assert!(delete_reply("NOT_FOUND\r\n").is_ok());
    let e = delete_reply("  SERVER_ERROR oops \r\n").unwrap_err();
    match &e {
        DriverError::UnexpectedResponse { response } => assert_eq!(response, "SERVER_ERROR oops"),
        _ => panic!("wrong error"),
    }
}

fn feed(reply: &mut RetrievalReply, wire: &[u8]) {
    // Plays a server's bytes into the reader, as the client's read loop does.
    let mut pos = 0;
    loop {
        let end = wire[pos..].iter().position(|b| *b == b'\n').map(|i| pos + i + 1).unwrap_or(wire.len());
        let line = String::from_utf8_lossy(&wire[pos..end]).to_string();
        pos = end;
        match reply.on_line(&line) {
            ReplyStep::Finished => return,
            ReplyStep::ReadLine => {}
            ReplyStep::ReadValue { len } => {
                let data = wire[pos..pos + len].to_vec();
                pos += len + 2;
                reply.on_value(&data);
            }
        }
    }
}

#[test]
fn reply_reader_single_hit() {
    let mut r = RetrievalReply::new();
    assert_eq!(r.on_line("VALUE k 0 5\r\n"), ReplyStep::ReadValue { len: 5 });
    assert!(r.awaiting_value());
    r.on_value(b"hello");
    assert!(!r.awaiting_value());
    assert_eq!(r.on_line("END\r\n"), ReplyStep::Finished);
    assert_eq!(r.get_result(), Some("hello".to_string()));
}

#[test]
fn reply_reader_miss_and_eof() {
    let mut r = RetrievalReply::new();
    assert_eq!(r.on_line("END\r\n"), ReplyStep::Finished);
    assert_eq!(r.get_result(), None);
    let mut r = RetrievalReply::new();
    assert_eq!(r.on_line(""), ReplyStep::Finished);
    assert_eq!(r.get_result(), None);
}

#[test]
fn reply_reader_odd_lines() {
    let mut r = RetrievalReply::new();
    assert_eq!(r.on_line("VALUE k 0\r\n"), ReplyStep::ReadLine);
    assert_eq!(r.on_line("SERVER_ERROR x\r\n"), ReplyStep::ReadLine);
    assert_eq!(r.on_line("VALUE k 0 lots\r\n"), ReplyStep::ReadValue { len: 0 });
    r.on_value(b"");
    assert_eq!(r.on_line("ENDING\r\n"), ReplyStep::Finished);
    assert_eq!(r.get_result(), Some(String::new()));
}

#[test]
fn reply_reader_replaces_invalid_utf8() {
    let mut r = RetrievalReply::new();
    assert_eq!(r.on_line("VALUE k 0 2\r\n"), ReplyStep::ReadValue { len: 2 });
    r.on_value(&[b'a', 0xff]);
    assert_eq!(r.get_result(), Some("a\u{fffd}".to_string()));
}

#[test]
fn reply_reader_multi_key() {
    let mut r = RetrievalReply::new();
    feed(&mut r, b"VALUE a 0 1\r\n1\r\nVALUE c 0 3\r\nccc\r\nVALUE a 7 2\r\n11\r\nEND\r\n");
    let keys = vec!["a".to_string(), "b".to_string(), "c".to_string(), "a".to_string()];
    assert_eq!(
        r.mget_result(&keys),
        vec![Some("11".to_string()), None, Some("ccc".to_string()), Some("11".to_string())]
    );
    assert_eq!(r.get_result(), Some("11".to_string()));
}

#[test]
fn stored_value_reads_back() {
    // What `set` frames, a server echoing the data block gives back to `get`.
    for value in ["hello", "héllo wörld", "", "日本語", "a b\r\nc"] {
        let cmd = set_command("key", value, None);
        let bytes = cmd.as_bytes();
        let header_end = bytes.iter().position(|b| *b == b'\n').unwrap() + 1;
        let header = std::str::from_utf8(&bytes[..header_end]).unwrap();
        let count: usize = header.split_whitespace().nth(4).unwrap().parse().unwrap();
        let data = &bytes[header_end..header_end + count];
        assert_eq!(&bytes[header_end + count..], b"\r\n");
        let mut wire = format!("VALUE key 0 {}\r\n", count).into_bytes();
        wire.extend_from_slice(data);
        wire.extend_from_slice(b"\r\nEND\r\n");
        let mut r = RetrievalReply::new();
        feed(&mut r, &wire);
        assert_eq!(r.get_result(), Some(value.to_string()));
    }
}

#[test]
fn reply_reader_decodes_utf8_values() {
    let mut r = RetrievalReply::new();
    assert_eq!(r.on_line("VALUE k 0 6\r\n"), ReplyStep::ReadValue { len: 6 });
    r.on_value("héllo".as_bytes());
    assert_eq!(r.on_line("END\r\n"), ReplyStep::Finished);
    assert_eq!(r.get_result(), Some("héllo".to_string()));
}

#[test]
fn value_line_with_extra_spaces() {
    let mut r = RetrievalReply::new();
    assert_eq!(r.on_line("VALUE   spaced\t12  3  extra\r\n"), ReplyStep::ReadValue { len: 3 });
    r.on_value(b"abc");
    let keys = vec!["spaced".to_string()];
    assert_eq!(r.mget_result(&keys), vec![Some("abc".to_string())]);
}

#[test]
fn expiry_of_a_time_to_live() {
    assert_eq!(memsanity::exptime(None), 0);
    assert_eq!(memsanity::exptime(Some(Span { secs: 90, nanos: 999_999_999 })), 90);
    assert_eq!(memsanity::exptime(Some(Span { secs: u64::MAX, nanos: 0 })), u32::MAX);
}
