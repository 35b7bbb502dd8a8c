use stipple::dbus::{
    align, marshal_method_call, match_reply, parse_message_header, parse_reply_serial, parse_unix_path, put_field,
    put_string, read_string, sasl_accepted, sasl_auth_line, LineReader, LineStep, MessageHeader, ReplyMatch,
};
use stipple::wire::{parse_u32, push_all, push_le16, push_le32, rd_be16, rd_u16, rd_u32};

#[test]
fn integers_read_back_as_written() {
    let mut buf = vec![0xaa];
    push_le16(&mut buf, 0xbeef);
    push_le32(&mut buf, 0xdead_beef);
    assert_eq!(buf, vec![0xaa, 0xef, 0xbe, 0xef, 0xbe, 0xad, 0xde]);
    assert_eq!(rd_u16(&buf, 1), Some(0xbeef));
    assert_eq!(rd_u32(&buf, 3), Some(0xdead_beef));
    assert_eq!(rd_be16(&buf, 1), Some(0xefbe));
    assert_eq!(rd_u32(&buf, 4), None);
    assert_eq!(rd_u16(&buf, 7), None);
    assert_eq!(rd_u16(&buf, usize::MAX), None);
    push_all(&mut buf, &[1, 2]);
    assert_eq!(&buf[7..], &[1, 2]);
}

#[test]
fn decimal_parsing_follows_str_parse() {
    assert_eq!(parse_u32(b"0"), Some(0));
    assert_eq!(parse_u32(b"4294967295"), Some(u32::MAX));
    assert_eq!(parse_u32(b"4294967296"), None);
    assert_eq!(parse_u32(b"+12"), Some(12));
    assert_eq!(parse_u32(b"+"), None);
    assert_eq!(parse_u32(b""), None);
    assert_eq!(parse_u32(b"1a"), None);
    assert_eq!(parse_u32(b"-1"), None);
    assert_eq!(parse_u32(b"007"), Some(7));
}

#[test]
fn bus_addresses_map_to_socket_paths() {
    assert_eq!(parse_unix_path("unix:path=/run/user/1000/bus"), Some("/run/user/1000/bus".to_string()));
    assert_eq!(parse_unix_path("unix:abstract=/tmp/dbus-x,guid=1"), Some("\0/tmp/dbus-x".to_string()));
    assert_eq!(parse_unix_path("unix:guid=1,path=/a;unix:path=/b"), Some("/a".to_string()));
    assert_eq!(parse_unix_path("unix:unix:path=/c"), Some("/c".to_string()));
    assert_eq!(parse_unix_path("tcp:host=x,port=1"), None);
    assert_eq!(parse_unix_path("unix:tmpdir=/tmp;unix:path=/b"), None);
    assert_eq!(parse_unix_path(""), None);
}

#[test]
fn strings_read_back_as_written() {
    let mut buf = vec![7u8];
    put_string(&mut buf, "héllo");
    assert_eq!(buf.len(), 4 + 4 + 6 + 1);
    assert_eq!(&buf[1..4], &[0, 0, 0]);
    let mut off = 1;
    assert_eq!(read_string(&buf, &mut off), Ok("héllo".to_string()));
    assert_eq!(off, buf.len());
}

#[test]
fn invalid_string_bytes_are_replaced() {
    let buf = [2u8, 0, 0, 0, b'a', 0xff, 0];
    let mut off = 0;
    assert_eq!(read_string(&buf, &mut off), Ok("a\u{fffd}".to_string()));
    assert_eq!(off, 7);
}

#[test]
fn truncated_strings_are_errors() {
    let mut off = 1;
    assert_eq!(read_string(&[0u8; 6], &mut off), Err("truncated string length".to_string()));
    assert_eq!(off, 4);
    let buf = [9u8, 0, 0, 0, b'a', b'b'];
    let mut off = 0;
    assert_eq!(read_string(&buf, &mut off), Err("truncated string body".to_string()));
    assert_eq!(off, 4);
}

#[test]
fn method_call_header_and_fields() {
    let msg = marshal_method_call(3, "org.a11y.Bus", "/org/a11y/bus", "org.a11y.Bus", "GetAddress");
    assert_eq!(&msg[0..4], &[b'l', 1, 0, 1]);
    assert_eq!(rd_u32(&msg, 4), Some(0));
    assert_eq!(rd_u32(&msg, 8), Some(3));
    let fields_len = rd_u32(&msg, 12).unwrap() as usize;
    assert_eq!(msg.len() % 8, 0);
    assert!(msg.len() >= 16 + fields_len);
    assert_eq!(&msg[16..20], &[1, 1, b'o', 0]);
    let mut off = 20;
    assert_eq!(read_string(&msg, &mut off), Ok("/org/a11y/bus".to_string()));
    assert_eq!(off, 38);
    let mut f = Vec::new();
    put_field(&mut f, 3, b's', "Hi");
    assert_eq!(f, vec![3, 1, b's', 0, 2, 0, 0, 0, b'H', b'i', 0]);
    align(&mut f, 8);
    assert_eq!(f.len(), 16);
}

#[test]
fn reply_serial_is_found_among_fields() {
    assert_eq!(parse_reply_serial(&[5, 1, b'u', 0, 42, 0, 0, 0]), 42);
    let mut f = Vec::new();
    put_field(&mut f, 6, b's', "hello");
    align(&mut f, 8);
    f.extend_from_slice(&[7, 1, b'u', 0, 9, 0, 0, 0]);
    f.extend_from_slice(&[5, 1, b'u', 0, 77, 0, 0, 0]);
    assert_eq!(parse_reply_serial(&f), 77);
    assert_eq!(parse_reply_serial(&[]), 0);
    assert_eq!(parse_reply_serial(&[6, 1, b'u', 0]), 0);
    assert_eq!(parse_reply_serial(&[5, 1, b'x', 0, 1, 0, 0, 0]), 0);
}

#[test]
fn sasl_command_carries_the_hex_uid() {
    assert_eq!(sasl_auth_line(1000), b"AUTH EXTERNAL 31303030\r\n".to_vec());
    assert_eq!(sasl_auth_line(0), b"AUTH EXTERNAL 30\r\n".to_vec());
    assert_eq!(
        sasl_auth_line(u32::MAX),
        b"AUTH EXTERNAL 34323934393637323935\r\n".to_vec()
    );
    assert!(sasl_accepted("OK 1234deadbeef"));
    assert!(!sasl_accepted("OK"));
    assert!(!sasl_accepted("REJECTED EXTERNAL"));
}

#[test]
fn sasl_lines_are_collected_until_newline() {
    let mut r = LineReader::new();
    for &b in b"OK 12" {
        assert_eq!(r.push(b), LineStep::More);
    }
    assert_eq!(r.push(b'\r'), LineStep::More);
    assert_eq!(r.push(b'\n'), LineStep::Done);
    assert_eq!(r.text(), Ok("OK 12".to_string()));
    let mut r = LineReader::new();
    r.push(0xff);
    r.push(b'\n');
    assert_eq!(r.text(), Err("SASL line not UTF-8".to_string()));
    let mut r = LineReader::new();
    for _ in 0..4096 {
        assert_eq!(r.push(b'a'), LineStep::More);
    }
    assert_eq!(r.push(b'a'), LineStep::TooLong);
}

#[test]
fn message_headers_and_reply_matching() {
    let mut fixed = [0u8; 16];
    fixed[0] = b'l';
    fixed[1] = 2;
    fixed[4..8].copy_from_slice(&12u32.to_le_bytes());
    fixed[12..16].copy_from_slice(&53u32.to_le_bytes());
    assert_eq!(
        parse_message_header(&fixed),
        Ok(MessageHeader { message_type: 2, body_len: 12, fields_len: 53, pad: 3 })
    );
    fixed[12..16].copy_from_slice(&16u32.to_le_bytes());
    assert_eq!(parse_message_header(&fixed).unwrap().pad, 0);
    fixed[0] = b'B';
    assert_eq!(
        parse_message_header(&fixed),
        Err("only little-endian D-Bus is supported".to_string())
    );
    assert_eq!(match_reply(2, 5, 5), ReplyMatch::Return);
    assert_eq!(match_reply(3, 5, 5), ReplyMatch::Error);
    assert_eq!(match_reply(2, 4, 5), ReplyMatch::Skip);
    assert_eq!(match_reply(4, 5, 5), ReplyMatch::Skip);
}

#[test]
fn marshalled_call_header_reads_back() {
    let msg = marshal_method_call(9, "org.freedesktop.DBus", "/org/freedesktop/DBus", "org.freedesktop.DBus", "Hello");
    let mut fixed = [0u8; 16];
    fixed.copy_from_slice(&msg[..16]);
    let h = parse_message_header(&fixed).unwrap();
    assert_eq!(h.message_type, 1);
    assert_eq!(h.body_len, 0);
    assert_eq!(16 + h.fields_len as usize + h.pad as usize, msg.len());
    assert_eq!(parse_reply_serial(&msg[16..16 + h.fields_len as usize]), 0);
}
