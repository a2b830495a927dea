use termproxy::auth::{auth_ok, build_auth_form, extract_line, ok_ack, port_to_dec, split_credentials};
use termproxy::buffer::ByteQueue;

#[test]
fn extracts_the_first_line_and_discards_the_newline() {
    let mut q = ByteQueue::new(64);
    q.append_slice(b"alice:tkt123\nrest");
    let line = extract_line(&mut q).unwrap();
    assert_eq!(&line[..], b"alice:tkt123");
    assert_eq!(q.contents(), b"rest");
}

#[test]
fn no_line_without_a_terminator() {
    let mut q = ByteQueue::new(64);
    q.append_slice(b"alice:tkt123");
    assert!(extract_line(&mut q).is_none());
    assert_eq!(q.contents(), b"alice:tkt123");
}

#[test]
fn splits_at_the_first_separator_only() {
    let (user, ticket) = split_credentials(b"alice:tkt123").unwrap();
    assert_eq!(&user[..], b"alice");
    assert_eq!(&ticket[..], b"tkt123");

    let (user, ticket) = split_credentials(b"bob:a:b:c").unwrap();
    assert_eq!(&user[..], b"bob");
    assert_eq!(&ticket[..], b"a:b:c");
}

#[test]
fn a_line_without_a_separator_is_invalid() {
    assert!(split_credentials(b"alice").is_none());
    assert!(split_credentials(b"").is_none());
}

#[test]
fn the_ticket_is_presented_as_the_password() {
    let f = build_auth_form(
        b"alice".to_vec(),
        b"tkt123".to_vec(),
        b"/vms/100".to_vec(),
        None,
        None,
    );
    assert_eq!(&f.username[..], b"alice");
    assert_eq!(&f.password[..], b"tkt123");
    assert_eq!(&f.path[..], b"/vms/100");
    assert!(f.privs.is_none());
    assert!(f.port.is_none());
}

#[test]
fn optional_fields_appear_exactly_when_supplied() {
    let f = build_auth_form(
        b"u".to_vec(),
        b"t".to_vec(),
        b"/p".to_vec(),
        Some(b"VM.Console".to_vec()),
        Some(8006),
    );
    assert_eq!(&f.privs.unwrap()[..], b"VM.Console");
    assert_eq!(&f.port.unwrap()[..], b"8006");
}

#[test]
fn ports_render_as_decimal() {
    assert_eq!(&port_to_dec(0)[..], b"0");
    assert_eq!(&port_to_dec(85)[..], b"85");
    assert_eq!(&port_to_dec(65535)[..], b"65535");
}

#[test]
fn success_is_exactly_status_200() {
    assert!(auth_ok(200));
    assert!(!auth_ok(403));
    assert!(!auth_ok(201));
    assert!(!auth_ok(500));
    assert!(!auth_ok(0));
}

#[test]
fn the_acknowledgment_is_ok() {
    assert_eq!(&ok_ack()[..], b"OK");
}
