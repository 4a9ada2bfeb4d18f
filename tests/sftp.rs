use pisshoff::audit::{AuditLog, AuditLogAction};
use pisshoff::connection::ConnectionState;
use pisshoff::sftp::{PacketType, Parsed, Sftp, WirePacket};

fn packet(typ: u8, id: u32, body: &[u8]) -> Vec<u8> {
    let mut out = ((body.len() + 5) as u32).to_be_bytes().to_vec();
    out.push(typ);
    out.extend_from_slice(&id.to_be_bytes());
    out.extend_from_slice(body);
    out
}

fn string(b: &[u8]) -> Vec<u8> {
    let mut out = (b.len() as u32).to_be_bytes().to_vec();
    out.extend_from_slice(b);
    out
}

fn reply(out: &[u8]) -> (u8, u32, Vec<u8>, usize) {
    match WirePacket::parse(out) {
        Parsed::Packet(p, k) => (p.typ.code(), p.request_id, p.data, k),
        _ => panic!("no packet in {out:?}"),
    }
}

#[test]
fn minimal_handshake() {
    let mut state = ConnectionState::new(AuditLog::new(b"h".to_vec(), None));
    let mut sftp = Sftp::new();

    let mut out = Vec::new();
    sftp.data(&mut state, &packet(1, 3, &[]), &mut out);
    assert_eq!(out, packet(2, 3, &[]));

    let mut body = string(b"/x");
    body.extend_from_slice(&[0, 0, 0, 2, 0, 0, 0, 0]);
    let mut out = Vec::new();
    sftp.data(&mut state, &packet(3, 7, &body), &mut out);
    let (typ, id, data, _) = reply(&out);
    assert_eq!((typ, id), (102, 7));
    assert_eq!(&data[..4], &[0, 0, 0, 36]);
    let handle = data[4..].to_vec();
    assert_eq!(handle.len(), 36);

    let mut body = string(&handle);
    body.extend_from_slice(&0u64.to_be_bytes());
    body.extend_from_slice(&string(b"data"));
    let mut out = Vec::new();
    sftp.data(&mut state, &packet(6, 8, &body), &mut out);
    let (typ, id, data, _) = reply(&out);
    assert_eq!((typ, id), (101, 8));
    assert_eq!(data, vec![0, 0, 0, 0, 0, 0, 0, 0]);

    let writes: Vec<_> = state
        .audit_log
        .events
        .iter()
        .filter_map(|e| match &e.action {
            AuditLogAction::WriteFile(w) => Some((w.path.clone(), w.content.clone())),
            _ => None,
        })
        .collect();
    assert_eq!(writes, vec![(b"/x".to_vec(), b"data".to_vec())]);

    let mut out = Vec::new();
    sftp.data(&mut state, &packet(4, 9, &string(&handle)), &mut out);
    let (typ, id, _, _) = reply(&out);
    assert_eq!((typ, id), (101, 9));
    let mut out = Vec::new();
    sftp.data(&mut state, &packet(4, 10, &string(&handle)), &mut out);
    assert!(out.is_empty(), "a second close finds no handle");
}

#[test]
fn version_is_capped_and_packets_wait_for_bytes() {
    let mut state = ConnectionState::new(AuditLog::new(b"h".to_vec(), None));
    let mut sftp = Sftp::new();
    let p = packet(1, 9, &[]);
    let mut out = Vec::new();
    sftp.data(&mut state, &p[..5], &mut out);
    assert!(out.is_empty());
    sftp.data(&mut state, &p[5..], &mut out);
    assert_eq!(out, packet(2, 6, &[]));
}

#[test]
fn stat_mkdir_and_realpath() {
    let mut state = ConnectionState::new(AuditLog::new(b"h".to_vec(), None));
    let mut sftp = Sftp::new();
    let mut out = Vec::new();
    sftp.data(&mut state, &packet(17, 1, &string(b"/etc")), &mut out);
    let (typ, _, data, _) = reply(&out);
    assert_eq!(typ, 101);
    assert_eq!(&data[..4], &[0, 0, 0, 2]);
    assert_eq!(&data[8..], b"No such file or directory");

    let mut out = Vec::new();
    sftp.data(&mut state, &packet(14, 2, &string(b"/tmp/new")), &mut out);
    assert!(matches!(&state.audit_log.events[0].action, AuditLogAction::Mkdir(m) if m.path == b"/tmp/new".to_vec()));

    let mut out = Vec::new();
    sftp.data(&mut state, &packet(16, 3, &string(b".")), &mut out);
    let (typ, _, data, _) = reply(&out);
    assert_eq!(typ, 104);
    let mut expected = vec![0, 0, 0, 1];
    expected.extend_from_slice(&string(b"."));
    expected.extend_from_slice(&string(b"."));
    expected.extend_from_slice(&[0, 0, 0, 0, 5, 1]);
    assert_eq!(data, expected);
    assert_eq!(PacketType::from_code(104), Some(PacketType::Name));
    assert_eq!(PacketType::from_code(99), None);
}
