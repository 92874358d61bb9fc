use base64::Engine;
use dismount_iso_qemu::transfer::{AgentError, FileRead, FileWrite, ProtocolError, ReadStep, WriteStep};
use dismount_iso_qemu::wire::{ArgValue, Command, Member, Reply, Returned, Scalar, TransportError};
use std::collections::HashMap;

fn int_reply(h: i64) -> Reply {
    Reply { ret: Some(Returned { value: Scalar::Int(h), members: Vec::new(), text: h.to_string() }) }
}

fn obj_reply(members: Vec<Member>) -> Reply {
    Reply { ret: Some(Returned { value: Scalar::Compound, members, text: String::from("{}") }) }
}

fn no_return() -> Reply {
    Reply { ret: None }
}

fn str_member(k: &str, v: &str) -> Member {
    Member { key: k.to_string(), value: Scalar::Str(v.to_string()) }
}

fn bool_member(k: &str, v: bool) -> Member {
    Member { key: k.to_string(), value: Scalar::Bool(v) }
}

fn arg_str(c: &Command, name: &str) -> Option<String> {
    c.arguments.iter().find(|a| a.name == name).and_then(|a| match &a.value {
        ArgValue::Str(s) => Some(s.clone()),
        _ => None,
    })
}

fn arg_int(c: &Command, name: &str) -> Option<i64> {
    c.arguments.iter().find(|a| a.name == name).and_then(|a| match &a.value {
        ArgValue::Int(i) => Some(*i),
        _ => None,
    })
}

/// A guest agent holding files in memory.
struct Guest {
    files: HashMap<String, Vec<u8>>,
    next_handle: i64,
    open: HashMap<i64, (String, usize)>,
    log: Vec<String>,
    write_sizes: Vec<usize>,
    reads_seen: usize,
    fail_read: Option<usize>,
    closed: Vec<i64>,
}

impl Guest {
    fn new() -> Guest {
        Guest {
            files: HashMap::new(),
            next_handle: 1000,
            open: HashMap::new(),
            log: Vec::new(),
            write_sizes: Vec::new(),
            reads_seen: 0,
            fail_read: None,
            closed: Vec::new(),
        }
    }

    fn handle(&mut self, c: &Command) -> Result<Reply, TransportError> {
        self.log.push(c.execute.clone());
        let b64 = base64::engine::general_purpose::STANDARD;
        match c.execute.as_str() {
            "guest-file-open" => {
                let path = arg_str(c, "path").unwrap();
                if arg_str(c, "mode").unwrap() == "w" {
                    self.files.insert(path.clone(), Vec::new());
                }
                let h = self.next_handle;
                self.next_handle += 1;
                self.open.insert(h, (path, 0));
                Ok(int_reply(h))
            }
            "guest-file-read" => {
                self.reads_seen += 1;
                if self.fail_read == Some(self.reads_seen) {
                    return Err(TransportError { message: String::from("agent timed out") });
                }
                let h = arg_int(c, "handle").unwrap();
                let count = arg_int(c, "count").unwrap() as usize;
                let (path, pos) = self.open.get(&h).unwrap().clone();
                let data = &self.files[&path];
                let end = std::cmp::min(pos + count, data.len());
                let chunk = &data[pos..end];
                let eof = end == data.len();
                self.open.insert(h, (path.clone(), end));
                Ok(obj_reply(vec![
                    Member { key: String::from("count"), value: Scalar::Int(chunk.len() as i64) },
                    str_member("buf-b64", &b64.encode(chunk)),
                    bool_member("eof", eof),
                ]))
            }
            "guest-file-write" => {
                let h = arg_int(c, "handle").unwrap();
                let bytes = b64.decode(arg_str(c, "buf-b64").unwrap()).unwrap();
                self.write_sizes.push(bytes.len());
                let (path, _) = self.open.get(&h).unwrap().clone();
                self.files.get_mut(&path).unwrap().extend_from_slice(&bytes);
                Ok(obj_reply(vec![
                    Member { key: String::from("count"), value: Scalar::Int(bytes.len() as i64) },
                    bool_member("eof", false),
                ]))
            }
            "guest-file-close" => {
                let h = arg_int(c, "handle").unwrap();
                self.open.remove(&h);
                self.closed.push(h);
                Ok(obj_reply(Vec::new()))
            }
            _ => Err(TransportError { message: String::from("unknown command") }),
        }
    }
}

fn write_file(g: &mut Guest, path: &str, content: &[u8]) -> Result<(), AgentError> {
    let (mut s, mut cmd) = FileWrite::start(path, content.to_vec());
    loop {
        let ev = g.handle(&cmd);
        match s.step(ev) {
            WriteStep::Send(c) => cmd = c,
            WriteStep::Finish(r) => return r,
        }
    }
}

fn read_file(g: &mut Guest, path: &str) -> Result<Vec<u8>, AgentError> {
    let (mut s, mut cmd) = FileRead::start(path);
    loop {
        let ev = g.handle(&cmd);
        match s.step(ev) {
            ReadStep::Send(c) => cmd = c,
            ReadStep::Finish(r) => return r,
        }
    }
}

fn pattern(len: usize) -> Vec<u8> {
    (0..len).map(|i| (i * 31 % 251) as u8).collect()
}

#[test]
fn round_trip_at_chunk_boundaries() {
    for len in [0usize, 1, 4095, 4096, 4097, 8192, 10000, 12289] {
        let mut g = Guest::new();
        let content = pattern(len);
        write_file(&mut g, "/tmp/f", &content).unwrap();
        let back = read_file(&mut g, "/tmp/f").unwrap();
        assert_eq!(back, content, "length {}", len);
        assert!(g.open.is_empty());
    }
}

#[test]
fn write_chunk_count_and_order() {
    for len in [0usize, 1, 4095, 4096, 4097, 10000] {
        let mut g = Guest::new();
        let content = pattern(len);
        write_file(&mut g, "/data/x", &content).unwrap();
        let expected = (len + 4095) / 4096;
        assert_eq!(g.log.iter().filter(|c| c.as_str() == "guest-file-write").count(), expected);
        assert_eq!(g.write_sizes.len(), expected);
        assert!(g.write_sizes.iter().all(|n| *n >= 1 && *n <= 4096));
        assert_eq!(g.files["/data/x"], content);
        assert_eq!(g.log.first().map(|s| s.as_str()), Some("guest-file-open"));
        assert_eq!(g.log.last().map(|s| s.as_str()), Some("guest-file-close"));
    }
}

#[test]
fn empty_write_opens_and_closes_only() {
    let mut g = Guest::new();
    write_file(&mut g, "/e", b"").unwrap();
    assert_eq!(g.log, vec!["guest-file-open", "guest-file-close"]);
}

#[test]
fn failed_second_read_still_closes_once() {
    let mut g = Guest::new();
    g.files.insert(String::from("/big"), pattern(3 * 4096));
    g.fail_read = Some(2);
    let r = read_file(&mut g, "/big");
    match r {
        Err(AgentError::Transport(m)) => assert_eq!(m, "agent timed out"),
        other => panic!("unexpected {:?}", other),
    }
    assert_eq!(g.closed, vec![1000]);
    assert_eq!(g.log.iter().filter(|c| c.as_str() == "guest-file-close").count(), 1);
    assert_eq!(g.log.last().map(|s| s.as_str()), Some("guest-file-close"));
}

#[test]
fn end_to_end_hello() {
    let mut g = Guest::new();
    write_file(&mut g, "/tmp/a", b"hello").unwrap();
    assert_eq!(g.log, vec!["guest-file-open", "guest-file-write", "guest-file-close"]);
    g.log.clear();
    let back = read_file(&mut g, "/tmp/a").unwrap();
    assert_eq!(back, b"hello".to_vec());
    assert_eq!(g.log, vec!["guest-file-open", "guest-file-read", "guest-file-close"]);
}

#[test]
fn open_without_handle_fails_without_close() {
    let (mut s, cmd) = FileRead::start("/x");
    assert_eq!(cmd.execute, "guest-file-open");
    assert_eq!(arg_str(&cmd, "mode").as_deref(), Some("r"));
    match s.step(Ok(no_return())) {
        ReadStep::Finish(Err(AgentError::Protocol(p))) => assert_eq!(p, ProtocolError::NoHandle),
        _ => panic!("expected a missing handle"),
    }
    assert!(s.is_finished());
}

#[test]
fn open_transport_failure_on_write() {
    let (mut s, cmd) = FileWrite::start("/x", vec![1, 2, 3]);
    assert_eq!(arg_str(&cmd, "mode").as_deref(), Some("w"));
    assert_eq!(arg_str(&cmd, "path").as_deref(), Some("/x"));
    match s.step(Err(TransportError { message: String::from("no virsh") })) {
        WriteStep::Finish(Err(AgentError::Transport(m))) => assert_eq!(m, "no virsh"),
        _ => panic!("expected a transport error"),
    }
}

fn read_after_open(reply: Reply) -> (ReadStep, ReadStep) {
    let (mut s, _) = FileRead::start("/x");
    match s.step(Ok(int_reply(7))) {
        ReadStep::Send(c) => {
            assert_eq!(c.execute, "guest-file-read");
            assert_eq!(arg_int(&c, "handle"), Some(7));
            assert_eq!(arg_int(&c, "count"), Some(4096));
        }
        _ => panic!("expected a read"),
    }
    let a = s.step(Ok(reply));
    let b = s.step(Ok(obj_reply(Vec::new())));
    (a, b)
}

fn expect_close_then(a: ReadStep, b: ReadStep, p: ProtocolError) {
    match a {
        ReadStep::Send(c) => {
            assert_eq!(c.execute, "guest-file-close");
            assert_eq!(arg_int(&c, "handle"), Some(7));
        }
        _ => panic!("expected a close"),
    }
    match b {
        ReadStep::Finish(Err(AgentError::Protocol(q))) => assert_eq!(q, p),
        _ => panic!("expected a protocol error"),
    }
}

#[test]
fn read_reply_without_return() {
    let (a, b) = read_after_open(no_return());
    expect_close_then(a, b, ProtocolError::NoReturn);
}

#[test]
fn read_reply_without_buffer() {
    let (a, b) = read_after_open(obj_reply(vec![bool_member("eof", true)]));
    expect_close_then(a, b, ProtocolError::NoBuffer);
}

#[test]
fn read_reply_with_bad_base64() {
    let (a, b) = read_after_open(obj_reply(vec![str_member("buf-b64", "***"), bool_member("eof", true)]));
    expect_close_then(a, b, ProtocolError::BadBuffer);
}

#[test]
fn missing_eof_keeps_reading() {
    let (mut s, _) = FileRead::start("/x");
    s.step(Ok(int_reply(3)));
    match s.step(Ok(obj_reply(vec![str_member("buf-b64", "aGk=")]))) {
        ReadStep::Send(c) => assert_eq!(c.execute, "guest-file-read"),
        _ => panic!("expected another read"),
    }
    match s.step(Ok(obj_reply(vec![str_member("buf-b64", "IQ=="), bool_member("eof", true)]))) {
        ReadStep::Send(c) => assert_eq!(c.execute, "guest-file-close"),
        _ => panic!("expected a close"),
    }
    // a failed close does not hide the data read
    match s.step(Err(TransportError { message: String::from("gone") })) {
        ReadStep::Finish(Ok(v)) => assert_eq!(v, b"hi!".to_vec()),
        _ => panic!("expected the content"),
    }
}

#[test]
fn write_failure_closes_and_reports() {
    let (mut s, _) = FileWrite::start("/x", pattern(9000));
    match s.step(Ok(int_reply(5))) {
        WriteStep::Send(c) => {
            assert_eq!(c.execute, "guest-file-write");
            let text = arg_str(&c, "buf-b64").unwrap();
            let bytes = base64::engine::general_purpose::STANDARD.decode(text).unwrap();
            assert_eq!(bytes, pattern(9000)[..4096].to_vec());
        }
        _ => panic!("expected a write"),
    }
    match s.step(Err(TransportError { message: String::from("broken pipe") })) {
        WriteStep::Send(c) => {
            assert_eq!(c.execute, "guest-file-close");
            assert_eq!(arg_int(&c, "handle"), Some(5));
        }
        _ => panic!("expected a close"),
    }
    match s.step(Ok(obj_reply(Vec::new()))) {
        WriteStep::Finish(Err(AgentError::Transport(m))) => assert_eq!(m, "broken pipe"),
        _ => panic!("expected the write error"),
    }
    assert!(s.is_finished());
}
