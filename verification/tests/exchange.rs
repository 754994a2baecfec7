//! Whole exchanges, against a small server that lives in this file: it
//! speaks both wire formats and keeps its own clock.

use memcache::stream::udp_stream::{split_message, Reassembly};
use memcache::{
    AsciiProtocol, BinaryProtocol, CommandError, MemcacheError, Protocol, Stats, TransportError,
    UdpStream,
};
use rand::distributions::Alphanumeric;
use rand::{thread_rng, Rng};
use std::collections::HashMap;

struct Item {
    value: Vec<u8>,
    cas: u64,
}

enum Outcome {
    Done,
    Value(Vec<u8>),
    NotFound,
    Exists,
    NotStored,
    Unknown,
}

#[derive(Clone, Copy, PartialEq)]
enum Mode {
    Always,
    IfAbsent,
    IfPresent,
    IfToken(u64),
}

struct Server {
    items: HashMap<Vec<u8>, Item>,
    now: u64,
    flush_at: Option<u64>,
    next_cas: u64,
    served: Vec<Vec<u8>>,
}

impl Server {
    fn new() -> Server {
        Server { items: HashMap::new(), now: 0, flush_at: None, next_cas: 1, served: Vec::new() }
    }

    fn sleep(&mut self, seconds: u64) {
        self.now += seconds;
        if let Some(at) = self.flush_at {
            if self.now >= at {
                self.items.clear();
                self.flush_at = None;
            }
        }
    }

    fn token(&self, key: &str) -> u64 {
        self.items[key.as_bytes()].cas
    }

    fn put(&mut self, key: &[u8], value: &[u8]) {
        let cas = self.next_cas;
        self.next_cas += 1;
        self.items.insert(key.to_vec(), Item { value: value.to_vec(), cas });
    }

    fn store(&mut self, mode: Mode, key: &[u8], value: &[u8]) -> Outcome {
        let present = self.items.get(key).map(|item| item.cas);
        match (mode, present) {
            (Mode::IfAbsent, Some(_)) => return Outcome::NotStored,
            (Mode::IfPresent, None) => return Outcome::NotStored,
            (Mode::IfToken(_), None) => return Outcome::NotFound,
            (Mode::IfToken(token), Some(cas)) if token != cas => return Outcome::Exists,
            _ => {}
        }
        self.put(key, value);
        Outcome::Done
    }

    fn get(&self, key: &[u8]) -> Outcome {
        match self.items.get(key) {
            Some(item) => Outcome::Value(item.value.clone()),
            None => Outcome::NotFound,
        }
    }

    fn delete(&mut self, key: &[u8]) -> Outcome {
        match self.items.remove(key) {
            Some(_) => Outcome::Done,
            None => Outcome::NotFound,
        }
    }

    fn touch(&mut self, key: &[u8]) -> Outcome {
        if self.items.contains_key(key) {
            Outcome::Done
        } else {
            Outcome::NotFound
        }
    }

    fn flush(&mut self, delay: u64) -> Outcome {
        if delay == 0 {
            self.items.clear();
            self.flush_at = None;
        } else {
            self.flush_at = Some(self.now + delay);
        }
        Outcome::Done
    }

    fn stats(&self) -> Vec<(String, String)> {
        vec![
            (String::from("pid"), String::from("4242")),
            (String::from("curr_items"), format!("{}", self.items.len())),
            (String::from("version"), String::from("1.6.21 simulated")),
        ]
    }

    fn serve(&mut self, protocol: &Protocol, request: &[u8]) -> Vec<u8> {
        self.served.push(request.to_vec());
        match protocol {
            Protocol::Ascii(_) => self.ascii(request),
            Protocol::Binary(_) => self.binary(request),
        }
    }

    fn packet(opcode: u8, status: u16, extras: &[u8], key: &[u8], value: &[u8]) -> Vec<u8> {
        let mut bytes = vec![0x81, opcode];
        bytes.extend_from_slice(&(key.len() as u16).to_be_bytes());
        bytes.push(extras.len() as u8);
        bytes.push(0);
        bytes.extend_from_slice(&status.to_be_bytes());
        bytes.extend_from_slice(&((extras.len() + key.len() + value.len()) as u32).to_be_bytes());
        bytes.extend_from_slice(&[0; 4]);
        bytes.extend_from_slice(&[0; 8]);
        bytes.extend_from_slice(extras);
        bytes.extend_from_slice(key);
        bytes.extend_from_slice(value);
        bytes
    }

    fn binary(&mut self, request: &[u8]) -> Vec<u8> {
        assert!(request.len() >= 24);
        assert_eq!(request[0], 0x80);
        let opcode = request[1];
        let key_len = u16::from_be_bytes([request[2], request[3]]) as usize;
        let extras_len = request[4] as usize;
        let body = u32::from_be_bytes([request[8], request[9], request[10], request[11]]) as usize;
        let mut token = [0u8; 8];
        token.copy_from_slice(&request[16..24]);
        let token = u64::from_be_bytes(token);
        assert_eq!(request.len(), 24 + body);
        let extras = &request[24..24 + extras_len];
        let key = &request[24 + extras_len..24 + extras_len + key_len];
        let value = &request[24 + extras_len + key_len..];
        if opcode == 0x10 {
            let mut bytes = Vec::new();
            for (name, value) in self.stats() {
                bytes.extend(Server::packet(opcode, 0, &[], name.as_bytes(), value.as_bytes()));
            }
            bytes.extend(Server::packet(opcode, 0, &[], &[], &[]));
            return bytes;
        }
        if opcode == 0x0b {
            return Server::packet(opcode, 0, &[], &[], b"1.6.21");
        }
        if opcode == 0x21 {
            assert_eq!(key, b"PLAIN");
            let status = if value == b"\0user\0secret" { 0 } else { 0x20 };
            return Server::packet(opcode, status, &[], &[], &[]);
        }
        let outcome = match opcode {
            0x00 => self.get(key),
            0x01 if token == 0 => self.store(Mode::Always, key, value),
            0x01 => self.store(Mode::IfToken(token), key, value),
            0x02 => self.store(Mode::IfAbsent, key, value),
            0x03 => self.store(Mode::IfPresent, key, value),
            0x04 => self.delete(key),
            0x1c => self.touch(key),
            0x08 => {
                let delay = if extras.len() == 4 {
                    u32::from_be_bytes([extras[0], extras[1], extras[2], extras[3]]) as u64
                } else {
                    0
                };
                self.flush(delay)
            }
            _ => Outcome::Unknown,
        };
        match outcome {
            Outcome::Done => Server::packet(opcode, 0, &[], &[], &[]),
            Outcome::Value(value) => Server::packet(opcode, 0, &[0, 0, 0, 0], &[], &value),
            Outcome::NotFound => Server::packet(opcode, 0x01, &[], &[], b"Not found"),
            Outcome::Exists => Server::packet(opcode, 0x02, &[], &[], b"Data exists for key."),
            Outcome::NotStored if opcode == 0x02 => {
                Server::packet(opcode, 0x02, &[], &[], b"Data exists for key.")
            }
            Outcome::NotStored => Server::packet(opcode, 0x01, &[], &[], b"Not found"),
            Outcome::Unknown => Server::packet(opcode, 0x81, &[], &[], b"Unknown command"),
        }
    }

    fn ascii(&mut self, request: &[u8]) -> Vec<u8> {
        let end = request.windows(2).position(|w| w == b"\r\n").unwrap();
        let line = String::from_utf8(request[..end].to_vec()).unwrap();
        let body = &request[end + 2..];
        let words: Vec<&str> = line.split(' ').collect();
        let outcome = match words[0] {
            "version" => return b"VERSION 1.6.21\r\n".to_vec(),
            "stats" => {
                let mut bytes = Vec::new();
                for (name, value) in self.stats() {
                    bytes.extend(format!("STAT {} {}\r\n", name, value).into_bytes());
                }
                bytes.extend_from_slice(b"END\r\n");
                return bytes;
            }
            "flush_all" => {
                let delay = if words.len() > 1 { words[1].parse().unwrap() } else { 0 };
                return match self.flush(delay) {
                    _ => b"OK\r\n".to_vec(),
                };
            }
            "get" => {
                assert_eq!(words.len(), 2);
                return match self.get(words[1].as_bytes()) {
                    Outcome::Value(value) => {
                        let mut bytes =
                            format!("VALUE {} 0 {}\r\n", words[1], value.len()).into_bytes();
                        bytes.extend(value);
                        bytes.extend_from_slice(b"\r\nEND\r\n");
                        bytes
                    }
                    _ => b"END\r\n".to_vec(),
                };
            }
            "delete" => match self.delete(words[1].as_bytes()) {
                Outcome::Done => return b"DELETED\r\n".to_vec(),
                other => other,
            },
            "touch" => {
                let _: u32 = words[2].parse().unwrap();
                match self.touch(words[1].as_bytes()) {
                    Outcome::Done => return b"TOUCHED\r\n".to_vec(),
                    other => other,
                }
            }
            "set" | "add" | "replace" | "cas" => {
                let _: u32 = words[2].parse().unwrap();
                let _: u32 = words[3].parse().unwrap();
                let length: usize = words[4].parse().unwrap();
                assert_eq!(body.len(), length + 2);
                assert_eq!(&body[length..], b"\r\n");
                let mode = match words[0] {
                    "set" => Mode::Always,
                    "add" => Mode::IfAbsent,
                    "replace" => Mode::IfPresent,
                    _ => Mode::IfToken(words[5].parse().unwrap()),
                };
                if words[1] == "auth" && &body[..length] != b"user secret" {
                    return b"CLIENT_ERROR authentication failure\r\n".to_vec();
                }
                self.store(mode, words[1].as_bytes(), &body[..length])
            }
            _ => Outcome::Unknown,
        };
        match outcome {
            Outcome::Done => b"STORED\r\n".to_vec(),
            Outcome::NotFound => b"NOT_FOUND\r\n".to_vec(),
            Outcome::Exists => b"EXISTS\r\n".to_vec(),
            Outcome::NotStored => b"NOT_STORED\r\n".to_vec(),
            _ => b"ERROR\r\n".to_vec(),
        }
    }
}

/// A client as an application would build it on the engine: it moves the
/// bytes itself, here to and from the server above.
struct Client {
    server: Server,
    protocol: Protocol,
    udp: Option<UdpStream>,
    step: usize,
}

impl Client {
    fn connect(protocol: Protocol) -> Client {
        Client { server: Server::new(), protocol, udp: None, step: 5 }
    }

    fn connect_udp(protocol: Protocol) -> Client {
        Client { server: Server::new(), protocol, udp: Some(UdpStream::new()), step: 700 }
    }

    /// Sends a request and hands the response over piece by piece, as a
    /// socket would, asking again after each early end.
    fn exchange<T>(
        &mut self,
        request: Vec<u8>,
        parse: impl Fn(&Protocol, &[u8]) -> Result<T, MemcacheError>,
    ) -> Result<T, MemcacheError> {
        let response = match self.udp.take() {
            None => self.server.serve(&self.protocol, &request),
            Some(mut stream) => {
                assert_eq!(stream.write(&request), request.len());
                let datagrams = stream.flush()?;
                let mut arrived = Reassembly::new();
                for datagram in datagrams.iter().rev() {
                    arrived.accept(datagram)?;
                }
                let request = arrived.message().unwrap();
                let response = self.server.serve(&self.protocol, &request);
                let mut answer = split_message(&response, stream.request_id())?;
                answer.reverse();
                let stray = split_message(b"stale", stream.request_id().wrapping_add(1))?;
                let mut whole = false;
                for (i, datagram) in answer.iter().enumerate() {
                    assert!(!whole);
                    whole = stream.receive(datagram)?;
                    if i == 0 {
                        assert_eq!(stream.receive(&stray[0])?, whole);
                    }
                }
                assert!(whole);
                let mut bytes = Vec::new();
                let mut buf = [0u8; 333];
                loop {
                    let n = stream.read(&mut buf);
                    if n == 0 {
                        break;
                    }
                    bytes.extend_from_slice(&buf[..n]);
                }
                self.udp = Some(stream);
                bytes
            }
        };
        let mut received = Vec::new();
        for piece in response.chunks(self.step) {
            received.extend_from_slice(piece);
            match parse(&self.protocol, &received) {
                Err(MemcacheError::IOError(TransportError::UnexpectedEof)) => continue,
                other => {
                    assert_eq!(received.len(), response.len());
                    return other;
                }
            }
        }
        Err(MemcacheError::IOError(TransportError::UnexpectedEof))
    }

    fn version(&mut self) -> Result<String, MemcacheError> {
        let request = self.protocol.version();
        self.exchange(request, |p, bytes| p.parse_version_response(bytes))
    }

    fn auth(&mut self, username: &str, password: &str) -> Result<(), MemcacheError> {
        let request = self.protocol.auth(username, password)?;
        self.exchange(request, |p, bytes| p.parse_auth_response(bytes))
    }

    fn flush(&mut self) -> Result<(), MemcacheError> {
        let request = self.protocol.flush();
        self.exchange(request, |p, bytes| p.parse_flush_response(bytes))
    }

    fn flush_with_delay(&mut self, delay: u32) -> Result<(), MemcacheError> {
        let request = self.protocol.flush_with_delay(delay);
        self.exchange(request, |p, bytes| p.parse_flush_response(bytes))
    }

    fn get_bytes(&mut self, key: &str) -> Result<Option<Vec<u8>>, MemcacheError> {
        let request = self.protocol.get(key)?;
        self.exchange(request, |p, bytes| p.parse_get_response(bytes, key))
    }

    fn get(&mut self, key: &str) -> Result<Option<String>, MemcacheError> {
        Ok(self.get_bytes(key)?.map(|bytes| String::from_utf8(bytes).unwrap()))
    }

    fn set(&mut self, key: &str, value: &str, expiration: u32) -> Result<(), MemcacheError> {
        self.set_bytes(key, value.as_bytes(), expiration)
    }

    fn set_bytes(&mut self, key: &str, value: &[u8], expiration: u32) -> Result<(), MemcacheError> {
        let request = self.protocol.set(key, value, expiration)?;
        self.exchange(request, |p, bytes| p.parse_store_response(bytes))
    }

    fn add(&mut self, key: &str, value: &str, expiration: u32) -> Result<(), MemcacheError> {
        let request = self.protocol.add(key, value.as_bytes(), expiration)?;
        self.exchange(request, |p, bytes| p.parse_store_response(bytes))
    }

    fn replace(&mut self, key: &str, value: &str, expiration: u32) -> Result<(), MemcacheError> {
        let request = self.protocol.replace(key, value.as_bytes(), expiration)?;
        self.exchange(request, |p, bytes| p.parse_store_response(bytes))
    }

    fn cas(&mut self, key: &str, value: &str, exp: u32, token: u64) -> Result<bool, MemcacheError> {
        let request = self.protocol.cas(key, value.as_bytes(), exp, token)?;
        self.exchange(request, |p, bytes| p.parse_cas_response(bytes))
    }

    fn delete(&mut self, key: &str) -> Result<bool, MemcacheError> {
        let request = self.protocol.delete(key)?;
        self.exchange(request, |p, bytes| p.parse_delete_response(bytes))
    }

    fn touch(&mut self, key: &str, expiration: u32) -> Result<bool, MemcacheError> {
        let request = self.protocol.touch(key, expiration)?;
        self.exchange(request, |p, bytes| p.parse_touch_response(bytes))
    }

    fn stats(&mut self) -> Result<Stats, MemcacheError> {
        let request = self.protocol.stats();
        self.exchange(request, |p, bytes| p.parse_stats_response(bytes))
    }
}

fn both() -> Vec<Client> {
    vec![
        Client::connect(Protocol::Binary(BinaryProtocol {})),
        Client::connect(Protocol::Ascii(AsciiProtocol {})),
        Client::connect_udp(Protocol::Binary(BinaryProtocol {})),
        Client::connect_udp(Protocol::Ascii(AsciiProtocol {})),
    ]
}

fn gen_random_key() -> String {
    let bs = std::iter::repeat(())
        .map(|()| thread_rng().sample(Alphanumeric))
        .take(10)
        .collect::<Vec<u8>>();
    String::from_utf8(bs).unwrap()
}

#[test]
fn set_then_get_returns_the_payload_for_both_protocols() {
    let every_byte: Vec<u8> = (0..=255u8).collect();
    let large: Vec<u8> = (0..100_000usize).map(|i| (i % 251) as u8).collect();
    let payloads: Vec<&[u8]> =
        vec![b"", b"bar", b"two words", b"line\r\nbreak\r\n", b"END\r\n", &every_byte, &large];
    for mut client in both() {
        for (i, payload) in payloads.iter().enumerate() {
            let key = format!("key{}", i);
            client.set_bytes(&key, payload, 60).unwrap();
            assert_eq!(client.get_bytes(&key).unwrap().as_deref(), Some(*payload));
        }
        // a later set replaces the value
        client.set("key1", "other", 0).unwrap();
        assert_eq!(client.get("key1").unwrap(), Some(String::from("other")));
    }
}

#[test]
fn get_of_an_absent_key_is_none() {
    for mut client in both() {
        assert_eq!(client.get("not_exists_key").unwrap(), None);
    }
}

#[test]
fn delete_on_absent_and_present_keys() {
    for mut client in both() {
        assert_eq!(client.delete("a_not_exists_key").unwrap(), false);
        client.set("an_exists_key", "value", 0).unwrap();
        assert_eq!(client.delete("an_exists_key").unwrap(), true);
        assert_eq!(client.get("an_exists_key").unwrap(), None);
        assert_eq!(client.delete("an_exists_key").unwrap(), false);
    }
}

#[test]
fn touch_on_absent_and_present_keys() {
    for mut client in both() {
        assert_eq!(client.touch("not_exists_key", 12345).unwrap(), false);
        client.set("foo", "bar", 123).unwrap();
        assert_eq!(client.touch("foo", 12345).unwrap(), true);
        assert_eq!(client.get("foo").unwrap(), Some(String::from("bar")));
    }
}

#[test]
fn cas_with_valid_stale_and_invalid_tokens() {
    for mut client in both() {
        client.set("ascii_foo", "bar", 0).unwrap();
        client.set("ascii_baz", "qux", 0).unwrap();
        let token = client.server.token("ascii_foo");
        let other = client.server.token("ascii_baz");
        assert_ne!(token, other);
        // a token of another key is not the token of this one
        assert_eq!(client.cas("ascii_foo", "bar1", 0, other).unwrap(), false);
        assert_eq!(client.get("ascii_foo").unwrap(), Some(String::from("bar")));
        assert_eq!(client.cas("ascii_foo", "bar2", 0, token).unwrap(), true);
        assert_eq!(client.get("ascii_foo").unwrap(), Some(String::from("bar2")));
        // the token is stale now
        assert_eq!(client.cas("ascii_foo", "bar3", 0, token).unwrap(), false);
        assert_eq!(client.get("ascii_foo").unwrap(), Some(String::from("bar2")));
        assert_eq!(client.cas("not_exists_key", "bar", 0, token).unwrap(), false);
        assert_eq!(client.get("not_exists_key").unwrap(), None);
    }
}

#[test]
fn add_fails_on_a_present_key_and_replace_on_an_absent_one() {
    let mut binary = Client::connect(Protocol::Binary(BinaryProtocol {}));
    binary.set("foo", "bar", 0).unwrap();
    assert_eq!(
        binary.add("foo", "baz", 0),
        Err(MemcacheError::CommandError(CommandError::KeyExists))
    );
    assert_eq!(
        binary.replace("absent", "baz", 0),
        Err(MemcacheError::CommandError(CommandError::KeyNotFound))
    );
    let mut ascii = Client::connect(Protocol::Ascii(AsciiProtocol {}));
    ascii.set("foo", "bar", 0).unwrap();
    assert_eq!(
        ascii.add("foo", "baz", 0),
        Err(MemcacheError::CommandError(CommandError::ItemNotStored))
    );
    assert_eq!(
        ascii.replace("absent", "baz", 0),
        Err(MemcacheError::CommandError(CommandError::ItemNotStored))
    );
    for mut client in [binary, ascii] {
        assert_eq!(client.get("foo").unwrap(), Some(String::from("bar")));
        assert_eq!(client.get("absent").unwrap(), None);
    }
}

#[test]
fn flush_with_delay_evicts_only_after_the_delay() {
    for mut client in both() {
        client.set("foo", "bar", 0).unwrap();
        client.flush_with_delay(3).unwrap();
        assert_eq!(client.get("foo").unwrap(), Some(String::from("bar")));
        client.server.sleep(2);
        assert_eq!(client.get("foo").unwrap(), Some(String::from("bar")));
        client.server.sleep(2);
        assert_eq!(client.get("foo").unwrap(), None);
    }
}

#[test]
fn flush_evicts_at_once() {
    for mut client in both() {
        client.set("foo", "bar", 0).unwrap();
        client.flush().unwrap();
        assert_eq!(client.get("foo").unwrap(), None);
    }
}

#[test]
fn version_and_stats_are_read() {
    for mut client in both() {
        assert_eq!(client.version().unwrap(), "1.6.21");
        client.set("foo", "bar", 0).unwrap();
        let stats = client.stats().unwrap();
        assert_eq!(stats.len(), 3);
        assert_eq!(stats.get("pid"), Some(&String::from("4242")));
        assert_eq!(stats.get("curr_items"), Some(&String::from("1")));
        assert_eq!(stats.get("version"), Some(&String::from("1.6.21 simulated")));
    }
}

#[test]
fn auth_succeeds_with_the_right_credentials_only() {
    for mut client in both() {
        assert_eq!(client.auth("user", "secret"), Ok(()));
        assert!(client.auth("user", "wrong").is_err());
    }
}

#[test]
fn nothing_is_sent_for_a_key_that_is_too_long() {
    let long = "k".repeat(251);
    for mut client in both() {
        assert!(client.get(&long).is_err());
        assert!(client.set(&long, "v", 0).is_err());
        assert!(client.add(&long, "v", 0).is_err());
        assert!(client.replace(&long, "v", 0).is_err());
        assert!(client.cas(&long, "v", 0, 1).is_err());
        assert!(client.delete(&long).is_err());
        assert!(client.touch(&long, 1).is_err());
        assert!(client.server.served.is_empty());
    }
}

#[test]
fn delete() {
    let mut client = Client::connect(Protocol::Binary(BinaryProtocol {}));
    client.set("an_exists_key", "value", 0).unwrap();
    assert_eq!(client.delete("an_exists_key").unwrap(), true);
    assert_eq!(client.delete("a_not_exists_key").unwrap(), false);
}

#[test]
fn test_ascii() {
    let mut client = Client::connect(Protocol::Ascii(AsciiProtocol {}));

    client.flush_with_delay(1).unwrap();
    client.server.sleep(1);
    client.flush().unwrap();

    client.set("ascii_foo", "bar", 0).unwrap();
    let value: Option<String> = client.get("ascii_foo").unwrap();
    assert_eq!(value, Some("bar".into()));

    client.touch("ascii_foo", 1000).unwrap();

    let value: Option<String> = client.get("not_exists_key").unwrap();
    assert_eq!(value, None);

    client.delete("ascii_pend").unwrap();
    let value: Option<String> = client.get("ascii_pend").unwrap();
    assert_eq!(value, None);

    client.stats().unwrap();
}

#[test]
fn udp_test() {
    let mut client = Client::connect_udp(Protocol::Binary(BinaryProtocol {}));

    client.version().unwrap();

    client.set("foo", "bar", 0).unwrap();
    client.flush().unwrap();
    let value: Option<String> = client.get("foo").unwrap();
    assert_eq!(value, None);

    client.set("foo", "bar", 0).unwrap();
    client.flush_with_delay(3).unwrap();
    let value: Option<String> = client.get("foo").unwrap();
    assert_eq!(value, Some(String::from("bar")));
    client.server.sleep(4);
    let value: Option<String> = client.get("foo").unwrap();
    assert_eq!(value, None);

    client.set("foo", "bar", 0).unwrap();
    let value = client.add("foo", "baz", 0);
    assert_eq!(value.is_err(), true);

    client.delete("foo").unwrap();
    let value: Option<String> = client.get("foo").unwrap();
    assert_eq!(value, None);

    client.add("foo", "bar", 0).unwrap();
    let value: Option<String> = client.get("foo").unwrap();
    assert_eq!(value, Some(String::from("bar")));

    client.replace("foo", "baz", 0).unwrap();
    let value: Option<String> = client.get("foo").unwrap();
    assert_eq!(value, Some(String::from("baz")));

    // this key is one that another user of the same server has stored
    client.server.put(b"fooo", b"0");
    assert_eq!(client.touch("foooo", 123).unwrap(), false);
    assert_eq!(client.touch("fooo", 12345).unwrap(), true);

    let mut keys: Vec<String> = Vec::new();
    for _ in 0..1000 {
        let key = gen_random_key();
        keys.push(key.clone());
        client.set(key.as_str(), "xxx", 0).unwrap();
    }

    for key in keys {
        let value: String = client.get(key.as_str()).unwrap().unwrap();

        assert_eq!(value, "xxx");
    }

    // several connections, each with a server of its own, one after another
    for i in 0..10 {
        let key = format!("key{}", i);
        let value = format!("value{}", i);
        let mut client = Client::connect_udp(Protocol::Binary(BinaryProtocol {}));
        for j in 0..50 {
            let value = format!("{}{}", value, j);
            client.set(key.as_str(), &value, 0).unwrap();
            let result: Option<String> = client.get(key.as_str()).unwrap();
            assert_eq!(result.as_ref(), Some(&value));

            let result = client.add(key.as_str(), &value, 0);
            assert_eq!(result.is_err(), true);

            client.delete(key.as_str()).unwrap();
            let result: Option<String> = client.get(key.as_str()).unwrap();
            assert_eq!(result, None);

            client.add(key.as_str(), &value, 0).unwrap();
            let result: Option<String> = client.get(key.as_str()).unwrap();
            assert_eq!(result.as_ref(), Some(&value));

            client.replace(key.as_str(), &value, 0).unwrap();
            let result: Option<String> = client.get(key.as_str()).unwrap();
            assert_eq!(result.as_ref(), Some(&value));
        }
    }
}
