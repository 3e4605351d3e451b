use cargo_schnee::daemon::{
    add_text_to_store_reply, add_text_to_store_request, check_magic, hello, hex, negotiate,
    process_stderr, query_valid_paths_reply, query_valid_paths_request, read_greeting, read_string,
    read_string_list, read_u64, socket_path, write_string_list, write_u64, Outcome, CLIENT_VERSION,
    STDERR_ERROR, STDERR_LAST, STDERR_NEXT, WORKER_MAGIC_1, WORKER_MAGIC_2,
};
use cargo_schnee::nar::nar_string;

fn strings(v: &[&str]) -> Vec<String> {
    v.iter().map(|s| s.to_string()).collect()
}

fn words(v: &[u64]) -> Vec<u8> {
    v.iter().flat_map(|n| n.to_le_bytes()).collect()
}

fn done<T>(o: Outcome<T>) -> (T, usize) {
    match o {
        Outcome::Done(v, n) => (v, n),
        Outcome::Short => panic!("short"),
        Outcome::Fail(e) => panic!("{}", e),
    }
}

#[test]
fn words_read_back() {
    let mut buf = Vec::new();
    write_u64(&mut buf, 0x0102030405060708);
    assert_eq!(buf, vec![8, 7, 6, 5, 4, 3, 2, 1]);
    assert_eq!(done(read_u64(&buf, 0)), (0x0102030405060708, 8));
    assert!(matches!(read_u64(&buf[..7], 0), Outcome::Short));
}

#[test]
fn strings_read_back() {
    for s in ["", "abc", "abcdefgh", "größer"] {
        let mut buf = words(&[7]);
        nar_string(&mut buf, s);
        let end = buf.len();
        buf.extend(words(&[9]));
        assert_eq!(done(read_string(&buf, 8)), (s.to_string(), end));
    }
}

#[test]
fn strings_that_are_refused() {
    let long = words(&[0x4000001]);
    assert!(matches!(read_string(&long, 0), Outcome::Fail(_)));
    let mut bad = words(&[1]);
    bad.extend([0xff, 0, 0, 0, 0, 0, 0, 0]);
    assert!(matches!(read_string(&bad, 0), Outcome::Fail(_)));
    let cut = words(&[8]);
    assert!(matches!(read_string(&cut, 0), Outcome::Short));
}

#[test]
fn lists_read_back() {
    let list = strings(&["/nix/store/a", "/nix/store/bb", ""]);
    let mut buf = Vec::new();
    write_string_list(&mut buf, &list);
    let end = buf.len();
    assert_eq!(done(read_string_list(&buf, 0)), (list, end));
    assert!(matches!(
        read_string_list(&words(&[0x100001]), 0),
        Outcome::Fail(_)
    ));
}

#[test]
fn the_greeting() {
    assert_eq!(hello(), words(&[WORKER_MAGIC_1]));
    assert!(check_magic(WORKER_MAGIC_2).is_ok());
    assert!(check_magic(WORKER_MAGIC_1).is_err());
    assert!(check_magic(0xabc).unwrap_err().contains("abc"));
    assert_eq!(hex(0x1af), "1af");
    assert_eq!(hex(0), "0");
}

#[test]
fn the_lower_version_is_negotiated() {
    let (old, answer) = negotiate(0x10a);
    assert_eq!(old, 0x10a);
    assert_eq!(answer, words(&[CLIENT_VERSION]));
    let (new, answer) = negotiate(0x126);
    assert_eq!(new, CLIENT_VERSION);
    assert_eq!(answer, words(&[CLIENT_VERSION, 0, 0]));
}

#[test]
fn the_daemon_may_tell_its_version() {
    let mut reply = Vec::new();
    nar_string(&mut reply, "2.31.3");
    reply.extend(words(&[1, STDERR_LAST]));
    let (version, end) = done(read_greeting(&reply, 0x125));
    assert_eq!(version, Some("2.31.3".to_string()));
    assert_eq!(end, reply.len());
    // An older daemon tells nothing.
    let reply = words(&[STDERR_LAST]);
    assert_eq!(done(read_greeting(&reply, 0x110)), (None, 8));
    assert!(matches!(read_greeting(&[], 0x110), Outcome::Short));
}

#[test]
fn messages_before_a_reply() {
    let mut reply = words(&[STDERR_NEXT]);
    nar_string(&mut reply, "building");
    reply.extend(words(&[STDERR_LAST]));
    let end = reply.len();
    assert_eq!(done(process_stderr(&reply, 0)).1, end);
    assert!(matches!(process_stderr(&words(&[1]), 0), Outcome::Fail(_)));
    assert!(matches!(process_stderr(&words(&[STDERR_ERROR]), 0), Outcome::Short));
}

#[test]
fn valid_paths_are_asked_for() {
    let paths = strings(&["/nix/store/a"]);
    let request = query_valid_paths_request(&paths, 0x125);
    let mut expected = words(&[31, 1]);
    nar_string(&mut expected, "/nix/store/a");
    expected.extend(words(&[0]));
    assert_eq!(request, expected);
    // Without the flag before version 1.27.
    let old = query_valid_paths_request(&paths, 0x110);
    assert_eq!(old.len(), expected.len() - 8);

    let mut reply = words(&[STDERR_LAST]);
    write_string_list(&mut reply, &paths);
    assert_eq!(done(query_valid_paths_reply(&reply)).0, paths);
}

#[test]
fn texts_are_added() {
    let request = add_text_to_store_request("x.drv", b"Derive()", &strings(&["/nix/store/r"]));
    let mut expected = words(&[8]);
    nar_string(&mut expected, "x.drv");
    nar_string(&mut expected, "Derive()");
    expected.extend(words(&[1]));
    nar_string(&mut expected, "/nix/store/r");
    assert_eq!(request, expected);

    let mut reply = words(&[STDERR_LAST]);
    nar_string(&mut reply, "/nix/store/x.drv");
    assert_eq!(done(add_text_to_store_reply(&reply)).0, "/nix/store/x.drv");
    // More bytes do not change a reply that was complete.
    reply.extend([1, 2, 3]);
    assert_eq!(done(add_text_to_store_reply(&reply)).0, "/nix/store/x.drv");
}

#[test]
fn where_the_daemon_listens() {
    assert_eq!(
        socket_path(None, None),
        "/nix/var/nix/daemon-socket/socket"
    );
    assert_eq!(socket_path(Some("unix:///run/s"), Some("/x")), "/run/s");
    assert_eq!(socket_path(Some("daemon"), Some("/x")), "/x");
}
