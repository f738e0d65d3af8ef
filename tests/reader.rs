use user_lookup::sync_reader::{GroupReader, PasswdReader};

const PASSWD: &str = "root:x:0:0:root:/root:/bin/bash\n\
user1:x:1000:1000:User One:/home/user1:/bin/bash\n\
user2:x:1001:1001:User Two:/home/user2:/bin/zsh\n";

const GROUP: &str = "root:x:0:\n\
users:x:100:user1,user2\n\
wheel:x:10:user1\n";

fn passwd_reader(cache_time: u64) -> PasswdReader {
    let mut r = PasswdReader::from_file("test_files/passwd", cache_time);
    assert!(r.needs_refresh(0));
    r.refresh::<String>(Ok(PASSWD.to_string()), 0).unwrap();
    r
}

#[test]
fn passwd_file_end_to_end() {
    let r = passwd_reader(0);
    assert_eq!(r.get_entries().len(), 3);
    assert_eq!(r.get_username_by_uid(1000), Some("user1".to_string()));
    assert_eq!(r.get_username_by_uid(1001), Some("user2".to_string()));
    assert_eq!(r.get_username_by_uid(9999), None);
}

#[test]
fn group_file_end_to_end() {
    let mut r = GroupReader::from_file("test_files/group", 0);
    r.refresh::<String>(Ok(GROUP.to_string()), 0).unwrap();
    assert_eq!(r.get_groups().len(), 3);
    assert_eq!(r.get_name_by_gid(100), Some("users".to_string()));
    assert_eq!(r.get_name_by_gid(4242), None);
    assert_eq!(r.get_gid_by_name("wheel"), Some(10));
    assert_eq!(r.get_gid_by_name("nobody"), None);
    let g = r.get_by_name("users").unwrap();
    assert_eq!(g.users, vec!["user1".to_string(), "user2".to_string()]);
    assert_eq!(r.get_by_gid(0).unwrap().users, vec!["".to_string()]);
    assert_eq!(r.get_by_gid(7), None);
    assert_eq!(r.try_iter().count(), 3);
}

#[test]
fn passwd_lookups() {
    let r = passwd_reader(0);
    let e = r.get_by_username("user2").unwrap();
    assert_eq!(e.uid, 1001);
    assert_eq!(e.shell, "/bin/zsh");
    assert_eq!(r.get_by_uid(0).unwrap().username, "root");
    assert_eq!(r.get_by_uid(5), None);
    assert_eq!(r.get_uid_by_username("user1"), Some(1000));
    assert_eq!(r.get_uid_by_username("User1"), None);
    assert_eq!(r.get_by_username("nobody"), None);
    let names: Vec<&str> = r.try_iter().map(|e| e.username.as_str()).collect();
    assert_eq!(names, vec!["root", "user1", "user2"]);
}

#[test]
fn first_match_wins() {
    let mut r = PasswdReader::from_file("p", 0);
    r.refresh::<String>(Ok("alpha:x:500:1:::\nbeta:x:500:2:::\n".to_string()), 0).unwrap();
    assert_eq!(r.get_username_by_uid(500), Some("alpha".to_string()));
    assert_eq!(r.get_by_uid(500).unwrap().gid, 1);
    let mut g = GroupReader::from_file("g", 0);
    g.refresh::<String>(Ok("a:x:9:\nb:x:9:\n".to_string()), 0).unwrap();
    assert_eq!(g.get_name_by_gid(9), Some("a".to_string()));
}

#[test]
fn malformed_lines_are_dropped() {
    let mut r = PasswdReader::from_file("p", 0);
    let text = "bad line\nok:x:1:1:c:/h:/s\nworse:x:one:1:c:/h:/s\n";
    r.refresh::<String>(Ok(text.to_string()), 0).unwrap();
    assert_eq!(r.get_entries().len(), 1);
    assert_eq!(r.get_entries()[0].username, "ok");
}

#[test]
fn empty_file_gives_no_records() {
    let mut r = GroupReader::new(0);
    r.refresh::<String>(Ok(String::new()), 0).unwrap();
    assert!(r.get_groups().is_empty());
}

#[test]
fn cache_hit_within_lifetime() {
    let r = passwd_reader(1_000);
    assert!(!r.needs_refresh(0));
    assert!(!r.needs_refresh(999));
    assert!(r.needs_refresh(1_000));
    assert!(r.needs_refresh(5_000));
}

#[test]
fn zero_cache_time_always_rereads() {
    let mut r = passwd_reader(0);
    assert!(r.needs_refresh(0));
    assert!(r.needs_refresh(1));
    r.refresh::<String>(Ok("solo:x:7:7:::\n".to_string()), 1).unwrap();
    assert_eq!(r.get_entries().len(), 1);
    assert_eq!(r.get_username_by_uid(7), Some("solo".to_string()));
    assert_eq!(r.get_username_by_uid(1000), None);
}

#[test]
fn new_reader_is_stale_and_empty() {
    let r = PasswdReader::new(u64::MAX);
    assert!(r.needs_refresh(0));
    assert!(r.get_entries().is_empty());
    let g = GroupReader::new(10);
    assert!(g.needs_refresh(u64::MAX));
}

#[test]
fn huge_cache_time_does_not_overflow() {
    let mut r = PasswdReader::new(u64::MAX);
    r.refresh::<String>(Ok(String::new()), 10).unwrap();
    assert!(!r.needs_refresh(u64::MAX));
}

#[test]
fn failed_read_leaves_reader_unchanged() {
    let mut r = passwd_reader(0);
    let res = r.refresh(Err("no such file".to_string()), 5);
    assert_eq!(res, Err("no such file".to_string()));
    assert_eq!(r.get_entries().len(), 3);
    assert!(r.needs_refresh(5));
}

#[test]
fn file_paths() {
    assert_eq!(PasswdReader::new(0).file_path(), "/etc/passwd");
    assert_eq!(GroupReader::new(0).file_path(), "/etc/group");
    assert_eq!(PasswdReader::from_file("/tmp/p", 0).file_path(), "/tmp/p");
    assert_eq!(GroupReader::from_file("/tmp/g", 0).file_path(), "/tmp/g");
}

#[test]
fn crlf_lines_are_read() {
    let mut g = GroupReader::new(0);
    g.refresh::<String>(Ok("a:x:1:m\r\nb:x:2:n\r\n".to_string()), 0).unwrap();
    assert_eq!(g.get_by_gid(1).unwrap().users, vec!["m".to_string()]);
    assert_eq!(g.get_by_gid(2).unwrap().users, vec!["n".to_string()]);
}
