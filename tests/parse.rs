use user_lookup::text::{parse_u32, split_all_pieces, split_fields, split_lines};
use user_lookup::{GroupEntry, PasswdEntry};

#[test]
fn passwd_line_round_trip() {
    let e = PasswdEntry::parse("user1:x:1000:1000:User One,,,:/home/user1:/bin/bash").unwrap();
    assert_eq!(e.username, "user1");
    assert_eq!(e.passwd, "x");
    assert_eq!(e.uid, 1000);
    assert_eq!(e.gid, 1000);
    assert_eq!(e.gecos, "User One,,,");
    assert_eq!(e.home_dir, "/home/user1");
    assert_eq!(e.shell, "/bin/bash");
}

#[test]
fn passwd_shell_keeps_colons() {
    let e = PasswdEntry::parse("a:b:1:2:c:d:e:f:g").unwrap();
    assert_eq!(e.shell, "e:f:g");
    assert_eq!(e.home_dir, "d");
}

#[test]
fn passwd_empty_fields_are_kept() {
    let e = PasswdEntry::parse("::0:0:::").unwrap();
    assert_eq!(e.username, "");
    assert_eq!(e.uid, 0);
    assert_eq!(e.gid, 0);
    assert_eq!(e.shell, "");
}

#[test]
fn passwd_too_few_fields_is_rejected() {
    assert_eq!(PasswdEntry::parse("user1:x:1000:1000:User One:/home/user1"), None);
    assert_eq!(PasswdEntry::parse(""), None);
    assert_eq!(PasswdEntry::parse("root"), None);
}

#[test]
fn passwd_non_numeric_uid_is_rejected() {
    assert_eq!(PasswdEntry::parse("user1:x:abc:1000:c:/home/user1:/bin/sh"), None);
    assert_eq!(PasswdEntry::parse("user1:x:1000:g1:c:/home/user1:/bin/sh"), None);
    assert_eq!(PasswdEntry::parse("user1:x:-1:1000:c:/home/user1:/bin/sh"), None);
    assert_eq!(PasswdEntry::parse("user1:x::1000:c:/home/user1:/bin/sh"), None);
}

#[test]
fn passwd_uid_out_of_range_is_rejected() {
    assert_eq!(PasswdEntry::parse("u:x:4294967296:1:c:/h:/s"), None);
    let e = PasswdEntry::parse("u:x:4294967295:+7:c:/h:/s").unwrap();
    assert_eq!(e.uid, 4294967295);
    assert_eq!(e.gid, 7);
}

#[test]
fn group_line_round_trip() {
    let g = GroupEntry::parse("users:x:100:alice,bob").unwrap();
    assert_eq!(g.name, "users");
    assert_eq!(g.passwd, "x");
    assert_eq!(g.gid, 100);
    assert_eq!(g.users, vec!["alice".to_string(), "bob".to_string()]);
}

#[test]
fn group_empty_member_field_gives_one_empty_member() {
    let g = GroupEntry::parse("wheel:x:10:").unwrap();
    assert_eq!(g.users.len(), 1);
    assert_eq!(g.users[0], "");
}

#[test]
fn group_members_keep_colons() {
    let g = GroupEntry::parse("g:x:5:a:b,c").unwrap();
    assert_eq!(g.users, vec!["a:b".to_string(), "c".to_string()]);
}

#[test]
fn group_too_few_fields_is_rejected() {
    assert_eq!(GroupEntry::parse("users:x:100"), None);
    assert_eq!(GroupEntry::parse(""), None);
}

#[test]
fn group_non_numeric_gid_is_rejected() {
    assert_eq!(GroupEntry::parse("users:x:one:alice"), None);
    assert_eq!(GroupEntry::parse("users:x: 100:alice"), None);
}

#[test]
fn copies_are_equal() {
    let e = PasswdEntry::parse("a:b:1:2:c:d:e").unwrap();
    assert_eq!(e.copied(), e);
    let g = GroupEntry::parse("g:x:5:a,b").unwrap();
    assert_eq!(g.copied(), g);
}

#[test]
fn numbers_are_read_in_decimal() {
    assert_eq!(parse_u32("0"), Some(0));
    assert_eq!(parse_u32("1000"), Some(1000));
    assert_eq!(parse_u32("+12"), Some(12));
    assert_eq!(parse_u32("007"), Some(7));
    assert_eq!(parse_u32("4294967295"), Some(4294967295));
    assert_eq!(parse_u32("4294967296"), None);
    assert_eq!(parse_u32("99999999999999999999"), None);
    assert_eq!(parse_u32(""), None);
    assert_eq!(parse_u32("+"), None);
    assert_eq!(parse_u32("-1"), None);
    assert_eq!(parse_u32("1a"), None);
    assert_eq!(parse_u32(" 1"), None);
    assert_eq!(parse_u32("١"), None);
}

#[test]
fn fields_split_at_most_n_times() {
    assert_eq!(split_fields("a:b:c:d", ':', 2), vec!["a", "b:c:d"]);
    assert_eq!(split_fields("a:b", ':', 4), vec!["a", "b"]);
    assert_eq!(split_fields("", ':', 3), vec![""]);
    assert_eq!(split_fields("é:ü", ':', 3), vec!["é", "ü"]);
}

#[test]
fn pieces_split_at_every_separator() {
    assert_eq!(split_all_pieces("a,b,,c", ','), vec!["a", "b", "", "c"]);
    assert_eq!(split_all_pieces("", ','), vec![""]);
    assert_eq!(split_all_pieces(",", ','), vec!["", ""]);
}

#[test]
fn lines_split_like_text_lines() {
    assert_eq!(split_lines("a\nb\n"), vec!["a", "b"]);
    assert_eq!(split_lines("a\r\nb"), vec!["a", "b"]);
    assert_eq!(split_lines("a\n\nb"), vec!["a", "", "b"]);
    assert_eq!(split_lines(""), Vec::<&str>::new());
    assert_eq!(split_lines("\n"), vec![""]);
    assert_eq!(split_lines("a\rb\n"), vec!["a\rb"]);
}
