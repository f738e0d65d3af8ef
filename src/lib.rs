//! Lookups of Unix accounts and groups, read from files in the format of
//! `/etc/passwd` and `/etc/group`.
//!
//! [`PasswdEntry::parse`] and [`GroupEntry::parse`] read one line of such a file;
//! the readers of [`sync_reader`] hold the records of a whole file and decide when
//! the file must be read again.
use vstd::prelude::*;

pub mod sync_reader;
pub mod text;

use crate::text::{join, lemma_split_join, lemma_split_n_len, lemma_split_n_saturates, parse_u32, parse_u32_spec, split_all, split_all_pieces, split_fields, split_n};

verus! {

/// The fields of an account line.
pub struct PasswdRecord {
    pub username: Seq<char>,
    pub passwd: Seq<char>,
    pub uid: u32,
    pub gid: u32,
    pub gecos: Seq<char>,
    pub home_dir: Seq<char>,
    pub shell: Seq<char>,
}

/// The fields of a group line.
pub struct GroupRecord {
    pub name: Seq<char>,
    pub passwd: Seq<char>,
    pub gid: u32,
    pub users: Seq<Seq<char>>,
}

/// The account that a line describes: seven fields split at the first six colons
/// (the shell keeps any further colon), with a decimal user and group ID.
pub open spec fn parse_passwd(line: Seq<char>) -> Option<PasswdRecord> {
    let f = split_n(line, ':', 7);
    if f.len() == 7 && parse_u32_spec(f[2]) is Some && parse_u32_spec(f[3]) is Some {
        Some(
            PasswdRecord {
                username: f[0],
                passwd: f[1],
                uid: parse_u32_spec(f[2])->0,
                gid: parse_u32_spec(f[3])->0,
                gecos: f[4],
                home_dir: f[5],
                shell: f[6],
            },
        )
    } else {
        None
    }
}

/// The group that a line describes: four fields split at the first three colons,
/// a decimal group ID, and the members split at every comma (an empty member
/// field gives one empty member).
pub open spec fn parse_group(line: Seq<char>) -> Option<GroupRecord> {
    let f = split_n(line, ':', 4);
    if f.len() == 4 && parse_u32_spec(f[2]) is Some {
        Some(
            GroupRecord {
                name: f[0],
                passwd: f[1],
                gid: parse_u32_spec(f[2])->0,
                users: split_all(f[3], ','),
            },
        )
    } else {
        None
    }
}

/// A passwd entry, representing one row in `/etc/passwd`.
#[derive(Debug, Clone, PartialEq, Eq)]
pub struct PasswdEntry {
    /// Username
    pub username: String,
    /// User password
    pub passwd: String,
    /// User ID
    pub uid: u32,
    /// Group ID
    pub gid: u32,
    /// User full name or comment
    pub gecos: String,
    /// Home directory
    pub home_dir: String,
    /// Shell
    pub shell: String,
}

impl View for PasswdEntry {
    type V = PasswdRecord;

    open spec fn view(&self) -> PasswdRecord {
        PasswdRecord {
            username: self.username@,
            passwd: self.passwd@,
            uid: self.uid,
            gid: self.gid,
            gecos: self.gecos@,
            home_dir: self.home_dir@,
            shell: self.shell@,
        }
    }
}

impl PasswdEntry {
    /// Creates a PasswdEntry from one line of a passwd file; `None` where the line
    /// has fewer than seven fields or its user or group ID is not a 32-bit
    /// unsigned decimal number.
    pub fn parse(s: &str) -> (r: Option<PasswdEntry>)
        ensures
            match r {
                Some(e) => parse_passwd(s@) == Some(e@),
                None => parse_passwd(s@) is None,
            },
    {
        let f = split_fields(s, ':', 7);
        proof {
            lemma_split_n_len(s@, ':', 7);
        }
        assert(f@.map_values(|p: &str| p@).len() == f@.len());
        if f.len() < 7 {
            return None;
        }
        let ghost fv = f@.map_values(|p: &str| p@);
        assert(fv[2] == f@[2]@ && fv[3] == f@[3]@);
        let uid = match parse_u32(f[2]) {
            Some(v) => v,
            None => return None,
        };
        let gid = match parse_u32(f[3]) {
            Some(v) => v,
            None => return None,
        };
        let e = PasswdEntry {
            username: f[0].to_owned(),
            passwd: f[1].to_owned(),
            uid,
            gid,
            gecos: f[4].to_owned(),
            home_dir: f[5].to_owned(),
            shell: f[6].to_owned(),
        };
        assert(fv[0] == f@[0]@ && fv[1] == f@[1]@ && fv[4] == f@[4]@ && fv[5] == f@[5]@
            && fv[6] == f@[6]@);
        Some(e)
    }

    /// A copy of this entry.
    pub fn copied(&self) -> (r: PasswdEntry)
        ensures
            r@ == self@,
    {
        PasswdEntry {
            username: self.username.clone(),
            passwd: self.passwd.clone(),
            uid: self.uid,
            gid: self.gid,
            gecos: self.gecos.clone(),
            home_dir: self.home_dir.clone(),
            shell: self.shell.clone(),
        }
    }
}

/// A group entry, representing one row in `/etc/group`.
#[derive(Debug, Clone, PartialEq, Eq)]
pub struct GroupEntry {
    /// Group name
    pub name: String,
    /// Password
    pub passwd: String,
    /// Group ID
    pub gid: u32,
    /// List of users
    pub users: Vec<String>,
}

impl View for GroupEntry {
    type V = GroupRecord;

    open spec fn view(&self) -> GroupRecord {
        GroupRecord {
            name: self.name@,
            passwd: self.passwd@,
            gid: self.gid,
            users: self.users@.map_values(|u: String| u@),
        }
    }
}

/// Owned copies of borrowed strings.
fn owned_strings(v: &Vec<&str>) -> (r: Vec<String>)
    ensures
        r@.map_values(|u: String| u@) == v@.map_values(|p: &str| p@),
{
    let mut out: Vec<String> = Vec::new();
    let mut i: usize = 0;
    while i < v.len()
        invariant
            i <= v@.len(),
            out@.len() == i,
            forall|j: int| 0 <= j < i ==> (#[trigger] out@[j])@ == v@[j]@,
        decreases v@.len() - i,
    {
        out.push(v[i].to_owned());
        i = i + 1;
    }
    assert(out@.map_values(|u: String| u@) =~= v@.map_values(|p: &str| p@));
    out
}

/// A copy of a list of strings.
fn copy_strings(v: &Vec<String>) -> (r: Vec<String>)
    ensures
        r@.map_values(|u: String| u@) == v@.map_values(|u: String| u@),
{
    let mut out: Vec<String> = Vec::new();
    let mut i: usize = 0;
    while i < v.len()
        invariant
            i <= v@.len(),
            out@.len() == i,
            forall|j: int| 0 <= j < i ==> (#[trigger] out@[j])@ == v@[j]@,
        decreases v@.len() - i,
    {
        out.push(v[i].clone());
        i = i + 1;
    }
    assert(out@.map_values(|u: String| u@) =~= v@.map_values(|u: String| u@));
    out
}

impl GroupEntry {
    /// Creates a GroupEntry from one line of a group file; `None` where the line
    /// has fewer than four fields or its group ID is not a 32-bit unsigned decimal
    /// number.
    pub fn parse(s: &str) -> (r: Option<GroupEntry>)
        ensures
            match r {
                Some(e) => parse_group(s@) == Some(e@),
                None => parse_group(s@) is None,
            },
    {
        let f = split_fields(s, ':', 4);
        proof {
            lemma_split_n_len(s@, ':', 4);
        }
        assert(f@.map_values(|p: &str| p@).len() == f@.len());
        if f.len() < 4 {
            return None;
        }
        let ghost fv = f@.map_values(|p: &str| p@);
        assert(fv[2] == f@[2]@ && fv[3] == f@[3]@);
        let gid = match parse_u32(f[2]) {
            Some(v) => v,
            None => return None,
        };
        let members = split_all_pieces(f[3], ',');
        let e = GroupEntry {
            name: f[0].to_owned(),
            passwd: f[1].to_owned(),
            gid,
            users: owned_strings(&members),
        };
        assert(fv[0] == f@[0]@ && fv[1] == f@[1]@);
        Some(e)
    }

    /// A copy of this entry.
    pub fn copied(&self) -> (r: GroupEntry)
        ensures
            r@ == self@,
    {
        GroupEntry {
            name: self.name.clone(),
            passwd: self.passwd.clone(),
            gid: self.gid,
            users: copy_strings(&self.users),
        }
    }
}

/// A well-formed account line reads back as the fields it was made of: seven
/// fields joined by colons, none of the first six holding a colon, the third and
/// fourth decimal numbers, give a record whose text fields are those fields as
/// they stand and whose IDs are the numbers.
pub proof fn passwd_round_trip(
    username: Seq<char>,
    passwd: Seq<char>,
    uid_text: Seq<char>,
    gid_text: Seq<char>,
    gecos: Seq<char>,
    home_dir: Seq<char>,
    shell: Seq<char>,
)
    requires
        !username.contains(':'),
        !passwd.contains(':'),
        !uid_text.contains(':'),
        !gid_text.contains(':'),
        !gecos.contains(':'),
        !home_dir.contains(':'),
        parse_u32_spec(uid_text) is Some,
        parse_u32_spec(gid_text) is Some,
    ensures
        parse_passwd(join(seq![username, passwd, uid_text, gid_text, gecos, home_dir, shell], ':'))
            == Some(
            PasswdRecord {
                username,
                passwd,
                uid: parse_u32_spec(uid_text)->0,
                gid: parse_u32_spec(gid_text)->0,
                gecos,
                home_dir,
                shell,
            },
        ),
{
    let f = seq![username, passwd, uid_text, gid_text, gecos, home_dir, shell];
    lemma_split_join(f, ':', 7);
}

/// A well-formed group line reads back as the fields it was made of: name,
/// password and a decimal group ID without colons, then members without commas
/// joined by commas, give a record of those fields and exactly those members.
pub proof fn group_round_trip(
    name: Seq<char>,
    passwd: Seq<char>,
    gid_text: Seq<char>,
    users: Seq<Seq<char>>,
)
    requires
        !name.contains(':'),
        !passwd.contains(':'),
        !gid_text.contains(':'),
        parse_u32_spec(gid_text) is Some,
        users.len() >= 1,
        forall|i: int| 0 <= i < users.len() ==> !(#[trigger] users[i]).contains(','),
    ensures
        parse_group(join(seq![name, passwd, gid_text, join(users, ',')], ':')) == Some(
            GroupRecord { name, passwd, gid: parse_u32_spec(gid_text)->0, users },
        ),
{
    let f = seq![name, passwd, gid_text, join(users, ',')];
    lemma_split_join(f, ':', 4);
    lemma_split_join(users, ',', users.len());
    lemma_split_n_saturates(join(users, ','), ',', join(users, ',').len() + 1);
    lemma_split_join(users, ',', join(users, ',').len() + 1);
}

/// A line of fewer than seven colon-separated fields is no account.
pub proof fn passwd_too_few_fields(fields: Seq<Seq<char>>)
    requires
        1 <= fields.len() < 7,
        forall|i: int| 0 <= i < fields.len() ==> !(#[trigger] fields[i]).contains(':'),
    ensures
        parse_passwd(join(fields, ':')) is None,
{
    lemma_split_join(fields, ':', 7);
}

/// A line of fewer than four colon-separated fields is no group.
pub proof fn group_too_few_fields(fields: Seq<Seq<char>>)
    requires
        1 <= fields.len() < 4,
        forall|i: int| 0 <= i < fields.len() ==> !(#[trigger] fields[i]).contains(':'),
    ensures
        parse_group(join(fields, ':')) is None,
{
    lemma_split_join(fields, ':', 4);
}

/// An account line whose user or group ID is not a 32-bit unsigned decimal number
/// is no account, whatever its other fields.
pub proof fn passwd_bad_id(
    username: Seq<char>,
    passwd: Seq<char>,
    uid_text: Seq<char>,
    gid_text: Seq<char>,
    gecos: Seq<char>,
    home_dir: Seq<char>,
    shell: Seq<char>,
)
    requires
        !username.contains(':'),
        !passwd.contains(':'),
        !uid_text.contains(':'),
        !gid_text.contains(':'),
        !gecos.contains(':'),
        !home_dir.contains(':'),
        parse_u32_spec(uid_text) is None || parse_u32_spec(gid_text) is None,
    ensures
        parse_passwd(join(seq![username, passwd, uid_text, gid_text, gecos, home_dir, shell], ':'))
            is None,
{
    let f = seq![username, passwd, uid_text, gid_text, gecos, home_dir, shell];
    lemma_split_join(f, ':', 7);
}

/// A group line whose group ID is not a 32-bit unsigned decimal number is no
/// group, whatever its other fields.
pub proof fn group_bad_id(name: Seq<char>, passwd: Seq<char>, gid_text: Seq<char>, users: Seq<char>)
    requires
        !name.contains(':'),
        !passwd.contains(':'),
        !gid_text.contains(':'),
        parse_u32_spec(gid_text) is None,
    ensures
        parse_group(join(seq![name, passwd, gid_text, users], ':')) is None,
{
    let f = seq![name, passwd, gid_text, users];
    lemma_split_join(f, ':', 4);
}

/// A group line with an empty member field has one member, the empty name.
pub proof fn group_empty_members(name: Seq<char>, passwd: Seq<char>, gid_text: Seq<char>)
    requires
        !name.contains(':'),
        !passwd.contains(':'),
        !gid_text.contains(':'),
        parse_u32_spec(gid_text) is Some,
    ensures
        parse_group(join(seq![name, passwd, gid_text, seq![]], ':')) is Some,
        parse_group(join(seq![name, passwd, gid_text, seq![]], ':'))->0.users == seq![
            Seq::<char>::empty(),
        ],
{
    let f = seq![name, passwd, gid_text, Seq::<char>::empty()];
    lemma_split_join(f, ':', 4);
    let e = Seq::<char>::empty();
    assert(!e.contains(','));
}

} // verus!
