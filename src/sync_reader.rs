//! Readers that hold the records of a passwd or group file and decide, at each
//! lookup, whether the file must be read again.
//!
//! A reader does no I/O itself. Its caller asks [`PasswdReader::needs_refresh`]
//! with the current time; where the answer is `true` it reads the file named by
//! [`PasswdReader::file_path`] and hands the outcome to [`PasswdReader::refresh`],
//! which replaces the records on success and leaves the reader as it was on
//! failure. The lookups then answer from the records held. Times are counted in
//! nanoseconds from any fixed instant, and must not go backwards.
use vstd::prelude::*;

use crate::text::{lines_of, split_lines};
use crate::{parse_group, parse_passwd, GroupEntry, GroupRecord, PasswdEntry, PasswdRecord};

verus! {

/// What a reader holds: the file it reads (`None` for the system's own), how long
/// a reading stays fresh, when the file was last read (`None`: never), and the
/// records of that reading.
pub struct ReaderState<R> {
    pub file: Option<Seq<char>>,
    pub cache_time: nat,
    pub last_check: Option<nat>,
    pub records: Seq<R>,
}

/// Records last read at `last_check` are still fresh at `now`: less than
/// `cache_time` has passed. Records never read are never fresh, so a cache time
/// of zero makes every lookup read the file again.
pub open spec fn is_fresh(cache_time: nat, last_check: Option<nat>, now: nat) -> bool {
    match last_check {
        Some(t) => now < t + cache_time,
        None => false,
    }
}

/// The records of the lines that `parse` accepts, in the order of the lines.
pub open spec fn parsed_lines<R>(lines: Seq<Seq<char>>, parse: spec_fn(Seq<char>) -> Option<R>) -> Seq<R>
    decreases lines.len(),
{
    if lines.len() == 0 {
        seq![]
    } else {
        let before = parsed_lines(lines.drop_last(), parse);
        match parse(lines.last()) {
            Some(r) => before.push(r),
            None => before,
        }
    }
}

/// The first record that satisfies `p`, if any.
pub open spec fn first_match<R>(records: Seq<R>, p: spec_fn(R) -> bool) -> Option<R>
    decreases records.len(),
{
    if records.len() == 0 {
        None
    } else if p(records[0]) {
        Some(records[0])
    } else {
        first_match(records.drop_first(), p)
    }
}

/// The state after a successful reading of `text` at `now`: the records of its
/// lines replace the old ones, and the reading time moves to `now`.
pub open spec fn refreshed<R>(
    s: ReaderState<R>,
    text: Seq<char>,
    now: nat,
    parse: spec_fn(Seq<char>) -> Option<R>,
) -> ReaderState<R> {
    ReaderState { last_check: Some(now), records: parsed_lines(lines_of(text), parse), ..s }
}

pub open spec fn default_passwd_path() -> Seq<char> {
    "/etc/passwd"@
}

pub open spec fn default_group_path() -> Seq<char> {
    "/etc/group"@
}

/// The first match past position `i` is the record at `i`, or the first match
/// past `i + 1`.
pub proof fn lemma_first_match_skip<R>(records: Seq<R>, p: spec_fn(R) -> bool, i: int)
    requires
        0 <= i < records.len(),
    ensures
        first_match(records.skip(i), p) == if p(records[i]) {
            Some(records[i])
        } else {
            first_match(records.skip(i + 1), p)
        },
{
    assert(records.skip(i).drop_first() =~= records.skip(i + 1));
}

pub open spec fn with_username(name: Seq<char>) -> spec_fn(PasswdRecord) -> bool {
    |e: PasswdRecord| e.username == name
}

pub open spec fn with_uid(uid: u32) -> spec_fn(PasswdRecord) -> bool {
    |e: PasswdRecord| e.uid == uid
}

pub open spec fn with_group_name(name: Seq<char>) -> spec_fn(GroupRecord) -> bool {
    |e: GroupRecord| e.name == name
}

pub open spec fn with_gid(gid: u32) -> spec_fn(GroupRecord) -> bool {
    |e: GroupRecord| e.gid == gid
}

/// The first match is the record at `i` exactly when that record satisfies `p`
/// and none before it does.
pub proof fn lemma_first_match_at<R>(records: Seq<R>, p: spec_fn(R) -> bool, i: int)
    requires
        0 <= i < records.len(),
        p(records[i]),
        forall|k: int| 0 <= k < i ==> !p(#[trigger] records[k]),
    ensures
        first_match(records, p) == Some(records[i]),
    decreases i,
{
    if i > 0 {
        let rest = records.drop_first();
        assert forall|k: int| 0 <= k < i - 1 implies !p(#[trigger] rest[k]) by {
            assert(rest[k] == records[k + 1]);
        }
        assert(!p(records[0]));
        lemma_first_match_at(rest, p, i - 1);
    }
}

/// With two accounts of one user ID, a lookup by that ID finds the earlier one
/// (here the one at `i`, the first of that ID), never the later one at `j`.
pub proof fn uid_first_match_wins(records: Seq<PasswdRecord>, uid: u32, i: int, j: int)
    requires
        0 <= i < j < records.len(),
        records[i].uid == uid,
        records[j].uid == uid,
        forall|k: int| 0 <= k < i ==> (#[trigger] records[k]).uid != uid,
    ensures
        first_match(records, with_uid(uid)) == Some(records[i]),
{
    lemma_first_match_at(records, with_uid(uid), i);
}

/// With two groups of one group ID, a lookup by that ID finds the first of them.
pub proof fn gid_first_match_wins(records: Seq<GroupRecord>, gid: u32, i: int, j: int)
    requires
        0 <= i < j < records.len(),
        records[i].gid == gid,
        records[j].gid == gid,
        forall|k: int| 0 <= k < i ==> (#[trigger] records[k]).gid != gid,
    ensures
        first_match(records, with_gid(gid)) == Some(records[i]),
{
    lemma_first_match_at(records, with_gid(gid), i);
}

/// With a cache time above zero, a lookup less than the cache time after a
/// successful reading finds the records fresh: no reading takes place, and the
/// lookup answers from the records of that reading.
pub proof fn cache_hit<R>(
    s: ReaderState<R>,
    text: Seq<char>,
    t: nat,
    now: nat,
    parse: spec_fn(Seq<char>) -> Option<R>,
)
    requires
        s.cache_time > 0,
        t <= now < t + s.cache_time,
    ensures
        is_fresh(
            refreshed(s, text, t, parse).cache_time,
            refreshed(s, text, t, parse).last_check,
            now,
        ),
        refreshed(s, text, t, parse).records == parsed_lines(lines_of(text), parse),
{
}

/// With a cache time of zero, the records are never fresh: every lookup reads
/// the file again, and after a second reading the records are those of the new
/// text, whatever the first one held.
pub proof fn no_cache_rereads<R>(
    s: ReaderState<R>,
    first: Seq<char>,
    t1: nat,
    second: Seq<char>,
    t2: nat,
    parse: spec_fn(Seq<char>) -> Option<R>,
)
    requires
        s.cache_time == 0,
        forall|t: nat| s.last_check == Some(t) ==> t <= t1,
        t1 <= t2,
    ensures
        !is_fresh(s.cache_time, s.last_check, t1),
        !is_fresh(
            refreshed(s, first, t1, parse).cache_time,
            refreshed(s, first, t1, parse).last_check,
            t2,
        ),
        refreshed(refreshed(s, first, t1, parse), second, t2, parse).records == parsed_lines(
            lines_of(second),
            parse,
        ),
{
}

pub open spec fn time_view(t: Option<u64>) -> Option<nat> {
    match t {
        Some(t) => Some(t as nat),
        None => None,
    }
}

/// Decides freshness without overflow: a sum past `u64::MAX` lies past every time.
fn fresh_at(cache_time: u64, last_check: Option<u64>, now: u64) -> (r: bool)
    ensures
        r == is_fresh(cache_time as nat, time_view(last_check), now as nat),
{
    match last_check {
        Some(t) => {
            if cache_time > u64::MAX - t {
                true
            } else {
                now < t + cache_time
            }
        },
        None => false,
    }
}

/// The file of a reader: the one it was given, or the system's own.
fn path_or(file: &Option<String>, default: &str) -> (r: String)
    ensures
        r@ == match file {
            Some(f) => f@,
            None => default@,
        },
{
    match file {
        Some(f) => f.clone(),
        None => default.to_owned(),
    }
}

///The main entity to read and look up user information. It
///supports caching the information to avoid having to read
///the information from disk more than needed.
pub struct PasswdReader {
    file: Option<String>,
    cache_time: u64,
    last_check: Option<u64>,
    passwd: Vec<PasswdEntry>,
}

impl View for PasswdReader {
    type V = ReaderState<PasswdRecord>;

    closed spec fn view(&self) -> ReaderState<PasswdRecord> {
        ReaderState {
            file: match self.file {
                Some(f) => Some(f@),
                None => None,
            },
            cache_time: self.cache_time as nat,
            last_check: time_view(self.last_check),
            records: self.passwd@.map_values(|e: PasswdEntry| e@),
        }
    }
}

impl PasswdReader {
    ///Creates a new PasswdReader for `/etc/passwd` with a
    ///specified cache_time in nanoseconds.
    ///
    ///Use a cache_time of 0 to disable caching.
    pub fn new(cache_time: u64) -> (r: Self)
        ensures
            r@ == (ReaderState::<PasswdRecord> {
                file: None,
                cache_time: cache_time as nat,
                last_check: None,
                records: seq![],
            }),
    {
        let r = Self { file: None, cache_time, last_check: None, passwd: Vec::new() };
        assert(r@.records =~= seq![]);
        r
    }

    ///Creates a new PasswdReader which reads the file at
    ///a specified alternative location. Uses the specified
    ///cache_time in nanoseconds.
    ///
    ///Use a cache_time of 0 to disable caching.
    pub fn from_file(file: &str, cache_time: u64) -> (r: Self)
        ensures
            r@ == (ReaderState::<PasswdRecord> {
                file: Some(file@),
                cache_time: cache_time as nat,
                last_check: None,
                records: seq![],
            }),
    {
        let r = Self {
            file: Some(file.to_owned()),
            cache_time,
            last_check: None,
            passwd: Vec::new(),
        };
        assert(r@.records =~= seq![]);
        r
    }

    ///The file that this reader reads.
    pub fn file_path(&self) -> (r: String)
        ensures
            r@ == match self@.file {
                Some(f) => f,
                None => default_passwd_path(),
            },
    {
        proof {
            reveal_strlit("/etc/passwd");
        }
        path_or(&self.file, "/etc/passwd")
    }

    ///Whether the file must be read before a lookup at `now`.
    pub fn needs_refresh(&self, now: u64) -> (r: bool)
        ensures
            r == !is_fresh(self@.cache_time, self@.last_check, now as nat),
    {
        !fresh_at(self.cache_time, self.last_check, now)
    }

    ///Takes in the outcome of reading the file at `now`. On success the
    ///records of its lines replace those held; on failure the reader is
    ///left as it was and the error is handed back.
    pub fn refresh<E>(&mut self, read: Result<String, E>, now: u64) -> (r: Result<(), E>)
        ensures
            match read {
                Ok(text) => r is Ok && final(self)@ == refreshed(
                    old(self)@,
                    text@,
                    now as nat,
                    |l: Seq<char>| parse_passwd(l),
                ),
                Err(e) => r == Err::<(), E>(e) && final(self)@ == old(self)@,
            },
    {
        match read {
            Ok(text) => {
                let lines = split_lines(text.as_str());
                let ghost lv = lines@.map_values(|l: &str| l@);
                let mut out: Vec<PasswdEntry> = Vec::new();
                let mut i: usize = 0;
                while i < lines.len()
                    invariant
                        i <= lines@.len(),
                        lv == lines@.map_values(|l: &str| l@),
                        out@.map_values(|e: PasswdEntry| e@) == parsed_lines(
                            lv.take(i as int),
                            |l: Seq<char>| parse_passwd(l),
                        ),
                    decreases lines@.len() - i,
                {
                    assert(lv.take(i + 1).drop_last() =~= lv.take(i as int));
                    assert(lv.take(i + 1).last() == lines@[i as int]@);
                    match PasswdEntry::parse(lines[i]) {
                        Some(e) => {
                            out.push(e);
                            assert(out@.map_values(|e: PasswdEntry| e@) =~= parsed_lines(
                                lv.take(i + 1),
                                |l: Seq<char>| parse_passwd(l),
                            ));
                        },
                        None => {},
                    }
                    i = i + 1;
                }
                assert(lv.take(i as int) =~= lv);
                self.passwd = out;
                self.last_check = Some(now);
                Ok(())
            },
            Err(e) => Err(e),
        }
    }

    ///Get the entire list of passwd entries
    pub fn get_entries(&self) -> (r: &Vec<PasswdEntry>)
        ensures
            r@.map_values(|e: PasswdEntry| e@) == self@.records,
    {
        &self.passwd
    }

    ///Will return an iterator over &PasswdEntry
    pub fn try_iter(&self) -> (r: std::slice::Iter<'_, PasswdEntry>)
        ensures
            vstd::std_specs::slice::into_iter_elts(r).map_values(|e: PasswdEntry| e@) == self@.records,
    {
        let r = self.passwd.iter();
        proof {
            broadcast use vstd::std_specs::slice::axiom_spec_slice_iter;
        }
        assert(vstd::std_specs::slice::into_iter_elts(r) =~= self.passwd@);
        r
    }

    /// Where the first record of the given username stands.
    fn position_by_username(&self, username: &str) -> (r: Option<usize>)
        ensures
            match r {
                Some(i) => i < self@.records.len() && first_match(self@.records, with_username(username@))
                    == Some(self@.records[i as int]) && self@.records[i as int] == self.passwd@[i as int]@,
                None => first_match(self@.records, with_username(username@)) is None,
            },
    {
        let ghost recs = self@.records;
        let ghost p = with_username(username@);
        let key = username.to_owned();
        let mut i: usize = 0;
        assert(recs.skip(0) =~= recs);
        while i < self.passwd.len()
            invariant
                i <= self.passwd@.len(),
                recs == self@.records,
                recs == self.passwd@.map_values(|e: PasswdEntry| e@),
                key@ == username@,
                p == with_username(username@),
                first_match(recs, p) == first_match(recs.skip(i as int), p),
            decreases self.passwd@.len() - i,
        {
            proof {
                lemma_first_match_skip(recs, p, i as int);
            }
            assert(recs[i as int] == self.passwd@[i as int]@);
            if self.passwd[i].username == key {
                return Some(i);
            }
            i = i + 1;
        }
        assert(recs.skip(i as int) =~= seq![]);
        None
    }

    /// Where the first record of the given uid stands.
    fn position_by_uid(&self, uid: u32) -> (r: Option<usize>)
        ensures
            match r {
                Some(i) => i < self@.records.len() && first_match(self@.records, with_uid(uid))
                    == Some(self@.records[i as int]) && self@.records[i as int] == self.passwd@[i as int]@,
                None => first_match(self@.records, with_uid(uid)) is None,
            },
    {
        let ghost recs = self@.records;
        let ghost p = with_uid(uid);
        let mut i: usize = 0;
        assert(recs.skip(0) =~= recs);
        while i < self.passwd.len()
            invariant
                i <= self.passwd@.len(),
                recs == self@.records,
                recs == self.passwd@.map_values(|e: PasswdEntry| e@),
                p == with_uid(uid),
                first_match(recs, p) == first_match(recs.skip(i as int), p),
            decreases self.passwd@.len() - i,
        {
            proof {
                lemma_first_match_skip(recs, p, i as int);
            }
            assert(recs[i as int] == self.passwd@[i as int]@);
            if self.passwd[i].uid == uid {
                return Some(i);
            }
            i = i + 1;
        }
        assert(recs.skip(i as int) =~= seq![]);
        None
    }

    ///Look up a PasswdEntry by username
    pub fn get_by_username(&self, username: &str) -> (r: Option<PasswdEntry>)
        ensures
            match r {
                Some(e) => first_match(self@.records, with_username(username@)) == Some(e@),
                None => first_match(self@.records, with_username(username@)) is None,
            },
    {
        match self.position_by_username(username) {
            Some(i) => Some(self.passwd[i].copied()),
            None => None,
        }
    }

    ///Look up a PasswdEntry by uid
    pub fn get_by_uid(&self, uid: u32) -> (r: Option<PasswdEntry>)
        ensures
            match r {
                Some(e) => first_match(self@.records, with_uid(uid)) == Some(e@),
                None => first_match(self@.records, with_uid(uid)) is None,
            },
    {
        match self.position_by_uid(uid) {
            Some(i) => Some(self.passwd[i].copied()),
            None => None,
        }
    }

    ///Look up a username by uid
    pub fn get_username_by_uid(&self, uid: u32) -> (r: Option<String>)
        ensures
            match r {
                Some(n) => first_match(self@.records, with_uid(uid)) is Some
                    && n@ == first_match(self@.records, with_uid(uid))->0.username,
                None => first_match(self@.records, with_uid(uid)) is None,
            },
    {
        match self.position_by_uid(uid) {
            Some(i) => Some(self.passwd[i].username.clone()),
            None => None,
        }
    }

    ///Look up a user ID by username
    pub fn get_uid_by_username(&self, username: &str) -> (r: Option<u32>)
        ensures
            match r {
                Some(v) => first_match(self@.records, with_username(username@)) is Some
                    && v == first_match(self@.records, with_username(username@))->0.uid,
                None => first_match(self@.records, with_username(username@)) is None,
            },
    {
        match self.position_by_username(username) {
            Some(i) => Some(self.passwd[i].uid),
            None => None,
        }
    }
}

///The main entity to read and look up group information. It
///supports caching the information to avoid having to read
///the information from disk more than needed.
pub struct GroupReader {
    file: Option<String>,
    cache_time: u64,
    last_check: Option<u64>,
    groups: Vec<GroupEntry>,
}

impl View for GroupReader {
    type V = ReaderState<GroupRecord>;

    closed spec fn view(&self) -> ReaderState<GroupRecord> {
        ReaderState {
            file: match self.file {
                Some(f) => Some(f@),
                None => None,
            },
            cache_time: self.cache_time as nat,
            last_check: time_view(self.last_check),
            records: self.groups@.map_values(|e: GroupEntry| e@),
        }
    }
}

impl GroupReader {
    ///Creates a new GroupReader for `/etc/group` with a
    ///specified cache_time in nanoseconds.
    ///
    ///Use a cache_time of 0 to disable caching.
    pub fn new(cache_time: u64) -> (r: Self)
        ensures
            r@ == (ReaderState::<GroupRecord> {
                file: None,
                cache_time: cache_time as nat,
                last_check: None,
                records: seq![],
            }),
    {
        let r = Self { file: None, cache_time, last_check: None, groups: Vec::new() };
        assert(r@.records =~= seq![]);
        r
    }

    ///Creates a new GroupReader which reads the file at
    ///a specified alternative location. Uses the specified
    ///cache_time in nanoseconds.
    ///
    ///Use a cache_time of 0 to disable caching.
    pub fn from_file(file: &str, cache_time: u64) -> (r: Self)
        ensures
            r@ == (ReaderState::<GroupRecord> {
                file: Some(file@),
                cache_time: cache_time as nat,
                last_check: None,
                records: seq![],
            }),
    {
        let r = Self {
            file: Some(file.to_owned()),
            cache_time,
            last_check: None,
            groups: Vec::new(),
        };
        assert(r@.records =~= seq![]);
        r
    }

    ///The file that this reader reads.
    pub fn file_path(&self) -> (r: String)
        ensures
            r@ == match self@.file {
                Some(f) => f,
                None => default_group_path(),
            },
    {
        proof {
            reveal_strlit("/etc/group");
        }
        path_or(&self.file, "/etc/group")
    }

    ///Whether the file must be read before a lookup at `now`.
    pub fn needs_refresh(&self, now: u64) -> (r: bool)
        ensures
            r == !is_fresh(self@.cache_time, self@.last_check, now as nat),
    {
        !fresh_at(self.cache_time, self.last_check, now)
    }

    ///Takes in the outcome of reading the file at `now`. On success the
    ///records of its lines replace those held; on failure the reader is
    ///left as it was and the error is handed back.
    pub fn refresh<E>(&mut self, read: Result<String, E>, now: u64) -> (r: Result<(), E>)
        ensures
            match read {
                Ok(text) => r is Ok && final(self)@ == refreshed(
                    old(self)@,
                    text@,
                    now as nat,
                    |l: Seq<char>| parse_group(l),
                ),
                Err(e) => r == Err::<(), E>(e) && final(self)@ == old(self)@,
            },
    {
        match read {
            Ok(text) => {
                let lines = split_lines(text.as_str());
                let ghost lv = lines@.map_values(|l: &str| l@);
                let mut out: Vec<GroupEntry> = Vec::new();
                let mut i: usize = 0;
                while i < lines.len()
                    invariant
                        i <= lines@.len(),
                        lv == lines@.map_values(|l: &str| l@),
                        out@.map_values(|e: GroupEntry| e@) == parsed_lines(
                            lv.take(i as int),
                            |l: Seq<char>| parse_group(l),
                        ),
                    decreases lines@.len() - i,
                {
                    assert(lv.take(i + 1).drop_last() =~= lv.take(i as int));
                    assert(lv.take(i + 1).last() == lines@[i as int]@);
                    match GroupEntry::parse(lines[i]) {
                        Some(e) => {
                            out.push(e);
                            assert(out@.map_values(|e: GroupEntry| e@) =~= parsed_lines(
                                lv.take(i + 1),
                                |l: Seq<char>| parse_group(l),
                            ));
                        },
                        None => {},
                    }
                    i = i + 1;
                }
                assert(lv.take(i as int) =~= lv);
                self.groups = out;
                self.last_check = Some(now);
                Ok(())
            },
            Err(e) => Err(e),
        }
    }

    ///Get the entire list of group entries
    pub fn get_groups(&self) -> (r: &Vec<GroupEntry>)
        ensures
            r@.map_values(|e: GroupEntry| e@) == self@.records,
    {
        &self.groups
    }

    ///Will return an iterator over &GroupEntry
    pub fn try_iter(&self) -> (r: std::slice::Iter<'_, GroupEntry>)
        ensures
            vstd::std_specs::slice::into_iter_elts(r).map_values(|e: GroupEntry| e@) == self@.records,
    {
        let r = self.groups.iter();
        proof {
            broadcast use vstd::std_specs::slice::axiom_spec_slice_iter;
        }
        assert(vstd::std_specs::slice::into_iter_elts(r) =~= self.groups@);
        r
    }

    /// Where the first record of the given name stands.
    fn position_by_name(&self, name: &str) -> (r: Option<usize>)
        ensures
            match r {
                Some(i) => i < self@.records.len() && first_match(self@.records, with_group_name(name@))
                    == Some(self@.records[i as int]) && self@.records[i as int] == self.groups@[i as int]@,
                None => first_match(self@.records, with_group_name(name@)) is None,
            },
    {
        let ghost recs = self@.records;
        let ghost p = with_group_name(name@);
        let key = name.to_owned();
        let mut i: usize = 0;
        assert(recs.skip(0) =~= recs);
        while i < self.groups.len()
            invariant
                i <= self.groups@.len(),
                recs == self@.records,
                recs == self.groups@.map_values(|e: GroupEntry| e@),
                key@ == name@,
                p == with_group_name(name@),
                first_match(recs, p) == first_match(recs.skip(i as int), p),
            decreases self.groups@.len() - i,
        {
            proof {
                lemma_first_match_skip(recs, p, i as int);
            }
            assert(recs[i as int] == self.groups@[i as int]@);
            if self.groups[i].name == key {
                return Some(i);
            }
            i = i + 1;
        }
        assert(recs.skip(i as int) =~= seq![]);
        None
    }

    /// Where the first record of the given gid stands.
    fn position_by_gid(&self, gid: u32) -> (r: Option<usize>)
        ensures
            match r {
                Some(i) => i < self@.records.len() && first_match(self@.records, with_gid(gid))
                    == Some(self@.records[i as int]) && self@.records[i as int] == self.groups@[i as int]@,
                None => first_match(self@.records, with_gid(gid)) is None,
            },
    {
        let ghost recs = self@.records;
        let ghost p = with_gid(gid);
        let mut i: usize = 0;
        assert(recs.skip(0) =~= recs);
        while i < self.groups.len()
            invariant
                i <= self.groups@.len(),
                recs == self@.records,
                recs == self.groups@.map_values(|e: GroupEntry| e@),
                p == with_gid(gid),
                first_match(recs, p) == first_match(recs.skip(i as int), p),
            decreases self.groups@.len() - i,
        {
            proof {
                lemma_first_match_skip(recs, p, i as int);
            }
            assert(recs[i as int] == self.groups@[i as int]@);
            if self.groups[i].gid == gid {
                return Some(i);
            }
            i = i + 1;
        }
        assert(recs.skip(i as int) =~= seq![]);
        None
    }

    ///Look up a GroupEntry by the group name
    pub fn get_by_name(&self, name: &str) -> (r: Option<GroupEntry>)
        ensures
            match r {
                Some(e) => first_match(self@.records, with_group_name(name@)) == Some(e@),
                None => first_match(self@.records, with_group_name(name@)) is None,
            },
    {
        match self.position_by_name(name) {
            Some(i) => Some(self.groups[i].copied()),
            None => None,
        }
    }

    ///Look up a GroupEntry by gid
    pub fn get_by_gid(&self, gid: u32) -> (r: Option<GroupEntry>)
        ensures
            match r {
                Some(e) => first_match(self@.records, with_gid(gid)) == Some(e@),
                None => first_match(self@.records, with_gid(gid)) is None,
            },
    {
        match self.position_by_gid(gid) {
            Some(i) => Some(self.groups[i].copied()),
            None => None,
        }
    }

    ///Look up the group name by gid
    pub fn get_name_by_gid(&self, gid: u32) -> (r: Option<String>)
        ensures
            match r {
                Some(n) => first_match(self@.records, with_gid(gid)) is Some
                    && n@ == first_match(self@.records, with_gid(gid))->0.name,
                None => first_match(self@.records, with_gid(gid)) is None,
            },
    {
        match self.position_by_gid(gid) {
            Some(i) => Some(self.groups[i].name.clone()),
            None => None,
        }
    }

    ///Look up a group ID by the group name
    pub fn get_gid_by_name(&self, name: &str) -> (r: Option<u32>)
        ensures
            match r {
                Some(v) => first_match(self@.records, with_group_name(name@)) is Some
                    && v == first_match(self@.records, with_group_name(name@))->0.gid,
                None => first_match(self@.records, with_group_name(name@)) is None,
            },
    {
        match self.position_by_name(name) {
            Some(i) => Some(self.groups[i].gid),
            None => None,
        }
    }
}

} // verus!
