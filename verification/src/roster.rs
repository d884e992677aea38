//! The identity resolver: maps the stream of string-table entries to stable
//! player identities, deduplicated by user id, in first-seen order.

use vstd::prelude::*;
use vstd::string::StringExecFns;
use vstd::string::StrSliceExecFns;

use crate::errors::DemoError;
use crate::model::{profile_of, PlayerInfoFields, Profile, TableEntry};

verus! {

/// The name of the string table whose entries carry player identity.
pub open spec fn userinfo_table() -> Seq<char> {
    "userinfo"@
}

/// The value of a decimal digit character; 10 for any other character.
pub open spec fn digit_value(c: char) -> nat {
    if 48 <= (c as u32) && (c as u32) <= 57 {
        ((c as u32) - 48) as nat
    } else {
        10
    }
}

pub open spec fn is_digit(c: char) -> bool {
    digit_value(c) < 10
}

pub open spec fn all_digits(s: Seq<char>) -> bool {
    forall|i: int| 0 <= i < s.len() ==> is_digit(s[i])
}

/// The value of a run of decimal digits.
pub open spec fn decimal_value(s: Seq<char>) -> nat
    decreases s.len(),
{
    if s.len() == 0 {
        0
    } else {
        decimal_value(s.drop_last()) * 10 + digit_value(s.last())
    }
}

/// The digits of a numeral text, one optional leading plus sign stripped.
pub open spec fn numeral_body(s: Seq<char>) -> Seq<char> {
    if s.len() > 0 && s[0] == '+' {
        s.drop_first()
    } else {
        s
    }
}

/// The texts that parse as the largest 32-bit value. The decoder turns an
/// entry's text into a 32-bit entity id and takes its successor, so this
/// one value has no defined outcome; such entries are set aside before the
/// decoder sees them.
pub open spec fn parses_to_u32_max(s: Seq<char>) -> bool {
    &&& numeral_body(s).len() > 0
    &&& all_digits(numeral_body(s))
    &&& decimal_value(numeral_body(s)) == 0xffff_ffff
}

/// Whether a text parses as the largest 32-bit value.
fn text_parses_to_u32_max(t: &str) -> (r: bool)
    ensures
        r == parses_to_u32_max(t@),
{
    let n = t.unicode_len();
    let start: usize = if n > 0 && t.get_char(0) == '+' {
        1
    } else {
        0
    };
    proof {
        assert(numeral_body(t@) =~= t@.skip(start as int));
    }
    if start >= n {
        return false;
    }
    let mut i: usize = start;
    let mut acc: u64 = 0;
    while i < n
        invariant
            start <= i <= n,
            n == t@.len(),
            numeral_body(t@) == t@.skip(start as int),
            all_digits(t@.skip(start as int).take(i - start)),
            (acc <= 0xffff_ffffu64 && acc as nat == decimal_value(
                t@.skip(start as int).take(i - start),
            )) || (acc == 0x1_0000_0000u64 && decimal_value(t@.skip(start as int).take(i - start))
                > 0xffff_ffff),
        decreases n - i,
    {
        let ghost body = t@.skip(start as int);
        let ghost prev = body.take(i - start);
        let c = t.get_char(i);
        proof {
            assert(body[i - start] == t@[i as int]);
            assert(body.take(i + 1 - start).drop_last() =~= prev);
            assert(body.take(i + 1 - start).last() == body[i - start]);
        }
        let cv = c as u32;
        if cv < 48 || cv > 57 {
            proof {
                assert(!is_digit(body[i - start]));
            }
            return false;
        }
        let d = (cv - 48) as u64;
        proof {
            assert(digit_value(c) == d as nat);
        }
        if acc <= 0xffff_ffff {
            let next = acc * 10 + d;
            if next <= 0xffff_ffff {
                acc = next;
            } else {
                acc = 0x1_0000_0000;
            }
        }
        i += 1;
    }
    proof {
        assert(t@.skip(start as int).take(n - start) =~= t@.skip(start as int));
    }
    acc == 0xffff_ffff
}

/// The view of the optional text half of a string-table payload.
pub open spec fn opt_text_view(text: Option<&str>) -> Option<Seq<char>> {
    match text {
        Some(t) => Some(t@),
        None => None,
    }
}

/// The view of an owned optional text payload.
pub open spec fn opt_string_view(text: Option<String>) -> Option<Seq<char>> {
    match text {
        Some(t) => Some(t@),
        None => None,
    }
}

/// The view of the optional raw half of a string-table payload.
pub open spec fn opt_bytes_view(extra: Option<Vec<u8>>) -> Option<Seq<u8>> {
    match extra {
        Some(b) => Some(b@),
        None => None,
    }
}

/// The outcome of decoding one player-info string-table payload, a function
/// of the entry alone: `None` stands for a payload that cannot be decoded
/// at all, `Some(None)` for one that decodes but does not describe a
/// player, and `Some(Some(f))` for the identity fields of a player entry.
pub uninterp spec fn parsed_userinfo(
    index: u16,
    text: Option<Seq<char>>,
    extra: Option<Seq<u8>>,
) -> Option<Option<PlayerInfoFields>>;

/// Relies on tf_demo_parser's `UserInfo::parse_from_string_table` to decode
/// a player-info string-table payload (the raw bytes are wrapped in a
/// bitbuffer read stream first). The decoder computes the successor of the
/// entry's text read as a 32-bit number, so the one text without a
/// successor is excluded here and set aside by the caller.
#[verifier::external_body]
fn parse_userinfo(index: u16, text: Option<&str>, extra: Option<Vec<u8>>) -> (r: Result<
    Option<PlayerInfoFields>,
    bitbuffer::BitError,
>)
    requires
        text matches Some(t) ==> !parses_to_u32_max(t@),
    ensures
        (r is Err) == (parsed_userinfo(index, opt_text_view(text), opt_bytes_view(extra))
            is None),
        r matches Ok(v) ==> parsed_userinfo(index, opt_text_view(text), opt_bytes_view(extra))
            == Some(v),
{
    let data = extra.map(|b| bitbuffer::BitReadStream::new(bitbuffer::BitReadBuffer::new_owned(b, bitbuffer::LittleEndian)));
    let parsed = tf_demo_parser::demo::data::userinfo::UserInfo::parse_from_string_table(index, text, data)?;
    Ok(parsed.map(|u| {
        let p = u.player_info;
        PlayerInfoFields {
            name: p.name, user_id: p.user_id.into(), steam_id: p.steam_id, friends_id: p.friends_id,
            is_fake_player: p.is_fake_player, is_hl_tv: p.is_hl_tv, is_replay: p.is_replay,
            more_extra: p.more_extra, custom_file: p.custom_file, files_downloaded: p.files_downloaded,
        }
    }))
}

/// Whether a string-table entry is set aside unread because its text is the
/// one numeral the decoder cannot take.
pub open spec fn entry_text_set_aside(entry: TableEntry) -> bool {
    match entry.text {
        Some(t) => parses_to_u32_max(t@),
        None => false,
    }
}

/// Whether some entry of `s` bears user id `uid`.
pub open spec fn uid_in(s: Seq<Profile>, uid: u16) -> bool {
    exists|i: int| 0 <= i < s.len() && s[i].user_id == uid
}

/// The roster an observation history produces: each identity kept at its
/// user id's first observation, later observations of a seen id ignored.
pub open spec fn roster_after(entries: Seq<Profile>) -> Seq<Profile>
    decreases entries.len(),
{
    if entries.len() == 0 {
        Seq::empty()
    } else {
        let init = roster_after(entries.drop_last());
        if uid_in(init, entries.last().user_id) {
            init
        } else {
            init.push(entries.last())
        }
    }
}

/// The index of the first observation bearing `uid`, or -1 when none does.
pub open spec fn first_seen_index(entries: Seq<Profile>, uid: u16) -> int
    decreases entries.len(),
{
    if entries.len() == 0 {
        -1
    } else {
        let r = first_seen_index(entries.drop_last(), uid);
        if r >= 0 {
            r
        } else if entries.last().user_id == uid {
            entries.len() - 1
        } else {
            -1
        }
    }
}

proof fn lemma_first_seen_index_range(entries: Seq<Profile>, uid: u16)
    ensures
        (first_seen_index(entries, uid) >= 0) == uid_in(entries, uid),
        uid_in(entries, uid) ==> 0 <= first_seen_index(entries, uid) < entries.len()
            && entries[first_seen_index(entries, uid)].user_id == uid,
    decreases entries.len(),
{
    if entries.len() > 0 {
        lemma_first_seen_index_range(entries.drop_last(), uid);
        if uid_in(entries.drop_last(), uid) {
            let i = choose|i: int|
                0 <= i < entries.drop_last().len() && entries.drop_last()[i].user_id == uid;
            assert(entries[i] == entries.drop_last()[i]);
        }
        if entries.last().user_id == uid {
            assert(entries[entries.len() - 1].user_id == uid);
        }
        if uid_in(entries, uid) {
            let i = choose|i: int| 0 <= i < entries.len() && entries[i].user_id == uid;
            if i < entries.len() - 1 {
                assert(entries.drop_last()[i] == entries[i]);
            }
        }
        if first_seen_index(entries.drop_last(), uid) >= 0 {
            assert(entries[first_seen_index(entries, uid)] == entries.drop_last()[first_seen_index(
                entries.drop_last(),
                uid,
            )]);
        }
    }
}

/// Roster first-seen order: for any observation history, the roster holds
/// exactly the user ids observed, one entry per id; each entry is the
/// identity of its id's first observation; and one entry precedes another
/// exactly when its id was first observed earlier.
pub proof fn lemma_roster_first_seen_order(entries: Seq<Profile>)
    ensures
        forall|uid: u16| uid_in(roster_after(entries), uid) == uid_in(entries, uid),
        forall|k: int|
            #![trigger roster_after(entries)[k]]
            0 <= k < roster_after(entries).len() ==> {
                let fi = first_seen_index(entries, roster_after(entries)[k].user_id);
                0 <= fi < entries.len() && roster_after(entries)[k] == entries[fi]
            },
        forall|k1: int, k2: int|
            0 <= k1 < k2 < roster_after(entries).len() ==> first_seen_index(
                entries,
                roster_after(entries)[k1].user_id,
            ) < first_seen_index(entries, roster_after(entries)[k2].user_id),
    decreases entries.len(),
{
    if entries.len() > 0 {
        let e0 = entries.drop_last();
        let last = entries.last();
        lemma_roster_first_seen_order(e0);
        let r0 = roster_after(e0);
        let r = roster_after(entries);
        assert forall|uid: u16| uid_in(r, uid) == uid_in(entries, uid) by {
            if uid_in(entries, uid) {
                let i = choose|i: int| 0 <= i < entries.len() && entries[i].user_id == uid;
                if i < entries.len() - 1 {
                    assert(e0[i] == entries[i]);
                    assert(uid_in(e0, uid));
                } else {
                    assert(uid == last.user_id);
                }
            }
            if uid_in(e0, uid) {
                let i = choose|i: int| 0 <= i < e0.len() && e0[i].user_id == uid;
                assert(entries[i] == e0[i]);
                assert(uid_in(entries, uid));
            }
            if uid_in(r0, uid) {
                let j = choose|j: int| 0 <= j < r0.len() && r0[j].user_id == uid;
                if !uid_in(r0, last.user_id) {
                    assert(r[j] == r0[j]);
                }
                assert(uid_in(r, uid));
            }
            if uid_in(r, uid) {
                let j = choose|j: int| 0 <= j < r.len() && r[j].user_id == uid;
                if j < r0.len() {
                    assert(r[j] == r0[j]);
                    assert(uid_in(r0, uid));
                } else {
                    assert(uid == last.user_id);
                }
            }
            if uid == last.user_id {
                assert(entries[entries.len() - 1].user_id == uid);
                if !uid_in(r0, uid) {
                    assert(r[r.len() - 1].user_id == uid);
                }
            }
        }
        assert forall|k: int|
            #![trigger r[k]]
            0 <= k < r.len() implies {
            let fi = first_seen_index(entries, r[k].user_id);
            0 <= fi < entries.len() && r[k] == entries[fi]
        } by {
            lemma_first_seen_index_range(e0, r[k].user_id);
            lemma_first_seen_index_range(entries, r[k].user_id);
            if k < r0.len() {
                assert(r[k] == r0[k]);
                let fi0 = first_seen_index(e0, r0[k].user_id);
                assert(uid_in(r0, r0[k].user_id));
                assert(uid_in(e0, r0[k].user_id));
                assert(first_seen_index(entries, r[k].user_id) == fi0);
                assert(entries[fi0] == e0[fi0]);
            } else {
                assert(!uid_in(r0, last.user_id));
                assert(r[k] == last);
                assert(!uid_in(e0, last.user_id));
                assert(first_seen_index(entries, last.user_id) == entries.len() - 1);
            }
        }
        assert forall|k1: int, k2: int|
            0 <= k1 < k2 < r.len() implies first_seen_index(entries, r[k1].user_id)
            < first_seen_index(entries, r[k2].user_id) by {
            lemma_first_seen_index_range(e0, r[k1].user_id);
            lemma_first_seen_index_range(entries, r[k1].user_id);
            lemma_first_seen_index_range(e0, r[k2].user_id);
            lemma_first_seen_index_range(entries, r[k2].user_id);
            if k2 < r0.len() {
                assert(r[k1] == r0[k1]);
                assert(r[k2] == r0[k2]);
                assert(uid_in(r0, r0[k1].user_id));
                assert(uid_in(r0, r0[k2].user_id));
                assert(uid_in(e0, r0[k1].user_id));
                assert(uid_in(e0, r0[k2].user_id));
            } else {
                assert(!uid_in(r0, last.user_id));
                assert(r[k1] == r0[k1]);
                assert(r[k2] == last);
                assert(uid_in(r0, r0[k1].user_id));
                assert(uid_in(e0, r0[k1].user_id));
                assert(first_seen_index(entries, r[k1].user_id) == first_seen_index(
                    e0,
                    r[k1].user_id,
                ));
                assert(!uid_in(e0, last.user_id));
                assert(first_seen_index(entries, last.user_id) == entries.len() - 1);
            }
        }
    }
}

/// One observation extends the history: a roster reflecting a history of
/// observations reflects, after `insert`'s step (unchanged on a seen id,
/// appended otherwise), the history extended by that observation.
pub proof fn lemma_insert_extends_history(
    entries: Seq<Profile>,
    p: Profile,
    before: Seq<Profile>,
    after: Seq<Profile>,
)
    requires
        before == roster_after(entries),
        uid_in(before, p.user_id) ==> after == before,
        !uid_in(before, p.user_id) ==> after == before.push(p),
    ensures
        after == roster_after(entries.push(p)),
{
    assert(entries.push(p).drop_last() =~= entries);
    assert(entries.push(p).last() == p);
}

/// The deduplicated player roster, in first-seen order.
pub struct Roster {
    pub roster: Vec<Profile>,
    /// The user ids already observed, mirroring `roster` index by index.
    pub user_ids: Vec<u16>,
}

impl Roster {
    /// Well-formedness: the seen-id list mirrors the roster index by index,
    /// and no user id appears twice.
    pub open spec fn wf(self) -> bool {
        &&& self.user_ids@.len() == self.roster@.len()
        &&& forall|i: int|
            0 <= i < self.roster@.len() ==> self.user_ids@[i] == self.roster@[i].user_id
        &&& forall|i: int, j: int|
            0 <= i < j < self.roster@.len() ==> self.roster@[i].user_id
                != self.roster@[j].user_id
    }

    /// Whether an identity with user id `uid` is already on the roster.
    pub open spec fn id_seen(self, uid: u16) -> bool {
        uid_in(self.roster@, uid)
    }

    pub fn new() -> (r: Roster)
        ensures
            r.wf(),
            r.roster@ == Seq::<Profile>::empty(),
    {
        Roster { roster: Vec::new(), user_ids: Vec::new() }
    }

    /// Roster uniqueness: a well-formed roster holds at most one identity
    /// per user id.
    pub proof fn lemma_roster_uniqueness(self)
        requires
            self.wf(),
        ensures
            forall|i: int, j: int|
                0 <= i < j < self.roster@.len() ==> self.roster@[i].user_id
                    != self.roster@[j].user_id,
    {
    }

    /// Appends a newly observed identity; repeated entries for an
    /// already-seen user id are silently ignored, so the roster stays in
    /// first-seen order.
    pub fn insert(&mut self, p: Profile)
        requires
            old(self).wf(),
        ensures
            final(self).wf(),
            old(self).id_seen(p.user_id) ==> *final(self) == *old(self),
            !old(self).id_seen(p.user_id) ==> final(self).roster@ == old(self).roster@.push(p),
    {
        let mut i: usize = 0;
        while i < self.user_ids.len()
            invariant
                i <= self.user_ids@.len(),
                *self == *old(self),
                old(self).wf(),
                forall|j: int| 0 <= j < i ==> self.user_ids@[j] != p.user_id,
            decreases self.user_ids@.len() - i,
        {
            if self.user_ids[i] == p.user_id {
                proof {
                    assert(self.roster@[i as int].user_id == p.user_id);
                }
                return ;
            }
            i += 1;
        }
        proof {
            assert forall|j: int|
                0 <= j < self.roster@.len() implies self.roster@[j].user_id != p.user_id by {
                assert(self.user_ids@[j] != p.user_id);
            }
        }
        self.user_ids.push(p.user_id);
        self.roster.push(p);
    }

    /// Observes one string-table entry. Entries of tables other than the
    /// player-info table are ignored; an entry whose text is the one
    /// numeral the decoder cannot take is set aside unread; a payload that
    /// cannot be decoded at all is the one reported error; a decoded
    /// payload that does not describe a player is ignored; a well-formed
    /// player identity is appended unless its user id has been seen before.
    pub fn handle_string_entry(&mut self, entry: TableEntry) -> (r: Result<(), DemoError>)
        requires
            old(self).wf(),
        ensures
            final(self).wf(),
            entry.table@ != userinfo_table() ==> r is Ok && *final(self) == *old(self),
            entry.table@ == userinfo_table() && entry_text_set_aside(entry) ==> (r is Ok
                && *final(self) == *old(self)),
            entry.table@ == userinfo_table() && !entry_text_set_aside(entry) ==> {
                let parsed = parsed_userinfo(
                    entry.index,
                    opt_string_view(entry.text),
                    opt_bytes_view(entry.extra),
                );
                &&& (r is Err <==> parsed is None)
                &&& (parsed is None ==> *final(self) == *old(self))
                &&& (parsed matches Some(None) ==> *final(self) == *old(self))
                &&& (parsed matches Some(Some(f)) ==> {
                    &&& (old(self).id_seen(f.user_id) ==> *final(self) == *old(self))
                    &&& (!old(self).id_seen(f.user_id) ==> final(self).roster@ == old(
                        self,
                    ).roster@.push(profile_of(f)))
                })
            },
    {
        if !(entry.table == String::from_str("userinfo")) {
            return Ok(());
        }
        let text: Option<&str> = match &entry.text {
            Some(s) => Some(s.as_str()),
            None => None,
        };
        proof {
            assert(opt_text_view(text) == opt_string_view(entry.text));
        }
        if let Some(t) = text {
            if text_parses_to_u32_max(t) {
                return Ok(());
            }
        }
        match parse_userinfo(entry.index, text, entry.extra) {
            Err(e) => Err(DemoError::StringTableDecode(e)),
            Ok(None) => Ok(()),
            Ok(Some(fields)) => {
                let p = Profile::from_info(fields);
                self.insert(p);
                Ok(())
            },
        }
    }
}

} // verus!
