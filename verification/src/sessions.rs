//! Bookkeeping of recording sessions: identifiers, status, what is stored
//! and in which order sessions are listed.
use vstd::prelude::*;
use crate::text::{
    chars_of, lemma_text_less_asymmetric, lemma_text_less_by_prefix, lemma_text_less_common_prefix,
    lemma_text_less_total, lemma_text_less_transitive,
    less_than, owned, push_char, str_eq, text_less,
};

verus! {

broadcast use vstd::seq_lib::group_to_multiset_ensures;

/// Where a session stands.
#[derive(Clone, Copy, Debug, PartialEq, Eq, Structural)]
pub enum SessionStatus {
    /// Audio saved, transcription in progress.
    Pending,
    /// Transcription succeeded.
    Completed,
    /// Transcription failed.
    Failed,
}

impl Default for SessionStatus {
    fn default() -> (r: Self)
        ensures
            r == SessionStatus::Pending,
    {
        SessionStatus::Pending
    }
}

/// The status a session takes when its transcription ends.
pub fn status_after_transcription(success: bool) -> (r: SessionStatus)
    ensures
        r == if success { SessionStatus::Completed } else { SessionStatus::Failed },
{
    if success {
        SessionStatus::Completed
    } else {
        SessionStatus::Failed
    }
}

/// The transcript text a session shows while its transcription runs.
pub fn pending_transcript() -> (r: String)
    ensures
        r@ == "[Transcription pending...]"@,
{
    owned("[Transcription pending...]")
}

/// The raw (unformatted) transcript worth storing beside `text`: the raw
/// text when there is one and it differs from `text`.
pub fn raw_transcript_to_store(text: &str, raw_text: Option<&str>) -> (r: Option<String>)
    ensures
        match raw_text {
            Some(raw) => if raw@ != text@ {
                r matches Some(s) && s@ == raw@
            } else {
                r is None
            },
            None => r is None,
        },
{
    match raw_text {
        Some(raw) => if str_eq(raw, text) {
            None
        } else {
            Some(owned(raw))
        },
        None => None,
    }
}

/// The file that holds a session's audio.
#[derive(Clone, Copy, Debug, PartialEq, Eq, Structural)]
pub enum AudioFile {
    /// `audio.m4a`, AAC audio converted from the recording.
    M4a,
    /// `audio.wav`, the recording itself.
    Wav,
}

impl AudioFile {
    /// The name of the file inside the session directory.
    pub fn file_name(&self) -> (r: &'static str)
        ensures
            r@ == match *self {
                AudioFile::M4a => "audio.m4a"@,
                AudioFile::Wav => "audio.wav"@,
            },
    {
        match self {
            AudioFile::M4a => "audio.m4a",
            AudioFile::Wav => "audio.wav",
        }
    }
}

/// Which audio file a session is read from: the converted M4A file when it
/// exists, else the WAV file when it exists, else none.
pub fn pick_audio_file(m4a_exists: bool, wav_exists: bool) -> (r: Option<AudioFile>)
    ensures
        r == if m4a_exists {
            Some(AudioFile::M4a)
        } else if wav_exists {
            Some(AudioFile::Wav)
        } else {
            None
        },
{
    if m4a_exists {
        Some(AudioFile::M4a)
    } else if wav_exists {
        Some(AudioFile::Wav)
    } else {
        None
    }
}

/// A lowercase hexadecimal digit.
pub open spec fn is_lower_hex(c: char) -> bool {
    ('0' <= c && c <= '9') || ('a' <= c && c <= 'f')
}

/// `uuid::Uuid::new_v4()` written with `to_string`: a random version-4 UUID
/// in its 36-character hyphenated form, lowercase hex digits with hyphens
/// at positions 8, 13, 18 and 23, the version digit `4` at position 14 and
/// one of `8`, `9`, `a`, `b` (the variant) at position 19. Which UUID comes
/// out is left open: it rests on the system's random source.
#[verifier::external_body]
fn new_uuid_text() -> (s: String)
    ensures
        s@.len() == 36,
        forall|i: int|
            0 <= i < 36 ==> if i == 8 || i == 13 || i == 18 || i == 23 {
                #[trigger] s@[i] == '-'
            } else {
                is_lower_hex(s@[i])
            },
        s@[14] == '4',
        s@[19] == '8' || s@[19] == '9' || s@[19] == 'a' || s@[19] == 'b',
{
    uuid::Uuid::new_v4().to_string()
}

/// A decimal digit.
pub open spec fn is_digit(c: char) -> bool {
    '0' <= c && c <= '9'
}

/// A UTC date label `YYYY-MM-DD_HHMMSS`: month, day, hour, minute and second
/// with two digits each, the year with four digits, or, from the year 10000
/// on, as `+` followed by its digits.
pub open spec fn is_utc_label(s: Seq<char>) -> bool {
    let n = s.len();
    &&& n >= 17
    &&& s[n - 13] == '-'
    &&& s[n - 10] == '-'
    &&& s[n - 7] == '_'
    &&& forall|i: int|
        n - 13 < i < n && i != n - 10 && i != n - 7 ==> is_digit(#[trigger] s[i])
    &&& if n == 17 {
        forall|i: int| 0 <= i < 4 ==> is_digit(#[trigger] s[i])
    } else {
        &&& n >= 19
        &&& s[0] == '+'
        &&& forall|i: int| 1 <= i < n - 13 ==> is_digit(#[trigger] s[i])
    }
}

/// The system clock as whole seconds since 1970-01-01 00:00:00 UTC
/// (`SystemTime::now().duration_since(UNIX_EPOCH)`), or `None` when the
/// clock reads an earlier time. Which time comes out rests on the clock, so
/// nothing is claimed of it.
#[verifier::external_body]
fn seconds_since_epoch() -> Option<u64> {
    match std::time::SystemTime::now().duration_since(std::time::UNIX_EPOCH) {
        Ok(elapsed) => Some(elapsed.as_secs()),
        Err(_) => None,
    }
}

/// What `chrono::DateTime::from_timestamp_secs(secs)`, formatted with
/// `"%Y-%m-%d_%H%M%S"`, gives: the date label of the UTC instant `secs`
/// seconds after 1970, or `None` outside chrono's range of dates.
pub uninterp spec fn utc_label(secs: int) -> Option<Seq<char>>;

/// `chrono::DateTime::from_timestamp_secs(secs)` formatted with `format`,
/// which must be the session label format (chrono's `to_string` panics on a
/// format it cannot write). Its result is named `utc_label`. Of every label
/// it returns, what chrono's formatting shows is claimed: from 1970 on, a
/// year from 1000 to 9999 is written with four digits and a later one as `+`
/// and at least five digits, and the other fields with two digits each.
#[verifier::external_body]
fn utc_label_at(secs: i64, format: &str) -> (r: Option<String>)
    requires
        secs >= 0,
        format@ == "%Y-%m-%d_%H%M%S"@,
    ensures
        r.deep_view() == utc_label(secs as int),
        r matches Some(s) ==> is_utc_label(s@),
{
    match chrono::DateTime::from_timestamp_secs(secs) {
        Some(instant) => Some(instant.format(format).to_string()),
        None => None,
    }
}

/// A session identifier made of a date label, an underscore and the first
/// eight characters of a UUID.
pub fn session_id_from_parts(stamp: &str, uuid: &str) -> (r: String)
    requires
        uuid@.len() >= 8,
    ensures
        r@ == stamp@ + seq!['_'] + uuid@.take(8),
{
    let mut r = owned(stamp);
    push_char(&mut r, '_');
    let u = chars_of(uuid);
    let mut i: usize = 0;
    while i < 8
        invariant
            i <= 8 <= u@.len(),
            u@ == uuid@,
            r@ == stamp@ + seq!['_'] + uuid@.take(i as int),
        decreases 8 - i,
    {
        push_char(&mut r, u[i]);
        assert(uuid@.take(i + 1) =~= uuid@.take(i as int).push(u[i as int]));
        assert(stamp@ + seq!['_'] + uuid@.take(i + 1) =~= (stamp@ + seq!['_'] + uuid@.take(i as int)).push(u[i as int]));
        i = i + 1;
    }
    r
}

/// A session identifier: a UTC date label, an underscore and eight
/// lowercase hex digits.
pub open spec fn is_session_id(s: Seq<char>) -> bool {
    &&& s.len() >= 26
    &&& is_utc_label(s.take(s.len() - 9))
    &&& s[s.len() - 9] == '_'
    &&& forall|k: int| s.len() - 8 <= k < s.len() ==> is_lower_hex(#[trigger] s[k])
}

/// The session identifier for a clock reading and a UUID text: the date
/// label of the instant, an underscore and the first eight characters of
/// the UUID; `None` when there is no reading (a clock before 1970), when the
/// reading does not fit an `i64`, or when chrono has no date for it.
pub open spec fn session_id_for(since_epoch: Option<u64>, uuid: Seq<char>) -> Option<Seq<char>> {
    match since_epoch {
        None => None,
        Some(t) => if t > i64::MAX {
            None
        } else {
            match utc_label(t as int) {
                None => None,
                Some(label) => Some(label + seq!['_'] + uuid.take(8)),
            }
        },
    }
}

/// The session identifier for the clock reading `since_epoch` (whole
/// seconds since 1970) and the UUID text `uuid`.
pub fn session_id_at(since_epoch: Option<u64>, uuid: &str) -> (r: Option<String>)
    requires
        uuid@.len() >= 8,
    ensures
        r.deep_view() == session_id_for(since_epoch, uuid@),
        r matches Some(s) ==> s@.len() >= 26 && is_utc_label(s@.take(s@.len() - 9)),
{
    match since_epoch {
        None => None,
        Some(t) => {
            if t > i64::MAX as u64 {
                None
            } else {
                match utc_label_at(t as i64, "%Y-%m-%d_%H%M%S") {
                    None => None,
                    Some(label) => {
                        let id = session_id_from_parts(label.as_str(), uuid);
                        assert(id@.take(id@.len() - 9) =~= label@);
                        Some(id)
                    },
                }
            }
        },
    }
}

/// A fresh session identifier: the current UTC date and time
/// (`YYYY-MM-DD_HHMMSS`), an underscore and the first eight hex digits of a
/// random UUID; `None` when the clock gives no date (it reads a time before
/// 1970, or one past chrono's range).
pub fn generate_session_id() -> (r: Option<String>)
    ensures
        r matches Some(s) ==> is_session_id(s@),
{
    let uuid = new_uuid_text();
    let r = session_id_at(seconds_since_epoch(), uuid.as_str());
    proof {
        if r is Some {
            let s = r.unwrap()@;
            let label = s.take(s.len() - 9);
            assert(s =~= label + seq!['_'] + uuid@.take(8));
            assert forall|k: int| s.len() - 8 <= k < s.len() implies is_lower_hex(#[trigger] s[k]) by {
                let m = k - (s.len() - 8);
                assert(s[k] == uuid@.take(8)[m]);
                assert(uuid@.take(8)[m] == uuid@[m]);
            }
        }
    }
    r
}

/// Of two session identifiers whose date labels differ and have the same
/// length, the one with the greater label is the greater identifier: the
/// random tail never decides their order.
pub proof fn lemma_session_ids_order_by_label(a: Seq<char>, b: Seq<char>)
    requires
        is_session_id(a),
        is_session_id(b),
        a.len() == b.len(),
        a.take(a.len() - 9) != b.take(b.len() - 9),
    ensures
        text_less(a, b) == text_less(a.take(a.len() - 9), b.take(b.len() - 9)),
{
    lemma_text_less_by_prefix(a, b, a.len() - 9);
}

/// The decimal digits of `s` read as one number, other characters skipped:
/// `20240102030405` for `2024-01-02_030405`, so the number a date label
/// writes grows with the date and time.
pub open spec fn digits_number(s: Seq<char>) -> int
    decreases s.len(),
{
    if s.len() == 0 {
        0
    } else if is_digit(s.last()) {
        digits_number(s.drop_last()) * 10 + (s.last() as int - '0' as int)
    } else {
        digits_number(s.drop_last())
    }
}

/// Two texts of one length with their digits at the same places and the
/// same characters everywhere else.
pub open spec fn same_layout(x: Seq<char>, y: Seq<char>) -> bool {
    &&& x.len() == y.len()
    &&& forall|i: int|
        0 <= i < x.len() ==> (is_digit(#[trigger] x[i]) && is_digit(y[i])) || (!is_digit(x[i])
            && x[i] == y[i])
}

proof fn lemma_same_layout_symmetric(x: Seq<char>, y: Seq<char>)
    requires
        same_layout(x, y),
    ensures
        same_layout(y, x),
{
    assert forall|i: int| 0 <= i < y.len() implies (is_digit(#[trigger] y[i]) && is_digit(x[i])) || (
    !is_digit(y[i]) && y[i] == x[i]) by {
        assert(is_digit(x[i]) || x[i] == y[i]);
    }
}

/// Texts of one layout are ordered as the numbers their digits write.
pub proof fn lemma_layout_order(x: Seq<char>, y: Seq<char>)
    requires
        same_layout(x, y),
    ensures
        text_less(x, y) == (digits_number(x) < digits_number(y)),
    decreases x.len(),
{
    let n = x.len();
    if n == 0 {
        assert(x =~= y);
        lemma_text_less_asymmetric(x, x);
    } else {
        let x1 = x.drop_last();
        let y1 = y.drop_last();
        assert(same_layout(x1, y1)) by {
            assert forall|i: int| 0 <= i < x1.len() implies (is_digit(#[trigger] x1[i]) && is_digit(
            y1[i])) || (!is_digit(x1[i]) && x1[i] == y1[i]) by {
                assert(x1[i] == x[i] && y1[i] == y[i]);
            }
        }
        lemma_same_layout_symmetric(x1, y1);
        lemma_layout_order(x1, y1);
        lemma_layout_order(y1, x1);
        let a = x[n - 1];
        let b = y[n - 1];
        assert(x =~= x1 + seq![a]);
        assert(y =~= y1 + seq![b]);
        assert(is_digit(a) && is_digit(b) || a == b);
        if x1 == y1 {
            lemma_text_less_common_prefix(x1, seq![a], seq![b]);
            assert(seq![a].drop_first() =~= seq![b].drop_first());
            lemma_text_less_asymmetric(seq![a].drop_first(), seq![a].drop_first());
        } else {
            assert(x.take(n - 1) =~= x1);
            assert(y.take(n - 1) =~= y1);
            lemma_text_less_by_prefix(x, y, n - 1);
            lemma_text_less_total(x1, y1);
        }
    }
}

/// Two date labels of one length have the same layout.
proof fn lemma_labels_same_layout(a: Seq<char>, b: Seq<char>)
    requires
        is_utc_label(a),
        is_utc_label(b),
        a.len() == b.len(),
    ensures
        same_layout(a, b),
{
    let n = a.len();
    assert forall|i: int| 0 <= i < n implies (is_digit(#[trigger] a[i]) && is_digit(b[i])) || (
    !is_digit(a[i]) && a[i] == b[i]) by {
        if i == 0 && n != 17 {
            assert(a[0] == '+' && b[0] == '+');
        } else if i < n - 13 {
            assert(is_digit(a[i]) && is_digit(b[i]));
        } else if i == n - 13 || i == n - 10 || i == n - 7 {
        } else {
            assert(is_digit(a[i]) && is_digit(b[i]));
        }
    }
}

/// The date label of a session identifier: all but its last nine
/// characters.
pub open spec fn id_label(s: Seq<char>) -> Seq<char> {
    s.take(s.len() - 9)
}

/// In a newest-first list of session identifiers, no session stands before
/// one whose date label writes a later date and time, among identifiers
/// whose labels have one length (all those of the years 1970 to 9999).
pub proof fn lemma_newest_first_is_by_time(ids: Seq<Seq<char>>, i: int, j: int)
    requires
        newest_first(ids),
        0 <= i < j < ids.len(),
        is_session_id(ids[i]),
        is_session_id(ids[j]),
        ids[i].len() == ids[j].len(),
    ensures
        digits_number(id_label(ids[j])) <= digits_number(id_label(ids[i])),
{
    let a = ids[i];
    let b = ids[j];
    assert(!text_less(a, b));
    lemma_labels_same_layout(id_label(a), id_label(b));
    lemma_layout_order(id_label(a), id_label(b));
    if id_label(a) != id_label(b) {
        lemma_session_ids_order_by_label(a, b);
    }
}

/// Sessions listed newest first: no name is followed by a greater one.
/// Identifiers whose date labels have the same length are ordered by their
/// labels (`lemma_session_ids_order_by_label`).
pub open spec fn newest_first(names: Seq<Seq<char>>) -> bool {
    forall|i: int, j: int| 0 <= i < j < names.len() ==> !text_less(#[trigger] names[i], #[trigger] names[j])
}

/// Inserting a name in front of the first name that comes before it keeps
/// the list newest first.
proof fn lemma_insert_keeps_newest_first(s: Seq<Seq<char>>, p: int, x: Seq<char>)
    requires
        newest_first(s),
        0 <= p <= s.len(),
        forall|k: int| 0 <= k < p ==> !text_less(#[trigger] s[k], x),
        p < s.len() ==> text_less(s[p], x),
    ensures
        newest_first(s.insert(p, x)),
{
    let t = s.insert(p, x);
    assert forall|k: int| p <= k < s.len() implies !text_less(x, #[trigger] s[k]) by {
        if k > p {
            lemma_text_less_total(s[k], s[p]);
            if s[k] != s[p] {
                lemma_text_less_asymmetric(s[k], s[p]);
                lemma_text_less_transitive(s[k], s[p], x);
            }
            lemma_text_less_asymmetric(s[k], x);
        } else {
            lemma_text_less_asymmetric(s[k], x);
        }
    }
    assert forall|i: int, j: int| 0 <= i < j < t.len() implies !text_less(#[trigger] t[i], #[trigger] t[j]) by {
        if j < p {
            assert(t[i] == s[i] && t[j] == s[j]);
        } else if j == p {
            assert(t[i] == s[i] && t[j] == x);
        } else if i < p {
            assert(t[i] == s[i] && t[j] == s[j - 1]);
        } else if i == p {
            assert(t[i] == x && t[j] == s[j - 1]);
        } else {
            assert(t[i] == s[i - 1] && t[j] == s[j - 1]);
        }
    }
}

/// The session names ordered newest first (descending by name).
pub fn sort_newest_first(names: &Vec<String>) -> (r: Vec<String>)
    ensures
        r.deep_view().to_multiset() == names.deep_view().to_multiset(),
        newest_first(r.deep_view()),
{
    let ghost all = names.deep_view();
    let mut out: Vec<String> = Vec::new();
    let mut i: usize = 0;
    while i < names.len()
        invariant
            i <= names.len(),
            all == names.deep_view(),
            out.deep_view().to_multiset() == all.take(i as int).to_multiset(),
            newest_first(out.deep_view()),
        decreases names.len() - i,
    {
        let x = names[i].clone();
        let mut p: usize = 0;
        while p < out.len() && !less_than(out[p].as_str(), x.as_str())
            invariant
                p <= out.len(),
                x@ == all[i as int],
                forall|k: int| 0 <= k < p ==> !text_less(#[trigger] out.deep_view()[k], x@),
            decreases out.len() - p,
        {
            p = p + 1;
        }
        let ghost before = out.deep_view();
        proof {
            lemma_insert_keeps_newest_first(before, p as int, x@);
        }
        out.insert(p, x);
        assert(out.deep_view() =~= before.insert(p as int, all[i as int]));
        assert(all.take(i + 1) =~= all.take(i as int).push(all[i as int]));
        i = i + 1;
    }
    assert(all.take(names.len() as int) =~= all);
    out
}

/// Two newest-first orderings of the same names are the same list: the
/// order in which sessions are listed depends only on which sessions exist.
pub proof fn lemma_newest_first_unique(a: Seq<Seq<char>>, b: Seq<Seq<char>>)
    requires
        newest_first(a),
        newest_first(b),
        a.to_multiset() == b.to_multiset(),
    ensures
        a == b,
    decreases a.len(),
{
    broadcast use vstd::seq_lib::group_to_multiset_ensures;
    assert(a.to_multiset().len() == a.len());
    assert(b.to_multiset().len() == b.len());
    if a.len() == 0 {
        assert(b.len() == 0);
        assert(a =~= b);
    } else {
        assert(b.len() == a.len());
        assert(a.contains(a[0]));
        assert(b.to_multiset().count(a[0]) > 0);
        assert(b.contains(a[0]));
        let j = choose|j: int| 0 <= j < b.len() && b[j] == a[0];
        assert(b.contains(b[0]));
        assert(a.to_multiset().count(b[0]) > 0);
        assert(a.contains(b[0]));
        let k = choose|k: int| 0 <= k < a.len() && a[k] == b[0];
        if j > 0 {
            assert(!text_less(b[0], b[j]));
        }
        if k > 0 {
            assert(!text_less(a[0], a[k]));
        }
        lemma_text_less_asymmetric(a[0], a[0]);
        lemma_text_less_total(a[0], b[0]);
        assert(a[0] == b[0]);
        let a1 = a.drop_first();
        let b1 = b.drop_first();
        assert(a.remove(0) =~= a1);
        assert(b.remove(0) =~= b1);
        assert(a1.to_multiset() == b1.to_multiset());
        assert forall|i: int, l: int| 0 <= i < l < a1.len() implies !text_less(#[trigger] a1[i], #[trigger] a1[l]) by {
            assert(a1[i] == a[i + 1] && a1[l] == a[l + 1]);
        }
        assert forall|i: int, l: int| 0 <= i < l < b1.len() implies !text_less(#[trigger] b1[i], #[trigger] b1[l]) by {
            assert(b1[i] == b[i + 1] && b1[l] == b[l + 1]);
        }
        lemma_newest_first_unique(a1, b1);
        assert forall|i: int| 0 <= i < a.len() implies a[i] == b[i] by {
            if i > 0 {
                assert(a[i] == a1[i - 1] && b[i] == b1[i - 1]);
            }
        }
        assert(a =~= b);
    }
}

/// Where the page that skips `offset` items starts in a list of `len`.
pub open spec fn page_start(len: int, offset: int) -> int {
    if offset < len { offset } else { len }
}

/// Where the page of at most `limit` items after `offset` ends.
pub open spec fn page_end(len: int, limit: int, offset: int) -> int {
    let start = page_start(len, offset);
    if start + limit < len { start + limit } else { len }
}

/// The items left after skipping `offset` of them and keeping at most
/// `limit`.
pub fn page<T>(items: Vec<T>, limit: usize, offset: usize) -> (r: Vec<T>)
    ensures
        r@ == items@.subrange(
            page_start(items@.len() as int, offset as int),
            page_end(items@.len() as int, limit as int, offset as int),
        ),
{
    let mut items = items;
    let n = items.len();
    let start = if offset < n { offset } else { n };
    let mut rest = items.split_off(start);
    rest.truncate(limit);
    rest
}

/// Consecutive pages join up: the page of `first` items after `offset`
/// followed by the page of `second` items after that is the page of
/// `first + second` items after `offset`.
pub proof fn lemma_pages_join<T>(items: Seq<T>, first: nat, second: nat, offset: nat)
    ensures
        ({
            let n = items.len() as int;
            let (f, s, o) = (first as int, second as int, offset as int);
            items.subrange(page_start(n, o), page_end(n, f, o)) + items.subrange(
                page_start(n, o + f),
                page_end(n, s, o + f),
            ) == items.subrange(page_start(n, o), page_end(n, f + s, o))
        }),
{
    let n = items.len() as int;
    let (f, s, o) = (first as int, second as int, offset as int);
    assert(page_start(n, o + f) == page_end(n, f, o));
    assert(items.subrange(page_start(n, o), page_end(n, f, o)) + items.subrange(
        page_start(n, o + f),
        page_end(n, s, o + f),
    ) =~= items.subrange(page_start(n, o), page_end(n, f + s, o)));
}

} // verus!
